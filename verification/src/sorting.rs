//! A stable sort of keyed entries, and the search in a sorted list.

use vstd::prelude::*;

verus! {

/// Whether the keys never fall.
pub open spec fn sorted_by_key<T>(s: Seq<(u64, T)>) -> bool {
    forall|i: int, j: int| 0 <= i <= j < s.len() ==> (#[trigger] s[i]).0 <= (#[trigger] s[j]).0
}

/// The entries of `s` with the key `k`, in their order.
pub open spec fn with_key<T>(s: Seq<(u64, T)>, k: u64) -> Seq<(u64, T)> {
    s.filter(|e: (u64, T)| e.0 == k)
}

/// Whether `out` is `input` in the order of the keys, entries of equal keys keeping their order.
pub open spec fn stable_sort_of<T>(out: Seq<(u64, T)>, input: Seq<(u64, T)>) -> bool {
    &&& sorted_by_key(out)
    &&& out.len() == input.len()
    &&& forall|k: u64| #[trigger] with_key(out, k) == with_key(input, k)
}

/// The entries of a key in two lists, one after the other.
pub proof fn lemma_with_key_concat<T>(a: Seq<(u64, T)>, b: Seq<(u64, T)>, k: u64)
    ensures
        with_key(a + b, k) == with_key(a, k) + with_key(b, k),
{
    Seq::filter_distributes_over_add(a, b, |e: (u64, T)| e.0 == k);
}

/// The entries of a key in a list of one entry.
pub proof fn lemma_with_key_single<T>(e: (u64, T), k: u64)
    ensures
        with_key(seq![e], k) == (if e.0 == k {
            seq![e]
        } else {
            Seq::<(u64, T)>::empty()
        }),
{
    reveal(Seq::filter);
    let s = seq![e];
    assert(s.drop_last() =~= Seq::<(u64, T)>::empty());
    assert(with_key(s.drop_last(), k) =~= Seq::<(u64, T)>::empty());
    assert(s.last() == e);
    if e.0 == k {
        assert(with_key(s, k) =~= seq![e]);
    }
}

/// A key that no entry has.
pub proof fn lemma_with_key_empty<T>(s: Seq<(u64, T)>, k: u64)
    requires
        forall|i: int| 0 <= i < s.len() ==> (#[trigger] s[i]).0 != k,
    ensures
        with_key(s, k) == Seq::<(u64, T)>::empty(),
    decreases s.len(),
{
    reveal(Seq::filter);
    if s.len() > 0 {
        assert(s.last() == s[s.len() - 1]);
        assert forall|i: int| 0 <= i < s.drop_last().len() implies (
        #[trigger] s.drop_last()[i]).0 != k by {
            assert(s[i].0 != k);
        }
        lemma_with_key_empty(s.drop_last(), k);
    }
    assert(with_key(s, k) =~= Seq::<(u64, T)>::empty());
}

/// An entry is in a list exactly when it is among those with its key.
pub proof fn lemma_with_key_contains<T>(s: Seq<(u64, T)>, e: (u64, T))
    ensures
        s.contains(e) <==> with_key(s, e.0).contains(e),
{
    let p = |x: (u64, T)| x.0 == e.0;
    if s.contains(e) {
        let i = choose|i: int| 0 <= i < s.len() && s[i] == e;
        s.lemma_filter_contains(p, i);
    }
    if with_key(s, e.0).contains(e) {
        s.lemma_filter_contains_rev(p, e);
    }
}

/// Sorting neither adds nor drops an entry.
pub proof fn law_sort_keeps_entries<T>(out: Seq<(u64, T)>, input: Seq<(u64, T)>, e: (u64, T))
    requires
        stable_sort_of(out, input),
    ensures
        out.contains(e) <==> input.contains(e),
{
    lemma_with_key_contains(out, e);
    lemma_with_key_contains(input, e);
    assert(with_key(out, e.0) == with_key(input, e.0));
}

/// A list has one stable sort.
pub proof fn law_sort_unique<T>(a: Seq<(u64, T)>, b: Seq<(u64, T)>)
    requires
        sorted_by_key(a),
        sorted_by_key(b),
        a.len() == b.len(),
        forall|k: u64| #[trigger] with_key(a, k) == with_key(b, k),
    ensures
        a == b,
    decreases a.len(),
{
    if a.len() > 0 {
        let x = a[0];
        let y = b[0];
        assert(a.contains(x));
        lemma_with_key_contains(a, x);
        assert(with_key(a, x.0) == with_key(b, x.0));
        lemma_with_key_contains(b, x);
        let i = choose|i: int| 0 <= i < b.len() && b[i] == x;
        assert(b[0].0 <= b[i].0);
        assert(b.contains(y));
        lemma_with_key_contains(b, y);
        assert(with_key(a, y.0) == with_key(b, y.0));
        lemma_with_key_contains(a, y);
        let j = choose|j: int| 0 <= j < a.len() && a[j] == y;
        assert(a[0].0 <= a[j].0);
        let ra = a.skip(1);
        let rb = b.skip(1);
        assert(a =~= seq![x] + ra);
        assert(b =~= seq![y] + rb);
        lemma_with_key_concat(seq![x], ra, x.0);
        lemma_with_key_concat(seq![y], rb, x.0);
        lemma_with_key_single(x, x.0);
        lemma_with_key_single(y, x.0);
        assert(with_key(a, x.0)[0] == x);
        assert(with_key(b, x.0)[0] == y);
        assert forall|k: u64| #[trigger] with_key(ra, k) == with_key(rb, k) by {
            lemma_with_key_concat(seq![x], ra, k);
            lemma_with_key_concat(seq![y], rb, k);
            lemma_with_key_single(x, k);
            assert(with_key(a, k) == with_key(b, k));
            let head = with_key(seq![x], k);
            assert(with_key(ra, k) =~= with_key(a, k).skip(head.len() as int));
            assert(with_key(rb, k) =~= with_key(b, k).skip(head.len() as int));
        }
        law_sort_unique(ra, rb);
    } else {
        assert(a =~= b);
    }
}

/// `v` from its end to its start.
pub fn reversed<T>(v: Vec<T>) -> (r: Vec<T>)
    ensures
        r@ == v@.reverse(),
{
    let mut v = v;
    let ghost whole = v@;
    let mut out: Vec<T> = Vec::new();
    while v.len() > 0
        invariant
            v@.len() + out@.len() == whole.len(),
            v@ == whole.take(v@.len() as int),
            forall|i: int| 0 <= i < out@.len() ==> out@[i] == whole[whole.len() - 1 - i],
        decreases v.len(),
    {
        let ghost before = v@;
        match v.pop() {
            Some(x) => {
                assert(x == whole[before.len() - 1]);
                out.push(x);
            },
            None => {},
        }
    }
    assert(out@ =~= whole.reverse());
    out
}

/// Merges two sorted lists; of equal keys, the entries of `a` come first.
fn merge<T>(a: Vec<(u64, T)>, b: Vec<(u64, T)>) -> (r: Vec<(u64, T)>)
    requires
        sorted_by_key(a@),
        sorted_by_key(b@),
    ensures
        sorted_by_key(r@),
        r@.len() == a@.len() + b@.len(),
        forall|k: u64| #[trigger] with_key(r@, k) == with_key(a@, k) + with_key(b@, k),
{
    let mut a = a;
    let mut b = b;
    let ghost a0 = a@;
    let ghost b0 = b@;
    let mut back: Vec<(u64, T)> = Vec::new();
    let ghost mut done: Seq<(u64, T)> = Seq::empty();
    assert forall|k: u64| #[trigger]
        with_key(a@, k) + with_key(b@, k) + with_key(done, k) == with_key(a0, k) + with_key(
        b0,
        k,
    ) by {
        lemma_with_key_empty(done, k);
        assert(with_key(a@, k) + with_key(b@, k) + with_key(done, k) =~= with_key(a0, k) + with_key(
            b0,
            k,
        ));
    }
    while a.len() > 0 || b.len() > 0
        invariant
            sorted_by_key(a@),
            sorted_by_key(b@),
            sorted_by_key(done),
            back@ == done.reverse(),
            a@.len() + b@.len() + done.len() == a0.len() + b0.len(),
            forall|i: int, j: int|
                0 <= i < a@.len() && 0 <= j < done.len() ==> (#[trigger] a@[i]).0 <= (
                #[trigger] done[j]).0,
            forall|i: int, j: int|
                0 <= i < b@.len() && 0 <= j < done.len() ==> (#[trigger] b@[i]).0 <= (
                #[trigger] done[j]).0,
            forall|k: u64| #[trigger]
                with_key(a@, k) + with_key(b@, k) + with_key(done, k) == with_key(a0, k) + with_key(
                    b0,
                    k,
                ),
        decreases a.len() + b.len(),
    {
        let ghost a1 = a@;
        let ghost b1 = b@;
        let ghost done1 = done;
        let from_b = if b.len() == 0 {
            false
        } else if a.len() == 0 {
            true
        } else {
            a[a.len() - 1].0 <= b[b.len() - 1].0
        };
        if from_b {
            match b.pop() {
                Some(x) => {
                    proof {
                        done = seq![x] + done1;
                        assert(b1 =~= b@ + seq![x]);
                        assert(done.reverse() =~= done1.reverse().push(x));
                        assert forall|k: u64| #[trigger]
                            with_key(a@, k) + with_key(b@, k) + with_key(done, k) == with_key(a0, k)
                            + with_key(b0, k) by {
                            lemma_with_key_concat(b@, seq![x], k);
                            lemma_with_key_concat(seq![x], done1, k);
                            assert(with_key(a@, k) + with_key(b@, k) + with_key(done, k)
                                =~= with_key(a1, k) + with_key(b1, k) + with_key(done1, k));
                        }
                        assert forall|i: int, j: int|
                            0 <= i < a@.len() && 0 <= j < done.len() implies (#[trigger] a@[i]).0
                            <= (#[trigger] done[j]).0 by {
                            assert(a1[i].0 <= a1[a1.len() - 1].0);
                            if j > 0 {
                                assert(done[j] == done1[j - 1]);
                            }
                        }
                        assert forall|i: int, j: int|
                            0 <= i < b@.len() && 0 <= j < done.len() implies (#[trigger] b@[i]).0
                            <= (#[trigger] done[j]).0 by {
                            assert(b1[i].0 <= b1[b1.len() - 1].0);
                            if j > 0 {
                                assert(done[j] == done1[j - 1]);
                            }
                        }
                        assert forall|i: int, j: int| 0 <= i <= j < done.len() implies (
                        #[trigger] done[i]).0 <= (#[trigger] done[j]).0 by {
                            if i > 0 {
                                assert(done[i] == done1[i - 1]);
                            }
                            if j > 0 {
                                assert(done[j] == done1[j - 1]);
                                assert(b1[b1.len() - 1].0 <= done1[j - 1].0);
                            }
                        }
                        assert forall|i: int, j: int| 0 <= i <= j < b@.len() implies (
                        #[trigger] b@[i]).0 <= (#[trigger] b@[j]).0 by {
                            assert(b1[i].0 <= b1[j].0);
                        }
                    }
                    back.push(x);
                },
                None => {},
            }
        } else {
            match a.pop() {
                Some(x) => {
                    proof {
                        done = seq![x] + done1;
                        assert(a1 =~= a@ + seq![x]);
                        assert(done.reverse() =~= done1.reverse().push(x));
                        assert forall|i: int| 0 <= i < b1.len() implies (#[trigger] b1[i]).0
                            < x.0 by {
                            assert(b1[i].0 <= b1[b1.len() - 1].0);
                        }
                        assert forall|k: u64| #[trigger]
                            with_key(a@, k) + with_key(b@, k) + with_key(done, k) == with_key(a0, k)
                            + with_key(b0, k) by {
                            lemma_with_key_concat(a@, seq![x], k);
                            lemma_with_key_concat(seq![x], done1, k);
                            lemma_with_key_single(x, k);
                            if k == x.0 {
                                lemma_with_key_empty(b1, k);
                            }
                            assert(with_key(a@, k) + with_key(b@, k) + with_key(done, k)
                                =~= with_key(a1, k) + with_key(b1, k) + with_key(done1, k));
                        }
                        assert forall|i: int, j: int|
                            0 <= i < a@.len() && 0 <= j < done.len() implies (#[trigger] a@[i]).0
                            <= (#[trigger] done[j]).0 by {
                            assert(a1[i].0 <= a1[a1.len() - 1].0);
                            if j > 0 {
                                assert(done[j] == done1[j - 1]);
                            }
                        }
                        assert forall|i: int, j: int|
                            0 <= i < b@.len() && 0 <= j < done.len() implies (#[trigger] b@[i]).0
                            <= (#[trigger] done[j]).0 by {
                            if j > 0 {
                                assert(done[j] == done1[j - 1]);
                            }
                        }
                        assert forall|i: int, j: int| 0 <= i <= j < done.len() implies (
                        #[trigger] done[i]).0 <= (#[trigger] done[j]).0 by {
                            if i > 0 {
                                assert(done[i] == done1[i - 1]);
                            }
                            if j > 0 {
                                assert(done[j] == done1[j - 1]);
                                assert(a1[a1.len() - 1].0 <= done1[j - 1].0);
                            }
                        }
                        assert forall|i: int, j: int| 0 <= i <= j < a@.len() implies (
                        #[trigger] a@[i]).0 <= (#[trigger] a@[j]).0 by {
                            assert(a1[i].0 <= a1[j].0);
                        }
                    }
                    back.push(x);
                },
                None => {},
            }
        }
    }
    let out = reversed(back);
    proof {
        assert(out@ =~= done);
        assert forall|k: u64| #[trigger] with_key(out@, k) == with_key(a0, k) + with_key(b0, k) by {
            lemma_with_key_empty(a@, k);
            lemma_with_key_empty(b@, k);
            assert(with_key(a@, k) + with_key(b@, k) + with_key(done, k) =~= with_key(done, k));
        }
    }
    out
}

/// Sorts by key; entries of equal keys keep their order.
pub fn stable_sort<T>(v: Vec<(u64, T)>) -> (r: Vec<(u64, T)>)
    ensures
        stable_sort_of(r@, v@),
    decreases v.len(),
{
    let mut v = v;
    let ghost whole = v@;
    let n: usize = v.len();
    if n <= 1 {
        return v;
    }
    let mid: usize = n / 2;
    let right = v.split_off(mid);
    assert(whole =~= v@ + right@);
    let ghost left0 = v@;
    let ghost right0 = right@;
    let a = stable_sort(v);
    let b = stable_sort(right);
    let out = merge(a, b);
    proof {
        assert forall|k: u64| #[trigger] with_key(out@, k) == with_key(whole, k) by {
            lemma_with_key_concat(left0, right0, k);
            assert(with_key(a@, k) == with_key(left0, k));
            assert(with_key(b@, k) == with_key(right0, k));
        }
    }
    out
}

/// The number of entries whose key is at most `k`, in a sorted list.
pub fn count_up_to<T>(v: &Vec<(u64, T)>, k: u64) -> (r: usize)
    requires
        sorted_by_key(v@),
    ensures
        r <= v.len(),
        forall|i: int| 0 <= i < r ==> (#[trigger] v@[i]).0 <= k,
        forall|i: int| r <= i < v.len() ==> (#[trigger] v@[i]).0 > k,
{
    let mut low: usize = 0;
    let mut high: usize = v.len();
    while low < high
        invariant
            low <= high <= v.len(),
            sorted_by_key(v@),
            forall|i: int| 0 <= i < low ==> (#[trigger] v@[i]).0 <= k,
            forall|i: int| high <= i < v.len() ==> (#[trigger] v@[i]).0 > k,
        decreases high - low,
    {
        let mid: usize = low + (high - low) / 2;
        if v[mid].0 <= k {
            assert forall|i: int| 0 <= i < mid + 1 implies (#[trigger] v@[i]).0 <= k by {
                assert(v@[i].0 <= v@[mid as int].0);
            }
            low = mid + 1;
        } else {
            assert forall|i: int| mid <= i < v.len() implies (#[trigger] v@[i]).0 > k by {
                assert(v@[mid as int].0 <= v@[i].0);
            }
            high = mid;
        }
    }
    low
}

} // verus!
