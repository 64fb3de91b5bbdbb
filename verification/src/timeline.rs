//! Entries of threads, each thread's in the order of time.

use std::collections::HashMap;
use vstd::prelude::*;

use crate::sorting::sorted_by_key;
use crate::sorting::stable_sort;
use crate::sorting::stable_sort_of;

verus! {

/// One number for a (PID, TID) pair.
pub open spec fn thread_key(pid: u32, tid: u32) -> u64 {
    (pid * 0x1_0000_0000 + tid) as u64
}

/// Different pairs have different numbers.
pub proof fn law_thread_keys_differ(p: u32, t: u32, q: u32, u: u32)
    ensures
        thread_key(p, t) == thread_key(q, u) <==> p == q && t == u,
{
}

/// The number of a (PID, TID) pair.
pub fn key_of_thread(pid: u32, tid: u32) -> (r: u64)
    ensures
        r == thread_key(pid, tid),
{
    pid as u64 * 0x1_0000_0000 + tid as u64
}

/// The entries that `items` holds for the thread `key`, in their order.
pub open spec fn of_thread<T>(items: Seq<(u64, (u64, T))>, key: u64) -> Seq<(u64, T)>
    decreases items.len(),
{
    if items.len() == 0 {
        Seq::<(u64, T)>::empty()
    } else {
        let before = of_thread(items.drop_last(), key);
        if items.last().0 == key {
            before.push(items.last().1)
        } else {
            before
        }
    }
}

/// For each thread, its entries with their timestamps.
#[derive(Debug)]
pub struct Timelines<T> {
    by_thread: HashMap<u64, Vec<(u64, T)>>,
}

/// The list that a map holds for `key`, empty where it holds none.
spec fn listed<T>(m: Map<u64, Vec<(u64, T)>>, key: u64) -> Seq<(u64, T)> {
    if m.contains_key(key) {
        m[key]@
    } else {
        Seq::<(u64, T)>::empty()
    }
}

impl<T> Timelines<T> {
    /// The entries of the thread `key`, in the order of their timestamps.
    pub closed spec fn at(self, key: u64) -> Seq<(u64, T)> {
        listed(self.by_thread@, key)
    }

    /// Whether each thread's entries stand in the order of time.
    pub open spec fn ordered(self) -> bool {
        forall|key: u64| #[trigger] sorted_by_key(self.at(key))
    }

    /// No entries at all.
    pub fn new() -> (r: Self)
        ensures
            r.ordered(),
            forall|key: u64| #[trigger] r.at(key) == Seq::<(u64, T)>::empty(),
    {
        Timelines { by_thread: HashMap::new() }
    }

    /// The entries of the thread `key`, if it has any.
    pub fn get(&self, key: u64) -> (r: Option<&Vec<(u64, T)>>)
        ensures
            match r {
                Some(v) => v@ == self.at(key),
                None => self.at(key).len() == 0,
            },
    {
        self.by_thread.get(&key)
    }
}

impl<T: Copy> Timelines<T> {
    /// The timelines of the entries `items`, each with the thread it belongs to. Entries of
    /// one thread with equal timestamps keep their order.
    pub fn build(items: &Vec<(u64, (u64, T))>) -> (r: Self)
        ensures
            r.ordered(),
            forall|key: u64| stable_sort_of(#[trigger] r.at(key), of_thread(items@, key)),
    {
        let mut map: HashMap<u64, Vec<(u64, T)>> = HashMap::new();
        let mut keys: Vec<u64> = Vec::new();
        let mut i: usize = 0;
        while i < items.len()
            invariant
                i <= items.len(),
                forall|key: u64| #[trigger]
                    listed(map@, key) == of_thread(items@.take(i as int), key),
                forall|key: u64| #[trigger] map@.contains_key(key) <==> keys@.contains(key),
                keys@.no_duplicates(),
            decreases items.len() - i,
        {
            let (key, entry) = items[i];
            let ghost map1 = map@;
            let ghost keys1 = keys@;
            let ghost upto = items@.take(i + 1);
            assert(upto.drop_last() =~= items@.take(i as int));
            if !map.contains_key(&key) {
                keys.push(key);
                assert forall|k: u64| #[trigger] keys@.contains(k) <==> keys1.contains(k) || k
                    == key by {
                    if keys1.contains(k) {
                        let j = choose|j: int| 0 <= j < keys1.len() && keys1[j] == k;
                        assert(keys@[j] == k);
                    }
                    if k == key {
                        assert(keys@[keys1.len() as int] == k);
                    }
                }
            }
            map.entry(key).or_insert(Vec::new()).push(entry);
            assert forall|k: u64| #[trigger] listed(map@, k) == of_thread(upto, k) by {
                assert(listed(map1, k) == of_thread(items@.take(i as int), k));
            }
            assert forall|k: u64| #[trigger] map@.contains_key(k) <==> keys@.contains(k) by {
                assert(map1.contains_key(k) <==> keys1.contains(k));
            }
            i += 1;
        }
        assert(items@.take(items.len() as int) =~= items@);
        let ghost grouped = map@;
        let mut j: usize = 0;
        while j < keys.len()
            invariant
                j <= keys.len(),
                keys@.no_duplicates(),
                forall|key: u64| #[trigger] map@.contains_key(key) <==> keys@.contains(key),
                forall|key: u64| #[trigger] grouped.contains_key(key) <==> keys@.contains(key),
                forall|n: int|
                    0 <= n < j ==> stable_sort_of(
                        listed(map@, #[trigger] keys@[n]),
                        listed(grouped, keys@[n]),
                    ),
                forall|n: int|
                    j <= n < keys@.len() ==> listed(map@, #[trigger] keys@[n]) == listed(
                        grouped,
                        keys@[n],
                    ),
            decreases keys.len() - j,
        {
            let key = keys[j];
            let ghost map1 = map@;
            assert(keys@.contains(key));
            match map.remove(&key) {
                Some(list) => {
                    let done = stable_sort(list);
                    map.insert(key, done);
                },
                None => {},
            }
            assert forall|n: int| 0 <= n < j + 1 implies stable_sort_of(
                listed(map@, #[trigger] keys@[n]),
                listed(grouped, keys@[n]),
            ) by {
                if n < j {
                    assert(keys@[n] != key);
                    assert(listed(map@, keys@[n]) == listed(map1, keys@[n]));
                }
            }
            assert forall|n: int| j + 1 <= n < keys@.len() implies listed(
                map@,
                #[trigger] keys@[n],
            ) == listed(grouped, keys@[n]) by {
                assert(keys@[n] != key);
                assert(listed(map@, keys@[n]) == listed(map1, keys@[n]));
            }
            j += 1;
        }
        let r = Timelines { by_thread: map };
        proof {
            assert forall|key: u64| stable_sort_of(#[trigger] r.at(key), of_thread(items@, key)) by {
                assert(listed(grouped, key) == of_thread(items@, key));
                if keys@.contains(key) {
                    let n = choose|n: int| 0 <= n < keys@.len() && keys@[n] == key;
                    assert(stable_sort_of(listed(map@, keys@[n]), listed(grouped, keys@[n])));
                } else {
                    assert(!map@.contains_key(key));
                    assert(!grouped.contains_key(key));
                }
            }
            assert forall|key: u64| #[trigger] sorted_by_key(r.at(key)) by {
                assert(stable_sort_of(r.at(key), of_thread(items@, key)));
            }
        }
        r
    }
}

} // verus!
