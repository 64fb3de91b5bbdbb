//! Text primitives: characters, splitting, trimming and ordering.

use vstd::prelude::*;
use vstd::string::*;

verus! {

/// `String::push`: appends one character.
pub assume_specification[ String::push ](s: &mut String, c: char)
    ensures
        final(s)@ == old(s)@.push(c),
;

/// The characters of `s`, in order.
pub fn chars_of(s: &str) -> (v: Vec<char>)
    ensures
        v@ == s@,
{
    let mut v: Vec<char> = Vec::new();
    for c in iter: s.chars()
        invariant
            v@ == iter.seq().take(iter.index() as int),
            iter.seq() == s@,
    {
        v.push(c);
    }
    v
}

/// The text that the characters `from..to` of `v` make.
pub fn string_of(v: &Vec<char>, from: usize, to: usize) -> (s: String)
    requires
        from <= to <= v.len(),
    ensures
        s@ == v@.subrange(from as int, to as int),
{
    let mut s = String::new();
    let mut i: usize = from;
    while i < to
        invariant
            from <= i <= to <= v.len(),
            s@ == v@.subrange(from as int, i as int),
        decreases to - i,
    {
        s.push(v[i]);
        i += 1;
    }
    s
}

/// Whether two texts are equal.
pub fn same_text(a: &str, b: &str) -> (r: bool)
    ensures
        r == (a@ == b@),
{
    a.to_owned() == b.to_owned()
}

/// The texts of a list.
pub open spec fn texts(v: Seq<String>) -> Seq<Seq<char>> {
    v.map_values(|s: String| s@)
}

// ---------------------------------------------------------------------------
// Splitting
// ---------------------------------------------------------------------------

/// The pieces of `s` between the separators `sep`: one more than there are separators.
pub open spec fn split(s: Seq<char>, sep: char) -> Seq<Seq<char>>
    decreases s.len(),
{
    if s.len() == 0 {
        seq![Seq::<char>::empty()]
    } else {
        let before = split(s.drop_last(), sep);
        if s.last() == sep {
            before.push(Seq::<char>::empty())
        } else {
            before.drop_last().push(before.last().push(s.last()))
        }
    }
}

/// The pieces of `s` between the separators `sep`.
pub fn split_text(s: &str, sep: char) -> (r: Vec<String>)
    ensures
        texts(r@) == split(s@, sep),
{
    let v = chars_of(s);
    let mut parts: Vec<String> = Vec::new();
    let mut current = String::new();
    let mut i: usize = 0;
    assert(v@.take(0) =~= Seq::<char>::empty());
    assert(texts(parts@).push(current@) =~= split(v@.take(0), sep));
    while i < v.len()
        invariant
            i <= v.len(),
            texts(parts@).push(current@) == split(v@.take(i as int), sep),
        decreases v.len() - i,
    {
        let ghost before = split(v@.take(i as int), sep);
        let ghost upto = v@.take(i + 1);
        assert(upto.drop_last() =~= v@.take(i as int));
        assert(before.drop_last() =~= texts(parts@));
        let c = v[i];
        if c == sep {
            let ghost closed = texts(parts@).push(current@);
            parts.push(current);
            assert(texts(parts@) =~= closed);
            current = String::new();
        } else {
            current.push(c);
        }
        assert(texts(parts@).push(current@) =~= split(upto, sep));
        i += 1;
    }
    assert(v@.take(v.len() as int) =~= v@);
    let ghost closed = texts(parts@).push(current@);
    parts.push(current);
    assert(texts(parts@) =~= closed);
    parts
}

/// `line` without the carriage return at its end, if it has one.
pub open spec fn strip_return(line: Seq<char>) -> Seq<char> {
    if line.len() > 0 && line.last() == '\r' {
        line.drop_last()
    } else {
        line
    }
}

/// The lines of `s`. A line ends in a newline, or in a carriage return and a newline; the
/// end of the last line may be missing.
pub open spec fn lines(s: Seq<char>) -> Seq<Seq<char>> {
    let pieces = split(s, '\n');
    let ended = pieces.drop_last().map_values(|p: Seq<char>| strip_return(p));
    if pieces.last().len() == 0 {
        ended
    } else {
        ended.push(pieces.last())
    }
}

/// A text always has a piece, even where it is empty.
pub proof fn lemma_split_nonempty(s: Seq<char>, sep: char)
    ensures
        split(s, sep).len() > 0,
    decreases s.len(),
{
    if s.len() > 0 {
        lemma_split_nonempty(s.drop_last(), sep);
    }
}

/// A text without separators lengthens the last piece.
pub proof fn lemma_split_append(a: Seq<char>, b: Seq<char>, sep: char)
    requires
        forall|i: int| 0 <= i < b.len() ==> b[i] != sep,
    ensures
        split(a + b, sep) == split(a, sep).drop_last().push(split(a, sep).last() + b),
    decreases b.len(),
{
    lemma_split_nonempty(a, sep);
    let whole = split(a, sep);
    if b.len() == 0 {
        assert(a + b =~= a);
        assert(whole.last() + b =~= whole.last());
        assert(whole =~= whole.drop_last().push(whole.last()));
    } else {
        let c = b.drop_last();
        lemma_split_append(a, c, sep);
        assert((a + b).drop_last() =~= a + c);
        assert((a + b).last() == b.last());
        let before = split(a + c, sep);
        assert(before.drop_last() =~= whole.drop_last());
        assert(before.last() == whole.last() + c);
        assert((whole.last() + c).push(b.last()) =~= whole.last() + b);
        assert(split(a + b, sep) =~= whole.drop_last().push(whole.last() + b));
    }
}

/// A separator closes the last piece.
pub proof fn lemma_split_separator(a: Seq<char>, sep: char)
    ensures
        split(a.push(sep), sep) == split(a, sep).push(Seq::<char>::empty()),
{
    assert(a.push(sep).drop_last() =~= a);
}

/// The lines of `s`.
pub fn lines_of(s: &str) -> (r: Vec<String>)
    ensures
        texts(r@) == lines(s@),
{
    let pieces = split_text(s, '\n');
    proof {
        lemma_split_nonempty(s@, '\n');
    }
    let ghost whole = split(s@, '\n');
    let ghost ended = whole.drop_last().map_values(|p: Seq<char>| strip_return(p));
    assert(whole.len() == pieces.len());
    let count: usize = pieces.len() - 1;
    let mut out: Vec<String> = Vec::new();
    let mut i: usize = 0;
    while i < count
        invariant
            i <= count,
            count + 1 == pieces.len(),
            whole == texts(pieces@),
            ended == whole.drop_last().map_values(|p: Seq<char>| strip_return(p)),
            texts(out@) == ended.take(i as int),
        decreases count - i,
    {
        let v = chars_of(pieces[i].as_str());
        assert(v@ == whole[i as int]);
        let end: usize = if v.len() > 0 && v[v.len() - 1] == '\r' {
            v.len() - 1
        } else {
            v.len()
        };
        let line = string_of(&v, 0, end);
        assert(line@ =~= strip_return(v@));
        assert(ended[i as int] == line@);
        let ghost grown = texts(out@).push(line@);
        out.push(line);
        assert(texts(out@) =~= grown);
        assert(grown =~= ended.take(i + 1));
        i += 1;
    }
    assert(ended.take(count as int) =~= ended);
    let last = chars_of(pieces[count].as_str());
    assert(last@ == whole.last());
    if last.len() > 0 {
        out.push(string_of(&last, 0, last.len()));
        assert(last@.subrange(0, last.len() as int) =~= last@);
        assert(texts(out@) =~= ended.push(whole.last()));
    }
    out
}

// ---------------------------------------------------------------------------
// Blanks
// ---------------------------------------------------------------------------

/// The characters with the Unicode property `White_Space`.
pub open spec fn white_space(c: char) -> bool {
    ||| 0x9 <= c as u32 <= 0xd
    ||| c as u32 == 0x20
    ||| c as u32 == 0x85
    ||| c as u32 == 0xa0
    ||| c as u32 == 0x1680
    ||| 0x2000 <= c as u32 <= 0x200a
    ||| c as u32 == 0x2028
    ||| c as u32 == 0x2029
    ||| c as u32 == 0x202f
    ||| c as u32 == 0x205f
    ||| c as u32 == 0x3000
}

/// Whether `c` has the Unicode property `White_Space`.
pub fn is_white_space(c: char) -> (r: bool)
    ensures
        r == white_space(c),
{
    let u: u32 = c as u32;
    (0x9 <= u && u <= 0xd) || u == 0x20 || u == 0x85 || u == 0xa0 || u == 0x1680 || (0x2000 <= u
        && u <= 0x200a) || u == 0x2028 || u == 0x2029 || u == 0x202f || u == 0x205f || u == 0x3000
}

/// `s` without the characters at its start that meet `p`.
pub open spec fn trim_start(s: Seq<char>, p: spec_fn(char) -> bool) -> Seq<char>
    decreases s.len(),
{
    if s.len() > 0 && p(s[0]) {
        trim_start(s.skip(1), p)
    } else {
        s
    }
}

/// `s` without the characters at its end that meet `p`.
pub open spec fn trim_end(s: Seq<char>, p: spec_fn(char) -> bool) -> Seq<char>
    decreases s.len(),
{
    if s.len() > 0 && p(s.last()) {
        trim_end(s.drop_last(), p)
    } else {
        s
    }
}

/// `s` without the white space at both ends.
pub open spec fn trim(s: Seq<char>) -> Seq<char> {
    trim_end(trim_start(s, |c: char| white_space(c)), |c: char| white_space(c))
}

/// `s` without the double quotes at both ends.
pub open spec fn unquote(s: Seq<char>) -> Seq<char> {
    trim_end(trim_start(s, |c: char| c == '"'), |c: char| c == '"')
}

/// `s` without the white space at both ends.
pub fn trim_text(s: &str) -> (r: String)
    ensures
        r@ == trim(s@),
{
    let v = chars_of(s);
    let ghost p = |c: char| white_space(c);
    let mut from: usize = 0;
    assert(v@.skip(0) =~= v@);
    while from < v.len() && is_white_space(v[from])
        invariant
            from <= v.len(),
            p == |c: char| white_space(c),
            trim_start(v@, p) == trim_start(v@.skip(from as int), p),
        decreases v.len() - from,
    {
        assert(v@.skip(from as int).skip(1) =~= v@.skip(from + 1));
        assert(p(v@.skip(from as int)[0]));
        from += 1;
    }
    let ghost t = v@.skip(from as int);
    assert(trim_start(v@, p) == t);
    let mut to: usize = v.len();
    assert(v@.subrange(from as int, to as int) =~= t);
    while to > from && is_white_space(v[to - 1])
        invariant
            from <= to <= v.len(),
            p == |c: char| white_space(c),
            trim_end(t, p) == trim_end(v@.subrange(from as int, to as int), p),
        decreases to,
    {
        let ghost cut = v@.subrange(from as int, to as int);
        assert(cut.drop_last() =~= v@.subrange(from as int, to - 1));
        assert(p(cut.last()));
        to -= 1;
    }
    string_of(&v, from, to)
}

/// `s` without the double quotes at both ends.
pub fn unquote_text(s: &str) -> (r: String)
    ensures
        r@ == unquote(s@),
{
    let v = chars_of(s);
    let ghost p = |c: char| c == '"';
    let mut from: usize = 0;
    assert(v@.skip(0) =~= v@);
    while from < v.len() && v[from] == '"'
        invariant
            from <= v.len(),
            p == |c: char| c == '"',
            trim_start(v@, p) == trim_start(v@.skip(from as int), p),
        decreases v.len() - from,
    {
        assert(v@.skip(from as int).skip(1) =~= v@.skip(from + 1));
        assert(p(v@.skip(from as int)[0]));
        from += 1;
    }
    let ghost t = v@.skip(from as int);
    assert(trim_start(v@, p) == t);
    let mut to: usize = v.len();
    assert(v@.subrange(from as int, to as int) =~= t);
    while to > from && v[to - 1] == '"'
        invariant
            from <= to <= v.len(),
            p == |c: char| c == '"',
            trim_end(t, p) == trim_end(v@.subrange(from as int, to as int), p),
        decreases to,
    {
        let ghost cut = v@.subrange(from as int, to as int);
        assert(cut.drop_last() =~= v@.subrange(from as int, to - 1));
        assert(p(cut.last()));
        to -= 1;
    }
    string_of(&v, from, to)
}

/// The words of `s`: its longest pieces without white space.
pub open spec fn words(s: Seq<char>) -> Seq<Seq<char>>
    decreases s.len(),
{
    if s.len() == 0 {
        Seq::<Seq<char>>::empty()
    } else {
        let before = words(s.drop_last());
        let c = s.last();
        if white_space(c) {
            before
        } else if s.len() == 1 || white_space(s[s.len() - 2]) {
            before.push(seq![c])
        } else {
            before.drop_last().push(before.last().push(c))
        }
    }
}

/// The words of `s`.
pub fn words_of(s: &str) -> (r: Vec<String>)
    ensures
        texts(r@) == words(s@),
{
    let v = chars_of(s);
    let mut out: Vec<String> = Vec::new();
    let mut current = String::new();
    let mut open = false;
    let mut i: usize = 0;
    assert(texts(out@) =~= words(v@.take(0)));
    while i < v.len()
        invariant
            i <= v.len(),
            open == (i > 0 && !white_space(v@[i - 1])),
            open ==> texts(out@).push(current@) == words(v@.take(i as int)),
            !open ==> texts(out@) == words(v@.take(i as int)) && current@.len() == 0,
        decreases v.len() - i,
    {
        let ghost upto = v@.take(i + 1);
        let ghost before = words(v@.take(i as int));
        assert(upto.drop_last() =~= v@.take(i as int));
        let c = v[i];
        if is_white_space(c) {
            if open {
                out.push(current);
                assert(texts(out@) =~= before);
                current = String::new();
                open = false;
            }
        } else {
            let ghost prior = current@;
            current.push(c);
            if open {
                assert(before.drop_last() =~= texts(out@));
                assert(before.last() == prior);
            } else {
                assert(current@ =~= seq![c]);
            }
            open = true;
            assert(texts(out@).push(current@) =~= words(upto));
        }
        i += 1;
    }
    assert(v@.take(v.len() as int) =~= v@);
    if open {
        let ghost closed = texts(out@).push(current@);
        out.push(current);
        assert(texts(out@) =~= closed);
    }
    out
}

// ---------------------------------------------------------------------------
// Prefixes and order
// ---------------------------------------------------------------------------

/// Whether `s` begins with `p`.
pub open spec fn begins_with(s: Seq<char>, p: Seq<char>) -> bool {
    p.len() <= s.len() && s.take(p.len() as int) == p
}

/// Whether `s` begins with `p`.
pub fn starts_with(s: &str, p: &str) -> (r: bool)
    ensures
        r == begins_with(s@, p@),
{
    let v = chars_of(s);
    let w = chars_of(p);
    if w.len() > v.len() {
        return false;
    }
    let mut i: usize = 0;
    while i < w.len()
        invariant
            i <= w.len() <= v.len(),
            v@ == s@,
            w@ == p@,
            forall|j: int| 0 <= j < i ==> v@[j] == w@[j],
        decreases w.len() - i,
    {
        if v[i] != w[i] {
            assert(v@.take(w.len() as int)[i as int] != w@[i as int]);
            return false;
        }
        i += 1;
    }
    assert(v@.take(w.len() as int) =~= w@);
    true
}

/// Whether `a` comes before `b`: character by character, by code point; a prefix comes first.
pub open spec fn text_before(a: Seq<char>, b: Seq<char>) -> bool
    decreases a.len(),
{
    if b.len() == 0 {
        false
    } else if a.len() == 0 {
        true
    } else if a[0] == b[0] {
        text_before(a.skip(1), b.skip(1))
    } else {
        a[0] < b[0]
    }
}

/// Whether `a` comes before `b`.
pub fn comes_before(a: &str, b: &str) -> (r: bool)
    ensures
        r == text_before(a@, b@),
{
    let v = chars_of(a);
    let w = chars_of(b);
    let mut i: usize = 0;
    assert(v@.skip(0) =~= v@);
    assert(w@.skip(0) =~= w@);
    while i < v.len() && i < w.len()
        invariant
            i <= v.len(),
            i <= w.len(),
            v@ == a@,
            w@ == b@,
            text_before(v@, w@) == text_before(v@.skip(i as int), w@.skip(i as int)),
        decreases v.len() - i,
    {
        assert(v@.skip(i as int).skip(1) =~= v@.skip(i + 1));
        assert(w@.skip(i as int).skip(1) =~= w@.skip(i + 1));
        if v[i] != w[i] {
            return v[i] < w[i];
        }
        i += 1;
    }
    i < w.len()
}

/// The order of texts is total.
pub proof fn lemma_text_order_total(a: Seq<char>, b: Seq<char>)
    ensures
        text_before(a, b) || text_before(b, a) || a == b,
        !(text_before(a, b) && text_before(b, a)),
        a == b ==> !text_before(a, b),
    decreases a.len(),
{
    if a.len() > 0 && b.len() > 0 {
        if a[0] == b[0] {
            lemma_text_order_total(a.skip(1), b.skip(1));
            if a.skip(1) == b.skip(1) {
                assert(a =~= seq![a[0]] + a.skip(1));
                assert(b =~= seq![b[0]] + b.skip(1));
            }
        }
    } else if a.len() == 0 && b.len() == 0 {
        assert(a =~= b);
    }
}

/// The order of texts is transitive.
pub proof fn lemma_text_order_transitive(a: Seq<char>, b: Seq<char>, c: Seq<char>)
    requires
        text_before(a, b),
        text_before(b, c),
    ensures
        text_before(a, c),
    decreases a.len(),
{
    if a.len() > 0 && b.len() > 0 && c.len() > 0 {
        if a[0] == b[0] && b[0] == c[0] {
            lemma_text_order_transitive(a.skip(1), b.skip(1), c.skip(1));
        }
    }
}

} // verus!
