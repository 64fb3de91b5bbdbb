//! What splitting, trimming and ordering do to texts.

use vstd::prelude::*;

use crate::text::begins_with;
use crate::text::lemma_split_append;
use crate::text::lemma_split_nonempty;
use crate::text::lemma_split_separator;
use crate::text::lines;
use crate::text::split;
use crate::text::strip_return;
use crate::text::text_before;
use crate::text::texts;
use crate::text::trim;
use crate::text::trim_end;
use crate::text::trim_start;
use crate::text::unquote;
use crate::text::white_space;
use crate::text::words;

verus! {

/// The texts of a list are those of its strings, one for one.
pub proof fn law_texts_of_strings(v: Seq<String>)
    ensures
        texts(v).len() == v.len(),
        forall|i: int| 0 <= i < v.len() ==> #[trigger] texts(v)[i] == v[i]@,
{
}

// ---------------------------------------------------------------------------
// Splitting
// ---------------------------------------------------------------------------

/// A text without separators is one piece.
pub proof fn law_split_one_piece(s: Seq<char>, sep: char)
    requires
        forall|i: int| 0 <= i < s.len() ==> s[i] != sep,
    ensures
        split(s, sep) == seq![s],
{
    let none = Seq::<char>::empty();
    lemma_split_append(none, s, sep);
    assert(none + s =~= s);
    assert(split(none, sep) =~= seq![none]);
    assert(split(s, sep) =~= seq![s]);
}

/// The pieces of two texts with a separator between them are the pieces of the first and then
/// those of the second.
pub proof fn law_split_at_separator(a: Seq<char>, b: Seq<char>, sep: char)
    ensures
        split(a.push(sep) + b, sep) == split(a, sep) + split(b, sep),
    decreases b.len(),
{
    lemma_split_nonempty(a, sep);
    lemma_split_nonempty(b, sep);
    let whole = a.push(sep) + b;
    if b.len() == 0 {
        assert(whole =~= a.push(sep));
        lemma_split_separator(a, sep);
        assert(split(b, sep) =~= seq![Seq::<char>::empty()]);
        assert(split(whole, sep) =~= split(a, sep) + split(b, sep));
    } else {
        let c = b.drop_last();
        law_split_at_separator(a, c, sep);
        lemma_split_nonempty(c, sep);
        assert(whole.drop_last() =~= a.push(sep) + c);
        assert(whole.last() == b.last());
        let before = split(a, sep) + split(c, sep);
        assert(before.drop_last() =~= split(a, sep) + split(c, sep).drop_last());
        assert(before.last() == split(c, sep).last());
        assert(split(whole, sep) =~= split(a, sep) + split(b, sep));
    }
}

/// An empty text has no lines.
pub proof fn law_no_lines()
    ensures
        lines(Seq::<char>::empty()).len() == 0,
{
    let none = Seq::<char>::empty();
    assert(split(none, '\n') =~= seq![none]);
}

/// A text that holds something, and no newline, is one line as it is.
pub proof fn law_one_line(s: Seq<char>)
    requires
        s.len() > 0,
        forall|i: int| 0 <= i < s.len() ==> s[i] != '\n',
    ensures
        lines(s) == seq![s],
{
    law_split_one_piece(s, '\n');
    assert(seq![s].drop_last() =~= Seq::<Seq<char>>::empty());
    assert(lines(s) =~= seq![s]);
}

/// A newline ends a line; a carriage return before it belongs to the end. What follows has its own
/// lines.
pub proof fn law_line_ends_at_newline(line: Seq<char>, rest: Seq<char>)
    requires
        forall|i: int| 0 <= i < line.len() ==> line[i] != '\n',
    ensures
        lines(line.push('\n') + rest) == seq![
            if line.len() > 0 && line[line.len() - 1] == '\r' {
                line.take(line.len() - 1)
            } else {
                line
            },
        ] + lines(rest),
{
    law_split_one_piece(line, '\n');
    law_split_at_separator(line, rest, '\n');
    lemma_split_nonempty(rest, '\n');
    let pieces = seq![line] + split(rest, '\n');
    let tail = split(rest, '\n');
    assert(pieces.drop_last() =~= seq![line] + tail.drop_last());
    assert(pieces.last() == tail.last());
    let f = |p: Seq<char>| strip_return(p);
    assert(pieces.drop_last().map_values(f) =~= seq![strip_return(line)]
        + tail.drop_last().map_values(f));
    assert(line.len() > 0 ==> line.take(line.len() - 1) =~= line.drop_last());
    assert(lines(line.push('\n') + rest) =~= seq![strip_return(line)] + lines(rest));
}

// ---------------------------------------------------------------------------
// White space
// ---------------------------------------------------------------------------

/// White space is the tabulator, the line and page breaks up to the carriage return, the space,
/// the next line, and the spaces and separators of Unicode.
pub proof fn law_white_space(c: char)
    ensures
        white_space(c) <==> {
            ||| c == '\t' || c == '\n' || c == '\u{b}' || c == '\u{c}' || c == '\r' || c == ' '
            ||| c == '\u{85}' || c == '\u{a0}' || c == '\u{1680}'
            ||| '\u{2000}' <= c <= '\u{200a}'
            ||| c == '\u{2028}' || c == '\u{2029}' || c == '\u{202f}' || c == '\u{205f}'
            ||| c == '\u{3000}'
        },
{
}

proof fn lemma_trim_start(a: Seq<char>, m: Seq<char>, p: spec_fn(char) -> bool)
    requires
        forall|i: int| 0 <= i < a.len() ==> p(#[trigger] a[i]),
        m.len() > 0 ==> !p(m[0]),
    ensures
        trim_start(a + m, p) == m,
    decreases a.len(),
{
    let whole = a + m;
    if a.len() == 0 {
        assert(whole =~= m);
    } else {
        assert(whole[0] == a[0]);
        assert(whole.skip(1) =~= a.skip(1) + m);
        assert forall|i: int| 0 <= i < a.skip(1).len() implies p(#[trigger] a.skip(1)[i]) by {
            assert(a.skip(1)[i] == a[i + 1]);
        }
        lemma_trim_start(a.skip(1), m, p);
    }
}

proof fn lemma_trim_end(m: Seq<char>, b: Seq<char>, p: spec_fn(char) -> bool)
    requires
        forall|i: int| 0 <= i < b.len() ==> p(#[trigger] b[i]),
        m.len() > 0 ==> !p(m[m.len() - 1]),
    ensures
        trim_end(m + b, p) == m,
    decreases b.len(),
{
    let whole = m + b;
    if b.len() == 0 {
        assert(whole =~= m);
    } else {
        assert(whole.last() == b[b.len() - 1]);
        assert(whole.drop_last() =~= m + b.drop_last());
        assert forall|i: int| 0 <= i < b.drop_last().len() implies p(
            #[trigger] b.drop_last()[i],
        ) by {
            assert(b.drop_last()[i] == b[i]);
        }
        lemma_trim_end(m, b.drop_last(), p);
    }
}

/// Trimming takes the white space from both ends, and nothing else.
pub proof fn law_trim_takes_ends(a: Seq<char>, m: Seq<char>, b: Seq<char>)
    requires
        forall|i: int| 0 <= i < a.len() ==> white_space(#[trigger] a[i]),
        forall|i: int| 0 <= i < b.len() ==> white_space(#[trigger] b[i]),
        m.len() > 0,
        !white_space(m[0]),
        !white_space(m[m.len() - 1]),
    ensures
        trim(a + m + b) == m,
{
    let p = |c: char| white_space(c);
    assert(a + m + b =~= a + (m + b));
    assert((m + b)[0] == m[0]);
    lemma_trim_start(a, m + b, p);
    lemma_trim_end(m, b, p);
}

/// Of a text that is all white space nothing is left.
pub proof fn law_trim_blank(s: Seq<char>)
    requires
        forall|i: int| 0 <= i < s.len() ==> white_space(#[trigger] s[i]),
    ensures
        trim(s).len() == 0,
{
    let p = |c: char| white_space(c);
    let none = Seq::<char>::empty();
    assert(s + none =~= s);
    lemma_trim_start(s, none, p);
}

/// Unquoting takes the double quotes from both ends, and nothing else.
pub proof fn law_unquote_takes_ends(a: Seq<char>, m: Seq<char>, b: Seq<char>)
    requires
        forall|i: int| 0 <= i < a.len() ==> #[trigger] a[i] == '"',
        forall|i: int| 0 <= i < b.len() ==> #[trigger] b[i] == '"',
        m.len() > 0,
        m[0] != '"',
        m[m.len() - 1] != '"',
    ensures
        unquote(a + m + b) == m,
{
    let p = |c: char| c == '"';
    assert(a + m + b =~= a + (m + b));
    assert((m + b)[0] == m[0]);
    lemma_trim_start(a, m + b, p);
    lemma_trim_end(m, b, p);
}

/// Of a text that is all double quotes nothing is left.
pub proof fn law_unquote_quotes(s: Seq<char>)
    requires
        forall|i: int| 0 <= i < s.len() ==> #[trigger] s[i] == '"',
    ensures
        unquote(s).len() == 0,
{
    let p = |c: char| c == '"';
    let none = Seq::<char>::empty();
    assert(s + none =~= s);
    lemma_trim_start(s, none, p);
}

/// A text that holds something, and no white space, is one word.
pub proof fn law_one_word(s: Seq<char>)
    requires
        s.len() > 0,
        forall|i: int| 0 <= i < s.len() ==> !white_space(#[trigger] s[i]),
    ensures
        words(s) == seq![s],
    decreases s.len(),
{
    let c = s[s.len() - 1];
    assert(!white_space(c));
    if s.len() == 1 {
        assert(words(s.drop_last()).len() == 0);
        assert(seq![c] =~= s);
        assert(words(s) =~= seq![s]);
    } else {
        let t = s.drop_last();
        assert forall|i: int| 0 <= i < t.len() implies !white_space(#[trigger] t[i]) by {
            assert(t[i] == s[i]);
        }
        law_one_word(t);
        assert(!white_space(s[s.len() - 2]));
        assert(seq![t].drop_last() =~= Seq::<Seq<char>>::empty());
        assert(t.push(c) =~= s);
        assert(words(s) =~= seq![s]);
    }
}

/// White space parts words: the words of two texts with white space between them are those of the
/// first and then those of the second. An empty text has none.
pub proof fn law_words_at_white_space(a: Seq<char>, w: char, b: Seq<char>)
    requires
        white_space(w),
    ensures
        words(a.push(w) + b) == words(a) + words(b),
        words(Seq::<char>::empty()).len() == 0,
    decreases b.len(),
{
    let whole = a.push(w) + b;
    if b.len() == 0 {
        assert(whole =~= a.push(w));
        assert(whole.drop_last() =~= a);
        assert(whole.last() == w);
        assert(words(whole) =~= words(a) + words(b));
    } else {
        let t = b.drop_last();
        let c = b.last();
        law_words_at_white_space(a, w, t);
        assert(whole.drop_last() =~= a.push(w) + t);
        assert(whole.last() == c);
        let n = whole.len() as int;
        if b.len() == 1 {
            assert(whole[n - 2] == w);
        } else {
            assert(whole[n - 2] == b[b.len() - 2]);
        }
        if !white_space(c) && b.len() > 1 && !white_space(b[b.len() - 2]) {
            lemma_word_at_end(t);
            assert((words(a) + words(t)).drop_last() =~= words(a) + words(t).drop_last());
        }
        assert(words(whole) =~= words(a) + words(b));
    }
}

proof fn lemma_word_at_end(s: Seq<char>)
    requires
        s.len() > 0,
        !white_space(s[s.len() - 1]),
    ensures
        words(s).len() > 0,
    decreases s.len(),
{
}

// ---------------------------------------------------------------------------
// Prefixes and order
// ---------------------------------------------------------------------------

/// A text begins with another exactly when it is the other with something behind it.
pub proof fn law_begins_with(s: Seq<char>, p: Seq<char>, rest: Seq<char>)
    ensures
        begins_with(p + rest, p),
        begins_with(s, p) ==> s == p + s.skip(p.len() as int),
{
    assert((p + rest).take(p.len() as int) =~= p);
    if begins_with(s, p) {
        assert(s =~= s.take(p.len() as int) + s.skip(p.len() as int));
    }
}

/// Texts stand in the order of their first different characters.
pub proof fn law_first_difference_orders(
    p: Seq<char>,
    x: char,
    y: char,
    u: Seq<char>,
    v: Seq<char>,
)
    requires
        x != y,
    ensures
        text_before(p + seq![x] + u, p + seq![y] + v) <==> x < y,
    decreases p.len(),
{
    let a = p + seq![x] + u;
    let b = p + seq![y] + v;
    if p.len() == 0 {
        assert(a[0] == x && b[0] == y);
    } else {
        assert(a[0] == p[0] && b[0] == p[0]);
        assert(a.skip(1) =~= p.skip(1) + seq![x] + u);
        assert(b.skip(1) =~= p.skip(1) + seq![y] + v);
        law_first_difference_orders(p.skip(1), x, y, u, v);
    }
}

/// A text stands before every longer text that begins with it, and not before itself.
pub proof fn law_prefix_comes_first(a: Seq<char>, rest: Seq<char>)
    ensures
        text_before(a, a + rest) <==> rest.len() > 0,
        !text_before(a + rest, a),
    decreases a.len(),
{
    let b = a + rest;
    if a.len() > 0 {
        assert(b[0] == a[0]);
        assert(b.skip(1) =~= a.skip(1) + rest);
        law_prefix_comes_first(a.skip(1), rest);
    }
}

} // verus!
