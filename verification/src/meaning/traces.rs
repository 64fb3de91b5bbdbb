//! What the events of traces are.

use vstd::arithmetic::power::pow;
use vstd::prelude::*;
use vstd::string::*;

use crate::collection::all_readings;
use crate::collection::by_time;
use crate::collection::filled;
use crate::collection::first_occurrences;
use crate::collection::law_first_occurrences;
use crate::collection::model_times;
use crate::collection::models;
use crate::collection::owner_of;
use crate::collection::reading;
use crate::collection::thread_of;
use crate::collection::Reading;
use crate::collection::Trace;
use crate::error::CauspanError;
use crate::error::StraceParseSource;
use crate::event::argument_places;
use crate::event::optional_text;
use crate::event::slice_texts;
use crate::event::KernelEvent;
use crate::event::KernelEventModel;
use crate::event::KernelEventType;
use crate::meaning::texts::law_one_word;
use crate::meaning::texts::law_split_at_separator;
use crate::meaning::texts::law_split_one_piece;
use crate::meaning::texts::law_trim_takes_ends;
use crate::meaning::texts::law_unquote_takes_ends;
use crate::meaning::texts::law_words_at_white_space;
use crate::number::decimal;
use crate::number::law_decimal_round_trip;
use crate::number::lemma_decimal_digits;
use crate::number::signed_value;
use crate::number::unsigned_value;
use crate::number::NumberError;
use crate::sorting::sorted_by_key;
use crate::sorting::stable_sort_of;
use crate::sorting::with_key;
use crate::strace::arguments;
use crate::strace::event_of_name;
use crate::strace::first_place;
use crate::strace::group_texts;
use crate::strace::line_fits;
use crate::strace::line_groups;
use crate::strace::line_says;
use crate::strace::named_process;
use crate::strace::regex_groups;
use crate::strace::return_value_of;
use crate::strace::slice_text;
use crate::strace::spec_process;
use crate::strace::ten_to;
use crate::strace::tgid_of_line;
use crate::strace::tgid_of_lines;
use crate::strace::tid_of_name;
use crate::strace::timestamp_fits;
use crate::strace::timestamp_value;
use crate::strace::ParsedLine;
use crate::text::begins_with;
use crate::text::lemma_split_nonempty;
use crate::text::lines;
use crate::text::split;
use crate::text::trim;
use crate::text::unquote;
use crate::text::white_space;
use crate::text::words;

verus! {

// ---------------------------------------------------------------------------
// Views
// ---------------------------------------------------------------------------

/// What an event says are all of its fields, the six arguments in their places.
pub proof fn law_event_says_its_fields(e: KernelEvent)
    ensures
        e@.pid == e.pid,
        e@.tid == e.tid,
        e@.timestamp_ns == e.timestamp_ns,
        e@.event_type == e.event_type,
        e@.return_value == e.return_value,
        e@.args == e.args@,
        e.args@.len() == 6,
        e.args@[0] == optional_text(e.args.arg0),
        e.args@[1] == optional_text(e.args.arg1),
        e.args@[2] == optional_text(e.args.arg2),
        e.args@[3] == optional_text(e.args.arg3),
        e.args@[4] == optional_text(e.args.arg4),
        e.args@[5] == optional_text(e.args.arg5),
{
}

/// What optional texts say is their characters.
pub proof fn law_optional_texts(t: String)
    ensures
        optional_text(Some(t)) == Some(t@),
        optional_text(None) is None,
{
}

/// What slices and lists of texts say, one for one.
pub proof fn law_slices_say_their_characters(
    t: &str,
    args: Seq<&str>,
    groups: Seq<Option<String>>,
    i: int,
)
    ensures
        slice_text(Some(t)) == Some(t@),
        slice_text(None) is None,
        slice_texts(args).len() == args.len(),
        0 <= i < args.len() ==> slice_texts(args)[i] == args[i]@,
        group_texts(groups).len() == groups.len(),
        0 <= i < groups.len() ==> group_texts(groups)[i] == optional_text(groups[i]),
{
}

/// What events say, one for one.
pub proof fn law_events_say_their_fields(events: Seq<KernelEvent>)
    ensures
        models(events).len() == events.len(),
        forall|i: int| 0 <= i < events.len() ==> #[trigger] models(events)[i] == events[i]@,
{
}

/// Arguments fill the six places from the left; a place without an argument is empty.
pub proof fn law_arguments_fill_places(args: Seq<Seq<char>>, i: int)
    requires
        0 <= i < 6,
    ensures
        argument_places(args).len() == 6,
        i < args.len() ==> argument_places(args)[i] == Some(args[i]),
        i >= args.len() ==> argument_places(args)[i] is None,
{
}

// ---------------------------------------------------------------------------
// Timestamps
// ---------------------------------------------------------------------------

proof fn lemma_first_place(a: Seq<char>, b: Seq<char>, c: char)
    requires
        forall|i: int| 0 <= i < a.len() ==> a[i] != c,
    ensures
        first_place(a.push(c) + b, c) == a.len(),
        first_place(a, c) == a.len(),
    decreases a.len(),
{
    let whole = a.push(c) + b;
    if a.len() == 0 {
        assert(whole[0] == c);
    } else {
        assert(whole[0] == a[0]);
        assert(whole.skip(1) =~= a.skip(1).push(c) + b);
        lemma_first_place(a.skip(1), b, c);
    }
}

proof fn lemma_ten_to(n: nat)
    ensures
        ten_to(n) == pow(10, n),
    decreases n,
{
    reveal(pow);
    if n > 0 {
        lemma_ten_to((n - 1) as nat);
    }
}

/// A timestamp is a number of seconds, a point, and up to nine digits of their fraction: it stands
/// for the seconds times a billion, and the fraction filled up to nine digits. It fits exactly when
/// that is a number of 64 bits.
pub proof fn law_timestamp_is_seconds(whole: Seq<char>, part: Seq<char>, secs: nat, frac: nat)
    requires
        forall|i: int| 0 <= i < whole.len() ==> whole[i] != '.',
        unsigned_value(whole, u64::MAX as nat) == Ok::<nat, NumberError>(secs),
        unsigned_value(part, u64::MAX as nat) == Ok::<nat, NumberError>(frac),
    ensures
        part.len() <= 9 ==> timestamp_value(whole.push('.') + part) == Ok::<nat, CauspanError>(
            (secs * 1_000_000_000 + frac * pow(10, (9 - part.len()) as nat)) as nat,
        ),
        timestamp_fits(whole.push('.') + part) <==> part.len() <= 9 && secs * 1_000_000_000 + frac
            * pow(10, (9 - part.len()) as nat) <= u64::MAX,
        timestamp_value(whole.push('.') + part) is Ok,
{
    let s = whole.push('.') + part;
    lemma_first_place(whole, part, '.');
    assert(s.take(whole.len() as int) =~= whole);
    let dot: int = whole.len() as int;
    assert(s.skip(dot + 1) =~= part);
    if part.len() <= 9 {
        lemma_ten_to((9 - part.len()) as nat);
    }
}

/// A text without a point, or with something else than numbers around its first point, is no
/// timestamp; the error says which, and that no line is known. Of such a text it is not asked that
/// it fits.
pub proof fn law_timestamp_errors(whole: Seq<char>, part: Seq<char>)
    requires
        forall|i: int| 0 <= i < whole.len() ==> whole[i] != '.',
    ensures
        timestamp_value(whole) == Err::<nat, CauspanError>(
            CauspanError::StraceParse { line: 0, source: StraceParseSource::MissingDecimalPoint },
        ),
        timestamp_fits(whole),
        unsigned_value(whole, u64::MAX as nat) matches Err(e) ==> timestamp_value(
            whole.push('.') + part,
        ) == Err::<nat, CauspanError>(
            CauspanError::StraceParse { line: 0, source: StraceParseSource::Number(e) },
        ) && timestamp_fits(whole.push('.') + part),
        unsigned_value(whole, u64::MAX as nat) is Ok ==> (unsigned_value(
            part,
            u64::MAX as nat,
        ) matches Err(e) ==> timestamp_value(whole.push('.') + part) == Err::<nat, CauspanError>(
            CauspanError::StraceParse { line: 0, source: StraceParseSource::Number(e) },
        ) && timestamp_fits(whole.push('.') + part)),
{
    let s = whole.push('.') + part;
    lemma_first_place(whole, part, '.');
    assert(s.take(whole.len() as int) =~= whole);
    let dot: int = whole.len() as int;
    assert(s.skip(dot + 1) =~= part);
}

// ---------------------------------------------------------------------------
// Syscalls
// ---------------------------------------------------------------------------

/// Each type of event has one name of a syscall; every other name is unknown.
pub proof fn law_names_of_syscalls(name: Seq<char>)
    ensures
        event_of_name(name) is Openat <==> name == "openat"@,
        event_of_name(name) is Read <==> name == "read"@,
        event_of_name(name) is Write <==> name == "write"@,
        event_of_name(name) is Socket <==> name == "socket"@,
        event_of_name(name) is Connect <==> name == "connect"@,
        event_of_name(name) is Clone <==> name == "clone"@,
        event_of_name(name) is Fork <==> name == "fork"@,
        event_of_name(name) is Execve <==> name == "execve"@,
{
    crate::strace::law_type_names_round_trip(KernelEventType::Openat);
    crate::strace::law_type_names_round_trip(KernelEventType::Read);
    crate::strace::law_type_names_round_trip(KernelEventType::Write);
    crate::strace::law_type_names_round_trip(KernelEventType::Socket);
    crate::strace::law_type_names_round_trip(KernelEventType::Connect);
    crate::strace::law_type_names_round_trip(KernelEventType::Clone);
    crate::strace::law_type_names_round_trip(KernelEventType::Fork);
    crate::strace::law_type_names_round_trip(KernelEventType::Execve);
}

/// A comma parts arguments: those of two texts with a comma between them are those of the first and
/// then those of the second.
pub proof fn law_arguments_at_commas(a: Seq<char>, b: Seq<char>)
    ensures
        arguments(a.push(',') + b) == arguments(a) + arguments(b),
        arguments(a).len() > 0,
{
    law_split_at_separator(a, b, ',');
    lemma_split_nonempty(a, ',');
    assert(arguments(a.push(',') + b) =~= arguments(a) + arguments(b));
}

/// A text without commas is one argument: what is left of it without the white space around it and
/// then without the double quotes around that.
pub proof fn law_one_argument(
    left: Seq<char>,
    open: Seq<char>,
    m: Seq<char>,
    close: Seq<char>,
    right: Seq<char>,
)
    requires
        forall|i: int| 0 <= i < left.len() ==> white_space(#[trigger] left[i]) && left[i] != ',',
        forall|i: int| 0 <= i < right.len() ==> white_space(#[trigger] right[i]) && right[i] != ',',
        forall|i: int| 0 <= i < open.len() ==> #[trigger] open[i] == '"',
        forall|i: int| 0 <= i < close.len() ==> #[trigger] close[i] == '"',
        m.len() > 0,
        forall|i: int| 0 <= i < m.len() ==> #[trigger] m[i] != ',',
        m[0] != '"',
        m[m.len() - 1] != '"',
        open.len() == 0 ==> !white_space(m[0]),
        close.len() == 0 ==> !white_space(m[m.len() - 1]),
    ensures
        arguments(left + (open + m + close) + right) == seq![m],
{
    let quoted = open + m + close;
    let whole = left + quoted + right;
    assert forall|i: int| 0 <= i < whole.len() implies whole[i] != ',' by {
        if i < left.len() {
            assert(whole[i] == left[i]);
        } else if i < left.len() + quoted.len() {
            let j = i - left.len();
            assert(whole[i] == quoted[j]);
            if j < open.len() {
                assert(quoted[j] == open[j]);
            } else if j < open.len() + m.len() {
                assert(quoted[j] == m[j - open.len()]);
            } else {
                assert(quoted[j] == close[j - open.len() - m.len()]);
            }
        } else {
            assert(whole[i] == right[i - left.len() - quoted.len()]);
        }
    }
    law_split_one_piece(whole, ',');
    if open.len() > 0 {
        assert(quoted[0] == open[0]);
    } else {
        assert(quoted[0] == m[0]);
    }
    if close.len() > 0 {
        assert(quoted[quoted.len() - 1] == close[close.len() - 1]);
    } else {
        assert(quoted[quoted.len() - 1] == m[m.len() - 1]);
    }
    law_trim_takes_ends(left, quoted, right);
    law_unquote_takes_ends(open, m, close);
    assert(arguments(whole) =~= seq![m]);
}

/// Every argument is a piece between commas, trimmed and then unquoted.
pub proof fn law_arguments_are_pieces(s: Seq<char>, i: int)
    requires
        0 <= i < split(s, ',').len(),
    ensures
        arguments(s).len() == split(s, ',').len(),
        arguments(s)[i] == unquote(trim(split(s, ',')[i])),
{
}

/// A return value behind `0x` or `0X` is read in base sixteen, every other in base ten; whatever
/// its sign. What cannot be read is left out.
pub proof fn law_return_values(digits: Seq<char>, s: Seq<char>, n: int)
    ensures
        return_value_of("0x"@ + digits) == Some(n) <==> signed_value(digits, 16) == Ok::<
            int,
            NumberError,
        >(n),
        return_value_of("0X"@ + digits) == Some(n) <==> signed_value(digits, 16) == Ok::<
            int,
            NumberError,
        >(n),
        s.len() < 2 || s[0] != '0' || (s[1] != 'x' && s[1] != 'X') ==> (return_value_of(s) == Some(
            n,
        ) <==> signed_value(s, 10) == Ok::<int, NumberError>(n)),
{
    reveal_strlit("0x");
    reveal_strlit("0X");
    let a = "0x"@ + digits;
    let b = "0X"@ + digits;
    assert(a.take(2) =~= "0x"@);
    assert(b.take(2) =~= "0X"@);
    assert(a.skip(2) =~= digits);
    assert(b.skip(2) =~= digits);
    if begins_with(s, "0x"@) {
        assert(s[0] == s.take(2)[0] && s[1] == s.take(2)[1]);
    }
    if begins_with(s, "0X"@) {
        assert(s[0] == s.take(2)[0] && s[1] == s.take(2)[1]);
    }
}

// ---------------------------------------------------------------------------
// Lines
// ---------------------------------------------------------------------------

/// A line has the form of a syscall exactly when this expression matches it, and its parts are the
/// groups of the timestamp, the name, the arguments and the return value.
pub proof fn law_form_of_lines(line: Seq<char>)
    ensures
        line_groups(line) == regex_groups(
            "^(?P<ts>\\d+\\.\\d+)(?:\\s+(?P<pid_tid>\\d+))?\\s+(?P<name>\\w+)\\((?P<args>[^)]*)\\)(?:\\s+=\\s+(?P<ret>-?\\d+|[a-fx0-9]+))?"@,
            line,
            seq!["ts"@, "name"@, "args"@, "ret"@],
        )->0,
{
}

/// A line of the form of a syscall fits exactly when its timestamp does; every other line fits.
pub proof fn law_lines_fit(line: Seq<char>)
    ensures
        line_groups(line) is None ==> line_fits(line),
        line_groups(line) matches Some(groups) ==> (line_fits(line) <==> timestamp_fits(
            groups[0]->0,
        )),
{
}

/// What is read of a line: nothing where it has not the form of a syscall; an error exactly where
/// its timestamp has one; else its timestamp, type, arguments and return value.
pub proof fn law_line_says_its_parts(r: Result<Option<ParsedLine>, CauspanError>, line: Seq<char>)
    requires
        line_says(r, line),
    ensures
        line_groups(line) is None <==> r == Ok::<Option<ParsedLine>, CauspanError>(None),
        line_groups(line) matches Some(groups) ==> {
            match timestamp_value(groups[0]->0) {
                Err(e) => r == Err::<Option<ParsedLine>, CauspanError>(e),
                Ok(ns) => r matches Ok(Some(p)) && {
                    &&& p.timestamp_ns == ns
                    &&& p.event_type == event_of_name(groups[1]->0)
                    &&& p.args@ == argument_places(arguments(groups[2]->0))
                    &&& groups[3] is None ==> p.return_value is None
                    &&& groups[3] matches Some(ret) ==> match p.return_value {
                        Some(n) => return_value_of(ret) == Some(n as int),
                        None => return_value_of(ret) is None,
                    }
                },
            }
        },
{
}

// ---------------------------------------------------------------------------
// Traces
// ---------------------------------------------------------------------------

/// Where the thread of a trace is known and all its lines can be read, it has one event for each
/// line of the form of a syscall, whatever the return value is: the n-th event is that of the n-th
/// such line.
pub proof fn law_trace_has_event_per_syscall(ls: Seq<String>, tid: u32, pid: u32)
    requires
        forall|i: int|
            0 <= i < ls.len() ==> (line_groups((#[trigger] ls[i])@) matches Some(groups)
                ==> timestamp_fits(groups[0]->0) && timestamp_value(groups[0]->0) is Ok),
    ensures
        reading(ls, Some(tid), pid) matches Reading::Events(events) && {
            let calls = ls.filter(|l: String| line_groups(l@) is Some);
            &&& events.len() == calls.len()
            &&& forall|n: int|
                0 <= n < calls.len() ==> {
                    let groups = line_groups(calls[n]@)->0;
                    &&& (#[trigger] events[n]).pid == pid
                    &&& events[n].tid == tid
                    &&& timestamp_value(groups[0]->0) == Ok::<nat, CauspanError>(
                        events[n].timestamp_ns as nat,
                    )
                    &&& events[n].event_type == event_of_name(groups[1]->0)
                    &&& events[n].args == argument_places(arguments(groups[2]->0))
                    &&& groups[3] is None ==> events[n].return_value is None
                    &&& groups[3] matches Some(ret) ==> match events[n].return_value {
                        Some(v) => return_value_of(ret) == Some(v as int),
                        None => return_value_of(ret) is None,
                    }
                }
        },
    decreases ls.len(),
{
    reveal(Seq::filter);
    if ls.len() > 0 {
        let rest = ls.drop_last();
        assert forall|i: int| 0 <= i < rest.len() implies (line_groups(
            (#[trigger] rest[i])@,
        ) matches Some(groups) ==> timestamp_fits(groups[0]->0) && timestamp_value(groups[0]->0)
            is Ok) by {
            assert(rest[i] == ls[i]);
        }
        law_trace_has_event_per_syscall(rest, tid, pid);
        let line = ls[ls.len() - 1]@;
        assert(line == ls.last()@);
        if line_groups(line) is Some {
            let groups = line_groups(line)->0;
            lemma_timestamp_bounded(groups[0]->0);
            if groups[3] is Some {
                lemma_return_value_bounded(groups[3]->0);
            }
        }
    }
}

proof fn lemma_timestamp_bounded(s: Seq<char>)
    requires
        timestamp_fits(s),
    ensures
        timestamp_value(s) matches Ok(ns) ==> ns <= u64::MAX,
{
}

proof fn lemma_return_value_bounded(s: Seq<char>)
    ensures
        return_value_of(s) matches Some(n) ==> i64::MIN <= n <= i64::MAX,
{
    let t = if crate::strace::hexadecimal(s) {
        s.skip(2)
    } else {
        s
    };
    let radix: nat = if crate::strace::hexadecimal(s) {
        16
    } else {
        10
    };
    if t.len() > 0 {
        lemma_magnitude_bounded(
            t.skip(1),
            0,
            radix,
            0x8000_0000_0000_0000,
            NumberError::NegOverflow,
        );
        lemma_magnitude_bounded(
            t.skip(1),
            0,
            radix,
            0x7fff_ffff_ffff_ffff,
            NumberError::PosOverflow,
        );
        lemma_magnitude_bounded(t, 0, radix, 0x7fff_ffff_ffff_ffff, NumberError::PosOverflow);
    }
}

proof fn lemma_magnitude_bounded(
    s: Seq<char>,
    acc: nat,
    radix: nat,
    limit: nat,
    over: NumberError,
)
    requires
        acc <= limit,
    ensures
        crate::number::magnitude(s, acc, radix, limit, over) matches Ok(n) ==> n <= limit,
    decreases s.len(),
{
    if s.len() > 0 {
        match crate::number::digit_value(s[0], radix) {
            Some(d) => {
                if acc * radix + d <= limit {
                    lemma_magnitude_bounded(s.skip(1), acc * radix + d, radix, limit, over);
                }
            },
            None => {},
        }
    }
}

/// Where no thread is known for a trace and all its lines can be read, it has no events.
pub proof fn law_trace_without_thread(ls: Seq<String>, pid: u32)
    requires
        forall|i: int|
            0 <= i < ls.len() ==> (line_groups((#[trigger] ls[i])@) matches Some(groups)
                ==> timestamp_fits(groups[0]->0) && timestamp_value(groups[0]->0) is Ok),
    ensures
        reading(ls, None, pid) matches Reading::Events(events) && events.len() == 0,
    decreases ls.len(),
{
    if ls.len() > 0 {
        let rest = ls.drop_last();
        assert forall|i: int| 0 <= i < rest.len() implies (line_groups(
            (#[trigger] rest[i])@,
        ) matches Some(groups) ==> timestamp_fits(groups[0]->0) && timestamp_value(groups[0]->0)
            is Ok) by {
            assert(rest[i] == ls[i]);
        }
        law_trace_without_thread(rest, pid);
        assert(ls.last() == ls[ls.len() - 1]);
    }
}

/// The first line that cannot be read decides: a timestamp out of range, or else its error. That
/// holds whether a thread is known or not.
pub proof fn law_first_unreadable_line_decides(
    ls: Seq<String>,
    tid: Option<u32>,
    pid: u32,
    n: int,
)
    requires
        0 <= n < ls.len(),
        forall|i: int|
            0 <= i < n ==> (line_groups((#[trigger] ls[i])@) matches Some(groups)
                ==> timestamp_fits(groups[0]->0) && timestamp_value(groups[0]->0) is Ok),
        line_groups(ls[n]@) is Some,
        !timestamp_fits(line_groups(ls[n]@)->0[0]->0) || timestamp_value(
            line_groups(ls[n]@)->0[0]->0,
        ) is Err,
    ensures
        !timestamp_fits(line_groups(ls[n]@)->0[0]->0) ==> reading(ls, tid, pid) is OutOfRange,
        timestamp_fits(line_groups(ls[n]@)->0[0]->0) ==> reading(ls, tid, pid) == Reading::Failed(
            timestamp_value(line_groups(ls[n]@)->0[0]->0)->Err_0,
        ),
    decreases ls.len(),
{
    let rest = ls.drop_last();
    if n == ls.len() - 1 {
        assert forall|i: int| 0 <= i < rest.len() implies (line_groups(
            (#[trigger] rest[i])@,
        ) matches Some(groups) ==> timestamp_fits(groups[0]->0) && timestamp_value(groups[0]->0)
            is Ok) by {
            assert(rest[i] == ls[i]);
        }
        if tid is Some {
            law_trace_has_event_per_syscall(rest, tid->0, pid);
        } else {
            law_trace_without_thread(rest, pid);
        }
        assert(ls.last() == ls[n]);
    } else {
        assert(rest[n] == ls[n]);
        assert forall|i: int| 0 <= i < n implies (line_groups((#[trigger] rest[i])@) matches Some(
            groups,
        ) ==> timestamp_fits(groups[0]->0) && timestamp_value(groups[0]->0) is Ok) by {
            assert(rest[i] == ls[i]);
        }
        law_first_unreadable_line_decides(rest, tid, pid, n);
    }
}

// ---------------------------------------------------------------------------
// Processes and threads
// ---------------------------------------------------------------------------

/// The thread of a trace is the number behind the last point of its name.
pub proof fn law_thread_behind_last_point(prefix: Seq<char>, tid: u32)
    ensures
        tid_of_name(prefix.push('.') + decimal(tid as nat)) == Some(tid),
        tid_of_name(decimal(tid as nat)) == Some(tid),
{
    let d = decimal(tid as nat);
    lemma_decimal_digits(tid as nat);
    assert forall|i: int| 0 <= i < d.len() implies d[i] != '.' by {
        assert('0' <= d[i] <= '9');
    }
    law_split_one_piece(d, '.');
    law_split_at_separator(prefix, d, '.');
    law_decimal_round_trip(tid as nat, u32::MAX as nat);
}

/// A name that does not end in a number behind its last point gives no thread.
pub proof fn law_name_without_thread(prefix: Seq<char>, suffix: Seq<char>)
    requires
        forall|i: int| 0 <= i < suffix.len() ==> suffix[i] != '.',
    ensures
        tid_of_name(prefix.push('.') + suffix) is None <==> unsigned_value(suffix, u32::MAX as nat)
            is Err,
        tid_of_name(suffix) is None <==> unsigned_value(suffix, u32::MAX as nat) is Err,
{
    law_split_one_piece(suffix, '.');
    law_split_at_separator(prefix, suffix, '.');
}

/// A trace belongs to the thread that its name gives.
pub proof fn law_thread_of_trace(t: Trace)
    ensures
        t.name is None ==> thread_of(t) is None,
        t.name matches Some(name) ==> thread_of(t) == tid_of_name(name@),
{
}

/// A line of a status names the leader that stands behind `Tgid:` and white space.
pub proof fn law_leader_of_line(gap: Seq<char>, rest: Seq<char>, leader: u32)
    requires
        gap.len() > 0,
        forall|i: int| 0 <= i < gap.len() ==> white_space(#[trigger] gap[i]),
        rest.len() > 0 ==> white_space(rest[0]),
    ensures
        tgid_of_line("Tgid:"@ + gap + decimal(leader as nat) + rest) == Some(leader as nat),
{
    reveal_strlit("Tgid:");
    let name = "Tgid:"@;
    let d = decimal(leader as nat);
    lemma_decimal_digits(leader as nat);
    law_decimal_round_trip(leader as nat, u32::MAX as nat);
    assert forall|i: int| 0 <= i < d.len() implies !white_space(#[trigger] d[i]) by {
        assert('0' <= d[i] <= '9');
    }
    assert forall|i: int| 0 <= i < name.len() implies !white_space(#[trigger] name[i]) by {}
    law_one_word(name);
    law_one_word(d);
    let whole = name + gap + d + rest;
    let tail = gap.skip(1) + d + rest;
    assert(whole =~= name.push(gap[0]) + tail);
    assert(white_space(gap[0]));
    law_words_at_white_space(name, gap[0], tail);
    lemma_words_skip_gap(gap.skip(1), d + rest);
    assert(tail =~= gap.skip(1) + (d + rest));
    if rest.len() > 0 {
        assert(d + rest =~= d.push(rest[0]) + rest.skip(1));
        law_words_at_white_space(d, rest[0], rest.skip(1));
    } else {
        assert(d + rest =~= d);
    }
    assert(words(d + rest)[0] == d);
    assert(words(whole)[1] == d);
    assert(whole.take(5) =~= name);
}

proof fn lemma_words_skip_gap(gap: Seq<char>, rest: Seq<char>)
    requires
        forall|i: int| 0 <= i < gap.len() ==> white_space(#[trigger] gap[i]),
    ensures
        words(gap + rest) == words(rest),
    decreases gap.len(),
{
    let none = Seq::<char>::empty();
    if gap.len() == 0 {
        assert(gap + rest =~= rest);
    } else {
        assert(gap + rest =~= none.push(gap[0]) + (gap.skip(1) + rest));
        assert(white_space(gap[0]));
        law_words_at_white_space(none, gap[0], gap.skip(1) + rest);
        assert forall|i: int| 0 <= i < gap.skip(1).len() implies white_space(
            #[trigger] gap.skip(1)[i],
        ) by {
            assert(gap.skip(1)[i] == gap[i + 1]);
        }
        lemma_words_skip_gap(gap.skip(1), rest);
        assert(words(none) + words(gap.skip(1) + rest) =~= words(gap.skip(1) + rest));
    }
}

/// A line that does not begin with `Tgid:`, or whose second word is no number of 32 bits, names no
/// leader.
pub proof fn law_line_without_leader(line: Seq<char>)
    ensures
        line.len() < 5 || line.take(5) != seq!['T', 'g', 'i', 'd', ':'] ==> tgid_of_line(line)
            is None,
        words(line).len() < 2 ==> tgid_of_line(line) is None,
        words(line).len() >= 2 && unsigned_value(words(line)[1], u32::MAX as nat) is Err
            ==> tgid_of_line(line) is None,
{
    reveal_strlit("Tgid:");
    assert("Tgid:"@ =~= seq!['T', 'g', 'i', 'd', ':']);
}

/// The first line that names a leader decides.
pub proof fn law_first_leader_decides(ls: Seq<Seq<char>>, tid: nat, n: int)
    requires
        0 <= n < ls.len(),
        forall|i: int| 0 <= i < n ==> tgid_of_line(#[trigger] ls[i]) is None,
        tgid_of_line(ls[n]) is Some,
    ensures
        tgid_of_line(ls[n]) == Some(tgid_of_lines(ls, tid)),
    decreases ls.len(),
{
    if n > 0 {
        let rest = ls.skip(1);
        assert(tgid_of_line(ls[0]) is None);
        assert(rest[n - 1] == ls[n]);
        assert forall|i: int| 0 <= i < n - 1 implies tgid_of_line(#[trigger] rest[i]) is None by {
            assert(rest[i] == ls[i + 1]);
        }
        law_first_leader_decides(rest, tid, n - 1);
    }
}

/// Where no line names a leader, the thread stands for itself.
pub proof fn law_no_leader(ls: Seq<Seq<char>>, tid: nat)
    requires
        forall|i: int| 0 <= i < ls.len() ==> tgid_of_line(#[trigger] ls[i]) is None,
    ensures
        tgid_of_lines(ls, tid) == tid,
    decreases ls.len(),
{
    if ls.len() > 0 {
        let rest = ls.skip(1);
        assert(tgid_of_line(ls[0]) is None);
        assert forall|i: int| 0 <= i < rest.len() implies tgid_of_line(#[trigger] rest[i])
            is None by {
            assert(rest[i] == ls[i + 1]);
        }
        law_no_leader(rest, tid);
    }
}

/// The process that the pid file names comes first, whatever white space stands around it; then the
/// leader of the status; then the thread itself.
pub proof fn law_process_of_thread(
    left: Seq<char>,
    pid: u32,
    right: Seq<char>,
    unnamed: Option<Seq<char>>,
    status: Option<Seq<char>>,
    tid: nat,
)
    requires
        forall|i: int| 0 <= i < left.len() ==> white_space(#[trigger] left[i]),
        forall|i: int| 0 <= i < right.len() ==> white_space(#[trigger] right[i]),
        unnamed matches Some(content) ==> unsigned_value(trim(content), u32::MAX as nat) is Err,
    ensures
        spec_process(Some(left + decimal(pid as nat) + right), status, tid) == pid,
        spec_process(unnamed, None, tid) == tid,
        status matches Some(content) ==> spec_process(unnamed, status, tid) == tgid_of_lines(
            lines(content),
            tid,
        ),
        named_process(unnamed) is None,
{
    let d = decimal(pid as nat);
    lemma_decimal_digits(pid as nat);
    assert('0' <= d[0] <= '9');
    assert('0' <= d[d.len() - 1] <= '9');
    law_trim_takes_ends(left, d, right);
    law_decimal_round_trip(pid as nat, u32::MAX as nat);
}

/// The process of a trace is that of its thread, from the pid file and the status of the trace.
pub proof fn law_process_of_trace(t: Trace, pid_file: Option<Seq<char>>, tid: u32)
    requires
        thread_of(t) == Some(tid),
    ensures
        owner_of(t, pid_file) == spec_process(pid_file, optional_text(t.status), tid as nat) as u32,
{
}

// ---------------------------------------------------------------------------
// Several traces
// ---------------------------------------------------------------------------

/// Where all traces can be read, their events stand one after the other, trace by trace.
pub proof fn law_traces_one_after_the_other(traces: Seq<Trace>, pid_file: Option<Seq<char>>)
    requires
        forall|i: int|
            0 <= i < traces.len() ==> reading(
                (#[trigger] traces[i]).lines@,
                thread_of(traces[i]),
                owner_of(traces[i], pid_file),
            ) is Events,
    ensures
        all_readings(traces, pid_file) == Reading::Events(
            traces.map_values(
                |t: Trace| reading(t.lines@, thread_of(t), owner_of(t, pid_file))->Events_0,
            ).flatten(),
        ),
    decreases traces.len(),
{
    let f = |t: Trace| reading(t.lines@, thread_of(t), owner_of(t, pid_file))->Events_0;
    if traces.len() > 0 {
        let rest = traces.drop_last();
        assert forall|i: int| 0 <= i < rest.len() implies reading(
            (#[trigger] rest[i]).lines@,
            thread_of(rest[i]),
            owner_of(rest[i], pid_file),
        ) is Events by {
            assert(rest[i] == traces[i]);
        }
        law_traces_one_after_the_other(rest, pid_file);
        let t = traces.last();
        assert(t == traces[traces.len() - 1]);
        assert(traces.map_values(f) =~= rest.map_values(f).push(f(t)));
        rest.map_values(f).lemma_flatten_push(f(t));
    } else {
        assert(traces.map_values(f).flatten() =~= Seq::<KernelEventModel>::empty());
    }
}

/// The first trace that cannot be read decides.
pub proof fn law_first_unreadable_trace_decides(
    traces: Seq<Trace>,
    pid_file: Option<Seq<char>>,
    n: int,
)
    requires
        0 <= n < traces.len(),
        forall|i: int|
            0 <= i < n ==> reading(
                (#[trigger] traces[i]).lines@,
                thread_of(traces[i]),
                owner_of(traces[i], pid_file),
            ) is Events,
        !(reading(traces[n].lines@, thread_of(traces[n]), owner_of(traces[n], pid_file)) is Events),
    ensures
        all_readings(traces, pid_file) == reading(
            traces[n].lines@,
            thread_of(traces[n]),
            owner_of(traces[n], pid_file),
        ),
    decreases traces.len(),
{
    let rest = traces.drop_last();
    if n == traces.len() - 1 {
        assert forall|i: int| 0 <= i < rest.len() implies reading(
            (#[trigger] rest[i]).lines@,
            thread_of(rest[i]),
            owner_of(rest[i], pid_file),
        ) is Events by {
            assert(rest[i] == traces[i]);
        }
        law_traces_one_after_the_other(rest, pid_file);
        assert(traces.last() == traces[n]);
    } else {
        assert(rest[n] == traces[n]);
        assert forall|i: int| 0 <= i < n implies reading(
            (#[trigger] rest[i]).lines@,
            thread_of(rest[i]),
            owner_of(rest[i], pid_file),
        ) is Events by {
            assert(rest[i] == traces[i]);
        }
        law_first_unreadable_trace_decides(rest, pid_file, n);
    }
}

// ---------------------------------------------------------------------------
// Order and repetitions
// ---------------------------------------------------------------------------

/// A stream sorted by time holds each event as often as before, its timestamps never fall, and
/// events of one time keep their order.
pub proof fn law_sorted_stream(
    out: Seq<KernelEventModel>,
    input: Seq<KernelEventModel>,
    t: u64,
)
    requires
        stable_sort_of(model_times(out), model_times(input)),
    ensures
        out.len() == input.len(),
        forall|i: int, j: int|
            0 <= i <= j < out.len() ==> (#[trigger] out[i]).timestamp_ns <= (
            #[trigger] out[j]).timestamp_ns,
        out.filter(|m: KernelEventModel| m.timestamp_ns == t) == input.filter(
            |m: KernelEventModel| m.timestamp_ns == t,
        ),
{
    assert forall|i: int, j: int| 0 <= i <= j < out.len() implies (
    #[trigger] out[i]).timestamp_ns <= (#[trigger] out[j]).timestamp_ns by {
        assert(model_times(out)[i].0 <= model_times(out)[j].0);
    }
    lemma_of_time(out, t);
    lemma_of_time(input, t);
    assert(with_key(model_times(out), t) == with_key(model_times(input), t));
}

proof fn lemma_of_time(ms: Seq<KernelEventModel>, t: u64)
    ensures
        ms.filter(|m: KernelEventModel| m.timestamp_ns == t) == with_key(
            model_times(ms),
            t,
        ).map_values(|e: (u64, KernelEventModel)| e.1),
    decreases ms.len(),
{
    reveal(Seq::filter);
    let f = |e: (u64, KernelEventModel)| e.1;
    let p = |m: KernelEventModel| m.timestamp_ns == t;
    if ms.len() == 0 {
        assert(ms.filter(p) =~= with_key(model_times(ms), t).map_values(f));
    } else {
        lemma_of_time(ms.drop_last(), t);
        assert(model_times(ms).drop_last() =~= model_times(ms.drop_last()));
        assert(ms.filter(p) =~= with_key(model_times(ms), t).map_values(f));
    }
}

/// Sorting events keeps each of them, with all its fields: their timestamps never fall, and events
/// of one time keep their order.
pub proof fn law_sorted_events(out: Seq<KernelEvent>, input: Seq<KernelEvent>, t: u64)
    requires
        stable_sort_of(by_time(out), by_time(input)),
    ensures
        out.len() == input.len(),
        forall|i: int, j: int|
            0 <= i <= j < out.len() ==> (#[trigger] out[i]).timestamp_ns <= (
            #[trigger] out[j]).timestamp_ns,
        out.filter(|e: KernelEvent| e.timestamp_ns == t) == input.filter(
            |e: KernelEvent| e.timestamp_ns == t,
        ),
{
    law_sorted_by_time(out);
    lemma_events_of_time(out, t);
    lemma_events_of_time(input, t);
    assert(with_key(by_time(out), t) == with_key(by_time(input), t));
}

proof fn lemma_events_of_time(events: Seq<KernelEvent>, t: u64)
    ensures
        events.filter(|e: KernelEvent| e.timestamp_ns == t) == with_key(
            by_time(events),
            t,
        ).map_values(|e: (u64, KernelEvent)| e.1),
    decreases events.len(),
{
    reveal(Seq::filter);
    let f = |e: (u64, KernelEvent)| e.1;
    let p = |e: KernelEvent| e.timestamp_ns == t;
    if events.len() == 0 {
        assert(events.filter(p) =~= with_key(by_time(events), t).map_values(f));
    } else {
        lemma_events_of_time(events.drop_last(), t);
        assert(by_time(events).drop_last() =~= by_time(events.drop_last()));
        assert(events.filter(p) =~= with_key(by_time(events), t).map_values(f));
    }
}

/// Events are sorted by time exactly when their timestamps never fall.
pub proof fn law_sorted_by_time(events: Seq<KernelEvent>)
    ensures
        sorted_by_key(by_time(events)) <==> forall|i: int, j: int|
            0 <= i <= j < events.len() ==> (#[trigger] events[i]).timestamp_ns <= (
            #[trigger] events[j]).timestamp_ns,
{
    if sorted_by_key(by_time(events)) {
        assert forall|i: int, j: int| 0 <= i <= j < events.len() implies (
        #[trigger] events[i]).timestamp_ns <= (#[trigger] events[j]).timestamp_ns by {
            assert(by_time(events)[i].0 <= by_time(events)[j].0);
        }
    }
}

/// Dropping repetitions keeps the first of equal elements in its place: of two different elements,
/// the one that came first still does.
pub proof fn law_first_occurrences_keep_order<A>(s: Seq<A>, i: int, j: int)
    requires
        0 <= i < j < s.len(),
        forall|k: int| 0 <= k < i ==> s[k] != s[i],
        forall|k: int| 0 <= k < j ==> s[k] != s[j],
    ensures
        exists|a: int, b: int|
            0 <= a < b < first_occurrences(s).len() && #[trigger] first_occurrences(s)[a] == s[i]
                && #[trigger] first_occurrences(s)[b] == s[j],
    decreases s.len(),
{
    let rest = s.drop_last();
    let kept = first_occurrences(rest);
    law_first_occurrences(rest);
    if j == s.len() - 1 {
        if rest.contains(s.last()) {
            let k = choose|k: int| 0 <= k < rest.len() && rest[k] == s.last();
            assert(s[k] == s[j]);
        }
        assert(rest[i] == s[i]);
        assert(rest.contains(s[i]));
        assert(kept.contains(s[i]));
        let a = choose|a: int| 0 <= a < kept.len() && kept[a] == s[i];
        assert(first_occurrences(s)[a] == s[i]);
        assert(first_occurrences(s)[kept.len() as int] == s[j]);
    } else {
        law_first_occurrences_keep_order(rest, i, j);
        let (a, b) = choose|a: int, b: int|
            0 <= a < b < kept.len() && #[trigger] kept[a] == rest[i] && #[trigger] kept[b]
                == rest[j];
        assert(first_occurrences(s)[a] == s[i]);
        assert(first_occurrences(s)[b] == s[j]);
    }
}

/// Exactly the lines that hold more than white space are records, in their order.
pub proof fn law_records_are_filled_lines(ls: Seq<String>, k: usize)
    requires
        ls.len() <= usize::MAX,
    ensures
        filled(ls).contains(k) <==> k < ls.len() && trim(ls[k as int]@).len() > 0,
        forall|a: int, b: int|
            0 <= a < b < filled(ls).len() ==> (#[trigger] filled(ls)[a]) < (
            #[trigger] filled(ls)[b]),
    decreases ls.len(),
{
    if ls.len() > 0 {
        let rest = ls.drop_last();
        let before = filled(rest);
        let last = (ls.len() - 1) as usize;
        law_records_are_filled_lines(rest, k);
        assert(k < rest.len() ==> rest[k as int] == ls[k as int]);
        assert(ls.last() == ls[last as int]);
        let all = filled(ls);
        assert forall|a: int, b: int| 0 <= a < b < all.len() implies (#[trigger] all[a]) < (
        #[trigger] all[b]) by {
            if b == before.len() {
                law_records_are_filled_lines(rest, before[a]);
                assert(before.contains(before[a]));
            } else {
                assert(before[a] < before[b]);
            }
        }
        if all.len() > before.len() {
            assert(all[before.len() as int] == last);
        }
        if before.contains(k) {
            let n = choose|n: int| 0 <= n < before.len() && before[n] == k;
            assert(all[n] == k);
        }
        if all.contains(k) && k != last {
            let n = choose|n: int| 0 <= n < all.len() && all[n] == k;
            assert(before[n] == k);
        }
        if all.contains(k) && k == last && all.len() == before.len() {
            let n = choose|n: int| 0 <= n < all.len() && all[n] == k;
            assert(before[n] == k);
        }
    }
}

} // verus!
