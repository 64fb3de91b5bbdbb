//! Turning traces into one stream of kernel events.

use vstd::prelude::*;
use vstd::string::*;

use crate::error::CauspanError;
use crate::event::optional_text;
use crate::event::KernelEvent;
use crate::event::KernelEventArgs;
use crate::event::KernelEventModel;
use crate::sorting::law_sort_keeps_entries;
use crate::sorting::reversed;
use crate::sorting::sorted_by_key;
use crate::sorting::stable_sort;
use crate::sorting::stable_sort_of;
use crate::sorting::with_key;
use crate::strace::arguments;
use crate::strace::checked_parse_strace_line;
use crate::strace::event_of_name;
use crate::strace::line_fits;
use crate::strace::line_groups;
use crate::strace::process_of;
use crate::strace::return_value_of;
use crate::strace::slice_text;
use crate::strace::spec_process;
use crate::strace::tid_from_filename;
use crate::strace::tid_of_name;
use crate::strace::timestamp_value;
use crate::text::trim;
use crate::text::trim_text;

verus! {

// ---------------------------------------------------------------------------
// Traces
// ---------------------------------------------------------------------------

/// The events of a list, with their texts as characters.
pub open spec fn models(events: Seq<KernelEvent>) -> Seq<KernelEventModel> {
    events.map_values(|e: KernelEvent| e@)
}

/// What reading the lines of one trace has come to.
pub enum Reading {
    /// The events so far.
    Events(Seq<KernelEventModel>),
    /// A line with an error.
    Failed(CauspanError),
    /// A line with a timestamp that does not fit in 64 bits of nanoseconds.
    OutOfRange,
}

/// The event that a line of the thread `tid` in the process `pid` shows, when its parts are
/// `groups` and its timestamp is `ns`.
pub open spec fn event_of_groups(
    groups: Seq<Option<Seq<char>>>,
    ns: nat,
    tid: u32,
    pid: u32,
) -> KernelEventModel {
    KernelEventModel {
        pid,
        tid,
        timestamp_ns: ns as u64,
        event_type: event_of_name(groups[1]->0),
        args: crate::event::argument_places(arguments(groups[2]->0)),
        return_value: match groups[3] {
            Some(s) => match return_value_of(s) {
                Some(n) => Some(n as i64),
                None => None,
            },
            None => None,
        },
    }
}

/// What reading the lines of one trace comes to, line by line. A trace that no thread is known
/// for gives no events, but its lines are read all the same.
pub open spec fn reading(ls: Seq<String>, tid: Option<u32>, pid: u32) -> Reading
    decreases ls.len(),
{
    if ls.len() == 0 {
        Reading::Events(Seq::<KernelEventModel>::empty())
    } else {
        match reading(ls.drop_last(), tid, pid) {
            Reading::Events(events) => {
                let line = ls.last()@;
                if !line_fits(line) {
                    Reading::OutOfRange
                } else {
                    match line_groups(line) {
                        None => Reading::Events(events),
                        Some(groups) => match timestamp_value(groups[0]->0) {
                            Err(e) => Reading::Failed(e),
                            Ok(ns) => match tid {
                                Some(t) => Reading::Events(
                                    events.push(event_of_groups(groups, ns, t, pid)),
                                ),
                                None => Reading::Events(events),
                            },
                        },
                    }
                }
            },
            other => other,
        }
    }
}

proof fn lemma_reading_stays(ls: Seq<String>, tid: Option<u32>, pid: u32, n: int)
    requires
        0 <= n <= ls.len(),
        !(reading(ls.take(n), tid, pid) is Events),
    ensures
        reading(ls, tid, pid) == reading(ls.take(n), tid, pid),
    decreases ls.len() - n,
{
    if n < ls.len() {
        assert(ls.take(n + 1).drop_last() =~= ls.take(n));
        lemma_reading_stays(ls, tid, pid, n + 1);
    } else {
        assert(ls.take(n) =~= ls);
    }
}

/// The kernel events that the lines of one trace show. The TID comes from the trace's name;
/// the PID is that of its process. `None` where the timestamp of a line does not fit in 64 bits
/// of nanoseconds.
pub fn collect_trace(ls: &Vec<String>, tid: Option<u32>, pid: u32) -> (r: Option<
    Result<Vec<KernelEvent>, CauspanError>,
>)
    ensures
        match r {
            Some(Ok(events)) => reading(ls@, tid, pid) == Reading::Events(models(events@)),
            Some(Err(e)) => reading(ls@, tid, pid) == Reading::Failed(e),
            None => reading(ls@, tid, pid) is OutOfRange,
        },
{
    let mut events: Vec<KernelEvent> = Vec::new();
    let mut i: usize = 0;
    assert(models(events@) =~= Seq::<KernelEventModel>::empty());
    while i < ls.len()
        invariant
            i <= ls.len(),
            reading(ls@.take(i as int), tid, pid) == Reading::Events(models(events@)),
        decreases ls.len() - i,
    {
        let ghost upto = ls@.take(i + 1);
        assert(upto.drop_last() =~= ls@.take(i as int));
        assert(upto.last()@ == ls@[i as int]@);
        match checked_parse_strace_line(ls[i].as_str()) {
            None => {
                proof {
                    lemma_reading_stays(ls@, tid, pid, i + 1);
                }
                return None;
            },
            Some(Err(e)) => {
                proof {
                    lemma_reading_stays(ls@, tid, pid, i + 1);
                }
                return Some(Err(e));
            },
            Some(Ok(None)) => {},
            Some(Ok(Some(parsed))) => {
                if let Some(t) = tid {
                    let ghost before = models(events@);
                    let event = KernelEvent {
                        pid,
                        tid: t,
                        timestamp_ns: parsed.timestamp_ns,
                        event_type: parsed.event_type,
                        args: parsed.args,
                        return_value: parsed.return_value,
                    };
                    let ghost grown = before.push(event@);
                    events.push(event);
                    assert(models(events@) =~= grown);
                }
            },
        }
        i += 1;
    }
    assert(ls@.take(ls.len() as int) =~= ls@);
    Some(Ok(events))
}

// ---------------------------------------------------------------------------
// Order
// ---------------------------------------------------------------------------

/// The events with their timestamps as keys.
pub open spec fn by_time(events: Seq<KernelEvent>) -> Seq<(u64, KernelEvent)> {
    events.map_values(|e: KernelEvent| (e.timestamp_ns, e))
}

/// Sorts events by timestamp, so that the stream can be merged with the ground truth. Events of
/// one timestamp keep their order.
pub fn sort_events(events: Vec<KernelEvent>) -> (r: Vec<KernelEvent>)
    ensures
        stable_sort_of(by_time(r@), by_time(events@)),
{
    let ghost whole = events@;
    let mut rest = reversed(events);
    let mut keyed: Vec<(u64, KernelEvent)> = Vec::new();
    while rest.len() > 0
        invariant
            keyed@.len() + rest@.len() == whole.len(),
            rest@ == whole.skip(keyed@.len() as int).reverse(),
            keyed@ == by_time(whole.take(keyed@.len() as int)),
        decreases rest.len(),
    {
        let ghost n = keyed@.len() as int;
        match rest.pop() {
            Some(e) => {
                assert(e == whole[n]);
                keyed.push((e.timestamp_ns, e));
                assert(keyed@ =~= by_time(whole.take(n + 1)));
                assert(rest@ =~= whole.skip(n + 1).reverse());
            },
            None => {},
        }
    }
    assert(whole.take(whole.len() as int) =~= whole);
    let sorted = stable_sort(keyed);
    let ghost ordered = sorted@;
    proof {
        assert forall|i: int| 0 <= i < ordered.len() implies (#[trigger] ordered[i]).0
            == ordered[i].1.timestamp_ns by {
            assert(ordered.contains(ordered[i]));
            law_sort_keeps_entries(ordered, by_time(whole), ordered[i]);
            let j = choose|j: int| 0 <= j < whole.len() && by_time(whole)[j] == ordered[i];
            assert(by_time(whole)[j].0 == by_time(whole)[j].1.timestamp_ns);
        }
    }
    let mut rest = reversed(sorted);
    let mut out: Vec<KernelEvent> = Vec::new();
    while rest.len() > 0
        invariant
            out@.len() + rest@.len() == ordered.len(),
            rest@ == ordered.skip(out@.len() as int).reverse(),
            by_time(out@) == ordered.take(out@.len() as int),
            forall|i: int|
                0 <= i < ordered.len() ==> (#[trigger] ordered[i]).0 == ordered[i].1.timestamp_ns,
        decreases rest.len(),
    {
        let ghost n = out@.len() as int;
        let ghost before = by_time(out@);
        match rest.pop() {
            Some((_, e)) => {
                assert(e == ordered[n].1);
                assert((e.timestamp_ns, e) == ordered[n]);
                out.push(e);
                assert(by_time(out@) =~= before.push(ordered[n]));
                assert(by_time(out@) =~= ordered.take(n + 1));
                assert(rest@ =~= ordered.skip(n + 1).reverse());
            },
            None => {},
        }
    }
    assert(ordered.take(ordered.len() as int) =~= ordered);
    out
}

/// What events say, with their timestamps as keys.
pub open spec fn model_times(ms: Seq<KernelEventModel>) -> Seq<(u64, KernelEventModel)> {
    ms.map_values(|m: KernelEventModel| (m.timestamp_ns, m))
}

/// The entries of one time, and what they say.
proof fn lemma_times_agree(events: Seq<KernelEvent>, k: u64)
    ensures
        with_key(model_times(models(events)), k) == with_key(by_time(events), k).map_values(
            |e: (u64, KernelEvent)| (e.0, e.1@),
        ),
    decreases events.len(),
{
    reveal(Seq::filter);
    let f = |e: (u64, KernelEvent)| (e.0, e.1@);
    if events.len() == 0 {
        assert(with_key(model_times(models(events)), k) =~= with_key(by_time(events), k).map_values(
            f,
        ));
    } else {
        let rest = events.drop_last();
        lemma_times_agree(rest, k);
        assert(by_time(events).drop_last() =~= by_time(rest));
        assert(model_times(models(events)).drop_last() =~= model_times(models(rest)));
        assert(with_key(model_times(models(events)), k) =~= with_key(by_time(events), k).map_values(
            f,
        ));
    }
}

/// Sorting events sorts what they say.
proof fn lemma_sorted_models(out: Seq<KernelEvent>, input: Seq<KernelEvent>)
    requires
        stable_sort_of(by_time(out), by_time(input)),
    ensures
        stable_sort_of(model_times(models(out)), model_times(models(input))),
{
    let a = model_times(models(out));
    let b = model_times(models(input));
    assert(by_time(out).len() == by_time(input).len());
    assert forall|i: int, j: int| 0 <= i <= j < a.len() implies (#[trigger] a[i]).0 <= (
    #[trigger] a[j]).0 by {
        assert(by_time(out)[i].0 <= by_time(out)[j].0);
    }
    assert forall|k: u64| #[trigger] with_key(a, k) == with_key(b, k) by {
        lemma_times_agree(out, k);
        lemma_times_agree(input, k);
        assert(with_key(by_time(out), k) == with_key(by_time(input), k));
    }
}

// ---------------------------------------------------------------------------
// Collection
// ---------------------------------------------------------------------------

/// One trace file.
#[derive(Debug, Clone)]
pub struct Trace {
    /// Its name, if that is text. strace -ff names files `<prefix>.<tid>`.
    pub name: Option<String>,
    /// The text of `/proc/<tid>/status`, as far as it could be read.
    pub status: Option<String>,
    /// Its lines.
    pub lines: Vec<String>,
}

/// The thread that the name of a trace gives.
pub open spec fn thread_of(t: Trace) -> Option<u32> {
    match t.name {
        Some(name) => tid_of_name(name@),
        None => None,
    }
}

/// The process of a trace, where `pid_file` is the text of the workload's pid file. A trace that
/// gives no thread has none.
pub open spec fn owner_of(t: Trace, pid_file: Option<Seq<char>>) -> u32 {
    match thread_of(t) {
        Some(tid) => spec_process(pid_file, optional_text(t.status), tid as nat) as u32,
        None => 0,
    }
}

/// What reading several traces comes to, one after the other.
pub open spec fn all_readings(traces: Seq<Trace>, pid_file: Option<Seq<char>>) -> Reading
    decreases traces.len(),
{
    if traces.len() == 0 {
        Reading::Events(Seq::<KernelEventModel>::empty())
    } else {
        match all_readings(traces.drop_last(), pid_file) {
            Reading::Events(events) => {
                let t = traces.last();
                match reading(t.lines@, thread_of(t), owner_of(t, pid_file)) {
                    Reading::Events(more) => Reading::Events(events + more),
                    other => other,
                }
            },
            other => other,
        }
    }
}

proof fn lemma_readings_stay(traces: Seq<Trace>, pid_file: Option<Seq<char>>, n: int)
    requires
        0 <= n <= traces.len(),
        !(all_readings(traces.take(n), pid_file) is Events),
    ensures
        all_readings(traces, pid_file) == all_readings(traces.take(n), pid_file),
    decreases traces.len() - n,
{
    if n < traces.len() {
        assert(traces.take(n + 1).drop_last() =~= traces.take(n));
        lemma_readings_stay(traces, pid_file, n + 1);
    } else {
        assert(traces.take(n) =~= traces);
    }
}

/// The kernel events that several traces show, sorted by timestamp; events of one timestamp stand
/// in the order in which they were read. `pid_file` is the text of the workload's pid file, as far
/// as it could be read. `None` where the timestamp of a line does not fit in 64 bits of
/// nanoseconds.
pub fn collect_traces(traces: &Vec<Trace>, pid_file: Option<&str>) -> (r: Option<
    Result<Vec<KernelEvent>, CauspanError>,
>)
    ensures
        match r {
            Some(Ok(events)) => {
                &&& all_readings(traces@, slice_text(pid_file)) is Events
                &&& stable_sort_of(
                    model_times(models(events@)),
                    model_times(all_readings(traces@, slice_text(pid_file))->Events_0),
                )
            },
            Some(Err(e)) => all_readings(traces@, slice_text(pid_file)) == Reading::Failed(e),
            None => all_readings(traces@, slice_text(pid_file)) is OutOfRange,
        },
{
    let ghost text = slice_text(pid_file);
    let mut events: Vec<KernelEvent> = Vec::new();
    let mut i: usize = 0;
    assert(models(events@) =~= Seq::<KernelEventModel>::empty());
    while i < traces.len()
        invariant
            i <= traces.len(),
            text == slice_text(pid_file),
            all_readings(traces@.take(i as int), text) == Reading::Events(models(events@)),
        decreases traces.len() - i,
    {
        assert(traces@.take(i + 1).drop_last() =~= traces@.take(i as int));
        let trace = &traces[i];
        let tid = match &trace.name {
            Some(name) => tid_from_filename(name.as_str()),
            None => None,
        };
        let status = match &trace.status {
            Some(content) => Some(content.as_str()),
            None => None,
        };
        let pid: u32 = match tid {
            Some(t) => process_of(pid_file, status, t),
            None => 0,
        };
        assert(slice_text(status) == optional_text(trace.status));
        match collect_trace(&trace.lines, tid, pid) {
            None => {
                proof {
                    lemma_readings_stay(traces@, text, i + 1);
                }
                return None;
            },
            Some(Err(e)) => {
                proof {
                    lemma_readings_stay(traces@, text, i + 1);
                }
                return Some(Err(e));
            },
            Some(Ok(collected)) => {
                let ghost both = models(events@) + models(collected@);
                let mut more = collected;
                events.append(&mut more);
                assert(models(events@) =~= both);
            },
        }
        i += 1;
    }
    assert(traces@.take(traces.len() as int) =~= traces@);
    let ghost read = events@;
    let sorted = sort_events(events);
    proof {
        lemma_sorted_models(sorted@, read);
    }
    Some(Ok(sorted))
}

// ---------------------------------------------------------------------------
// Duplicates
// ---------------------------------------------------------------------------

/// Whether two optional texts are equal.
fn same_optional(a: &Option<String>, b: &Option<String>) -> (r: bool)
    ensures
        r == (optional_text(*a) == optional_text(*b)),
{
    match (a, b) {
        (Some(x), Some(y)) => *x == *y,
        (None, None) => true,
        _ => false,
    }
}

/// Whether two lists of arguments are equal.
fn same_args(a: &KernelEventArgs, b: &KernelEventArgs) -> (r: bool)
    ensures
        r == (a@ == b@),
{
    let r = same_optional(&a.arg0, &b.arg0) && same_optional(&a.arg1, &b.arg1) && same_optional(
        &a.arg2,
        &b.arg2,
    ) && same_optional(&a.arg3, &b.arg3) && same_optional(&a.arg4, &b.arg4) && same_optional(
        &a.arg5,
        &b.arg5,
    );
    proof {
        if r {
            assert(a@ =~= b@);
        } else {
            assert(a@[0] == optional_text(a.arg0) && b@[0] == optional_text(b.arg0));
            assert(a@[1] == optional_text(a.arg1) && b@[1] == optional_text(b.arg1));
            assert(a@[2] == optional_text(a.arg2) && b@[2] == optional_text(b.arg2));
            assert(a@[3] == optional_text(a.arg3) && b@[3] == optional_text(b.arg3));
            assert(a@[4] == optional_text(a.arg4) && b@[4] == optional_text(b.arg4));
            assert(a@[5] == optional_text(a.arg5) && b@[5] == optional_text(b.arg5));
        }
    }
    r
}

/// Whether two events say the same.
pub fn same_event(a: &KernelEvent, b: &KernelEvent) -> (r: bool)
    ensures
        r == (a@ == b@),
{
    let same_value = match (a.return_value, b.return_value) {
        (Some(x), Some(y)) => x == y,
        (None, None) => true,
        _ => false,
    };
    a.pid == b.pid && a.tid == b.tid && a.timestamp_ns == b.timestamp_ns && a.event_type
        == b.event_type && same_value && same_args(&a.args, &b.args)
}

/// `s` without the elements that stand in it before.
pub open spec fn first_occurrences<A>(s: Seq<A>) -> Seq<A>
    decreases s.len(),
{
    if s.len() == 0 {
        s
    } else {
        let before = first_occurrences(s.drop_last());
        if s.drop_last().contains(s.last()) {
            before
        } else {
            before.push(s.last())
        }
    }
}

/// Dropping repetitions leaves every element in the list, once.
pub proof fn law_first_occurrences<A>(s: Seq<A>)
    ensures
        first_occurrences(s).no_duplicates(),
        forall|x: A| first_occurrences(s).contains(x) <==> s.contains(x),
    decreases s.len(),
{
    if s.len() > 0 {
        let rest = s.drop_last();
        let kept = first_occurrences(rest);
        law_first_occurrences(rest);
        assert forall|x: A| first_occurrences(s).contains(x) <==> s.contains(x) by {
            if s.contains(x) {
                let i = choose|i: int| 0 <= i < s.len() && s[i] == x;
                if i < rest.len() {
                    assert(rest[i] == x);
                    assert(rest.contains(x));
                    assert(kept.contains(x));
                    let j = choose|j: int| 0 <= j < kept.len() && kept[j] == x;
                    assert(first_occurrences(s)[j] == x);
                } else if !rest.contains(s.last()) {
                    assert(first_occurrences(s)[kept.len() as int] == x);
                } else {
                    assert(rest.contains(x));
                    assert(kept.contains(x));
                }
            }
            if first_occurrences(s).contains(x) {
                let j = choose|j: int|
                    0 <= j < first_occurrences(s).len() && first_occurrences(s)[j] == x;
                if j < kept.len() {
                    assert(kept.contains(x)) by {
                        assert(kept[j] == x);
                    }
                    assert(rest.contains(x));
                    let i = choose|i: int| 0 <= i < rest.len() && rest[i] == x;
                    assert(s[i] == x);
                } else {
                    assert(s[s.len() - 1] == x);
                }
            }
        }
        if !rest.contains(s.last()) {
            assert(!kept.contains(s.last()));
        }
    }
}

/// Drops each event that says the same as one before it, in a stream sorted by time.
pub fn dedup_events(events: Vec<KernelEvent>) -> (r: Vec<KernelEvent>)
    requires
        sorted_by_key(by_time(events@)),
    ensures
        models(r@) == first_occurrences(models(events@)),
        sorted_by_key(by_time(r@)),
{
    let ghost whole = events@;
    let mut rest = reversed(events);
    let mut out: Vec<KernelEvent> = Vec::new();
    let ghost mut n: int = 0;
    assert(models(whole.take(0)) =~= Seq::<KernelEventModel>::empty());
    assert(models(out@) =~= Seq::<KernelEventModel>::empty());
    assert(whole.skip(0) =~= whole);
    while rest.len() > 0
        invariant
            0 <= n <= whole.len(),
            rest@.len() == whole.len() - n,
            rest@ == whole.skip(n).reverse(),
            sorted_by_key(by_time(whole)),
            sorted_by_key(by_time(out@)),
            models(out@) == first_occurrences(models(whole.take(n))),
        decreases rest.len(),
    {
        match rest.pop() {
            Some(e) => {
                assert(e == whole[n]);
                assert(rest@ =~= whole.skip(n + 1).reverse());
                let ghost seen = models(whole.take(n));
                let ghost kept = models(out@);
                proof {
                    law_first_occurrences(seen);
                    assert(models(whole.take(n + 1)).drop_last() =~= seen);
                    assert(models(whole.take(n + 1)).last() == e@);
                    assert forall|i: int| 0 <= i < out@.len() implies (
                    #[trigger] out@[i]).timestamp_ns <= e.timestamp_ns by {
                        assert(kept[i] == out@[i]@);
                        assert(kept.contains(kept[i]));
                        assert(seen.contains(kept[i]));
                        let j = choose|j: int| 0 <= j < seen.len() && seen[j] == kept[i];
                        assert(whole[j]@ == kept[i]);
                        assert(by_time(whole)[j].0 <= by_time(whole)[n].0);
                    }
                }
                // Only events of the same time can be equal; they stand at the end.
                let mut i: usize = out.len();
                let mut repeated = false;
                while i > 0 && !repeated && out[i - 1].timestamp_ns == e.timestamp_ns
                    invariant
                        i <= out@.len(),
                        repeated ==> kept.contains(e@),
                        kept == models(out@),
                        !repeated ==> forall|j: int|
                            i <= j < out@.len() ==> (#[trigger] out@[j])@ != e@,
                    decreases
                        i,
                        (if repeated {
                            0int
                        } else {
                            1int
                        }),
                {
                    if same_event(&out[i - 1], &e) {
                        repeated = true;
                        assert(kept[i - 1] == e@);
                    } else {
                        i -= 1;
                    }
                }
                proof {
                    if !repeated {
                        assert forall|j: int| 0 <= j < out@.len() implies (
                        #[trigger] out@[j])@ != e@ by {
                            if j < i {
                                assert(by_time(out@)[j].0 <= by_time(out@)[i - 1].0);
                                assert(out@[i - 1].timestamp_ns < e.timestamp_ns);
                            }
                        }
                        assert(!kept.contains(e@)) by {
                            if kept.contains(e@) {
                                let j = choose|j: int| 0 <= j < kept.len() && kept[j] == e@;
                                assert(out@[j]@ == e@);
                            }
                        }
                    }
                }
                if !repeated {
                    let ghost prior = out@;
                    let ghost grown = kept.push(e@);
                    let ghost t = e.timestamp_ns;
                    out.push(e);
                    proof {
                        assert(models(out@) =~= grown);
                        assert forall|a: int, b: int| 0 <= a <= b < out@.len() implies (
                        #[trigger] by_time(out@)[a]).0 <= (#[trigger] by_time(out@)[b]).0 by {
                            if b < prior.len() {
                                assert(by_time(prior)[a].0 <= by_time(prior)[b].0);
                            } else if a < prior.len() {
                                assert(prior[a].timestamp_ns <= t);
                            }
                        }
                    }
                }
                proof {
                    n = n + 1;
                }
            },
            None => {},
        }
    }
    assert(whole.take(whole.len() as int) =~= whole);
    out
}

/// Sorts events that were collected before by timestamp, and drops repetitions.
pub fn sort_and_dedup(events: Vec<KernelEvent>) -> (r: Vec<KernelEvent>)
    ensures
        sorted_by_key(by_time(r@)),
        models(r@).no_duplicates(),
        forall|m: KernelEventModel| models(r@).contains(m) <==> models(events@).contains(m),
        exists|sorted: Seq<KernelEvent>| #[trigger]
            stable_sort_of(by_time(sorted), by_time(events@)) && models(r@) == first_occurrences(
                models(sorted),
            ),
{
    let ghost whole = events@;
    let sorted = sort_events(events);
    let ghost ordered = sorted@;
    let out = dedup_events(sorted);
    proof {
        law_first_occurrences(models(ordered));
        assert forall|m: KernelEventModel|
            models(out@).contains(m) <==> models(whole).contains(m) by {
            lemma_models_follow(by_time(ordered), by_time(whole), ordered, whole, m);
            lemma_models_follow(by_time(whole), by_time(ordered), whole, ordered, m);
        }
    }
    out
}

/// Events that stand in another list too say there what they say here.
proof fn lemma_models_follow(
    a: Seq<(u64, KernelEvent)>,
    b: Seq<(u64, KernelEvent)>,
    from: Seq<KernelEvent>,
    to: Seq<KernelEvent>,
    m: KernelEventModel,
)
    requires
        a == by_time(from),
        b == by_time(to),
        stable_sort_of(a, b) || stable_sort_of(b, a),
    ensures
        models(from).contains(m) ==> models(to).contains(m),
{
    if models(from).contains(m) {
        let i = choose|i: int| 0 <= i < models(from).len() && models(from)[i] == m;
        assert(a.contains(a[i]));
        if stable_sort_of(a, b) {
            law_sort_keeps_entries(a, b, a[i]);
        } else {
            law_sort_keeps_entries(b, a, a[i]);
        }
        let j = choose|j: int| 0 <= j < b.len() && b[j] == a[i];
        assert(to[j] == from[i]);
        assert(models(to)[j] == m);
    }
}

// ---------------------------------------------------------------------------
// JSON lines
// ---------------------------------------------------------------------------

/// Whether a line holds nothing but white space.
pub fn is_blank(line: &str) -> (r: bool)
    ensures
        r == (trim(line@).len() == 0),
{
    trim_text(line).as_str().is_empty()
}

/// The places of the lines that hold something, in their order.
pub open spec fn filled(ls: Seq<String>) -> Seq<usize>
    decreases ls.len(),
{
    if ls.len() == 0 {
        Seq::<usize>::empty()
    } else {
        let before = filled(ls.drop_last());
        if trim(ls.last()@).len() == 0 {
            before
        } else {
            before.push((ls.len() - 1) as usize)
        }
    }
}

/// The places of the lines that hold something: each of them is one JSON record.
pub fn record_lines(ls: &Vec<String>) -> (r: Vec<usize>)
    ensures
        r@ == filled(ls@),
{
    let mut out: Vec<usize> = Vec::new();
    let mut i: usize = 0;
    while i < ls.len()
        invariant
            i <= ls.len(),
            out@ == filled(ls@.take(i as int)),
        decreases ls.len() - i,
    {
        let ghost upto = ls@.take(i + 1);
        assert(upto.drop_last() =~= ls@.take(i as int));
        if !is_blank(ls[i].as_str()) {
            out.push(i);
        }
        i += 1;
    }
    assert(ls@.take(ls.len() as int) =~= ls@);
    out
}

} // verus!
