//! PID + TID + temporal-window attribution strategy.
//!
//! Within a configurable time window of the most recent ground-truth event for a given
//! (PID, TID), attribute to that RPC ID.  Where there is none, a later event within the window
//! counts, because a kernel event can be slightly ahead of the ground-truth log.  Outside the
//! window, return `None` (no attribution).
//!
//! Multiple window sizes should be evaluated to understand how quickly
//! ambiguity emerges as concurrency increases.

use vstd::prelude::*;
use vstd::string::*;

use crate::event::GroundTruthEvent;
use crate::event::KernelEvent;
use crate::identity::RpcId;
use crate::number::decimal;
use crate::number::push_decimal;
use crate::sorting::count_up_to;
use crate::sorting::law_sort_keeps_entries;
use crate::sorting::lemma_with_key_concat;
use crate::sorting::lemma_with_key_empty;
use crate::sorting::lemma_with_key_single;
use crate::sorting::sorted_by_key;
use crate::sorting::stable_sort_of;
use crate::sorting::with_key;
use crate::strategies::AttributionStrategy;
use crate::timeline::key_of_thread;
use crate::timeline::of_thread;
use crate::timeline::thread_key;
use crate::timeline::Timelines;

verus! {

/// How many nanoseconds a millisecond has.
pub const NS_PER_MS: u64 = 1_000_000;

// ---------------------------------------------------------------------------
// What the strategy decides
// ---------------------------------------------------------------------------

/// Whether `g` ran on the thread of `e`.
pub open spec fn on_thread(g: GroundTruthEvent, e: KernelEvent) -> bool {
    g.pid == e.pid && g.tid == e.tid
}

/// The latest ground-truth event on the thread of `e` that is not after `e`; of several with
/// one timestamp, the last.
pub open spec fn latest_before(gt: Seq<GroundTruthEvent>, e: KernelEvent) -> Option<
    GroundTruthEvent,
>
    decreases gt.len(),
{
    if gt.len() == 0 {
        None
    } else {
        let best = latest_before(gt.drop_last(), e);
        let g = gt.last();
        if on_thread(g, e) && g.timestamp_ns <= e.timestamp_ns && (best matches Some(b)
            ==> b.timestamp_ns <= g.timestamp_ns) {
            Some(g)
        } else {
            best
        }
    }
}

/// The earliest ground-truth event on the thread of `e` that is after `e`; of several with
/// one timestamp, the first.
pub open spec fn earliest_after(gt: Seq<GroundTruthEvent>, e: KernelEvent) -> Option<
    GroundTruthEvent,
>
    decreases gt.len(),
{
    if gt.len() == 0 {
        None
    } else {
        let best = earliest_after(gt.drop_last(), e);
        let g = gt.last();
        if on_thread(g, e) && g.timestamp_ns > e.timestamp_ns && (best matches Some(b)
            ==> g.timestamp_ns < b.timestamp_ns) {
            Some(g)
        } else {
            best
        }
    }
}

/// Whether the distance `d` lies in a window. The window holds its edge.
pub open spec fn in_window(d: int, window_ns: u64) -> bool {
    d <= window_ns
}

/// Whether the most recent ground-truth event on the thread of `e` lies in the window.
pub open spec fn past_in_window(gt: Seq<GroundTruthEvent>, e: KernelEvent, window_ns: u64) -> bool {
    match latest_before(gt, e) {
        Some(g) => in_window(e.timestamp_ns - g.timestamp_ns, window_ns),
        None => false,
    }
}

/// Whether the next ground-truth event on the thread of `e` lies in the window.
pub open spec fn future_in_window(
    gt: Seq<GroundTruthEvent>,
    e: KernelEvent,
    window_ns: u64,
) -> bool {
    match earliest_after(gt, e) {
        Some(g) => in_window(g.timestamp_ns - e.timestamp_ns, window_ns),
        None => false,
    }
}

/// The request of the most recent ground-truth event on the thread of `e`, if that lies in the
/// window; else the request of the next one, if that does.
pub open spec fn window_rpc(gt: Seq<GroundTruthEvent>, e: KernelEvent, window_ns: u64) -> Option<
    RpcId,
> {
    if past_in_window(gt, e, window_ns) {
        Some(latest_before(gt, e)->0.rpc_id)
    } else if future_in_window(gt, e, window_ns) {
        Some(earliest_after(gt, e)->0.rpc_id)
    } else {
        None
    }
}

/// The name of the strategy with the window `window_ns`.
pub open spec fn window_label(window_ns: u64) -> Seq<char> {
    "time_window_"@ + decimal((window_ns / NS_PER_MS) as nat) + "ms"@
}

// ---------------------------------------------------------------------------
// The same over a thread's timeline
// ---------------------------------------------------------------------------

/// What the strategy keeps of the ground truth.
spec fn marks_of(gt: Seq<GroundTruthEvent>) -> Seq<(u64, (u64, RpcId))> {
    gt.map_values(|g: GroundTruthEvent| (thread_key(g.pid, g.tid), (g.timestamp_ns, g.rpc_id)))
}

spec fn latest(c: Seq<(u64, RpcId)>, ts: u64) -> Option<(u64, RpcId)>
    decreases c.len(),
{
    if c.len() == 0 {
        None
    } else {
        let best = latest(c.drop_last(), ts);
        let m = c.last();
        if m.0 <= ts && (best matches Some(b) ==> b.0 <= m.0) {
            Some(m)
        } else {
            best
        }
    }
}

spec fn earliest(c: Seq<(u64, RpcId)>, ts: u64) -> Option<(u64, RpcId)>
    decreases c.len(),
{
    if c.len() == 0 {
        None
    } else {
        let best = earliest(c.drop_last(), ts);
        let m = c.last();
        if m.0 > ts && (best matches Some(b) ==> m.0 < b.0) {
            Some(m)
        } else {
            best
        }
    }
}

spec fn mark(g: Option<GroundTruthEvent>) -> Option<(u64, RpcId)> {
    match g {
        Some(g) => Some((g.timestamp_ns, g.rpc_id)),
        None => None,
    }
}

proof fn lemma_marks(gt: Seq<GroundTruthEvent>, e: KernelEvent)
    ensures
        latest(of_thread(marks_of(gt), thread_key(e.pid, e.tid)), e.timestamp_ns) == mark(
            latest_before(gt, e),
        ),
        earliest(of_thread(marks_of(gt), thread_key(e.pid, e.tid)), e.timestamp_ns) == mark(
            earliest_after(gt, e),
        ),
    decreases gt.len(),
{
    if gt.len() > 0 {
        let key = thread_key(e.pid, e.tid);
        let g = gt.last();
        lemma_marks(gt.drop_last(), e);
        assert(marks_of(gt).drop_last() =~= marks_of(gt.drop_last()));
        let before = of_thread(marks_of(gt.drop_last()), key);
        assert(thread_key(g.pid, g.tid) == key <==> on_thread(g, e));
        if on_thread(g, e) {
            let grown = of_thread(marks_of(gt), key);
            assert(grown == before.push((g.timestamp_ns, g.rpc_id)));
            assert(grown.drop_last() =~= before);
        }
    }
}

/// What [`latest`] finds: the last entry at the greatest key that is not above `ts`.
proof fn lemma_latest(c: Seq<(u64, RpcId)>, ts: u64)
    ensures
        match latest(c, ts) {
            None => forall|i: int| 0 <= i < c.len() ==> (#[trigger] c[i]).0 > ts,
            Some(m) => {
                &&& m.0 <= ts
                &&& c.contains(m)
                &&& with_key(c, m.0).len() > 0
                &&& with_key(c, m.0).last() == m
                &&& forall|i: int| 0 <= i < c.len() && (#[trigger] c[i]).0 <= ts ==> c[i].0 <= m.0
            },
        },
    decreases c.len(),
{
    reveal(Seq::filter);
    if c.len() > 0 {
        let rest = c.drop_last();
        lemma_latest(rest, ts);
        assert forall|i: int| 0 <= i < rest.len() implies rest[i] == #[trigger] c[i] by {}
        match latest(c, ts) {
            None => {},
            Some(m) => {
                if latest(rest, ts) == Some(m) && rest.contains(m) {
                    let j = choose|j: int| 0 <= j < rest.len() && rest[j] == m;
                    assert(c[j] == m);
                } else {
                    assert(c[c.len() - 1] == m);
                }
            },
        }
    }
}

/// What [`earliest`] finds: the first entry at the least key above `ts`.
proof fn lemma_earliest(c: Seq<(u64, RpcId)>, ts: u64)
    ensures
        match earliest(c, ts) {
            None => forall|i: int| 0 <= i < c.len() ==> (#[trigger] c[i]).0 <= ts,
            Some(m) => {
                &&& m.0 > ts
                &&& c.contains(m)
                &&& with_key(c, m.0).len() > 0
                &&& with_key(c, m.0)[0] == m
                &&& forall|i: int| 0 <= i < c.len() && (#[trigger] c[i]).0 > ts ==> m.0 <= c[i].0
            },
        },
    decreases c.len(),
{
    reveal(Seq::filter);
    if c.len() > 0 {
        let rest = c.drop_last();
        lemma_earliest(rest, ts);
        assert forall|i: int| 0 <= i < rest.len() implies rest[i] == #[trigger] c[i] by {}
        match earliest(c, ts) {
            None => {},
            Some(m) => {
                if earliest(rest, ts) == Some(m) {
                    let j = choose|j: int| 0 <= j < rest.len() && rest[j] == m;
                    assert(c[j] == m);
                } else {
                    assert(c[c.len() - 1] == m);
                    assert forall|i: int| 0 <= i < rest.len() implies (
                    #[trigger] rest[i]).0 != m.0 by {}
                    lemma_with_key_empty(rest, m.0);
                }
            },
        }
    }
}

/// The entry before `pos` in a sorted list is what [`latest`] finds in its input.
proof fn lemma_past(line: Seq<(u64, RpcId)>, input: Seq<(u64, RpcId)>, ts: u64, pos: int)
    requires
        stable_sort_of(line, input),
        0 <= pos <= line.len(),
        forall|i: int| 0 <= i < pos ==> (#[trigger] line[i]).0 <= ts,
        forall|i: int| pos <= i < line.len() ==> (#[trigger] line[i]).0 > ts,
    ensures
        latest(input, ts) == (if pos > 0 {
            Some(line[pos - 1])
        } else {
            None
        }),
{
    lemma_latest(input, ts);
    if latest(input, ts) is Some {
        let x = latest(input, ts)->0;
        law_sort_keeps_entries(line, input, x);
        let j = choose|j: int| 0 <= j < line.len() && line[j] == x;
        assert(j < pos);
        assert(line[j].0 <= line[pos - 1].0);
    }
    if pos > 0 {
        let m = line[pos - 1];
        assert(line.contains(m));
        law_sort_keeps_entries(line, input, m);
        let i = choose|i: int| 0 <= i < input.len() && input[i] == m;
        assert(input[i].0 <= ts);
        let x = latest(input, ts)->0;
        assert(x.0 == m.0);
        assert(with_key(line, m.0) == with_key(input, m.0));
        lemma_last_of_key(line, ts, pos);
    }
}

/// The last entry with the key of the entry before `pos` is that entry.
proof fn lemma_last_of_key(line: Seq<(u64, RpcId)>, ts: u64, pos: int)
    requires
        0 < pos <= line.len(),
        line[pos - 1].0 <= ts,
        forall|i: int| pos <= i < line.len() ==> (#[trigger] line[i]).0 > ts,
    ensures
        with_key(line, line[pos - 1].0).len() > 0,
        with_key(line, line[pos - 1].0).last() == line[pos - 1],
{
    let m = line[pos - 1];
    let front = line.take(pos - 1);
    let right = line.skip(pos);
    assert(line =~= front + seq![m] + right);
    lemma_with_key_concat(front + seq![m], right, m.0);
    lemma_with_key_concat(front, seq![m], m.0);
    lemma_with_key_single(m, m.0);
    assert forall|i: int| 0 <= i < right.len() implies (#[trigger] right[i]).0 != m.0 by {
        assert(line[pos + i].0 > ts);
    }
    lemma_with_key_empty(right, m.0);
}

/// The entry at `pos` in a sorted list is what [`earliest`] finds in its input.
proof fn lemma_future(line: Seq<(u64, RpcId)>, input: Seq<(u64, RpcId)>, ts: u64, pos: int)
    requires
        stable_sort_of(line, input),
        0 <= pos <= line.len(),
        forall|i: int| 0 <= i < pos ==> (#[trigger] line[i]).0 <= ts,
        forall|i: int| pos <= i < line.len() ==> (#[trigger] line[i]).0 > ts,
    ensures
        earliest(input, ts) == (if pos < line.len() {
            Some(line[pos])
        } else {
            None
        }),
{
    lemma_earliest(input, ts);
    if earliest(input, ts) is Some {
        let x = earliest(input, ts)->0;
        law_sort_keeps_entries(line, input, x);
        let j = choose|j: int| 0 <= j < line.len() && line[j] == x;
        assert(pos <= j);
        assert(line[pos].0 <= line[j].0);
    }
    if pos < line.len() {
        let m = line[pos];
        assert(line.contains(m));
        law_sort_keeps_entries(line, input, m);
        let i = choose|i: int| 0 <= i < input.len() && input[i] == m;
        assert(input[i].0 > ts);
        let x = earliest(input, ts)->0;
        assert(x.0 == m.0);
        assert(with_key(line, m.0) == with_key(input, m.0));
        lemma_first_of_key(line, ts, pos);
    }
}

/// The first entry with the key of the entry at `pos` is that entry.
proof fn lemma_first_of_key(line: Seq<(u64, RpcId)>, ts: u64, pos: int)
    requires
        0 <= pos < line.len(),
        line[pos].0 > ts,
        forall|i: int| 0 <= i < pos ==> (#[trigger] line[i]).0 <= ts,
    ensures
        with_key(line, line[pos].0).len() > 0,
        with_key(line, line[pos].0)[0] == line[pos],
{
    let m = line[pos];
    let left = line.take(pos);
    let tail = line.skip(pos + 1);
    assert(line =~= left + (seq![m] + tail));
    lemma_with_key_concat(left, seq![m] + tail, m.0);
    lemma_with_key_concat(seq![m], tail, m.0);
    lemma_with_key_single(m, m.0);
    assert forall|i: int| 0 <= i < left.len() implies (#[trigger] left[i]).0 != m.0 by {
        assert(line[i].0 <= ts);
    }
    lemma_with_key_empty(left, m.0);
}

// ---------------------------------------------------------------------------
// The strategy
// ---------------------------------------------------------------------------

/// Attributes an event to the request of the most recent event on its thread, within a window.
pub struct TimeWindowStrategy {
    /// Attribution window in nanoseconds.
    window_ns: u64,
    /// Per (PID, TID): the requests, in the order of time.
    timeline: Timelines<RpcId>,
    seen: Ghost<Seq<GroundTruthEvent>>,
}

impl TimeWindowStrategy {
    #[verifier::type_invariant]
    spec fn indexed(self) -> bool {
        &&& self.timeline.ordered()
        &&& forall|key: u64|
            stable_sort_of(#[trigger] self.timeline.at(key), of_thread(marks_of(self.seen@), key))
    }

    /// The attribution window in nanoseconds.
    pub closed spec fn window(&self) -> u64 {
        self.window_ns
    }

    /// A strategy with the window `window_ns` that knows of no event yet.
    pub fn new(window_ns: u64) -> (r: Self)
        ensures
            r.window() == window_ns,
            r.loaded() == Seq::<GroundTruthEvent>::empty(),
    {
        let timeline: Timelines<RpcId> = Timelines::new();
        let ghost none = Seq::<GroundTruthEvent>::empty();
        assert forall|key: u64|
            stable_sort_of(#[trigger] timeline.at(key), of_thread(marks_of(none), key)) by {
            assert(timeline.at(key) =~= of_thread(marks_of(none), key));
        }
        TimeWindowStrategy { window_ns, timeline, seen: Ghost(Seq::empty()) }
    }

    /// The attribution window in nanoseconds.
    pub fn window_ns(&self) -> (r: u64)
        ensures
            r == self.window(),
    {
        self.window_ns
    }

    /// What the strategy decides for `event`.
    pub(crate) fn decide(&self, event: &KernelEvent) -> (r: Option<RpcId>)
        ensures
            r == self.decision(*event),
    {
        proof {
            use_type_invariant(self);
        }
        let ts: u64 = event.timestamp_ns;
        let ghost key = thread_key(event.pid, event.tid);
        let ghost line = self.timeline.at(key);
        let ghost input = of_thread(marks_of(self.seen@), key);
        proof {
            assert(stable_sort_of(line, input));
            lemma_marks(self.seen@, *event);
        }
        let list = match self.timeline.get(key_of_thread(event.pid, event.tid)) {
            Some(list) => list,
            None => {
                proof {
                    lemma_past(line, input, ts, 0);
                    lemma_future(line, input, ts, 0);
                }
                return None;
            },
        };
        assert(sorted_by_key(line));
        let pos: usize = count_up_to(list, ts);
        proof {
            lemma_past(line, input, ts, pos as int);
            lemma_future(line, input, ts, pos as int);
        }
        if pos > 0 {
            let (t, rpc) = list[pos - 1];
            let dist: u64 = ts - t;
            if dist <= self.window_ns {
                return Some(rpc);
            }
        }
        // A kernel event can be slightly ahead of the ground-truth log.
        if pos < list.len() {
            let (t, rpc) = list[pos];
            let dist: u64 = t - ts;
            if dist <= self.window_ns {
                return Some(rpc);
            }
        }
        None
    }

    /// Return strategy instances for a set of window sizes (milliseconds).
    pub fn strategies_ms(windows_ms: &[u64]) -> (r: Vec<TimeWindowStrategy>)
        requires
            forall|i: int|
                0 <= i < windows_ms@.len() ==> #[trigger] windows_ms@[i] * NS_PER_MS <= u64::MAX,
        ensures
            r.len() == windows_ms@.len(),
            forall|i: int|
                #![trigger r@[i]]
                0 <= i < r.len() ==> r@[i].window() == windows_ms@[i] * NS_PER_MS && r@[i].loaded()
                    == Seq::<GroundTruthEvent>::empty(),
    {
        let mut out: Vec<TimeWindowStrategy> = Vec::new();
        let mut i: usize = 0;
        while i < windows_ms.len()
            invariant
                i <= windows_ms.len(),
                out.len() == i,
                forall|j: int|
                    0 <= j < windows_ms@.len() ==> #[trigger] windows_ms@[j] * NS_PER_MS
                        <= u64::MAX,
                forall|j: int|
                    #![trigger out@[j]]
                    0 <= j < i ==> out@[j].window() == windows_ms@[j] * NS_PER_MS
                        && out@[j].loaded() == Seq::<GroundTruthEvent>::empty(),
            decreases windows_ms.len() - i,
        {
            assert(windows_ms@[i as int] * NS_PER_MS <= u64::MAX);
            out.push(TimeWindowStrategy::new(windows_ms[i] * NS_PER_MS));
            i += 1;
        }
        out
    }
}

impl AttributionStrategy for TimeWindowStrategy {
    open spec fn label(&self) -> Seq<char> {
        window_label(self.window())
    }

    closed spec fn loaded(&self) -> Seq<GroundTruthEvent> {
        self.seen@
    }

    open spec fn decision(&self, event: KernelEvent) -> Option<RpcId> {
        window_rpc(self.loaded(), event, self.window())
    }

    open spec fn after(&self, event: KernelEvent) -> Self {
        *self
    }

    fn name(&self) -> (r: String) {
        let mut out = "time_window_".to_owned();
        push_decimal(&mut out, self.window_ns / NS_PER_MS);
        out.append("ms");
        out
    }

    fn load_ground_truth(&mut self, events: &[GroundTruthEvent])
        ensures
            final(self).window() == old(self).window(),
    {
        let mut items: Vec<(u64, (u64, RpcId))> = Vec::new();
        let mut i: usize = 0;
        while i < events.len()
            invariant
                i <= events.len(),
                items@ == marks_of(events@.take(i as int)),
            decreases events.len() - i,
        {
            let e = &events[i];
            items.push((key_of_thread(e.pid, e.tid), (e.timestamp_ns, RpcId(e.rpc_id.0))));
            assert(items@ =~= marks_of(events@.take(i + 1)));
            i += 1;
        }
        assert(events@.take(events.len() as int) =~= events@);
        let window_ns: u64 = self.window_ns;
        *self = TimeWindowStrategy {
            window_ns,
            timeline: Timelines::build(&items),
            seen: Ghost(events@),
        };
    }

    fn attribute(&mut self, event: &KernelEvent) -> (r: Option<RpcId>) {
        self.decide(event)
    }
}

} // verus!
