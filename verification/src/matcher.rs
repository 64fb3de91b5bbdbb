//! Pairing kernel events with the ground truth, for evaluation.

use vstd::prelude::*;

use crate::event::GroundTruthEvent;
use crate::event::KernelEvent;
use crate::event::KernelEventType;
use crate::event::OperationKind;
use crate::identity::RpcId;
use crate::sorting::count_up_to;
use crate::sorting::sorted_by_key;
use crate::sorting::stable_sort_of;
use crate::sorting::with_key;
use crate::timeline::key_of_thread;
use crate::timeline::of_thread;
use crate::timeline::thread_key;
use crate::timeline::Timelines;

verus! {

/// The widest distance in time of a match: ten seconds.
///
/// The window is generous because the only purpose is to align the two event streams for
/// evaluation; a strategy does not use it.
pub const MATCH_WINDOW_NS: u64 = 10_000_000_000;

// ---------------------------------------------------------------------------
// What a match is
// ---------------------------------------------------------------------------

/// Does this application-level operation produce the given kernel event type?
pub open spec fn produces(op: OperationKind, ev: KernelEventType) -> bool {
    match op {
        OperationKind::FileRead => ev == KernelEventType::Openat || ev == KernelEventType::Read,
        OperationKind::FileWrite => ev == KernelEventType::Openat || ev == KernelEventType::Write,
        OperationKind::NetworkConnect => ev == KernelEventType::Socket || ev
            == KernelEventType::Connect,
        OperationKind::ProcessSpawn => ev == KernelEventType::Clone || ev == KernelEventType::Fork
            || ev == KernelEventType::Execve,
    }
}

/// Does this application-level operation produce the given kernel event type?
pub fn operation_matches_kernel(op: OperationKind, ev: KernelEventType) -> (r: bool)
    ensures
        r == produces(op, ev),
{
    match op {
        OperationKind::FileRead => {
            matches!(ev, KernelEventType::Openat | KernelEventType::Read)
        },
        OperationKind::FileWrite => {
            matches!(ev, KernelEventType::Openat | KernelEventType::Write)
        },
        OperationKind::NetworkConnect => {
            matches!(ev, KernelEventType::Socket | KernelEventType::Connect)
        },
        OperationKind::ProcessSpawn => {
            matches!(ev, KernelEventType::Clone | KernelEventType::Fork | KernelEventType::Execve)
        },
    }
}

/// How far two timestamps lie apart.
pub open spec fn distance(a: u64, b: u64) -> int {
    if a <= b {
        b - a
    } else {
        a - b
    }
}

/// Whether `g` ran on the thread of `k` and is of a kind that produces events like `k`.
pub open spec fn candidate(g: GroundTruthEvent, k: KernelEvent) -> bool {
    g.pid == k.pid && g.tid == k.tid && produces(g.operation, k.event_type)
}

/// The candidates for `k` that lie `d` nanoseconds from it.
pub open spec fn candidates_at(gt: Seq<GroundTruthEvent>, k: KernelEvent, d: int) -> Seq<
    GroundTruthEvent,
> {
    gt.filter(|g: GroundTruthEvent| candidate(g, k) && distance(g.timestamp_ns, k.timestamp_ns) == d)
}

/// Whether the closest candidates for `k` within the window lie `d` nanoseconds from it.
pub open spec fn closest_distance(gt: Seq<GroundTruthEvent>, k: KernelEvent, d: int) -> bool {
    &&& 0 <= d <= MATCH_WINDOW_NS
    &&& candidates_at(gt, k, d).len() > 0
    &&& forall|n: int| 0 <= n < d ==> (#[trigger] candidates_at(gt, k, n)).len() == 0
}

/// The request whose operation `k` shows: that of the closest candidate within the window,
/// if no other candidate is as close.
pub open spec fn true_rpc(gt: Seq<GroundTruthEvent>, k: KernelEvent) -> Option<RpcId> {
    if exists|d: int| closest_distance(gt, k, d) {
        let d = choose|d: int| closest_distance(gt, k, d);
        if candidates_at(gt, k, d).len() == 1 {
            Some(candidates_at(gt, k, d)[0].rpc_id)
        } else {
            None
        }
    } else {
        None
    }
}

// ---------------------------------------------------------------------------
// The same over a thread's timeline
// ---------------------------------------------------------------------------

/// What the matcher keeps of a ground-truth event.
pub open spec fn entry_of(g: GroundTruthEvent) -> (u64, (u64, (OperationKind, RpcId))) {
    (thread_key(g.pid, g.tid), (g.timestamp_ns, (g.operation, g.rpc_id)))
}

/// What the matcher keeps of the ground truth.
pub open spec fn entries_of(gt: Seq<GroundTruthEvent>) -> Seq<
    (u64, (u64, (OperationKind, RpcId))),
> {
    gt.map_values(|g: GroundTruthEvent| entry_of(g))
}

/// The requests of the entries of `c` that fit an event of type `ev` and lie `d` from `ts`.
spec fn hits(c: Seq<(u64, (OperationKind, RpcId))>, ev: KernelEventType, ts: u64, d: int) -> Seq<
    RpcId,
>
    decreases c.len(),
{
    if c.len() == 0 {
        Seq::<RpcId>::empty()
    } else {
        let before = hits(c.drop_last(), ev, ts, d);
        let e = c.last();
        if produces(e.1.0, ev) && distance(e.0, ts) == d {
            before.push(e.1.1)
        } else {
            before
        }
    }
}

/// The requests of the entries of `c` that fit an event of type `ev`.
spec fn fitting(c: Seq<(u64, (OperationKind, RpcId))>, ev: KernelEventType) -> Seq<RpcId>
    decreases c.len(),
{
    if c.len() == 0 {
        Seq::<RpcId>::empty()
    } else {
        let before = fitting(c.drop_last(), ev);
        let e = c.last();
        if produces(e.1.0, ev) {
            before.push(e.1.1)
        } else {
            before
        }
    }
}

proof fn lemma_hits_concat(
    a: Seq<(u64, (OperationKind, RpcId))>,
    b: Seq<(u64, (OperationKind, RpcId))>,
    ev: KernelEventType,
    ts: u64,
    d: int,
)
    ensures
        hits(a + b, ev, ts, d) == hits(a, ev, ts, d) + hits(b, ev, ts, d),
    decreases b.len(),
{
    if b.len() == 0 {
        assert(a + b =~= a);
        assert(hits(a, ev, ts, d) + hits(b, ev, ts, d) =~= hits(a, ev, ts, d));
    } else {
        assert((a + b).drop_last() =~= a + b.drop_last());
        assert((a + b).last() == b.last());
        lemma_hits_concat(a, b.drop_last(), ev, ts, d);
        assert(hits(a + b, ev, ts, d) =~= hits(a, ev, ts, d) + hits(b, ev, ts, d));
    }
}

proof fn lemma_hits_single(
    e: (u64, (OperationKind, RpcId)),
    ev: KernelEventType,
    ts: u64,
    d: int,
)
    ensures
        hits(seq![e], ev, ts, d) == (if produces(e.1.0, ev) && distance(e.0, ts) == d {
            seq![e.1.1]
        } else {
            Seq::<RpcId>::empty()
        }),
{
    reveal_with_fuel(hits, 2);
    assert(seq![e].drop_last() =~= Seq::<(u64, (OperationKind, RpcId))>::empty());
    assert(Seq::<RpcId>::empty().push(e.1.1) =~= seq![e.1.1]);
}

/// Entries that all lie elsewhere are no hits.
proof fn lemma_hits_none(
    c: Seq<(u64, (OperationKind, RpcId))>,
    ev: KernelEventType,
    ts: u64,
    d: int,
)
    requires
        forall|i: int| 0 <= i < c.len() ==> distance((#[trigger] c[i]).0, ts) != d,
    ensures
        hits(c, ev, ts, d) == Seq::<RpcId>::empty(),
    decreases c.len(),
{
    if c.len() > 0 {
        assert forall|i: int| 0 <= i < c.drop_last().len() implies distance(
            (#[trigger] c.drop_last()[i]).0,
            ts,
        ) != d by {
            assert(c[i].0 == c.drop_last()[i].0);
        }
        lemma_hits_none(c.drop_last(), ev, ts, d);
        assert(c.last() == c[c.len() - 1]);
    }
}

/// The hits at the distance `d` are the fitting entries at the one or two timestamps that lie
/// there.
proof fn lemma_hits_by_key(
    c: Seq<(u64, (OperationKind, RpcId))>,
    ev: KernelEventType,
    ts: u64,
    d: int,
)
    requires
        0 <= d,
    ensures
        ({
            let past = if d <= ts {
                fitting(with_key(c, (ts - d) as u64), ev)
            } else {
                Seq::<RpcId>::empty()
            };
            let future = if d > 0 && ts + d <= u64::MAX {
                fitting(with_key(c, (ts + d) as u64), ev)
            } else {
                Seq::<RpcId>::empty()
            };
            &&& hits(c, ev, ts, d).len() == past.len() + future.len()
            &&& hits(c, ev, ts, d).len() == 1 ==> hits(c, ev, ts, d)[0] == (past + future)[0]
        }),
    decreases c.len(),
{
    reveal(Seq::filter);
    if c.len() > 0 {
        let rest = c.drop_last();
        let e = c.last();
        lemma_hits_by_key(rest, ev, ts, d);
        if d <= ts {
            let key = (ts - d) as u64;
            lemma_fitting_grows(c, ev, key);
        }
        if d > 0 && ts + d <= u64::MAX {
            let key = (ts + d) as u64;
            lemma_fitting_grows(c, ev, key);
        }
    }
}

proof fn lemma_fitting_grows(c: Seq<(u64, (OperationKind, RpcId))>, ev: KernelEventType, key: u64)
    requires
        c.len() > 0,
    ensures
        fitting(with_key(c, key), ev) == (if c.last().0 == key && produces(c.last().1.0, ev) {
            fitting(with_key(c.drop_last(), key), ev).push(c.last().1.1)
        } else {
            fitting(with_key(c.drop_last(), key), ev)
        }),
{
    reveal(Seq::filter);
    let before = with_key(c.drop_last(), key);
    if c.last().0 == key {
        assert(with_key(c, key) == before.push(c.last()));
        assert(before.push(c.last()).drop_last() =~= before);
    } else {
        assert(with_key(c, key) == before);
    }
}

/// Sorting a list moves no entry to another distance.
proof fn lemma_hits_sorted(
    out: Seq<(u64, (OperationKind, RpcId))>,
    input: Seq<(u64, (OperationKind, RpcId))>,
    ev: KernelEventType,
    ts: u64,
    d: int,
)
    requires
        stable_sort_of(out, input),
        0 <= d,
    ensures
        hits(out, ev, ts, d).len() == hits(input, ev, ts, d).len(),
        hits(out, ev, ts, d).len() == 1 ==> hits(out, ev, ts, d)[0] == hits(input, ev, ts, d)[0],
{
    lemma_hits_by_key(out, ev, ts, d);
    lemma_hits_by_key(input, ev, ts, d);
    if d <= ts {
        assert(with_key(out, (ts - d) as u64) == with_key(input, (ts - d) as u64));
    }
    if d > 0 && ts + d <= u64::MAX {
        assert(with_key(out, (ts + d) as u64) == with_key(input, (ts + d) as u64));
    }
}

/// The hits among a thread's entries are the candidates.
proof fn lemma_hits_are_candidates(gt: Seq<GroundTruthEvent>, k: KernelEvent, d: int)
    ensures
        hits(
            of_thread(entries_of(gt), thread_key(k.pid, k.tid)),
            k.event_type,
            k.timestamp_ns,
            d,
        ) == candidates_at(gt, k, d).map_values(|g: GroundTruthEvent| g.rpc_id),
    decreases gt.len(),
{
    reveal(Seq::filter);
    let key = thread_key(k.pid, k.tid);
    let f = |g: GroundTruthEvent| g.rpc_id;
    if gt.len() == 0 {
        assert(candidates_at(gt, k, d).map_values(f) =~= Seq::<RpcId>::empty());
    } else {
        let rest = gt.drop_last();
        let g = gt.last();
        lemma_hits_are_candidates(rest, k, d);
        assert(entries_of(gt).drop_last() =~= entries_of(rest));
        assert(entries_of(gt).last() == entry_of(g));
        let before = of_thread(entries_of(rest), key);
        assert(thread_key(g.pid, g.tid) == key <==> g.pid == k.pid && g.tid == k.tid);
        if thread_key(g.pid, g.tid) == key {
            let grown = of_thread(entries_of(gt), key);
            assert(grown == before.push(entry_of(g).1));
            assert(grown.drop_last() =~= before);
        }
        if candidate(g, k) && distance(g.timestamp_ns, k.timestamp_ns) == d {
            assert(candidates_at(gt, k, d) == candidates_at(rest, k, d).push(g));
            assert(candidates_at(gt, k, d).map_values(f) =~= candidates_at(rest, k, d).map_values(
                f,
            ).push(g.rpc_id));
        } else {
            assert(candidates_at(gt, k, d) == candidates_at(rest, k, d));
        }
    }
}

// ---------------------------------------------------------------------------
// The search
// ---------------------------------------------------------------------------

/// The closest hit so far: its distance, its request, and whether it is the only one there.
type Best = Option<(u64, RpcId, bool)>;

/// Whether `best` is the closest hit among the entries `c`.
spec fn best_of(
    best: Best,
    c: Seq<(u64, (OperationKind, RpcId))>,
    ev: KernelEventType,
    ts: u64,
) -> bool {
    match best {
        None => forall|d: int| 0 <= d ==> (#[trigger] hits(c, ev, ts, d)).len() == 0,
        Some((dist, rpc, alone)) => {
            &&& hits(c, ev, ts, dist as int).len() > 0
            &&& forall|d: int| 0 <= d < dist ==> (#[trigger] hits(c, ev, ts, d)).len() == 0
            &&& alone <==> hits(c, ev, ts, dist as int).len() == 1
            &&& alone ==> hits(c, ev, ts, dist as int)[0] == rpc
        },
    }
}

/// `best` after the entry `e` at the distance `dist` has been seen too.
fn improve(best: Best, op: OperationKind, rpc: RpcId, dist: u64, ev: KernelEventType) -> (r: Best)
    ensures
        r == (if !produces(op, ev) {
            best
        } else {
            match best {
                None => Some((dist, rpc, true)),
                Some(b) => if dist < b.0 {
                    Some((dist, rpc, true))
                } else if dist == b.0 {
                    Some((b.0, b.1, false))
                } else {
                    best
                },
            }
        }),
{
    if !operation_matches_kernel(op, ev) {
        return best;
    }
    match best {
        None => Some((dist, rpc, true)),
        Some((d, first, alone)) => if dist < d {
            Some((dist, rpc, true))
        } else if dist == d {
            Some((d, first, false))
        } else {
            Some((d, first, alone))
        },
    }
}

/// One more entry, at either end of those seen so far.
proof fn lemma_improve(
    best: Best,
    next: Best,
    c: Seq<(u64, (OperationKind, RpcId))>,
    e: (u64, (OperationKind, RpcId)),
    wider: Seq<(u64, (OperationKind, RpcId))>,
    ev: KernelEventType,
    ts: u64,
)
    requires
        best_of(best, c, ev, ts),
        wider == seq![e] + c || wider == c + seq![e],
        next == (if !produces(e.1.0, ev) {
            best
        } else {
            match best {
                None => Some((distance(e.0, ts) as u64, e.1.1, true)),
                Some(b) => if distance(e.0, ts) < b.0 {
                    Some((distance(e.0, ts) as u64, e.1.1, true))
                } else if distance(e.0, ts) == b.0 {
                    Some((b.0, b.1, false))
                } else {
                    best
                },
            }
        }),
    ensures
        best_of(next, wider, ev, ts),
{
    assert forall|d: int| 0 <= d implies (#[trigger] hits(wider, ev, ts, d)).len() == hits(
        c,
        ev,
        ts,
        d,
    ).len() + hits(seq![e], ev, ts, d).len() by {
        if wider == seq![e] + c {
            lemma_hits_concat(seq![e], c, ev, ts, d);
        } else {
            lemma_hits_concat(c, seq![e], ev, ts, d);
        }
    }
    assert forall|d: int| 0 <= d implies (#[trigger] hits(seq![e], ev, ts, d)).len() == (
    if produces(e.1.0, ev) && distance(e.0, ts) == d {
        1int
    } else {
        0int
    }) by {
        lemma_hits_single(e, ev, ts, d);
    }
    match next {
        None => {},
        Some((dist, rpc, alone)) => {
            let d = dist as int;
            lemma_hits_single(e, ev, ts, d);
            if wider == seq![e] + c {
                lemma_hits_concat(seq![e], c, ev, ts, d);
            } else {
                lemma_hits_concat(c, seq![e], ev, ts, d);
            }
            assert(hits(c, ev, ts, d).len() >= 0);
        },
    }
}

/// Match kernel events to ground-truth events.
///
/// 1. Index ground-truth by (PID, TID).
/// 2. For each kernel event, look up candidates with the same (PID, TID).
/// 3. Within a generous time window, prefer the closest ground-truth event whose operation
///    kind maps to the kernel event type.
/// 4. If no unique match exists, skip the kernel event.
pub struct EventMatcher {
    /// Per (PID, TID): the operations with their kinds and requests, in the order of time.
    by_tid: Timelines<(OperationKind, RpcId)>,
    /// The ground truth that was indexed.
    truth: Ghost<Seq<GroundTruthEvent>>,
}

impl View for EventMatcher {
    type V = Seq<GroundTruthEvent>;

    /// The ground truth that was indexed.
    closed spec fn view(&self) -> Seq<GroundTruthEvent> {
        self.truth@
    }
}

impl EventMatcher {
    #[verifier::type_invariant]
    spec fn indexed(self) -> bool {
        &&& self.by_tid.ordered()
        &&& forall|key: u64|
            stable_sort_of(#[trigger] self.by_tid.at(key), of_thread(entries_of(self.truth@), key))
    }

    /// Indexes the ground truth.
    pub fn new(ground_truth: &[GroundTruthEvent]) -> (r: Self)
        ensures
            r@ == ground_truth@,
    {
        let mut items: Vec<(u64, (u64, (OperationKind, RpcId)))> = Vec::new();
        let mut i: usize = 0;
        while i < ground_truth.len()
            invariant
                i <= ground_truth.len(),
                items@ == entries_of(ground_truth@.take(i as int)),
            decreases ground_truth.len() - i,
        {
            let e = &ground_truth[i];
            items.push(
                (key_of_thread(e.pid, e.tid), (e.timestamp_ns, (e.operation, RpcId(e.rpc_id.0)))),
            );
            assert(items@ =~= entries_of(ground_truth@.take(i + 1)));
            i += 1;
        }
        assert(ground_truth@.take(ground_truth.len() as int) =~= ground_truth@);
        EventMatcher { by_tid: Timelines::build(&items), truth: Ghost(ground_truth@) }
    }

    /// Try to find the ground-truth event that corresponds to this kernel
    /// event.  Returns `None` if no unique match exists.
    pub fn match_event(&self, kernel: &KernelEvent) -> (r: Option<RpcId>)
        ensures
            r == true_rpc(self@, *kernel),
    {
        proof {
            use_type_invariant(self);
        }
        let ts: u64 = kernel.timestamp_ns;
        let ev = kernel.event_type;
        let ghost key = thread_key(kernel.pid, kernel.tid);
        let ghost line = self.by_tid.at(key);
        let found = self.by_tid.get(key_of_thread(kernel.pid, kernel.tid));
        let mut best: Best = None;
        if let Some(list) = found {
            assert(sorted_by_key(line));
            let pos: usize = count_up_to(list, ts);
            let mut low: usize = pos;
            assert(line.subrange(pos as int, pos as int) =~= Seq::<
                (u64, (OperationKind, RpcId)),
            >::empty());
            // Backward, from the last entry that is not after the event.
            while low > 0 && ts - list[low - 1].0 <= MATCH_WINDOW_NS
                invariant
                    low <= pos <= list.len(),
                    list@ == line,
                    forall|i: int| 0 <= i < pos ==> (#[trigger] line[i]).0 <= ts,
                    best_of(best, line.subrange(low as int, pos as int), ev, ts),
                    best matches Some(b) ==> b.0 <= MATCH_WINDOW_NS,
                decreases low,
            {
                let ghost seen = line.subrange(low as int, pos as int);
                let ghost prior = best;
                let (t, (op, rpc)) = list[low - 1];
                best = improve(best, op, rpc, ts - t, ev);
                proof {
                    let wider = line.subrange(low - 1, pos as int);
                    assert(wider =~= seq![line[low - 1]] + seen);
                    lemma_improve(prior, best, seen, line[low - 1], wider, ev, ts);
                }
                low -= 1;
            }
            // Forward, from the first entry after the event.
            let mut high: usize = pos;
            while high < list.len() && list[high].0 - ts <= MATCH_WINDOW_NS
                invariant
                    low <= pos <= high <= list.len(),
                    list@ == line,
                    forall|i: int| pos <= i < line.len() ==> (#[trigger] line[i]).0 > ts,
                    best_of(best, line.subrange(low as int, high as int), ev, ts),
                    best matches Some(b) ==> b.0 <= MATCH_WINDOW_NS,
                decreases list.len() - high,
            {
                let ghost seen = line.subrange(low as int, high as int);
                let ghost prior = best;
                let (t, (op, rpc)) = list[high];
                best = improve(best, op, rpc, t - ts, ev);
                proof {
                    let wider = line.subrange(low as int, high + 1);
                    assert(wider =~= seen + seq![line[high as int]]);
                    lemma_improve(prior, best, seen, line[high as int], wider, ev, ts);
                }
                high += 1;
            }
            proof {
                let seen = line.subrange(low as int, high as int);
                let left = line.take(low as int);
                let right = line.skip(high as int);
                assert(line =~= left + seen + right);
                assert forall|d: int| 0 <= d <= MATCH_WINDOW_NS implies #[trigger] hits(
                    line,
                    ev,
                    ts,
                    d,
                ) == hits(seen, ev, ts, d) by {
                    assert forall|i: int| 0 <= i < left.len() implies distance(
                        (#[trigger] left[i]).0,
                        ts,
                    ) != d by {
                        assert(line[i].0 <= line[low - 1].0);
                    }
                    assert forall|i: int| 0 <= i < right.len() implies distance(
                        (#[trigger] right[i]).0,
                        ts,
                    ) != d by {
                        assert(line[high as int].0 <= line[high + i].0);
                    }
                    lemma_hits_none(left, ev, ts, d);
                    lemma_hits_none(right, ev, ts, d);
                    lemma_hits_concat(left + seen, right, ev, ts, d);
                    lemma_hits_concat(left, seen, ev, ts, d);
                    assert(hits(line, ev, ts, d) =~= hits(seen, ev, ts, d));
                }
            }
        }
        proof {
            let gt = self.truth@;
            let input = of_thread(entries_of(gt), key);
            assert(stable_sort_of(line, input));
            let f = |g: GroundTruthEvent| g.rpc_id;
            assert forall|d: int| 0 <= d <= MATCH_WINDOW_NS implies {
                &&& (#[trigger] candidates_at(gt, *kernel, d)).len() == hits(line, ev, ts, d).len()
                &&& candidates_at(gt, *kernel, d).len() == 1 ==> candidates_at(
                    gt,
                    *kernel,
                    d,
                )[0].rpc_id == hits(line, ev, ts, d)[0]
            } by {
                lemma_hits_sorted(line, input, ev, ts, d);
                lemma_hits_are_candidates(gt, *kernel, d);
                assert(candidates_at(gt, *kernel, d).map_values(f).len() == candidates_at(
                    gt,
                    *kernel,
                    d,
                ).len());
            }
            if found is None {
                assert(line =~= Seq::<(u64, (OperationKind, RpcId))>::empty());
            }
            match best {
                None => {
                    assert forall|d: int| !closest_distance(gt, *kernel, d) by {}
                },
                Some((dist, rpc, alone)) => {
                    assert(dist <= MATCH_WINDOW_NS);
                    assert(closest_distance(gt, *kernel, dist as int));
                    let d = choose|d: int| closest_distance(gt, *kernel, d);
                    assert(d == dist) by {
                        if d < dist {
                            assert(candidates_at(gt, *kernel, d).len() == 0);
                        } else if dist < d {
                            assert(candidates_at(gt, *kernel, dist as int).len() == 0);
                        }
                    }
                },
            }
        }
        match best {
            Some((_, rpc, true)) => Some(rpc),
            _ => None,
        }
    }
}

} // verus!
