//! What holds of the strategies and of their evaluation as a whole.

use vstd::prelude::*;

use crate::evaluation::known;
use crate::evaluation::rule_outcomes;
use crate::evaluation::rules;
use crate::evaluation::true_rpcs;
use crate::evaluation::Rule;
use crate::event::GroundTruthEvent;
use crate::event::KernelEvent;
use crate::event::KernelEventType;
use crate::identity::RpcId;
use crate::matcher::candidate;
use crate::matcher::candidates_at;
use crate::matcher::closest_distance;
use crate::matcher::distance;
use crate::matcher::true_rpc;
use crate::matcher::MATCH_WINDOW_NS;
use crate::metrics::count_correct;
use crate::metrics::count_unattributed;
use crate::metrics::count_wrong;
use crate::metrics::law_counts_partition;
use crate::strategies::majority_vote::ballots;
use crate::strategies::majority_vote::in_nanoseconds;
use crate::strategies::majority_vote::leads;
use crate::strategies::majority_vote::votes_for;
use crate::strategies::majority_vote::winner;
use crate::strategies::pid::last_of_pid;
use crate::strategies::tid::last_of_thread;
use crate::strategies::time_window::earliest_after;
use crate::strategies::time_window::in_window;
use crate::strategies::time_window::latest_before;
use crate::strategies::time_window::on_thread;
use crate::strategies::time_window::past_in_window;
use crate::strategies::time_window::window_rpc;

verus! {

// ---------------------------------------------------------------------------
// Matching
// ---------------------------------------------------------------------------

/// A matched kernel event belongs to a ground-truth event of its thread, of a kind that
/// produces such events, within the window; and no other such event is as close.
pub proof fn law_match_is_closest(gt: Seq<GroundTruthEvent>, k: KernelEvent)
    requires
        true_rpc(gt, k) is Some,
    ensures
        exists|i: int| #[trigger] closest_alone(gt, k, i) && Some(gt[i].rpc_id) == true_rpc(gt, k),
{
    let d = choose|d: int| closest_distance(gt, k, d);
    let p = |g: GroundTruthEvent|
        candidate(g, k) && distance(g.timestamp_ns, k.timestamp_ns) == d;
    let at = gt.filter(p);
    assert(at == candidates_at(gt, k, d));
    let g = at[0];
    assert(at.contains(g));
    gt.lemma_filter_contains_rev(p, g);
    gt.lemma_filter_pred(p, 0);
    let i = choose|i: int| 0 <= i < gt.len() && gt[i] == g;
    assert forall|j: int| 0 <= j < gt.len() && j != i && candidate(#[trigger] gt[j], k) implies d
        < distance(gt[j].timestamp_ns, k.timestamp_ns) by {
        let n = distance(gt[j].timestamp_ns, k.timestamp_ns);
        let q = |g: GroundTruthEvent|
            candidate(g, k) && distance(g.timestamp_ns, k.timestamp_ns) == n;
        gt.lemma_filter_contains(q, j);
        assert(gt.filter(q) == candidates_at(gt, k, n));
        if n < d {
            assert(candidates_at(gt, k, n).len() == 0);
        } else if n == d {
            lemma_two_in_filter(gt, p, i, j);
        }
    }
    assert(closest_alone(gt, k, i));
}

/// Whether `gt[i]` is a candidate for `k` within the window, and every other candidate is
/// farther away.
pub open spec fn closest_alone(gt: Seq<GroundTruthEvent>, k: KernelEvent, i: int) -> bool {
    &&& 0 <= i < gt.len()
    &&& candidate(gt[i], k)
    &&& distance(gt[i].timestamp_ns, k.timestamp_ns) <= MATCH_WINDOW_NS
    &&& forall|j: int|
        0 <= j < gt.len() && j != i && candidate(#[trigger] gt[j], k) ==> distance(
            gt[i].timestamp_ns,
            k.timestamp_ns,
        ) < distance(gt[j].timestamp_ns, k.timestamp_ns)
}

/// Two places that meet a predicate give two elements of the filtered list.
proof fn lemma_two_in_filter<A>(s: Seq<A>, p: spec_fn(A) -> bool, i: int, j: int)
    requires
        0 <= i < s.len(),
        0 <= j < s.len(),
        i != j,
        p(s[i]),
        p(s[j]),
    ensures
        s.filter(p).len() >= 2,
    decreases s.len(),
{
    reveal(Seq::filter);
    let last = s.len() - 1;
    let rest = s.drop_last();
    if i < last && j < last {
        lemma_two_in_filter(rest, p, i, j);
    } else {
        let other = if i == last {
            j
        } else {
            i
        };
        assert(rest[other] == s[other]);
        rest.lemma_filter_contains(p, other);
        assert(rest.filter(p).len() >= 1);
    }
}

/// A candidate that is closer than every other is matched.
pub proof fn law_closest_is_matched(gt: Seq<GroundTruthEvent>, k: KernelEvent, i: int)
    requires
        closest_alone(gt, k, i),
    ensures
        true_rpc(gt, k) == Some(gt[i].rpc_id),
{
    let d = distance(gt[i].timestamp_ns, k.timestamp_ns);
    let p = |g: GroundTruthEvent|
        candidate(g, k) && distance(g.timestamp_ns, k.timestamp_ns) == d;
    assert(gt.filter(p) == candidates_at(gt, k, d));
    lemma_one_in_filter(gt, p, i);
    assert forall|n: int| 0 <= n < d implies (#[trigger] candidates_at(gt, k, n)).len() == 0 by {
        let q = |g: GroundTruthEvent|
            candidate(g, k) && distance(g.timestamp_ns, k.timestamp_ns) == n;
        let at = gt.filter(q);
        assert(at == candidates_at(gt, k, n));
        if at.len() > 0 {
            gt.lemma_filter_pred(q, 0);
            assert(at.contains(at[0]));
            gt.lemma_filter_contains_rev(q, at[0]);
            let j = choose|j: int| 0 <= j < gt.len() && gt[j] == at[0];
            assert(candidate(gt[j], k));
        }
    }
    assert(closest_distance(gt, k, d));
    let e = choose|e: int| closest_distance(gt, k, e);
    assert(e == d) by {
        if e < d {
            assert(candidates_at(gt, k, e).len() == 0);
        } else if d < e {
            assert(candidates_at(gt, k, d).len() == 0);
        }
    }
}

/// A place that alone meets a predicate gives the one element of the filtered list.
proof fn lemma_one_in_filter<A>(s: Seq<A>, p: spec_fn(A) -> bool, i: int)
    requires
        0 <= i < s.len(),
        p(s[i]),
        forall|j: int| 0 <= j < s.len() && j != i ==> !p(#[trigger] s[j]),
    ensures
        s.filter(p) == seq![s[i]],
    decreases s.len(),
{
    reveal(Seq::filter);
    let rest = s.drop_last();
    assert forall|j: int| 0 <= j < rest.len() implies rest[j] == #[trigger] s[j] by {}
    if i == s.len() - 1 {
        lemma_none_in_filter(rest, p);
        assert(s.filter(p) =~= seq![s[i]]);
    } else {
        lemma_one_in_filter(rest, p, i);
        assert(!p(s[s.len() - 1]));
    }
}

proof fn lemma_none_in_filter<A>(s: Seq<A>, p: spec_fn(A) -> bool)
    requires
        forall|j: int| 0 <= j < s.len() ==> !p(#[trigger] s[j]),
    ensures
        s.filter(p) == Seq::<A>::empty(),
    decreases s.len(),
{
    reveal(Seq::filter);
    if s.len() > 0 {
        let rest = s.drop_last();
        assert forall|j: int| 0 <= j < rest.len() implies rest[j] == #[trigger] s[j] by {}
        lemma_none_in_filter(rest, p);
        assert(!p(s[s.len() - 1]));
    }
}

/// An event whose syscall is not known is never matched.
pub proof fn law_unknown_is_unmatched(gt: Seq<GroundTruthEvent>, k: KernelEvent)
    requires
        k.event_type == KernelEventType::Unknown,
    ensures
        true_rpc(gt, k) is None,
{
    if true_rpc(gt, k) is Some {
        law_match_is_closest(gt, k);
        let i = choose|i: int| #[trigger]
            closest_alone(gt, k, i) && Some(gt[i].rpc_id) == true_rpc(gt, k);
        assert(candidate(gt[i], k));
    }
}

// ---------------------------------------------------------------------------
// What a strategy can see
// ---------------------------------------------------------------------------

/// The PID strategy sees nothing of an event but its PID.
pub proof fn law_pid_sees_only_pid(gt: Seq<GroundTruthEvent>, a: KernelEvent, b: KernelEvent)
    requires
        a.pid == b.pid,
    ensures
        Rule::Pid.decide(gt, a) == Rule::Pid.decide(gt, b),
{
}

/// The PID+TID strategy sees nothing of an event but its thread.
pub proof fn law_tid_sees_only_thread(gt: Seq<GroundTruthEvent>, a: KernelEvent, b: KernelEvent)
    requires
        a.pid == b.pid,
        a.tid == b.tid,
    ensures
        Rule::PidTid.decide(gt, a) == Rule::PidTid.decide(gt, b),
{
}

/// The time-window strategy sees nothing of an event but its thread and its time.
pub proof fn law_window_sees_only_thread_and_time(
    gt: Seq<GroundTruthEvent>,
    a: KernelEvent,
    b: KernelEvent,
    window_ns: u64,
)
    requires
        a.pid == b.pid,
        a.tid == b.tid,
        a.timestamp_ns == b.timestamp_ns,
    ensures
        (Rule::TimeWindow { window_ns }).decide(gt, a) == (Rule::TimeWindow { window_ns }).decide(
            gt,
            b,
        ),
{
    lemma_same_neighbours(gt, a, b);
}

proof fn lemma_same_neighbours(gt: Seq<GroundTruthEvent>, a: KernelEvent, b: KernelEvent)
    requires
        a.pid == b.pid,
        a.tid == b.tid,
        a.timestamp_ns == b.timestamp_ns,
    ensures
        latest_before(gt, a) == latest_before(gt, b),
        earliest_after(gt, a) == earliest_after(gt, b),
    decreases gt.len(),
{
    if gt.len() > 0 {
        lemma_same_neighbours(gt.drop_last(), a, b);
    }
}

/// Where two requests share a process, the PID strategy is not right about both.
pub proof fn law_pid_fails_on_shared_process(
    gt: Seq<GroundTruthEvent>,
    a: KernelEvent,
    b: KernelEvent,
)
    requires
        a.pid == b.pid,
        true_rpc(gt, a) is Some,
        true_rpc(gt, b) is Some,
        true_rpc(gt, a) != true_rpc(gt, b),
    ensures
        Rule::Pid.decide(gt, a) != true_rpc(gt, a) || Rule::Pid.decide(gt, b) != true_rpc(gt, b),
{
}

/// Where two requests share a thread, the PID+TID strategy is not right about both.
pub proof fn law_tid_fails_on_shared_thread(
    gt: Seq<GroundTruthEvent>,
    a: KernelEvent,
    b: KernelEvent,
)
    requires
        a.pid == b.pid,
        a.tid == b.tid,
        true_rpc(gt, a) is Some,
        true_rpc(gt, b) is Some,
        true_rpc(gt, a) != true_rpc(gt, b),
    ensures
        Rule::PidTid.decide(gt, a) != true_rpc(gt, a) || Rule::PidTid.decide(gt, b) != true_rpc(
            gt,
            b,
        ),
{
}

proof fn lemma_last_of_pid(gt: Seq<GroundTruthEvent>, pid: u32)
    ensures
        match last_of_pid(gt, pid) {
            Some(rpc) => exists|i: int|
                0 <= i < gt.len() && (#[trigger] gt[i]).pid == pid && gt[i].rpc_id == rpc,
            None => forall|i: int| 0 <= i < gt.len() ==> (#[trigger] gt[i]).pid != pid,
        },
    decreases gt.len(),
{
    if gt.len() > 0 {
        let rest = gt.drop_last();
        assert(gt.last() == gt[gt.len() - 1]);
        lemma_last_of_pid(rest, pid);
        assert forall|i: int| 0 <= i < rest.len() implies rest[i] == #[trigger] gt[i] by {}
        if gt.last().pid != pid && last_of_pid(gt, pid) is Some {
            let rpc = last_of_pid(gt, pid)->0;
            let i = choose|i: int|
                0 <= i < rest.len() && (#[trigger] rest[i]).pid == pid && rest[i].rpc_id == rpc;
            assert(gt[i].pid == pid);
        }
    }
}

proof fn lemma_last_of_thread(gt: Seq<GroundTruthEvent>, pid: u32, tid: u32)
    ensures
        match last_of_thread(gt, pid, tid) {
            Some(rpc) => exists|i: int|
                0 <= i < gt.len() && (#[trigger] gt[i]).pid == pid && gt[i].tid == tid
                    && gt[i].rpc_id == rpc,
            None => forall|i: int|
                0 <= i < gt.len() ==> (#[trigger] gt[i]).pid != pid || gt[i].tid != tid,
        },
    decreases gt.len(),
{
    if gt.len() > 0 {
        let rest = gt.drop_last();
        assert(gt.last() == gt[gt.len() - 1]);
        lemma_last_of_thread(rest, pid, tid);
        assert forall|i: int| 0 <= i < rest.len() implies rest[i] == #[trigger] gt[i] by {}
        if !(gt.last().pid == pid && gt.last().tid == tid) && last_of_thread(gt, pid, tid) is Some {
            let rpc = last_of_thread(gt, pid, tid)->0;
            let i = choose|i: int|
                0 <= i < rest.len() && (#[trigger] rest[i]).pid == pid && rest[i].tid == tid
                    && rest[i].rpc_id == rpc;
            assert(gt[i].pid == pid);
        }
    }
}

/// Where each process serves one request, the PID strategy is right about every matched event.
pub proof fn law_pid_right_without_sharing(gt: Seq<GroundTruthEvent>, k: KernelEvent)
    requires
        forall|i: int, j: int|
            0 <= i < gt.len() && 0 <= j < gt.len() && (#[trigger] gt[i]).pid == (
            #[trigger] gt[j]).pid ==> gt[i].rpc_id == gt[j].rpc_id,
        true_rpc(gt, k) is Some,
    ensures
        Rule::Pid.decide(gt, k) == true_rpc(gt, k),
{
    law_match_is_closest(gt, k);
    let i = choose|i: int| #[trigger]
        closest_alone(gt, k, i) && Some(gt[i].rpc_id) == true_rpc(gt, k);
    lemma_last_of_pid(gt, k.pid);
    assert(gt[i].pid == k.pid);
}

/// Where each thread serves one request, the PID+TID strategy is right about every matched
/// event.
pub proof fn law_tid_right_without_sharing(gt: Seq<GroundTruthEvent>, k: KernelEvent)
    requires
        forall|i: int, j: int|
            0 <= i < gt.len() && 0 <= j < gt.len() && (#[trigger] gt[i]).pid == (
            #[trigger] gt[j]).pid && gt[i].tid == gt[j].tid ==> gt[i].rpc_id == gt[j].rpc_id,
        true_rpc(gt, k) is Some,
    ensures
        Rule::PidTid.decide(gt, k) == true_rpc(gt, k),
{
    law_match_is_closest(gt, k);
    let i = choose|i: int| #[trigger]
        closest_alone(gt, k, i) && Some(gt[i].rpc_id) == true_rpc(gt, k);
    lemma_last_of_thread(gt, k.pid, k.tid);
    assert(gt[i].pid == k.pid && gt[i].tid == k.tid);
}

// ---------------------------------------------------------------------------
// The time window
// ---------------------------------------------------------------------------

proof fn lemma_neighbours(gt: Seq<GroundTruthEvent>, e: KernelEvent)
    ensures
        match latest_before(gt, e) {
            Some(g) => {
                &&& gt.contains(g)
                &&& on_thread(g, e)
                &&& g.timestamp_ns <= e.timestamp_ns
                &&& forall|i: int|
                    0 <= i < gt.len() && on_thread(#[trigger] gt[i], e) && gt[i].timestamp_ns
                        <= e.timestamp_ns ==> gt[i].timestamp_ns <= g.timestamp_ns
            },
            None => forall|i: int|
                0 <= i < gt.len() && on_thread(#[trigger] gt[i], e) ==> gt[i].timestamp_ns
                    > e.timestamp_ns,
        },
        match earliest_after(gt, e) {
            Some(g) => {
                &&& gt.contains(g)
                &&& on_thread(g, e)
                &&& g.timestamp_ns > e.timestamp_ns
                &&& forall|i: int|
                    0 <= i < gt.len() && on_thread(#[trigger] gt[i], e) && gt[i].timestamp_ns
                        > e.timestamp_ns ==> gt[i].timestamp_ns >= g.timestamp_ns
            },
            None => forall|i: int|
                0 <= i < gt.len() && on_thread(#[trigger] gt[i], e) ==> gt[i].timestamp_ns
                    <= e.timestamp_ns,
        },
    decreases gt.len(),
{
    if gt.len() > 0 {
        let rest = gt.drop_last();
        lemma_neighbours(rest, e);
        assert(gt.last() == gt[gt.len() - 1]);
        assert forall|i: int| 0 <= i < rest.len() implies rest[i] == #[trigger] gt[i] by {}
        assert forall|g: GroundTruthEvent| rest.contains(g) implies #[trigger] gt.contains(g) by {
            let i = choose|i: int| 0 <= i < rest.len() && rest[i] == g;
            assert(gt[i] == g);
        }
        assert(gt.contains(gt.last()));
    }
}

/// An event is attributed exactly when a ground-truth event of its thread lies in the window.
pub proof fn law_window_bounds(gt: Seq<GroundTruthEvent>, e: KernelEvent, window_ns: u64)
    ensures
        window_rpc(gt, e, window_ns) is Some <==> exists|i: int|
            0 <= i < gt.len() && on_thread(#[trigger] gt[i], e) && in_window(
                distance(gt[i].timestamp_ns, e.timestamp_ns),
                window_ns,
            ),
{
    lemma_neighbours(gt, e);
    if window_rpc(gt, e, window_ns) is Some {
        let g = if past_in_window(gt, e, window_ns) {
            latest_before(gt, e)->0
        } else {
            earliest_after(gt, e)->0
        };
        let i = choose|i: int| 0 <= i < gt.len() && gt[i] == g;
        assert(on_thread(gt[i], e));
    }
}

/// Whether `g` is a most recent event for `e`: it ran on the thread of `e`, not after it, and
/// nothing on that thread lies between the two.
pub open spec fn most_recent(
    gt: Seq<GroundTruthEvent>,
    e: KernelEvent,
    g: GroundTruthEvent,
) -> bool {
    &&& gt.contains(g)
    &&& on_thread(g, e)
    &&& g.timestamp_ns <= e.timestamp_ns
    &&& forall|i: int|
        0 <= i < gt.len() && on_thread(#[trigger] gt[i], e) && gt[i].timestamp_ns
            <= e.timestamp_ns ==> gt[i].timestamp_ns <= g.timestamp_ns
}

/// Whether `g` is a next event for `e`: it ran on the thread of `e`, after it, and nothing on that
/// thread lies between the two.
pub open spec fn next_up(gt: Seq<GroundTruthEvent>, e: KernelEvent, g: GroundTruthEvent) -> bool {
    &&& gt.contains(g)
    &&& on_thread(g, e)
    &&& g.timestamp_ns > e.timestamp_ns
    &&& forall|i: int|
        0 <= i < gt.len() && on_thread(#[trigger] gt[i], e) && gt[i].timestamp_ns
            > e.timestamp_ns ==> gt[i].timestamp_ns >= g.timestamp_ns
}

/// Whether an event of the thread of `e` up to its time lies in the window.
pub open spec fn some_past_in_window(
    gt: Seq<GroundTruthEvent>,
    e: KernelEvent,
    window_ns: u64,
) -> bool {
    exists|i: int|
        0 <= i < gt.len() && on_thread(#[trigger] gt[i], e) && gt[i].timestamp_ns <= e.timestamp_ns
            && in_window(e.timestamp_ns - gt[i].timestamp_ns, window_ns)
}

/// The attributed request is that of a most recent event of the same thread, which lies in the
/// window. Only where no event up to this time lies in the window, it is that of a next event
/// within it.
pub proof fn law_window_attributes_most_recent(
    gt: Seq<GroundTruthEvent>,
    e: KernelEvent,
    window_ns: u64,
)
    requires
        window_rpc(gt, e, window_ns) is Some,
    ensures
        some_past_in_window(gt, e, window_ns) ==> exists|g: GroundTruthEvent| #[trigger]
            most_recent(gt, e, g) && in_window(e.timestamp_ns - g.timestamp_ns, window_ns) && Some(
                g.rpc_id,
            ) == window_rpc(gt, e, window_ns),
        !some_past_in_window(gt, e, window_ns) ==> exists|g: GroundTruthEvent| #[trigger]
            next_up(gt, e, g) && in_window(g.timestamp_ns - e.timestamp_ns, window_ns) && Some(
                g.rpc_id,
            ) == window_rpc(gt, e, window_ns),
{
    lemma_neighbours(gt, e);
    if past_in_window(gt, e, window_ns) {
        let g = latest_before(gt, e)->0;
        assert(most_recent(gt, e, g));
        let i = choose|i: int| 0 <= i < gt.len() && gt[i] == g;
        assert(on_thread(gt[i], e));
    } else {
        assert(next_up(gt, e, earliest_after(gt, e)->0));
    }
}

/// What a window attributes, every wider window attributes too.
pub proof fn law_window_stays_attributed(
    gt: Seq<GroundTruthEvent>,
    e: KernelEvent,
    narrow_ns: u64,
    wide_ns: u64,
)
    requires
        narrow_ns <= wide_ns,
        window_rpc(gt, e, narrow_ns) is Some,
    ensures
        window_rpc(gt, e, wide_ns) is Some,
{
}

/// Whether widening the window reaches a most recent event of another request than the one that
/// the narrow window attributes `e` to.
pub open spec fn reaches_another(
    gt: Seq<GroundTruthEvent>,
    e: KernelEvent,
    narrow_ns: u64,
    wide_ns: u64,
) -> bool {
    &&& !past_in_window(gt, e, narrow_ns)
    &&& past_in_window(gt, e, wide_ns)
    &&& Some(latest_before(gt, e)->0.rpc_id) != window_rpc(gt, e, narrow_ns)
}

/// What a window attributes, every wider window attributes to the same request, unless it reaches
/// a most recent event of another request.
pub proof fn law_window_widening(
    gt: Seq<GroundTruthEvent>,
    e: KernelEvent,
    narrow_ns: u64,
    wide_ns: u64,
)
    requires
        narrow_ns <= wide_ns,
        window_rpc(gt, e, narrow_ns) is Some,
        !reaches_another(gt, e, narrow_ns, wide_ns),
    ensures
        window_rpc(gt, e, wide_ns) == window_rpc(gt, e, narrow_ns),
{
}

// ---------------------------------------------------------------------------
// The vote
// ---------------------------------------------------------------------------

/// What each of the strategies with the windows `windows_ms` decides for `e`.
pub open spec fn decisions(
    gt: Seq<GroundTruthEvent>,
    e: KernelEvent,
    windows_ms: Seq<u64>,
) -> Seq<Option<RpcId>> {
    rules(windows_ms).map_values(|r: Rule| r.decide(gt, e))
}

/// The majority vote is one of all the other strategies, and a request wins it exactly when more
/// of them name it than any other request.
pub proof fn law_vote_follows_most(
    gt: Seq<GroundTruthEvent>,
    e: KernelEvent,
    windows_ms: Seq<u64>,
    rpc: RpcId,
)
    ensures
        (Rule::MajorityVote { windows_ns: in_nanoseconds(windows_ms) }).decide(gt, e) == Some(rpc)
            <==> leads(decisions(gt, e, windows_ms), rpc),
{
    let votes = ballots(gt, e, in_nanoseconds(windows_ms));
    assert(votes =~= decisions(gt, e, windows_ms));
    if winner(votes) == Some(rpc) {
        assert(leads(votes, rpc));
    }
    if leads(votes, rpc) {
        let chosen = winner(votes)->0;
        assert(leads(votes, chosen));
        if chosen != rpc {
            assert(votes_for(votes, rpc) < votes_for(votes, chosen));
            assert(votes_for(votes, chosen) < votes_for(votes, rpc));
        }
    }
}

proof fn lemma_unanimous(votes: Seq<Option<RpcId>>, rpc: RpcId, other: RpcId)
    requires
        forall|i: int| 0 <= i < votes.len() ==> ((#[trigger] votes[i]) is None || votes[i] == Some(rpc)),
        other != rpc,
    ensures
        votes_for(votes, other) == 0,
        votes.contains(Some(rpc)) ==> votes_for(votes, rpc) > 0,
    decreases votes.len(),
{
    if votes.len() > 0 {
        let rest = votes.drop_last();
        assert forall|i: int| 0 <= i < rest.len() implies ((#[trigger] rest[i]) is None || rest[i]
            == Some(rpc)) by {
            assert(rest[i] == votes[i]);
        }
        lemma_unanimous(rest, rpc, other);
        assert(votes.last() == votes[votes.len() - 1]);
        if votes.contains(Some(rpc)) && votes.last() != Some(rpc) {
            let i = choose|i: int| 0 <= i < votes.len() && votes[i] == Some(rpc);
            assert(rest[i] == Some(rpc));
        }
    }
}

/// Where all strategies that decide name one request, the vote names it too.
pub proof fn law_unanimous_vote(
    gt: Seq<GroundTruthEvent>,
    e: KernelEvent,
    windows_ms: Seq<u64>,
    rpc: RpcId,
)
    requires
        decisions(gt, e, windows_ms).contains(Some(rpc)),
        forall|i: int|
            0 <= i < decisions(gt, e, windows_ms).len() ==> ((#[trigger] decisions(
                gt,
                e,
                windows_ms,
            )[i]) is None || decisions(gt, e, windows_ms)[i] == Some(rpc)),
    ensures
        (Rule::MajorityVote { windows_ns: in_nanoseconds(windows_ms) }).decide(gt, e) == Some(rpc),
{
    let votes = decisions(gt, e, windows_ms);
    assert forall|other: RpcId| other != rpc implies #[trigger] votes_for(votes, other)
        < votes_for(votes, rpc) by {
        lemma_unanimous(votes, rpc, other);
    }
    law_vote_follows_most(gt, e, windows_ms, rpc);
}

// ---------------------------------------------------------------------------
// Evaluation
// ---------------------------------------------------------------------------

/// Every strategy has one outcome for each matched kernel event: correct, wrong or none.
pub proof fn law_outcomes_cover_matched(
    rule: Rule,
    gt: Seq<GroundTruthEvent>,
    ke: Seq<KernelEvent>,
)
    ensures
        rule_outcomes(rule, gt, ke).len() == known(true_rpcs(gt, ke)),
        count_correct(rule_outcomes(rule, gt, ke)) + count_wrong(rule_outcomes(rule, gt, ke))
            + count_unattributed(rule_outcomes(rule, gt, ke)) == known(true_rpcs(gt, ke)),
    decreases ke.len(),
{
    law_counts_partition(rule_outcomes(rule, gt, ke));
    if ke.len() > 0 {
        law_outcomes_cover_matched(rule, gt, ke.drop_last());
        assert(true_rpcs(gt, ke).drop_last() =~= true_rpcs(gt, ke.drop_last()));
        assert(true_rpcs(gt, ke).last() == true_rpc(gt, ke.last()));
    }
}

/// A wider window leaves no more events without attribution.
pub proof fn law_wider_window_attributes_more(
    gt: Seq<GroundTruthEvent>,
    ke: Seq<KernelEvent>,
    narrow_ns: u64,
    wide_ns: u64,
)
    requires
        narrow_ns <= wide_ns,
    ensures
        count_unattributed(rule_outcomes(Rule::TimeWindow { window_ns: wide_ns }, gt, ke))
            <= count_unattributed(
            rule_outcomes(Rule::TimeWindow { window_ns: narrow_ns }, gt, ke),
        ),
    decreases ke.len(),
{
    if ke.len() > 0 {
        let rest = ke.drop_last();
        let k = ke.last();
        law_wider_window_attributes_more(gt, rest, narrow_ns, wide_ns);
        if window_rpc(gt, k, narrow_ns) is Some {
            law_window_stays_attributed(gt, k, narrow_ns, wide_ns);
        }
        if true_rpc(gt, k) is Some {
            let narrow = Rule::TimeWindow { window_ns: narrow_ns };
            let wide = Rule::TimeWindow { window_ns: wide_ns };
            assert(rule_outcomes(narrow, gt, ke).drop_last() =~= rule_outcomes(narrow, gt, rest));
            assert(rule_outcomes(wide, gt, ke).drop_last() =~= rule_outcomes(wide, gt, rest));
        }
    }
}

/// A wider window is right about no fewer events, if for none of those that the narrow one is right
/// about it reaches a most recent event of another request.
pub proof fn law_wider_window_stays_right(
    gt: Seq<GroundTruthEvent>,
    ke: Seq<KernelEvent>,
    narrow_ns: u64,
    wide_ns: u64,
)
    requires
        narrow_ns <= wide_ns,
        forall|i: int|
            0 <= i < ke.len() ==> !reaches_another(gt, #[trigger] ke[i], narrow_ns, wide_ns)
                || window_rpc(gt, ke[i], narrow_ns) != true_rpc(gt, ke[i]),
    ensures
        count_correct(rule_outcomes(Rule::TimeWindow { window_ns: narrow_ns }, gt, ke))
            <= count_correct(rule_outcomes(Rule::TimeWindow { window_ns: wide_ns }, gt, ke)),
    decreases ke.len(),
{
    if ke.len() > 0 {
        let rest = ke.drop_last();
        let k = ke.last();
        assert forall|i: int| 0 <= i < rest.len() implies !reaches_another(
            gt,
            #[trigger] rest[i],
            narrow_ns,
            wide_ns,
        ) || window_rpc(gt, rest[i], narrow_ns) != true_rpc(gt, rest[i]) by {
            assert(rest[i] == ke[i]);
        }
        law_wider_window_stays_right(gt, rest, narrow_ns, wide_ns);
        assert(k == ke[ke.len() - 1]);
        if window_rpc(gt, k, narrow_ns) is Some && !reaches_another(gt, k, narrow_ns, wide_ns) {
            law_window_widening(gt, k, narrow_ns, wide_ns);
        }
        if true_rpc(gt, k) is Some {
            let narrow = Rule::TimeWindow { window_ns: narrow_ns };
            let wide = Rule::TimeWindow { window_ns: wide_ns };
            assert(rule_outcomes(narrow, gt, ke).drop_last() =~= rule_outcomes(narrow, gt, rest));
            assert(rule_outcomes(wide, gt, ke).drop_last() =~= rule_outcomes(wide, gt, rest));
        }
    }
}

} // verus!
