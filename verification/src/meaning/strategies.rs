//! What the strategies decide.

use vstd::prelude::*;
use vstd::string::*;

use crate::evaluation::rules;
use crate::evaluation::rules_with_vote;
use crate::evaluation::Rule;
use crate::event::GroundTruthEvent;
use crate::event::KernelEvent;
use crate::identity::RpcId;
use crate::number::decimal;
use crate::strategies::majority_vote::ballots;
use crate::strategies::majority_vote::in_nanoseconds;
use crate::strategies::majority_vote::leads;
use crate::strategies::majority_vote::votes_for;
use crate::strategies::majority_vote::winner;
use crate::strategies::majority_vote::MajorityVoteStrategy;
use crate::strategies::pid::last_of_pid;
use crate::strategies::pid::PidStrategy;
use crate::strategies::tid::last_of_thread;
use crate::strategies::tid::PidTidStrategy;
use crate::strategies::time_window::earliest_after;
use crate::strategies::time_window::latest_before;
use crate::strategies::time_window::window_label;
use crate::strategies::time_window::window_rpc;
use crate::strategies::time_window::TimeWindowStrategy;
use crate::strategies::time_window::NS_PER_MS;
use crate::strategies::AttributionStrategy;

verus! {

// ---------------------------------------------------------------------------
// Processes
// ---------------------------------------------------------------------------

/// The last record of a process decides for every event of the process.
pub proof fn law_last_record_of_process_decides(gt: Seq<GroundTruthEvent>, pid: u32, i: int)
    requires
        0 <= i < gt.len(),
        gt[i].pid == pid,
        forall|j: int| i < j < gt.len() ==> (#[trigger] gt[j]).pid != pid,
    ensures
        last_of_pid(gt, pid) == Some(gt[i].rpc_id),
        forall|s: PidStrategy, e: KernelEvent|
            s.loaded() == gt && e.pid == pid ==> #[trigger] s.decision(e) == Some(gt[i].rpc_id),
        forall|e: KernelEvent|
            e.pid == pid ==> #[trigger] Rule::Pid.decide(gt, e) == Some(gt[i].rpc_id),
    decreases gt.len(),
{
    if i < gt.len() - 1 {
        let rest = gt.drop_last();
        assert(gt[gt.len() - 1].pid != pid);
        assert forall|j: int| i < j < rest.len() implies (#[trigger] rest[j]).pid != pid by {
            assert(rest[j] == gt[j]);
        }
        law_last_record_of_process_decides(rest, pid, i);
    }
}

/// A process without records is not attributed.
pub proof fn law_process_without_records(gt: Seq<GroundTruthEvent>, pid: u32)
    requires
        forall|j: int| 0 <= j < gt.len() ==> (#[trigger] gt[j]).pid != pid,
    ensures
        last_of_pid(gt, pid) is None,
        forall|s: PidStrategy, e: KernelEvent|
            s.loaded() == gt && e.pid == pid ==> #[trigger] s.decision(e) is None,
        forall|e: KernelEvent| e.pid == pid ==> #[trigger] Rule::Pid.decide(gt, e) is None,
    decreases gt.len(),
{
    if gt.len() > 0 {
        let rest = gt.drop_last();
        assert(gt[gt.len() - 1].pid != pid);
        assert forall|j: int| 0 <= j < rest.len() implies (#[trigger] rest[j]).pid != pid by {
            assert(rest[j] == gt[j]);
        }
        law_process_without_records(rest, pid);
    }
}

// ---------------------------------------------------------------------------
// Threads
// ---------------------------------------------------------------------------

/// The last record of a thread decides for every event of the thread.
pub proof fn law_last_record_of_thread_decides(
    gt: Seq<GroundTruthEvent>,
    pid: u32,
    tid: u32,
    i: int,
)
    requires
        0 <= i < gt.len(),
        gt[i].pid == pid,
        gt[i].tid == tid,
        forall|j: int| i < j < gt.len() ==> !((#[trigger] gt[j]).pid == pid && gt[j].tid == tid),
    ensures
        last_of_thread(gt, pid, tid) == Some(gt[i].rpc_id),
        forall|s: PidTidStrategy, e: KernelEvent|
            s.loaded() == gt && e.pid == pid && e.tid == tid ==> #[trigger] s.decision(e) == Some(
                gt[i].rpc_id,
            ),
        forall|e: KernelEvent|
            e.pid == pid && e.tid == tid ==> #[trigger] Rule::PidTid.decide(gt, e) == Some(
                gt[i].rpc_id,
            ),
    decreases gt.len(),
{
    if i < gt.len() - 1 {
        let rest = gt.drop_last();
        assert(!(gt[gt.len() - 1].pid == pid && gt[gt.len() - 1].tid == tid));
        assert forall|j: int| i < j < rest.len() implies !((#[trigger] rest[j]).pid == pid
            && rest[j].tid == tid) by {
            assert(rest[j] == gt[j]);
        }
        law_last_record_of_thread_decides(rest, pid, tid, i);
    }
}

/// A thread without records is not attributed.
pub proof fn law_thread_without_records(gt: Seq<GroundTruthEvent>, pid: u32, tid: u32)
    requires
        forall|j: int| 0 <= j < gt.len() ==> !((#[trigger] gt[j]).pid == pid && gt[j].tid == tid),
    ensures
        last_of_thread(gt, pid, tid) is None,
        forall|s: PidTidStrategy, e: KernelEvent|
            s.loaded() == gt && e.pid == pid && e.tid == tid ==> #[trigger] s.decision(e) is None,
        forall|e: KernelEvent|
            e.pid == pid && e.tid == tid ==> #[trigger] Rule::PidTid.decide(gt, e) is None,
    decreases gt.len(),
{
    if gt.len() > 0 {
        let rest = gt.drop_last();
        assert(!(gt[gt.len() - 1].pid == pid && gt[gt.len() - 1].tid == tid));
        assert forall|j: int| 0 <= j < rest.len() implies !((#[trigger] rest[j]).pid == pid
            && rest[j].tid == tid) by {
            assert(rest[j] == gt[j]);
        }
        law_thread_without_records(rest, pid, tid);
    }
}

/// The two strategies by process and thread are named by what they look at, decide as the rules of
/// these names do, and do not change by deciding.
pub proof fn law_process_and_thread_strategies(s: PidStrategy, t: PidTidStrategy, e: KernelEvent)
    ensures
        s.label() == "pid"@,
        t.label() == "pid_tid"@,
        s.decision(e) == Rule::Pid.decide(s.loaded(), e),
        t.decision(e) == Rule::PidTid.decide(t.loaded(), e),
        s.after(e) == s,
        t.after(e) == t,
{
}

// ---------------------------------------------------------------------------
// Time windows
// ---------------------------------------------------------------------------

/// What the neighbours of an event are.
proof fn lemma_neighbour_places(gt: Seq<GroundTruthEvent>, e: KernelEvent)
    ensures
        match latest_before(gt, e) {
            Some(g) => exists|i: int| #[trigger] last_before_place(gt, e, i) && gt[i] == g,
            None => forall|i: int|
                0 <= i < gt.len() ==> !((#[trigger] gt[i]).pid == e.pid && gt[i].tid == e.tid
                    && gt[i].timestamp_ns <= e.timestamp_ns),
        },
        match earliest_after(gt, e) {
            Some(g) => exists|i: int| #[trigger] first_after_place(gt, e, i) && gt[i] == g,
            None => forall|i: int|
                0 <= i < gt.len() ==> !((#[trigger] gt[i]).pid == e.pid && gt[i].tid == e.tid
                    && gt[i].timestamp_ns > e.timestamp_ns),
        },
    decreases gt.len(),
{
    if gt.len() > 0 {
        let rest = gt.drop_last();
        let n = gt.len() - 1;
        lemma_neighbour_places(rest, e);
        assert forall|i: int| 0 <= i < rest.len() implies rest[i] == #[trigger] gt[i] by {}
        let past = latest_before(rest, e);
        if past is Some {
            let i = choose|i: int| #[trigger] last_before_place(rest, e, i) && rest[i] == past->0;
            if latest_before(gt, e) == past && !(gt[n].pid == e.pid && gt[n].tid == e.tid
                && gt[n].timestamp_ns <= e.timestamp_ns && past->0.timestamp_ns
                <= gt[n].timestamp_ns) {
                assert(last_before_place(gt, e, i));
            } else {
                assert(last_before_place(gt, e, n));
            }
        } else if latest_before(gt, e) is Some {
            assert(last_before_place(gt, e, n));
        }
        let future = earliest_after(rest, e);
        if future is Some {
            let i = choose|i: int| #[trigger]
                first_after_place(rest, e, i) && rest[i] == future->0;
            if gt[n].pid == e.pid && gt[n].tid == e.tid && gt[n].timestamp_ns > e.timestamp_ns
                && gt[n].timestamp_ns < future->0.timestamp_ns {
                assert(first_after_place(gt, e, n));
            } else {
                assert(first_after_place(gt, e, i));
            }
        } else if earliest_after(gt, e) is Some {
            assert(first_after_place(gt, e, n));
        }
    }
}

/// Whether the record at `i` is the last of those of the thread of `e` with the greatest timestamp
/// up to that of `e`.
pub open spec fn last_before_place(gt: Seq<GroundTruthEvent>, e: KernelEvent, i: int) -> bool {
    &&& 0 <= i < gt.len()
    &&& gt[i].pid == e.pid
    &&& gt[i].tid == e.tid
    &&& gt[i].timestamp_ns <= e.timestamp_ns
    &&& forall|j: int|
        0 <= j < gt.len() && (#[trigger] gt[j]).pid == e.pid && gt[j].tid == e.tid
            && gt[j].timestamp_ns <= e.timestamp_ns ==> gt[j].timestamp_ns < gt[i].timestamp_ns || (
        gt[j].timestamp_ns == gt[i].timestamp_ns && j <= i)
}

/// Whether the record at `i` is the first of those of the thread of `e` with the least timestamp
/// above that of `e`.
pub open spec fn first_after_place(gt: Seq<GroundTruthEvent>, e: KernelEvent, i: int) -> bool {
    &&& 0 <= i < gt.len()
    &&& gt[i].pid == e.pid
    &&& gt[i].tid == e.tid
    &&& gt[i].timestamp_ns > e.timestamp_ns
    &&& forall|j: int|
        0 <= j < gt.len() && (#[trigger] gt[j]).pid == e.pid && gt[j].tid == e.tid
            && gt[j].timestamp_ns > e.timestamp_ns ==> gt[j].timestamp_ns > gt[i].timestamp_ns || (
        gt[j].timestamp_ns == gt[i].timestamp_ns && j >= i)
}

/// An event is attributed exactly when a record of its process and thread lies at most the window
/// away, before it or after it.
pub proof fn law_window_attributes_within_reach(
    gt: Seq<GroundTruthEvent>,
    e: KernelEvent,
    window_ns: u64,
)
    ensures
        window_rpc(gt, e, window_ns) is Some <==> exists|i: int|
            #![trigger gt[i]]
            0 <= i < gt.len() && gt[i].pid == e.pid && gt[i].tid == e.tid && -window_ns
                <= gt[i].timestamp_ns - e.timestamp_ns <= window_ns,
{
    lemma_neighbour_places(gt, e);
    let past = latest_before(gt, e);
    let future = earliest_after(gt, e);
    if past is Some {
        let i = choose|i: int| #[trigger] last_before_place(gt, e, i) && gt[i] == past->0;
        assert(gt[i] == past->0);
        if e.timestamp_ns - gt[i].timestamp_ns <= window_ns {
            assert(-window_ns <= gt[i].timestamp_ns - e.timestamp_ns <= window_ns);
        }
    }
    if future is Some {
        let i = choose|i: int| #[trigger] first_after_place(gt, e, i) && gt[i] == future->0;
        assert(gt[i] == future->0);
        if gt[i].timestamp_ns - e.timestamp_ns <= window_ns {
            assert(-window_ns <= gt[i].timestamp_ns - e.timestamp_ns <= window_ns);
        }
    }
}

/// Where a record of the thread up to the time of an event lies in the window, the event is
/// attributed to the request of the most recent one; of several at one time, the last counts.
pub proof fn law_window_takes_most_recent(
    gt: Seq<GroundTruthEvent>,
    e: KernelEvent,
    window_ns: u64,
    i: int,
)
    requires
        0 <= i < gt.len(),
        gt[i].pid == e.pid,
        gt[i].tid == e.tid,
        gt[i].timestamp_ns <= e.timestamp_ns,
        e.timestamp_ns - gt[i].timestamp_ns <= window_ns,
        forall|j: int|
            0 <= j < gt.len() && (#[trigger] gt[j]).pid == e.pid && gt[j].tid == e.tid
                && gt[j].timestamp_ns <= e.timestamp_ns ==> gt[j].timestamp_ns < gt[i].timestamp_ns
                || (gt[j].timestamp_ns == gt[i].timestamp_ns && j <= i),
    ensures
        window_rpc(gt, e, window_ns) == Some(gt[i].rpc_id),
{
    lemma_neighbour_places(gt, e);
    let past = latest_before(gt, e);
    assert(past is Some);
    let k = choose|k: int| #[trigger] last_before_place(gt, e, k) && gt[k] == past->0;
    assert(gt[k].timestamp_ns <= gt[i].timestamp_ns);
    assert(k == i);
}

/// Where no record of the thread up to the time of an event lies in the window, the event is
/// attributed to the request of the next record, if that lies in the window; of several at one
/// time, the first counts.
pub proof fn law_window_falls_back_to_next(
    gt: Seq<GroundTruthEvent>,
    e: KernelEvent,
    window_ns: u64,
    i: int,
)
    requires
        forall|j: int|
            0 <= j < gt.len() && (#[trigger] gt[j]).pid == e.pid && gt[j].tid == e.tid
                && gt[j].timestamp_ns <= e.timestamp_ns ==> e.timestamp_ns - gt[j].timestamp_ns
                > window_ns,
        0 <= i < gt.len(),
        gt[i].pid == e.pid,
        gt[i].tid == e.tid,
        gt[i].timestamp_ns > e.timestamp_ns,
        gt[i].timestamp_ns - e.timestamp_ns <= window_ns,
        forall|j: int|
            0 <= j < gt.len() && (#[trigger] gt[j]).pid == e.pid && gt[j].tid == e.tid
                && gt[j].timestamp_ns > e.timestamp_ns ==> gt[j].timestamp_ns > gt[i].timestamp_ns
                || (gt[j].timestamp_ns == gt[i].timestamp_ns && j >= i),
    ensures
        window_rpc(gt, e, window_ns) == Some(gt[i].rpc_id),
{
    lemma_neighbour_places(gt, e);
    let past = latest_before(gt, e);
    if past is Some {
        let k = choose|k: int| #[trigger] last_before_place(gt, e, k) && gt[k] == past->0;
        assert(gt[k] == past->0);
    }
    let future = earliest_after(gt, e);
    let k = choose|k: int| #[trigger] first_after_place(gt, e, k) && gt[k] == future->0;
    assert(gt[k].timestamp_ns >= gt[i].timestamp_ns);
    assert(k == i);
}

/// A time-window strategy decides by its window, and is named by it in whole milliseconds.
pub proof fn law_window_strategy_follows_its_window(s: TimeWindowStrategy, e: KernelEvent)
    ensures
        s.decision(e) == window_rpc(s.loaded(), e, s.window()),
        s.after(e) == s,
        (Rule::TimeWindow { window_ns: s.window() }).decide(s.loaded(), e) == s.decision(e),
        s.label() == "time_window_"@ + decimal((s.window() / 1_000_000) as nat) + "ms"@,
        (Rule::TimeWindow { window_ns: s.window() }).label() == s.label(),
{
}

// ---------------------------------------------------------------------------
// The strategies of an evaluation
// ---------------------------------------------------------------------------

/// An evaluation runs the PID strategy, the PID+TID strategy, and for each number of milliseconds
/// one time-window strategy with that window, in this order.
pub proof fn law_evaluated_strategies(windows_ms: Seq<u64>, i: int)
    requires
        0 <= i < windows_ms.len(),
        windows_ms[i] * 1_000_000 <= u64::MAX,
    ensures
        rules(windows_ms).len() == windows_ms.len() + 2,
        rules(windows_ms)[0] == Rule::Pid,
        rules(windows_ms)[1] == Rule::PidTid,
        rules(windows_ms)[i + 2] is TimeWindow,
        rules(windows_ms)[i + 2]->window_ns == windows_ms[i] * 1_000_000,
        rules(windows_ms)[i + 2].label() == "time_window_"@ + decimal(windows_ms[i] as nat)
            + "ms"@,
{
    let ns = windows_ms[i] * 1_000_000;
    assert(ns / 1_000_000 == windows_ms[i]);
}

/// The two strategies without a window are always run, under their names.
pub proof fn law_evaluated_strategies_without_window(windows_ms: Seq<u64>)
    ensures
        rules(windows_ms).len() == windows_ms.len() + 2,
        rules(windows_ms)[0] == Rule::Pid,
        rules(windows_ms)[1] == Rule::PidTid,
        Rule::Pid.label() == "pid"@,
        Rule::PidTid.label() == "pid_tid"@,
{
}

/// The vote comes last, and takes part beside all the other strategies.
pub proof fn law_vote_comes_last(windows_ms: Seq<u64>)
    ensures
        rules_with_vote(windows_ms).len() == windows_ms.len() + 3,
        forall|i: int|
            0 <= i < rules(windows_ms).len() ==> #[trigger] rules_with_vote(windows_ms)[i] == rules(
                windows_ms,
            )[i],
        rules_with_vote(windows_ms).last() is MajorityVote,
        rules_with_vote(windows_ms).last()->windows_ns.len() == windows_ms.len(),
        forall|i: int|
            0 <= i < windows_ms.len() && #[trigger] windows_ms[i] * 1_000_000 <= u64::MAX
                ==> rules_with_vote(windows_ms).last()->windows_ns[i] == windows_ms[i] * 1_000_000,
        rules_with_vote(windows_ms).last().label() == "majority_vote"@,
{
}

// ---------------------------------------------------------------------------
// Votes
// ---------------------------------------------------------------------------

/// The votes for a request are the votes that name it.
pub proof fn law_votes_are_counted(votes: Seq<Option<RpcId>>, rpc: RpcId)
    ensures
        votes_for(votes, rpc) == votes.filter(|v: Option<RpcId>| v == Some(rpc)).len(),
    decreases votes.len(),
{
    reveal(Seq::filter);
    if votes.len() > 0 {
        law_votes_are_counted(votes.drop_last(), rpc);
    }
}

/// A request wins exactly when more votes name it than any other request.
pub proof fn law_winner_has_most_votes(votes: Seq<Option<RpcId>>, rpc: RpcId)
    ensures
        winner(votes) == Some(rpc) <==> forall|other: RpcId|
            other != rpc ==> #[trigger] votes_for(votes, other) < votes_for(votes, rpc),
{
    if leads(votes, rpc) {
        let chosen = choose|r: RpcId| leads(votes, r);
        if chosen != rpc {
            assert(votes_for(votes, rpc) < votes_for(votes, chosen));
            assert(votes_for(votes, chosen) < votes_for(votes, rpc));
        }
    }
}

/// The ballots hold what each of the other strategies decides.
pub proof fn law_ballots_of_all_strategies(
    gt: Seq<GroundTruthEvent>,
    e: KernelEvent,
    windows_ns: Seq<u64>,
)
    ensures
        ballots(gt, e, windows_ns).len() == windows_ns.len() + 2,
        ballots(gt, e, windows_ns)[0] == Rule::Pid.decide(gt, e),
        ballots(gt, e, windows_ns)[1] == Rule::PidTid.decide(gt, e),
        forall|i: int|
            0 <= i < windows_ns.len() ==> #[trigger] ballots(gt, e, windows_ns)[i + 2] == (
            Rule::TimeWindow { window_ns: windows_ns[i] }).decide(gt, e),
        (Rule::MajorityVote { windows_ns }).decide(gt, e) == winner(ballots(gt, e, windows_ns)),
{
}

/// The vote of a strategy is that of the same rule.
pub proof fn law_vote_strategy_follows_its_rule(s: MajorityVoteStrategy, e: KernelEvent)
    ensures
        s.decision(e) == (Rule::MajorityVote { windows_ns: s.windows() }).decide(s.loaded(), e),
        s.after(e) == s,
        s.label() == "majority_vote"@,
{
}

/// A window of milliseconds has a million nanoseconds for each.
pub proof fn law_milliseconds(windows_ms: Seq<u64>, i: int)
    requires
        0 <= i < windows_ms.len(),
        windows_ms[i] * 1_000_000 <= u64::MAX,
    ensures
        in_nanoseconds(windows_ms).len() == windows_ms.len(),
        in_nanoseconds(windows_ms)[i] == windows_ms[i] * 1_000_000,
        NS_PER_MS == 1_000_000,
        window_label(in_nanoseconds(windows_ms)[i]) == "time_window_"@ + decimal(
            windows_ms[i] as nat,
        ) + "ms"@,
{
    let ns = windows_ms[i] * 1_000_000;
    assert(ns / 1_000_000 == windows_ms[i]);
}

} // verus!
