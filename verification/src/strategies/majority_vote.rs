//! Majority-vote meta-strategy.
//!
//! Lets the PID strategy, the PID+TID strategy and a time-window strategy for each window vote,
//! and attributes an event to the request that most of them name.  A strategy that cannot decide
//! does not vote.  Where no request has more votes than every other, return `None`.

use vstd::prelude::*;
use vstd::string::*;

use crate::event::GroundTruthEvent;
use crate::event::KernelEvent;
use crate::identity::RpcId;
use crate::strategies::pid::last_of_pid;
use crate::strategies::pid::PidStrategy;
use crate::strategies::tid::last_of_thread;
use crate::strategies::tid::PidTidStrategy;
use crate::strategies::time_window::window_rpc;
use crate::strategies::time_window::TimeWindowStrategy;
use crate::strategies::time_window::NS_PER_MS;
use crate::strategies::AttributionStrategy;

verus! {

// ---------------------------------------------------------------------------
// Votes
// ---------------------------------------------------------------------------

/// How many of the votes name `rpc`.
pub open spec fn votes_for(votes: Seq<Option<RpcId>>, rpc: RpcId) -> nat
    decreases votes.len(),
{
    if votes.len() == 0 {
        0
    } else {
        votes_for(votes.drop_last(), rpc) + (if votes.last() == Some(rpc) {
            1nat
        } else {
            0nat
        })
    }
}

/// Whether `rpc` has more votes than every other request.
pub open spec fn leads(votes: Seq<Option<RpcId>>, rpc: RpcId) -> bool {
    forall|other: RpcId| other != rpc ==> #[trigger] votes_for(votes, other) < votes_for(votes, rpc)
}

/// The request with more votes than every other, if there is one.
pub open spec fn winner(votes: Seq<Option<RpcId>>) -> Option<RpcId> {
    if exists|rpc: RpcId| leads(votes, rpc) {
        Some(choose|rpc: RpcId| leads(votes, rpc))
    } else {
        None
    }
}

/// A request has votes exactly when one of the votes names it.
proof fn lemma_voted(votes: Seq<Option<RpcId>>, rpc: RpcId)
    ensures
        votes_for(votes, rpc) > 0 <==> votes.contains(Some(rpc)),
        votes_for(votes, rpc) <= votes.len(),
    decreases votes.len(),
{
    if votes.len() > 0 {
        let rest = votes.drop_last();
        lemma_voted(rest, rpc);
        if rest.contains(Some(rpc)) {
            let i = choose|i: int| 0 <= i < rest.len() && rest[i] == Some(rpc);
            assert(votes[i] == Some(rpc));
        }
        if votes.contains(Some(rpc)) && votes.last() != Some(rpc) {
            let i = choose|i: int| 0 <= i < votes.len() && votes[i] == Some(rpc);
            assert(rest[i] == Some(rpc));
        }
        if votes.last() == Some(rpc) {
            assert(votes[votes.len() - 1] == Some(rpc));
        }
    }
}

/// How many of the votes name `rpc`.
fn count_votes(votes: &Vec<Option<RpcId>>, rpc: RpcId) -> (r: usize)
    ensures
        r == votes_for(votes@, rpc),
{
    let mut n: usize = 0;
    let mut i: usize = 0;
    while i < votes.len()
        invariant
            i <= votes.len(),
            n <= i,
            n == votes_for(votes@.take(i as int), rpc),
        decreases votes.len() - i,
    {
        assert(votes@.take(i + 1).drop_last() =~= votes@.take(i as int));
        if let Some(named) = votes[i] {
            if named == rpc {
                n += 1;
            }
        }
        i += 1;
    }
    assert(votes@.take(votes.len() as int) =~= votes@);
    n
}

/// The request with more votes than every other, if there is one.
pub fn count_winner(votes: &Vec<Option<RpcId>>) -> (r: Option<RpcId>)
    ensures
        r == winner(votes@),
{
    // The first request with the most votes so far, and whether no other has as many.
    let mut best: Option<(RpcId, usize, bool)> = None;
    let mut i: usize = 0;
    while i < votes.len()
        invariant
            i <= votes.len(),
            match best {
                None => forall|j: int| 0 <= j < i ==> (#[trigger] votes@[j]) is None,
                Some((rpc, n, alone)) => {
                    &&& n == votes_for(votes@, rpc)
                    &&& n > 0
                    &&& forall|j: int|
                        0 <= j < i ==> ((#[trigger] votes@[j]) matches Some(other)
                            ==> votes_for(votes@, other) <= n)
                    &&& alone ==> forall|j: int|
                        0 <= j < i ==> ((#[trigger] votes@[j]) matches Some(other) ==> other == rpc
                            || votes_for(votes@, other) < n)
                    &&& !alone ==> exists|other: RpcId|
                        other != rpc && #[trigger] votes_for(votes@, other) == n
                },
            },
        decreases votes.len() - i,
    {
        if let Some(rpc) = votes[i] {
            let n: usize = count_votes(votes, rpc);
            proof {
                lemma_voted(votes@, rpc);
                assert(votes@[i as int] == Some(rpc));
            }
            match best {
                None => {
                    best = Some((rpc, n, true));
                },
                Some((first, most, alone)) => {
                    if n > most {
                        best = Some((rpc, n, true));
                    } else if n == most && rpc != first {
                        best = Some((first, most, false));
                    }
                },
            }
        }
        i += 1;
    }
    proof {
        match best {
            None => {
                assert forall|rpc: RpcId| !leads(votes@, rpc) by {
                    lemma_voted(votes@, rpc);
                    if leads(votes@, rpc) {
                        let other = RpcId(if rpc.0 == 0 {
                            1
                        } else {
                            0
                        });
                        assert(votes_for(votes@, other) < votes_for(votes@, rpc));
                        let j = choose|j: int| 0 <= j < votes@.len() && votes@[j] == Some(rpc);
                        assert(votes@[j] is Some);
                    }
                }
            },
            Some((rpc, n, alone)) => {
                if alone {
                    assert forall|other: RpcId| other != rpc implies #[trigger] votes_for(
                        votes@,
                        other,
                    ) < votes_for(votes@, rpc) by {
                        lemma_voted(votes@, other);
                        if votes@.contains(Some(other)) {
                            let j = choose|j: int|
                                0 <= j < votes@.len() && votes@[j] == Some(other);
                            assert(votes@[j] == Some(other));
                        }
                    }
                    assert(leads(votes@, rpc));
                    let chosen = choose|r: RpcId| leads(votes@, r);
                    if chosen != rpc {
                        assert(votes_for(votes@, rpc) < votes_for(votes@, chosen));
                        assert(votes_for(votes@, chosen) < votes_for(votes@, rpc));
                    }
                } else {
                    let tied = choose|other: RpcId|
                        other != rpc && #[trigger] votes_for(votes@, other) == n;
                    assert forall|r: RpcId| !leads(votes@, r) by {
                        lemma_voted(votes@, r);
                        if leads(votes@, r) {
                            if r != rpc {
                                assert(votes_for(votes@, rpc) < votes_for(votes@, r));
                                let j = choose|j: int|
                                    0 <= j < votes@.len() && votes@[j] == Some(r);
                                assert(votes@[j] == Some(r));
                            } else {
                                assert(votes_for(votes@, tied) < votes_for(votes@, r));
                            }
                        }
                    }
                }
            },
        }
    }
    match best {
        Some((rpc, _, true)) => Some(rpc),
        _ => None,
    }
}

// ---------------------------------------------------------------------------
// The strategy
// ---------------------------------------------------------------------------

/// What the strategies with the windows `windows_ns` say of `e` when they know the ground truth
/// `gt`.
pub open spec fn ballots(gt: Seq<GroundTruthEvent>, e: KernelEvent, windows_ns: Seq<u64>) -> Seq<
    Option<RpcId>,
> {
    seq![last_of_pid(gt, e.pid), last_of_thread(gt, e.pid, e.tid)] + windows_ns.map_values(
        |window_ns: u64| window_rpc(gt, e, window_ns),
    )
}

/// The windows `windows_ms` in nanoseconds.
pub open spec fn in_nanoseconds(windows_ms: Seq<u64>) -> Seq<u64> {
    windows_ms.map_values(|ms: u64| (ms * NS_PER_MS) as u64)
}

/// Attributes an event to the request that most of the other strategies name.
pub struct MajorityVoteStrategy {
    pid: PidStrategy,
    tid: PidTidStrategy,
    windows: Vec<TimeWindowStrategy>,
}

impl MajorityVoteStrategy {
    /// Whether all voters know the same ground truth.
    #[verifier::type_invariant]
    spec fn agreed(self) -> bool {
        &&& self.tid.loaded() == self.pid.loaded()
        &&& forall|i: int|
            0 <= i < self.windows@.len() ==> (#[trigger] self.windows@[i]).loaded()
                == self.pid.loaded()
    }

    /// The windows of the voters, in nanoseconds.
    pub closed spec fn windows(&self) -> Seq<u64> {
        self.windows@.map_values(|w: TimeWindowStrategy| w.window())
    }

    /// A vote of the PID strategy, the PID+TID strategy and one time-window strategy for each of
    /// `windows_ms`, none of which knows of an event yet.
    pub fn new(windows_ms: &[u64]) -> (r: Self)
        requires
            forall|i: int|
                0 <= i < windows_ms@.len() ==> #[trigger] windows_ms@[i] * NS_PER_MS <= u64::MAX,
        ensures
            r.windows() == in_nanoseconds(windows_ms@),
            r.loaded() == Seq::<GroundTruthEvent>::empty(),
    {
        let windows = TimeWindowStrategy::strategies_ms(windows_ms);
        let r = MajorityVoteStrategy {
            pid: PidStrategy::new(),
            tid: PidTidStrategy::new(),
            windows,
        };
        assert(r.windows() =~= in_nanoseconds(windows_ms@));
        r
    }
}

impl AttributionStrategy for MajorityVoteStrategy {
    open spec fn label(&self) -> Seq<char> {
        "majority_vote"@
    }

    closed spec fn loaded(&self) -> Seq<GroundTruthEvent> {
        self.pid.loaded()
    }

    open spec fn decision(&self, event: KernelEvent) -> Option<RpcId> {
        winner(ballots(self.loaded(), event, self.windows()))
    }

    open spec fn after(&self, event: KernelEvent) -> Self {
        *self
    }

    fn name(&self) -> (r: String) {
        "majority_vote".to_owned()
    }

    fn load_ground_truth(&mut self, events: &[GroundTruthEvent])
        ensures
            final(self).windows() == old(self).windows(),
    {
        let mut pid = PidStrategy::new();
        pid.load_ground_truth(events);
        let mut tid = PidTidStrategy::new();
        tid.load_ground_truth(events);
        let mut windows: Vec<TimeWindowStrategy> = Vec::new();
        let ghost old_windows = self.windows@;
        let mut i: usize = 0;
        while i < self.windows.len()
            invariant
                i <= self.windows.len(),
                self.windows@ == old_windows,
                windows@.len() == i,
                forall|j: int|
                    #![trigger windows@[j]]
                    0 <= j < i ==> windows@[j].loaded() == events@ && windows@[j].window()
                        == old_windows[j].window(),
            decreases self.windows.len() - i,
        {
            let mut window = TimeWindowStrategy::new(self.windows[i].window_ns());
            window.load_ground_truth(events);
            windows.push(window);
            i += 1;
        }
        let ghost before = self.windows();
        *self = MajorityVoteStrategy { pid, tid, windows };
        assert(self.windows() =~= before);
    }

    fn attribute(&mut self, event: &KernelEvent) -> (r: Option<RpcId>) {
        proof {
            use_type_invariant(&*self);
        }
        let ghost gt = self.loaded();
        let ghost all = ballots(gt, *event, self.windows());
        let mut votes: Vec<Option<RpcId>> = Vec::new();
        votes.push(self.pid.decide(event));
        votes.push(self.tid.decide(event));
        let mut i: usize = 0;
        assert(votes@ =~= all.take(2));
        while i < self.windows.len()
            invariant
                i <= self.windows.len(),
                all == ballots(gt, *event, self.windows()),
                gt == self.loaded(),
                forall|j: int|
                    0 <= j < self.windows@.len() ==> (#[trigger] self.windows@[j]).loaded() == gt,
                votes@ == all.take(i + 2),
            decreases self.windows.len() - i,
        {
            let said = self.windows[i].decide(event);
            assert(said == all[i + 2]);
            votes.push(said);
            assert(votes@ =~= all.take(i + 3));
            i += 1;
        }
        assert(all.take(all.len() as int) =~= all);
        count_winner(&votes)
    }
}

} // verus!
