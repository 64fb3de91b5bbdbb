//! PID-only attribution strategy.
//!
//! Maps each PID to the single most-recent RPC ID seen in the ground-truth
//! events.  Fails as soon as two RPCs share a PID concurrently.

use std::collections::HashMap;
use vstd::prelude::*;

use crate::event::GroundTruthEvent;
use crate::event::KernelEvent;
use crate::identity::RpcId;
use crate::strategies::AttributionStrategy;

verus! {

/// The request of the last event of the process `pid`.
pub open spec fn last_of_pid(gt: Seq<GroundTruthEvent>, pid: u32) -> Option<RpcId>
    decreases gt.len(),
{
    if gt.len() == 0 {
        None
    } else if gt.last().pid == pid {
        Some(gt.last().rpc_id)
    } else {
        last_of_pid(gt.drop_last(), pid)
    }
}

/// Attributes an event to the last request seen in its process.
pub struct PidStrategy {
    pid_to_rpc: HashMap<u32, RpcId>,
    seen: Ghost<Seq<GroundTruthEvent>>,
}

impl PidStrategy {
    #[verifier::type_invariant]
    spec fn indexed(self) -> bool {
        forall|pid: u32| #[trigger] self.pid_to_rpc@.get(pid) == last_of_pid(self.seen@, pid)
    }

    /// A strategy that knows of no event yet.
    pub fn new() -> (r: Self)
        ensures
            r.loaded() == Seq::<GroundTruthEvent>::empty(),
    {
        PidStrategy { pid_to_rpc: HashMap::new(), seen: Ghost(Seq::empty()) }
    }

    /// What the strategy decides for `event`.
    pub(crate) fn decide(&self, event: &KernelEvent) -> (r: Option<RpcId>)
        ensures
            r == self.decision(*event),
    {
        proof {
            use_type_invariant(self);
        }
        assert(self.pid_to_rpc@.get(event.pid) == last_of_pid(self.seen@, event.pid));
        match self.pid_to_rpc.get(&event.pid) {
            Some(rpc) => Some(*rpc),
            None => None,
        }
    }
}

impl Default for PidStrategy {
    fn default() -> (r: Self)
        ensures
            r.loaded() == Seq::<GroundTruthEvent>::empty(),
    {
        PidStrategy::new()
    }
}

impl AttributionStrategy for PidStrategy {
    open spec fn label(&self) -> Seq<char> {
        "pid"@
    }

    closed spec fn loaded(&self) -> Seq<GroundTruthEvent> {
        self.seen@
    }

    open spec fn decision(&self, event: KernelEvent) -> Option<RpcId> {
        last_of_pid(self.loaded(), event.pid)
    }

    open spec fn after(&self, event: KernelEvent) -> Self {
        *self
    }

    fn name(&self) -> (r: String) {
        "pid".to_owned()
    }

    fn load_ground_truth(&mut self, events: &[GroundTruthEvent]) {
        let mut map: HashMap<u32, RpcId> = HashMap::new();
        let mut i: usize = 0;
        while i < events.len()
            invariant
                i <= events.len(),
                forall|pid: u32| #[trigger]
                    map@.get(pid) == last_of_pid(events@.take(i as int), pid),
            decreases events.len() - i,
        {
            let e = &events[i];
            let ghost before = map@;
            map.insert(e.pid, RpcId(e.rpc_id.0));
            assert(events@.take(i + 1).drop_last() =~= events@.take(i as int));
            assert forall|pid: u32| #[trigger]
                map@.get(pid) == last_of_pid(events@.take(i + 1), pid) by {
                assert(before.get(pid) == last_of_pid(events@.take(i as int), pid));
            }
            i += 1;
        }
        assert(events@.take(events.len() as int) =~= events@);
        *self = PidStrategy { pid_to_rpc: map, seen: Ghost(events@) };
    }

    fn attribute(&mut self, event: &KernelEvent) -> (r: Option<RpcId>) {
        self.decide(event)
    }
}

} // verus!
