//! PID + TID attribution strategy.
//!
//! Maps each (PID, TID) pair to the most-recent RPC ID in ground truth.
//! Improves on the PID strategy when different Tokio worker threads handle different RPCs,
//! but still fails when multiple RPCs execute on the same thread over time.

use std::collections::HashMap;
use vstd::prelude::*;

use crate::event::GroundTruthEvent;
use crate::event::KernelEvent;
use crate::identity::RpcId;
use crate::strategies::AttributionStrategy;
use crate::timeline::key_of_thread;
use crate::timeline::thread_key;

verus! {

/// The request of the last event of the thread `tid` of the process `pid`.
pub open spec fn last_of_thread(gt: Seq<GroundTruthEvent>, pid: u32, tid: u32) -> Option<RpcId>
    decreases gt.len(),
{
    if gt.len() == 0 {
        None
    } else if gt.last().pid == pid && gt.last().tid == tid {
        Some(gt.last().rpc_id)
    } else {
        last_of_thread(gt.drop_last(), pid, tid)
    }
}

/// Attributes an event to the last request seen on its thread.
pub struct PidTidStrategy {
    map: HashMap<u64, RpcId>,
    seen: Ghost<Seq<GroundTruthEvent>>,
}

impl PidTidStrategy {
    #[verifier::type_invariant]
    spec fn indexed(self) -> bool {
        forall|pid: u32, tid: u32| #[trigger]
            self.map@.get(thread_key(pid, tid)) == last_of_thread(self.seen@, pid, tid)
    }

    /// A strategy that knows of no event yet.
    pub fn new() -> (r: Self)
        ensures
            r.loaded() == Seq::<GroundTruthEvent>::empty(),
    {
        PidTidStrategy { map: HashMap::new(), seen: Ghost(Seq::empty()) }
    }

    /// What the strategy decides for `event`.
    pub(crate) fn decide(&self, event: &KernelEvent) -> (r: Option<RpcId>)
        ensures
            r == self.decision(*event),
    {
        proof {
            use_type_invariant(self);
        }
        assert(self.map@.get(thread_key(event.pid, event.tid)) == last_of_thread(
            self.seen@,
            event.pid,
            event.tid,
        ));
        match self.map.get(&key_of_thread(event.pid, event.tid)) {
            Some(rpc) => Some(*rpc),
            None => None,
        }
    }
}

impl Default for PidTidStrategy {
    fn default() -> (r: Self)
        ensures
            r.loaded() == Seq::<GroundTruthEvent>::empty(),
    {
        PidTidStrategy::new()
    }
}

impl AttributionStrategy for PidTidStrategy {
    open spec fn label(&self) -> Seq<char> {
        "pid_tid"@
    }

    closed spec fn loaded(&self) -> Seq<GroundTruthEvent> {
        self.seen@
    }

    open spec fn decision(&self, event: KernelEvent) -> Option<RpcId> {
        last_of_thread(self.loaded(), event.pid, event.tid)
    }

    open spec fn after(&self, event: KernelEvent) -> Self {
        *self
    }

    fn name(&self) -> (r: String) {
        "pid_tid".to_owned()
    }

    fn load_ground_truth(&mut self, events: &[GroundTruthEvent]) {
        let mut map: HashMap<u64, RpcId> = HashMap::new();
        let mut i: usize = 0;
        while i < events.len()
            invariant
                i <= events.len(),
                forall|pid: u32, tid: u32| #[trigger]
                    map@.get(thread_key(pid, tid)) == last_of_thread(
                        events@.take(i as int),
                        pid,
                        tid,
                    ),
            decreases events.len() - i,
        {
            let e = &events[i];
            let ghost before = map@;
            map.insert(key_of_thread(e.pid, e.tid), RpcId(e.rpc_id.0));
            assert(events@.take(i + 1).drop_last() =~= events@.take(i as int));
            assert forall|pid: u32, tid: u32| #[trigger]
                map@.get(thread_key(pid, tid)) == last_of_thread(events@.take(i + 1), pid, tid) by {
                assert(before.get(thread_key(pid, tid)) == last_of_thread(
                    events@.take(i as int),
                    pid,
                    tid,
                ));
            }
            i += 1;
        }
        assert(events@.take(events.len() as int) =~= events@);
        *self = PidTidStrategy { map, seen: Ghost(events@) };
    }

    fn attribute(&mut self, event: &KernelEvent) -> (r: Option<RpcId>) {
        self.decide(event)
    }
}

} // verus!
