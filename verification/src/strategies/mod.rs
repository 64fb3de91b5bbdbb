//! Attribution strategies.
//!
//! Each strategy receives a [`KernelEvent`] and, based on the information available to it
//! (PID, TID, temporal proximity), returns the [`RpcId`] it believes generated that event,
//! or `None` if it cannot decide.
//!
//! Strategies are evaluated against ground-truth records so that precision, recall, and F1
//! can be computed.

use vstd::prelude::*;

use crate::event::GroundTruthEvent;
use crate::event::KernelEvent;
use crate::identity::RpcId;

pub mod majority_vote;
pub mod pid;
pub mod tid;
pub mod time_window;

verus! {

/// A pluggable attribution strategy.
///
/// Strategies are stateful: they may accumulate data from previously seen
/// ground-truth events (e.g. a time-window strategy needs to know which RPCs
/// were recently active).
pub trait AttributionStrategy: Sized + Send {
    /// The name of the strategy.
    spec fn label(&self) -> Seq<char>;

    /// The ground truth that was loaded last.
    spec fn loaded(&self) -> Seq<GroundTruthEvent>;

    /// What the strategy decides for `event` in its present state.
    spec fn decision(&self, event: KernelEvent) -> Option<RpcId>;

    /// The state of the strategy after it has decided on `event`.
    spec fn after(&self, event: KernelEvent) -> Self;

    /// Name of the strategy (used in output headers).
    fn name(&self) -> (r: String)
        ensures
            r@ == self.label(),
    ;

    /// Provide this strategy with the full ground-truth event set before
    /// attribution begins.
    fn load_ground_truth(&mut self, events: &[GroundTruthEvent])
        ensures
            final(self).loaded() == events@,
            final(self).label() == old(self).label(),
    ;

    /// Attempt to attribute a kernel event.
    ///
    /// Returns `Some(RpcId)` when a decision can be made, or `None` when the
    /// strategy cannot determine the responsible RPC.
    fn attribute(&mut self, event: &KernelEvent) -> (r: Option<RpcId>)
        ensures
            r == old(self).decision(*event),
            *final(self) == old(self).after(*event),
    ;
}

} // verus!
