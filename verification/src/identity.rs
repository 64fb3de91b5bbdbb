//! Identifiers of logical requests and of their operations.

use vstd::prelude::*;
use vstd::string::*;

use crate::number::decimal;
use crate::number::push_decimal;

verus! {

/// Unique identifier for a logical request (RPC / task / span).
#[derive(Debug, Clone, Copy, PartialEq, Eq, PartialOrd, Ord, Hash, Structural)]
pub struct RpcId(pub u64);

impl RpcId {
    /// The identifier `id`. Zero stands for "unknown" and is not given out.
    pub fn new(id: u64) -> (r: Self)
        requires
            id > 0,
        ensures
            r == RpcId(id),
    {
        RpcId(id)
    }

    /// How the identifier is shown.
    pub fn to_string(&self) -> (r: String)
        ensures
            r@ == "RPC-"@ + decimal(self.0 as nat),
    {
        let mut out = "RPC-".to_owned();
        push_decimal(&mut out, self.0);
        out
    }
}

/// Unique identifier for a single operation within an RPC.
///
/// Globally unique across all RPCs so kernel observations and ground-truth
/// records can be matched unambiguously during evaluation.
#[derive(Debug, Clone, Copy, PartialEq, Eq, PartialOrd, Ord, Hash, Structural)]
pub struct OperationId(pub u64);

impl OperationId {
    /// The identifier `id`.
    pub fn new(id: u64) -> (r: Self)
        ensures
            r == OperationId(id),
    {
        OperationId(id)
    }
}

/// A monotonically incrementing counter used to assign unique operation ids
/// within a single workload run.
#[derive(Debug)]
pub struct OperationIdGenerator {
    next: u64,
}

impl View for OperationIdGenerator {
    type V = u64;

    closed spec fn view(&self) -> u64 {
        self.next
    }
}

impl Default for OperationIdGenerator {
    fn default() -> (r: Self)
        ensures
            r@ == 0,
    {
        OperationIdGenerator { next: 0 }
    }
}

impl OperationIdGenerator {
    /// A counter that stands at `start`.
    pub fn new(start: u64) -> (r: Self)
        ensures
            r@ == start,
    {
        OperationIdGenerator { next: start }
    }

    /// Produce the next operation id and advance the counter.
    pub fn next(&mut self) -> (r: OperationId)
        requires
            old(self)@ < u64::MAX,
        ensures
            r == OperationId(old(self)@),
            final(self)@ == old(self)@ + 1,
    {
        let id = OperationId::new(self.next);
        self.next = self.next + 1;
        id
    }
}

} // verus!
