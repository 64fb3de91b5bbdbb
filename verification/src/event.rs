//! Events of the two layers: what the application knows of its operations, and what the
//! kernel shows of them. A [`KernelEvent`] holds no request identity; recovering it is the
//! attribution problem.

use vstd::prelude::*;
use vstd::string::*;

use crate::identity::OperationId;
use crate::identity::RpcId;
use crate::text::texts;

verus! {

// ---------------------------------------------------------------------------
// Operation taxonomy
// ---------------------------------------------------------------------------

/// The kind of operation a logical request performs.
///
/// Each variant maps to one or more Linux syscalls:
///
/// * `FileRead`: `openat` and `read`
/// * `FileWrite`: `openat` and `write`
/// * `NetworkConnect`: `socket` and `connect`
/// * `ProcessSpawn`: `clone` or `fork`, and `execve`
#[derive(Debug, Clone, Copy, PartialEq, Eq, Hash, Structural)]
pub enum OperationKind {
    FileRead,
    FileWrite,
    NetworkConnect,
    ProcessSpawn,
}

impl OperationKind {
    /// How the kind is shown.
    pub open spec fn spec_text(self) -> Seq<char> {
        match self {
            OperationKind::FileRead => "file_read"@,
            OperationKind::FileWrite => "file_write"@,
            OperationKind::NetworkConnect => "network_connect"@,
            OperationKind::ProcessSpawn => "process_spawn"@,
        }
    }

    /// How the kind is shown.
    pub fn to_string(&self) -> (r: String)
        ensures
            r@ == self.spec_text(),
    {
        match self {
            OperationKind::FileRead => "file_read".to_owned(),
            OperationKind::FileWrite => "file_write".to_owned(),
            OperationKind::NetworkConnect => "network_connect".to_owned(),
            OperationKind::ProcessSpawn => "process_spawn".to_owned(),
        }
    }
}

// ---------------------------------------------------------------------------
// Ground-truth events
// ---------------------------------------------------------------------------

/// A path used by a file operation.
#[derive(Debug, Clone, PartialEq, Eq)]
pub struct FileTarget {
    /// Absolute path.
    pub path: String,
}

/// A network target (host:port).
#[derive(Debug, Clone, PartialEq, Eq)]
pub struct NetworkTarget {
    pub host: String,
    pub port: u16,
}

/// The resource/argument of an operation.
#[derive(Debug, Clone, PartialEq, Eq)]
pub enum OperationTarget {
    File(FileTarget),
    Network(NetworkTarget),
    Process { command: String, args: Vec<String> },
    Unknown,
}

/// What a target says, with its texts as characters.
#[verifier::ext_equal]
pub enum TargetModel {
    File(Seq<char>),
    Network(Seq<char>, u16),
    Process(Seq<char>, Seq<Seq<char>>),
    Unknown,
}

impl View for OperationTarget {
    type V = TargetModel;

    open spec fn view(&self) -> TargetModel {
        match self {
            OperationTarget::File(f) => TargetModel::File(f.path@),
            OperationTarget::Network(n) => TargetModel::Network(n.host@, n.port),
            OperationTarget::Process { command, args } => TargetModel::Process(
                command@,
                texts(args@),
            ),
            OperationTarget::Unknown => TargetModel::Unknown,
        }
    }
}

/// An operation as seen from the *application*: authoritative ground truth.
///
/// This record is produced by the workload itself, so it is assumed correct.
/// It is used **only** for evaluation, never as input to an attribution strategy.
#[derive(Debug, Clone)]
pub struct GroundTruthEvent {
    /// The logical request that caused this operation.
    pub rpc_id: RpcId,
    /// Unique operation identifier (globally unique across all RPCs).
    pub operation_id: OperationId,
    /// What kind of operation this is.
    pub operation: OperationKind,
    /// The target resource (path, host:port, command and its arguments).
    pub target: OperationTarget,
    /// Linux PID at the time of the operation.
    pub pid: u32,
    /// Linux TID at the time of the operation.
    pub tid: u32,
    /// Nanosecond-precision monotonic timestamp.
    pub timestamp_ns: u64,
}

// ---------------------------------------------------------------------------
// Kernel events
// ---------------------------------------------------------------------------

/// Syscall / tracepoint event type as observable from the kernel.
#[derive(Debug, Clone, Copy, PartialEq, Eq, Hash, Structural)]
pub enum KernelEventType {
    Openat,
    Read,
    Write,
    Socket,
    Connect,
    Clone,
    Fork,
    Execve,
    Unknown,
}

impl KernelEventType {
    /// How the type is shown.
    pub open spec fn spec_text(self) -> Seq<char> {
        match self {
            KernelEventType::Openat => "openat"@,
            KernelEventType::Read => "read"@,
            KernelEventType::Write => "write"@,
            KernelEventType::Socket => "socket"@,
            KernelEventType::Connect => "connect"@,
            KernelEventType::Clone => "clone"@,
            KernelEventType::Fork => "fork"@,
            KernelEventType::Execve => "execve"@,
            KernelEventType::Unknown => "unknown"@,
        }
    }

    /// How the type is shown.
    pub fn to_string(&self) -> (r: String)
        ensures
            r@ == self.spec_text(),
    {
        match self {
            KernelEventType::Openat => "openat".to_owned(),
            KernelEventType::Read => "read".to_owned(),
            KernelEventType::Write => "write".to_owned(),
            KernelEventType::Socket => "socket".to_owned(),
            KernelEventType::Connect => "connect".to_owned(),
            KernelEventType::Clone => "clone".to_owned(),
            KernelEventType::Fork => "fork".to_owned(),
            KernelEventType::Execve => "execve".to_owned(),
            KernelEventType::Unknown => "unknown".to_owned(),
        }
    }
}

/// The text of an optional string.
pub open spec fn optional_text(s: Option<String>) -> Option<Seq<char>> {
    match s {
        Some(t) => Some(t@),
        None => None,
    }
}

/// Raw arguments captured for a kernel event.
///
/// We store them as strings because different syscalls have different argument
/// types and counts.
#[derive(Debug, Clone)]
pub struct KernelEventArgs {
    pub arg0: Option<String>,
    pub arg1: Option<String>,
    pub arg2: Option<String>,
    pub arg3: Option<String>,
    pub arg4: Option<String>,
    pub arg5: Option<String>,
}

impl View for KernelEventArgs {
    type V = Seq<Option<Seq<char>>>;

    open spec fn view(&self) -> Seq<Option<Seq<char>>> {
        seq![
            optional_text(self.arg0),
            optional_text(self.arg1),
            optional_text(self.arg2),
            optional_text(self.arg3),
            optional_text(self.arg4),
            optional_text(self.arg5),
        ]
    }
}

/// The six argument places filled from the left with `args`; what does not fit is left out.
pub open spec fn argument_places(args: Seq<Seq<char>>) -> Seq<Option<Seq<char>>> {
    Seq::new(
        6,
        |i: int|
            if i < args.len() {
                Some(args[i])
            } else {
                None
            },
    )
}

/// The texts of a list of string slices.
pub open spec fn slice_texts(args: Seq<&str>) -> Seq<Seq<char>> {
    args.map_values(|a: &str| a@)
}

impl Default for KernelEventArgs {
    fn default() -> (r: Self)
        ensures
            r@ == argument_places(Seq::empty()),
    {
        let r = KernelEventArgs {
            arg0: None,
            arg1: None,
            arg2: None,
            arg3: None,
            arg4: None,
            arg5: None,
        };
        assert(r@ =~= argument_places(Seq::empty()));
        r
    }
}

/// The argument at place `i`, if there is one.
fn argument_at(args: &[&str], i: usize) -> (r: Option<String>)
    ensures
        optional_text(r) == (if i < args@.len() {
            Some(args@[i as int]@)
        } else {
            None
        }),
{
    if i < args.len() {
        Some(args[i].to_owned())
    } else {
        None
    }
}

impl KernelEventArgs {
    /// The first six of `args`, in their order.
    pub fn from_vec(args: &[&str]) -> (r: Self)
        ensures
            r@ == argument_places(slice_texts(args@)),
    {
        let r = KernelEventArgs {
            arg0: argument_at(args, 0),
            arg1: argument_at(args, 1),
            arg2: argument_at(args, 2),
            arg3: argument_at(args, 3),
            arg4: argument_at(args, 4),
            arg5: argument_at(args, 5),
        };
        assert(r@ =~= argument_places(slice_texts(args@)));
        r
    }
}

/// A single kernel-observable event.
///
/// **No `rpc_id` field.** Recovering that mapping is what attribution is for.
#[derive(Debug, Clone)]
pub struct KernelEvent {
    /// Linux PID.
    pub pid: u32,
    /// Linux TID.
    pub tid: u32,
    /// Nanosecond-precision timestamp (same clock source as ground truth).
    pub timestamp_ns: u64,
    /// The type of kernel event / syscall.
    pub event_type: KernelEventType,
    /// Raw arguments from the kernel observation.
    pub args: KernelEventArgs,
    /// Optional return value (e.g. file descriptor, error code).
    pub return_value: Option<i64>,
}

/// What a kernel event says, with its texts as characters.
pub struct KernelEventModel {
    pub pid: u32,
    pub tid: u32,
    pub timestamp_ns: u64,
    pub event_type: KernelEventType,
    pub args: Seq<Option<Seq<char>>>,
    pub return_value: Option<i64>,
}

impl View for KernelEvent {
    type V = KernelEventModel;

    open spec fn view(&self) -> KernelEventModel {
        KernelEventModel {
            pid: self.pid,
            tid: self.tid,
            timestamp_ns: self.timestamp_ns,
            event_type: self.event_type,
            args: self.args@,
            return_value: self.return_value,
        }
    }
}

// ---------------------------------------------------------------------------
// Attribution result
// ---------------------------------------------------------------------------

/// The outcome of attributing a single kernel event.
#[derive(Debug, Clone, Copy, PartialEq, Eq, Structural)]
pub enum AttributionOutcome {
    /// Correctly attributed to the originating RPC.
    Correct { kernel_event_index: usize, assigned_rpc_id: RpcId, actual_rpc_id: RpcId },
    /// Attributed to the wrong RPC.
    WrongRpc { kernel_event_index: usize, assigned_rpc_id: RpcId, actual_rpc_id: RpcId },
    /// The strategy produced no assignment.
    Unattributed { kernel_event_index: usize },
}

} // verus!
