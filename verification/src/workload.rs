//! Controlled workloads: the operations of each logical request, and the ground truth that it
//! records of them.
//!
//! Each request touches unique file paths and network targets, so that attribution can be verified
//! without relying on timing.

use rand::rngs::StdRng;
use rand::Rng;
use vstd::prelude::*;
use vstd::string::*;

use crate::event::FileTarget;
use crate::event::GroundTruthEvent;
use crate::event::NetworkTarget;
use crate::event::OperationKind;
use crate::event::OperationTarget;
use crate::event::TargetModel;
use crate::identity::OperationId;
use crate::identity::OperationIdGenerator;
use crate::identity::RpcId;
use crate::number::decimal;
use crate::number::law_decimal_injective;
use crate::number::lemma_decimal_digits;
use crate::number::push_decimal;
use crate::text::texts;

verus! {

// ---------------------------------------------------------------------------
// Scenarios
// ---------------------------------------------------------------------------

/// A preset workload scenario.
#[derive(Debug, Clone, Copy, PartialEq, Eq, Structural)]
pub enum Scenario {
    /// Alternating file read + write per RPC.
    FileOnly,
    /// Network connect operations only.
    NetworkOnly,
    /// Mixed: file and network operations in random order.
    Mixed,
    /// Includes process spawning (clone + exec).
    WithProcessSpawn,
}

/// One operation of a request.
#[derive(Debug, Clone, Copy, PartialEq, Eq, Structural)]
pub enum OpSpec {
    FileRead,
    FileWrite,
    NetworkConnect,
    ProcessSpawn,
}

/// How many operations a scenario draws from; one where nothing is left to chance.
pub open spec fn spec_choices(scenario: Scenario) -> int {
    match scenario {
        Scenario::FileOnly => 1,
        Scenario::NetworkOnly => 1,
        Scenario::Mixed => 3,
        Scenario::WithProcessSpawn => 4,
    }
}

/// The operation at the place `index` of a request, when `draw` was drawn for it.
pub open spec fn spec_operation(scenario: Scenario, index: int, draw: int) -> OpSpec {
    match scenario {
        Scenario::FileOnly => if index % 2 == 0 {
            OpSpec::FileRead
        } else {
            OpSpec::FileWrite
        },
        Scenario::NetworkOnly => OpSpec::NetworkConnect,
        Scenario::Mixed => if draw == 0 {
            OpSpec::FileRead
        } else if draw == 1 {
            OpSpec::FileWrite
        } else {
            OpSpec::NetworkConnect
        },
        Scenario::WithProcessSpawn => if draw == 0 {
            OpSpec::FileRead
        } else if draw == 1 {
            OpSpec::FileWrite
        } else if draw == 2 {
            OpSpec::NetworkConnect
        } else {
            OpSpec::ProcessSpawn
        },
    }
}

/// How many operations a scenario draws from.
pub fn choices(scenario: Scenario) -> (r: i32)
    ensures
        r == spec_choices(scenario),
        r > 0,
{
    match scenario {
        Scenario::FileOnly => 1,
        Scenario::NetworkOnly => 1,
        Scenario::Mixed => 3,
        Scenario::WithProcessSpawn => 4,
    }
}

/// The operation at the place `index` of a request, when `draw` was drawn for it.
pub fn operation_for(scenario: Scenario, index: usize, draw: i32) -> (r: OpSpec)
    ensures
        r == spec_operation(scenario, index as int, draw as int),
{
    match scenario {
        Scenario::FileOnly => if index % 2 == 0 {
            OpSpec::FileRead
        } else {
            OpSpec::FileWrite
        },
        Scenario::NetworkOnly => OpSpec::NetworkConnect,
        Scenario::Mixed => if draw == 0 {
            OpSpec::FileRead
        } else if draw == 1 {
            OpSpec::FileWrite
        } else {
            OpSpec::NetworkConnect
        },
        Scenario::WithProcessSpawn => if draw == 0 {
            OpSpec::FileRead
        } else if draw == 1 {
            OpSpec::FileWrite
        } else if draw == 2 {
            OpSpec::NetworkConnect
        } else {
            OpSpec::ProcessSpawn
        },
    }
}

/// The random number generator `rand::rngs::StdRng`.
#[verifier::external_type_specification]
#[verifier::external_body]
pub struct ExStdRng(StdRng);

/// `Rng::random_range`: a number from `low` to below `high`. Which one is left to chance. Nothing
/// is said of what a seed gives: the numbers of a `StdRng` may differ from platform to platform.
#[verifier::external_body]
fn draw_between(rng: &mut StdRng, low: i32, high: i32) -> (r: i32)
    requires
        low < high,
    ensures
        low <= r < high,
{
    rng.random_range(low..high)
}

/// Whether `op` can stand at the place `index` of a request.
pub open spec fn admissible(scenario: Scenario, index: int, op: OpSpec) -> bool {
    exists|draw: int|
        0 <= draw < spec_choices(scenario) && op == #[trigger] spec_operation(scenario, index, draw)
}

/// Build a per-RPC operation sequence for the chosen scenario.
pub fn build_ops(scenario: Scenario, count: usize, rng: &mut StdRng) -> (r: Vec<OpSpec>)
    ensures
        r.len() == count,
        forall|i: int| 0 <= i < count ==> admissible(scenario, i, #[trigger] r@[i]),
{
    let bound: i32 = choices(scenario);
    let mut ops: Vec<OpSpec> = Vec::new();
    let mut i: usize = 0;
    while i < count
        invariant
            i <= count,
            ops.len() == i,
            bound == spec_choices(scenario),
            bound > 0,
            forall|j: int| 0 <= j < i ==> admissible(scenario, j, #[trigger] ops@[j]),
        decreases count - i,
    {
        let draw: i32 = if bound > 1 {
            draw_between(rng, 0, bound)
        } else {
            0
        };
        let op = operation_for(scenario, i, draw);
        assert(op == spec_operation(scenario, i as int, draw as int));
        ops.push(op);
        i += 1;
    }
    ops
}

// ---------------------------------------------------------------------------
// Names and texts
// ---------------------------------------------------------------------------

/// The path of a file of the request `rpc_id`.
pub open spec fn spec_file_path(data_dir: Seq<char>, rpc_id: nat, suffix: Seq<char>) -> Seq<char> {
    data_dir + "/rpc-"@ + decimal(rpc_id) + "-"@ + suffix + ".bin"@
}

/// Unique file path for a given RPC and operation.
pub fn rpc_file_path(data_dir: &str, rpc_id: u64, suffix: &str) -> (r: String)
    ensures
        r@ == spec_file_path(data_dir@, rpc_id as nat, suffix@),
{
    let mut out = data_dir.to_owned();
    out.append("/rpc-");
    push_decimal(&mut out, rpc_id);
    out.append("-");
    out.append(suffix);
    out.append(".bin");
    out
}

/// What an operation writes into its file.
pub fn write_content(rpc_id: u64, op_id: u64) -> (r: String)
    ensures
        r@ == "rpc-"@ + decimal(rpc_id as nat) + "-op-"@ + decimal(op_id as nat) + "\n"@,
{
    let mut out = "rpc-".to_owned();
    push_decimal(&mut out, rpc_id);
    out.append("-op-");
    push_decimal(&mut out, op_id);
    out.append("\n");
    out
}

/// What the files of a request hold before it starts.
pub fn seed_content(rpc_id: u64) -> (r: String)
    ensures
        r@ == "rpc-"@ + decimal(rpc_id as nat) + "-seed\n"@,
{
    let mut out = "rpc-".to_owned();
    push_decimal(&mut out, rpc_id);
    out.append("-seed\n");
    out
}

/// The address that a connection is made to.
pub fn connect_address(host: &str, port: u16) -> (r: String)
    ensures
        r@ == host@ + ":"@ + decimal(port as nat),
{
    let mut out = host.to_owned();
    out.append(":");
    push_decimal(&mut out, port as u64);
    out
}

/// The nanoseconds of a duration since the epoch, as far as 64 bits hold them.
pub fn timestamp_ns(secs: u64, subsec_nanos: u32) -> (r: u64)
    ensures
        r == (secs * 1_000_000_000 + subsec_nanos) % 0x1_0000_0000_0000_0000,
{
    let total: u128 = secs as u128 * 1_000_000_000 + subsec_nanos as u128;
    let wrapped: u128 = total % 0x1_0000_0000_0000_0000;
    wrapped as u64
}

// ---------------------------------------------------------------------------
// Ground truth
// ---------------------------------------------------------------------------

/// The later of the last timestamp and the clock: timestamps never fall, even where the clock is
/// set back.
pub fn next_timestamp(last: u64, now: u64) -> (r: u64)
    ensures
        r >= last,
        r >= now,
        r == last || r == now,
{
    if now > last {
        now
    } else {
        last
    }
}

/// What the operations of a workload act on.
#[derive(Debug, Clone)]
pub struct Resources {
    /// Base directory for file operations.
    pub data_dir: String,
    /// Host for network connect operations.
    pub net_host: String,
    /// Port for network connect operations of the first request.
    pub net_port: u16,
}

/// Where and when an operation runs.
#[derive(Debug, Clone, Copy)]
pub struct Stamp {
    /// Linux PID.
    pub pid: u32,
    /// Linux TID.
    pub tid: u32,
    /// Nanoseconds since the epoch.
    pub timestamp_ns: u64,
}

/// The port that the request `rpc_id` connects to: the base port for the first request, the next
/// one for the second, and so on; after the greatest port comes zero.
pub open spec fn spec_port(base: u16, rpc_id: nat) -> u16 {
    ((base + rpc_id - 1) % 0x1_0000) as u16
}

/// The network target of the request `rpc_id`.
pub fn request_target(host: &str, base: u16, rpc_id: u64) -> (r: NetworkTarget)
    ensures
        r.host@ == host@,
        r.port == spec_port(base, rpc_id as nat),
{
    let port: u128 = (base as u128 + rpc_id as u128 + 0xffff) % 0x1_0000;
    assert((base + rpc_id - 1) % 0x1_0000 == port);
    NetworkTarget { host: host.to_owned(), port: port as u16 }
}

/// The command that a spawned process runs.
pub open spec fn spawned_command() -> Seq<char> {
    "true"@
}

/// The argument by which a spawned process names its request.
pub open spec fn spawned_argument(rpc_id: nat) -> Seq<char> {
    "rpc-"@ + decimal(rpc_id)
}

/// The kind of an operation.
pub open spec fn kind_of(op: OpSpec) -> OperationKind {
    match op {
        OpSpec::FileRead => OperationKind::FileRead,
        OpSpec::FileWrite => OperationKind::FileWrite,
        OpSpec::NetworkConnect => OperationKind::NetworkConnect,
        OpSpec::ProcessSpawn => OperationKind::ProcessSpawn,
    }
}

/// What an operation of the request `rpc_id` acts on.
pub open spec fn target_of(op: OpSpec, on: Resources, rpc_id: nat) -> TargetModel {
    match op {
        OpSpec::FileRead => TargetModel::File(spec_file_path(on.data_dir@, rpc_id, "read"@)),
        OpSpec::FileWrite => TargetModel::File(spec_file_path(on.data_dir@, rpc_id, "write"@)),
        OpSpec::NetworkConnect => TargetModel::Network(
            on.net_host@,
            spec_port(on.net_port, rpc_id),
        ),
        OpSpec::ProcessSpawn => TargetModel::Process(
            spawned_command(),
            seq![spawned_argument(rpc_id)],
        ),
    }
}

/// What an operation of the request `rpc_id` acts on.
pub fn operation_target(op: OpSpec, on: &Resources, rpc_id: u64) -> (r: OperationTarget)
    ensures
        r@ == target_of(op, *on, rpc_id as nat),
{
    match op {
        OpSpec::FileRead => OperationTarget::File(
            FileTarget { path: rpc_file_path(on.data_dir.as_str(), rpc_id, "read") },
        ),
        OpSpec::FileWrite => OperationTarget::File(
            FileTarget { path: rpc_file_path(on.data_dir.as_str(), rpc_id, "write") },
        ),
        OpSpec::NetworkConnect => OperationTarget::Network(
            request_target(on.net_host.as_str(), on.net_port, rpc_id),
        ),
        OpSpec::ProcessSpawn => {
            let mut argument = "rpc-".to_owned();
            push_decimal(&mut argument, rpc_id);
            let mut args: Vec<String> = Vec::new();
            args.push(argument);
            assert(texts(args@) =~= seq![spawned_argument(rpc_id as nat)]);
            OperationTarget::Process { command: "true".to_owned(), args }
        },
    }
}

/// The record of the operation `op` of the request `rpc_id`. It is made before the operation runs.
pub fn record_of(op: OpSpec, on: &Resources, rpc_id: u64, op_id: OperationId, stamp: Stamp) -> (r:
    GroundTruthEvent)
    ensures
        r.rpc_id == RpcId(rpc_id),
        r.operation_id == op_id,
        r.operation == kind_of(op),
        r.target@ == target_of(op, *on, rpc_id as nat),
        r.pid == stamp.pid,
        r.tid == stamp.tid,
        r.timestamp_ns == stamp.timestamp_ns,
{
    let operation = match op {
        OpSpec::FileRead => OperationKind::FileRead,
        OpSpec::FileWrite => OperationKind::FileWrite,
        OpSpec::NetworkConnect => OperationKind::NetworkConnect,
        OpSpec::ProcessSpawn => OperationKind::ProcessSpawn,
    };
    GroundTruthEvent {
        rpc_id: RpcId(rpc_id),
        operation_id: op_id,
        operation,
        target: operation_target(op, on, rpc_id),
        pid: stamp.pid,
        tid: stamp.tid,
        timestamp_ns: stamp.timestamp_ns,
    }
}

// ---------------------------------------------------------------------------
// Requests
// ---------------------------------------------------------------------------

/// The first operation id of the request `rpc_id`: the lower 32 bits of its number stand in the
/// upper half of the id.
pub open spec fn spec_first_operation(rpc_id: nat) -> nat {
    (rpc_id % 0x1_0000_0000) * 0x1_0000_0000 + 1
}

/// The counter of operation ids of the request `rpc_id`.
pub fn operation_ids(rpc_id: u64) -> (r: OperationIdGenerator)
    ensures
        r@ == spec_first_operation(rpc_id as nat),
{
    let start: u64 = (rpc_id << 32) | 1;
    assert(start == (rpc_id % 0x1_0000_0000) * 0x1_0000_0000 + 1) by (bit_vector)
        requires
            start == (rpc_id << 32) | 1,
    ;
    OperationIdGenerator::new(start)
}

/// The operations of one request with their ids, in the order in which they run.
pub fn plan_request(ops: &[OpSpec], op_gen: &mut OperationIdGenerator) -> (r: Vec<
    (OpSpec, OperationId),
>)
    requires
        old(op_gen)@ + ops@.len() <= u64::MAX,
    ensures
        r@ == Seq::new(
            ops@.len(),
            |i: int| (ops@[i], OperationId((old(op_gen)@ + i) as u64)),
        ),
        final(op_gen)@ == old(op_gen)@ + ops@.len(),
{
    let ghost start = op_gen@;
    let mut out: Vec<(OpSpec, OperationId)> = Vec::new();
    let mut i: usize = 0;
    while i < ops.len()
        invariant
            i <= ops.len(),
            start + ops@.len() <= u64::MAX,
            op_gen@ == start + i,
            out@ == Seq::new(i as nat, |j: int| (ops@[j], OperationId((start + j) as u64))),
        decreases ops.len() - i,
    {
        let id = op_gen.next();
        out.push((ops[i], id));
        assert(out@ =~= Seq::new((i + 1) as nat, |j: int| (ops@[j], OperationId((start + j) as u64))));
        i += 1;
    }
    out
}

/// What one request does.
#[derive(Debug, Clone)]
pub struct RequestPlan {
    pub rpc_id: u64,
    pub steps: Vec<(OpSpec, OperationId)>,
}

/// Whether `plan` is a plan of the request `rpc_id`: as many operations as there should be, each
/// one that the scenario admits at its place, with ids that count up from the request's first.
pub open spec fn plans(
    plan: RequestPlan,
    scenario: Scenario,
    rpc_id: nat,
    operations_per_rpc: nat,
) -> bool {
    &&& plan.rpc_id == rpc_id
    &&& plan.steps@.len() == operations_per_rpc
    &&& forall|j: int|
        0 <= j < operations_per_rpc ==> {
            &&& admissible(scenario, j, (#[trigger] plan.steps@[j]).0)
            &&& plan.steps@[j].1.0 == spec_first_operation(rpc_id) + j
        }
}

/// Plans a workload of the requests 1 to `concurrency`.
pub fn plan_workload(
    scenario: Scenario,
    concurrency: usize,
    operations_per_rpc: usize,
    rng: &mut StdRng,
) -> (r: Vec<RequestPlan>)
    requires
        forall|rpc_id: nat|
            1 <= rpc_id <= concurrency ==> #[trigger] spec_first_operation(rpc_id)
                + operations_per_rpc <= u64::MAX,
    ensures
        r@.len() == concurrency,
        forall|i: int|
            0 <= i < concurrency ==> plans(
                #[trigger] r@[i],
                scenario,
                (i + 1) as nat,
                operations_per_rpc as nat,
            ),
{
    let mut out: Vec<RequestPlan> = Vec::new();
    let mut i: usize = 0;
    while i < concurrency
        invariant
            i <= concurrency,
            out@.len() == i,
            forall|rpc_id: nat|
                1 <= rpc_id <= concurrency ==> #[trigger] spec_first_operation(rpc_id)
                    + operations_per_rpc <= u64::MAX,
            forall|j: int|
                0 <= j < i ==> plans(
                    #[trigger] out@[j],
                    scenario,
                    (j + 1) as nat,
                    operations_per_rpc as nat,
                ),
        decreases concurrency - i,
    {
        let rpc_id: u64 = i as u64 + 1;
        assert(spec_first_operation(rpc_id as nat) + operations_per_rpc <= u64::MAX);
        let ops = build_ops(scenario, operations_per_rpc, rng);
        let mut op_gen = operation_ids(rpc_id);
        let steps = plan_request(ops.as_slice(), &mut op_gen);
        let plan = RequestPlan { rpc_id, steps };
        assert forall|j: int| 0 <= j < operations_per_rpc implies {
            &&& admissible(scenario, j, (#[trigger] plan.steps@[j]).0)
            &&& plan.steps@[j].1.0 == spec_first_operation(rpc_id as nat) + j
        } by {
            assert(admissible(scenario, j, ops@[j]));
        }
        out.push(plan);
        i += 1;
    }
    out
}

/// A file, by its path and by what it holds.
#[derive(Debug, Clone)]
pub struct SeedFile {
    pub path: String,
    pub content: String,
}

/// Whether `f` is a file of the request `rpc_id` with the suffix `suffix`, as it is before the
/// request starts.
pub open spec fn seeds(f: SeedFile, data_dir: Seq<char>, rpc_id: nat, suffix: Seq<char>) -> bool {
    &&& f.path@ == spec_file_path(data_dir, rpc_id, suffix)
    &&& f.content@ == "rpc-"@ + decimal(rpc_id) + "-seed\n"@
}

/// The files of the requests 1 to `concurrency`, first the one that is read and then the one that
/// is written. They are there before any request starts, so that no operation creates a file.
pub fn seed_files(data_dir: &str, concurrency: usize) -> (r: Vec<SeedFile>)
    requires
        2 * concurrency <= usize::MAX,
    ensures
        r@.len() == 2 * concurrency,
        forall|i: int|
            0 <= i < concurrency ==> seeds(
                #[trigger] r@[2 * i],
                data_dir@,
                (i + 1) as nat,
                "read"@,
            ),
        forall|i: int|
            0 <= i < concurrency ==> seeds(
                #[trigger] r@[2 * i + 1],
                data_dir@,
                (i + 1) as nat,
                "write"@,
            ),
{
    let mut out: Vec<SeedFile> = Vec::new();
    let mut i: usize = 0;
    while i < concurrency
        invariant
            i <= concurrency,
            out@.len() == 2 * i,
            forall|j: int|
                0 <= j < i ==> seeds(#[trigger] out@[2 * j], data_dir@, (j + 1) as nat, "read"@),
            forall|j: int|
                0 <= j < i ==> seeds(
                    #[trigger] out@[2 * j + 1],
                    data_dir@,
                    (j + 1) as nat,
                    "write"@,
                ),
        decreases concurrency - i,
    {
        let rpc_id: u64 = i as u64 + 1;
        out.push(
            SeedFile {
                path: rpc_file_path(data_dir, rpc_id, "read"),
                content: seed_content(rpc_id),
            },
        );
        out.push(
            SeedFile {
                path: rpc_file_path(data_dir, rpc_id, "write"),
                content: seed_content(rpc_id),
            },
        );
        i += 1;
    }
    out
}

// ---------------------------------------------------------------------------
// Laws
// ---------------------------------------------------------------------------

/// Operation ids are unique across all requests: the `i`-th operation of one and the `j`-th of
/// another have different ids, and so have two operations of one request.
pub proof fn law_operation_ids_unique(rpc_a: nat, i: nat, rpc_b: nat, j: nat)
    requires
        rpc_a < 0x1_0000_0000,
        rpc_b < 0x1_0000_0000,
        i < 0xffff_ffff,
        j < 0xffff_ffff,
        rpc_a != rpc_b || i != j,
    ensures
        spec_first_operation(rpc_a) + i != spec_first_operation(rpc_b) + j,
        spec_first_operation(rpc_a) + i <= u64::MAX,
{
}

/// No two operations of a workload have the same id, be they of one request or of two.
pub proof fn law_planned_ids_unique(
    a: RequestPlan,
    b: RequestPlan,
    scenario: Scenario,
    rpc_a: nat,
    rpc_b: nat,
    count: nat,
    i: int,
    j: int,
)
    requires
        plans(a, scenario, rpc_a, count),
        plans(b, scenario, rpc_b, count),
        rpc_a < 0x1_0000_0000,
        rpc_b < 0x1_0000_0000,
        count <= 0xffff_ffff,
        0 <= i < count,
        0 <= j < count,
        rpc_a != rpc_b || i != j,
    ensures
        a.steps@[i].1 != b.steps@[j].1,
{
    law_operation_ids_unique(rpc_a, i as nat, rpc_b, j as nat);
    assert(admissible(scenario, i, a.steps@[i].0));
    assert(admissible(scenario, j, b.steps@[j].0));
}

/// The place of the first `-` after a decimal number is where the number ends.
proof fn lemma_dash_ends_number(a: nat, b: nat, x: Seq<char>, y: Seq<char>)
    requires
        decimal(a) + seq!['-'] + x == decimal(b) + seq!['-'] + y,
    ensures
        a == b,
        x == y,
{
    let p = decimal(a);
    let q = decimal(b);
    let s = p + seq!['-'] + x;
    let t = q + seq!['-'] + y;
    lemma_decimal_digits(a);
    lemma_decimal_digits(b);
    if p.len() < q.len() {
        assert(s[p.len() as int] == '-');
        assert(t[p.len() as int] == q[p.len() as int]);
        assert('0' <= q[p.len() as int] <= '9');
    } else if q.len() < p.len() {
        assert(t[q.len() as int] == '-');
        assert(s[q.len() as int] == p[q.len() as int]);
        assert('0' <= p[q.len() as int] <= '9');
    }
    assert(p =~= q) by {
        assert forall|i: int| 0 <= i < p.len() implies p[i] == q[i] by {
            assert(s[i] == p[i]);
            assert(t[i] == q[i]);
        }
    }
    law_decimal_injective(a, b);
    assert(x =~= y) by {
        assert(x.len() == s.len() - p.len() - 1);
        assert(y.len() == t.len() - q.len() - 1);
        assert forall|i: int| 0 <= i < x.len() implies x[i] == y[i] by {
            assert(s[p.len() + 1 + i] == x[i]);
            assert(t[q.len() + 1 + i] == y[i]);
        }
    }
}

/// Every request has files of its own: two paths in one directory are equal only if they are
/// of the same request and for the same purpose.
pub proof fn law_file_paths_unique(
    data_dir: Seq<char>,
    rpc_a: nat,
    suffix_a: Seq<char>,
    rpc_b: nat,
    suffix_b: Seq<char>,
)
    requires
        spec_file_path(data_dir, rpc_a, suffix_a) == spec_file_path(data_dir, rpc_b, suffix_b),
    ensures
        rpc_a == rpc_b,
        suffix_a == suffix_b,
{
    reveal_strlit("-");
    reveal_strlit("/rpc-");
    reveal_strlit(".bin");
    let head = data_dir + "/rpc-"@;
    let tail = ".bin"@;
    let x = suffix_a + tail;
    let y = suffix_b + tail;
    let s = spec_file_path(data_dir, rpc_a, suffix_a);
    let t = spec_file_path(data_dir, rpc_b, suffix_b);
    let u = decimal(rpc_a) + seq!['-'] + x;
    let v = decimal(rpc_b) + seq!['-'] + y;
    assert("-"@ =~= seq!['-']);
    assert(s =~= head + u);
    assert(t =~= head + v);
    assert(u =~= s.skip(head.len() as int));
    assert(v =~= t.skip(head.len() as int));
    lemma_dash_ends_number(rpc_a, rpc_b, x, y);
    assert(suffix_a =~= x.take(x.len() - 4));
    assert(suffix_b =~= y.take(y.len() - 4));
}

/// Two requests connect to different ports, unless their numbers lie a multiple of the number of
/// ports apart.
pub proof fn law_network_targets_unique(base: u16, rpc_a: nat, rpc_b: nat)
    requires
        (rpc_a - rpc_b) % 0x1_0000 != 0,
    ensures
        spec_port(base, rpc_a) != spec_port(base, rpc_b),
{
}

/// Two requests act on different things, whatever their operations: on different files, different
/// network targets and different processes. Only two connections of requests whose numbers lie a
/// multiple of the number of ports apart have one target.
pub proof fn law_targets_unique(op_a: OpSpec, rpc_a: nat, op_b: OpSpec, rpc_b: nat, on: Resources)
    requires
        rpc_a != rpc_b,
        op_a == OpSpec::NetworkConnect && op_b == OpSpec::NetworkConnect ==> (rpc_a - rpc_b)
            % 0x1_0000 != 0,
    ensures
        target_of(op_a, on, rpc_a) != target_of(op_b, on, rpc_b),
{
    let a = target_of(op_a, on, rpc_a);
    let b = target_of(op_b, on, rpc_b);
    if a == b {
        match (a, b) {
            (TargetModel::File(_), TargetModel::File(_)) => {
                let x = if op_a == OpSpec::FileRead {
                    "read"@
                } else {
                    "write"@
                };
                let y = if op_b == OpSpec::FileRead {
                    "read"@
                } else {
                    "write"@
                };
                law_file_paths_unique(on.data_dir@, rpc_a, x, rpc_b, y);
            },
            (TargetModel::Network(_, _), TargetModel::Network(_, _)) => {
                law_network_targets_unique(on.net_port, rpc_a, rpc_b);
            },
            (TargetModel::Process(_, s), TargetModel::Process(_, t)) => {
                let x = spawned_argument(rpc_a);
                let y = spawned_argument(rpc_b);
                assert(s[0] == x && t[0] == y);
                let n = "rpc-"@.len() as int;
                assert(decimal(rpc_a) =~= x.skip(n));
                assert(decimal(rpc_b) =~= y.skip(n));
                law_decimal_injective(rpc_a, rpc_b);
            },
            _ => {},
        }
    }
}

} // verus!
