//! What the requests of a workload do.

use vstd::prelude::*;
use vstd::string::*;

use crate::event::OperationTarget;
use crate::event::TargetModel;
use crate::number::decimal;
use crate::text::texts;
use crate::workload::admissible;
use crate::workload::kind_of;
use crate::workload::plans;
use crate::workload::seeds;
use crate::workload::spec_choices;
use crate::workload::spec_file_path;
use crate::workload::spec_first_operation;
use crate::workload::spec_operation;
use crate::workload::spec_port;
use crate::workload::target_of;
use crate::workload::OpSpec;
use crate::workload::RequestPlan;
use crate::workload::Resources;
use crate::workload::Scenario;
use crate::workload::SeedFile;

verus! {

// ---------------------------------------------------------------------------
// Operations
// ---------------------------------------------------------------------------

/// Which operations a scenario admits: file reads and writes in turn, beginning with a read;
/// connections only; anything but processes; anything at all.
pub proof fn law_scenarios_admit(index: int, op: OpSpec)
    requires
        index >= 0,
    ensures
        admissible(Scenario::FileOnly, index, op) <==> op == (if index % 2 == 0 {
            OpSpec::FileRead
        } else {
            OpSpec::FileWrite
        }),
        admissible(Scenario::NetworkOnly, index, op) <==> op is NetworkConnect,
        admissible(Scenario::Mixed, index, op) <==> !(op is ProcessSpawn),
        admissible(Scenario::WithProcessSpawn, index, op),
{
    assert(spec_operation(Scenario::FileOnly, index, 0) is FileRead <==> index % 2 == 0);
    assert(spec_operation(Scenario::NetworkOnly, index, 0) is NetworkConnect);
    assert(spec_operation(Scenario::Mixed, index, 0) is FileRead);
    assert(spec_operation(Scenario::Mixed, index, 1) is FileWrite);
    assert(spec_operation(Scenario::Mixed, index, 2) is NetworkConnect);
    assert(spec_operation(Scenario::WithProcessSpawn, index, 0) is FileRead);
    assert(spec_operation(Scenario::WithProcessSpawn, index, 1) is FileWrite);
    assert(spec_operation(Scenario::WithProcessSpawn, index, 2) is NetworkConnect);
    assert(spec_operation(Scenario::WithProcessSpawn, index, 3) is ProcessSpawn);
}

/// Each number that can be drawn stands for an operation of its own, whatever the place; and where
/// nothing is drawn, only the place decides.
pub proof fn law_draws_differ(index: int, a: int, b: int)
    ensures
        spec_choices(Scenario::FileOnly) == 1,
        spec_choices(Scenario::NetworkOnly) == 1,
        spec_choices(Scenario::Mixed) == 3,
        spec_choices(Scenario::WithProcessSpawn) == 4,
        0 <= a < 3 && 0 <= b < 3 && a != b ==> spec_operation(Scenario::Mixed, index, a)
            != spec_operation(Scenario::Mixed, index, b),
        0 <= a < 4 && 0 <= b < 4 && a != b ==> spec_operation(Scenario::WithProcessSpawn, index, a)
            != spec_operation(Scenario::WithProcessSpawn, index, b),
        0 <= a < 3 ==> spec_operation(Scenario::WithProcessSpawn, index, a) == spec_operation(
            Scenario::Mixed,
            index,
            a,
        ),
        spec_operation(Scenario::Mixed, index, 0) is FileRead,
        spec_operation(Scenario::Mixed, index, 1) is FileWrite,
        spec_operation(Scenario::FileOnly, index, a) == spec_operation(
            Scenario::FileOnly,
            index,
            b,
        ),
        spec_operation(Scenario::FileOnly, index, a) != spec_operation(
            Scenario::FileOnly,
            index + 1,
            a,
        ),
        spec_operation(Scenario::FileOnly, 0, a) is FileRead,
{
}

/// The kind that is recorded is that of the operation.
pub proof fn law_kinds(op: OpSpec)
    ensures
        kind_of(op) is FileRead <==> op is FileRead,
        kind_of(op) is FileWrite <==> op is FileWrite,
        kind_of(op) is NetworkConnect <==> op is NetworkConnect,
        kind_of(op) is ProcessSpawn <==> op is ProcessSpawn,
{
}

// ---------------------------------------------------------------------------
// Targets
// ---------------------------------------------------------------------------

/// What a target says is all that it holds.
pub proof fn law_target_says_its_fields(t: OperationTarget)
    ensures
        t matches OperationTarget::File(f) ==> t@ == TargetModel::File(f.path@),
        t matches OperationTarget::Network(n) ==> t@ == TargetModel::Network(n.host@, n.port),
        t matches OperationTarget::Process { command, args } ==> t@ == TargetModel::Process(
            command@,
            texts(args@),
        ),
        t is Unknown <==> t@ is Unknown,
{
}

/// A read acts on the request's file for reading, a write on its file for writing, both in the
/// directory of the workload; a connection goes to the host of the workload and the request's port;
/// and a process names its request.
pub proof fn law_targets_of_operations(on: Resources, rpc_id: nat)
    ensures
        target_of(OpSpec::FileRead, on, rpc_id) matches TargetModel::File(path) && path
            == on.data_dir@ + "/rpc-"@ + decimal(rpc_id) + "-read.bin"@,
        target_of(OpSpec::FileWrite, on, rpc_id) matches TargetModel::File(path) && path
            == on.data_dir@ + "/rpc-"@ + decimal(rpc_id) + "-write.bin"@,
        target_of(OpSpec::NetworkConnect, on, rpc_id) matches TargetModel::Network(host, port)
            && host == on.net_host@ && port == spec_port(on.net_port, rpc_id),
        target_of(OpSpec::ProcessSpawn, on, rpc_id) matches TargetModel::Process(command, args)
            && command == "true"@ && args.len() == 1 && args[0] == "rpc-"@ + decimal(rpc_id),
{
    reveal_strlit("-");
    reveal_strlit("read");
    reveal_strlit("write");
    reveal_strlit(".bin");
    reveal_strlit("-read.bin");
    reveal_strlit("-write.bin");
    let head = on.data_dir@ + "/rpc-"@ + decimal(rpc_id);
    assert(head + "-"@ + "read"@ + ".bin"@ =~= head + "-read.bin"@);
    assert(head + "-"@ + "write"@ + ".bin"@ =~= head + "-write.bin"@);
}

/// The first request connects to the base port, and each other one to the port after that of the
/// request before it; after the greatest port comes zero.
pub proof fn law_ports_count_up(base: u16, rpc_id: nat)
    requires
        rpc_id >= 1,
    ensures
        spec_port(base, 1) == base,
        spec_port(base, rpc_id) < 65535 ==> spec_port(base, rpc_id + 1) == spec_port(base, rpc_id)
            + 1,
        spec_port(base, rpc_id) == 65535 ==> spec_port(base, rpc_id + 1) == 0,
{
}

/// The files that are there before a request starts are those that its reads and writes act on.
pub proof fn law_seeds_are_targets(f: SeedFile, on: Resources, rpc_id: nat)
    ensures
        seeds(f, on.data_dir@, rpc_id, "read"@) ==> target_of(OpSpec::FileRead, on, rpc_id)
            == TargetModel::File(f.path@),
        seeds(f, on.data_dir@, rpc_id, "write"@) ==> target_of(OpSpec::FileWrite, on, rpc_id)
            == TargetModel::File(f.path@),
        seeds(f, on.data_dir@, rpc_id, "read"@) || seeds(f, on.data_dir@, rpc_id, "write"@)
            ==> f.content@ == "rpc-"@ + decimal(rpc_id) + "-seed\n"@,
        spec_file_path(on.data_dir@, rpc_id, "read"@) == on.data_dir@ + "/rpc-"@ + decimal(rpc_id)
            + "-read.bin"@,
        spec_file_path(on.data_dir@, rpc_id, "write"@) == on.data_dir@ + "/rpc-"@ + decimal(rpc_id)
            + "-write.bin"@,
{
    law_targets_of_operations(on, rpc_id);
}

/// The path of a file is the directory, the request and the purpose, as they are.
pub proof fn law_file_path_parts(data_dir: Seq<char>, rpc_id: nat, suffix: Seq<char>)
    ensures
        spec_file_path(data_dir, rpc_id, suffix) == data_dir + ("/rpc-"@ + decimal(rpc_id) + seq![
            '-',
        ]) + (suffix + ".bin"@),
{
    reveal_strlit("-");
    assert("-"@ =~= seq!['-']);
    assert(spec_file_path(data_dir, rpc_id, suffix) =~= data_dir + ("/rpc-"@ + decimal(rpc_id)
        + seq!['-']) + (suffix + ".bin"@));
}

// ---------------------------------------------------------------------------
// Ids and plans
// ---------------------------------------------------------------------------

/// The ids of a request begin 2 to the power of 32 after those of the request before it, one above
/// a multiple of that; after 32 bits of requests they begin anew.
pub proof fn law_first_ids_step(rpc_id: nat)
    ensures
        spec_first_operation(0) == 1,
        rpc_id % 0x1_0000_0000 != 0xffff_ffff ==> spec_first_operation(rpc_id + 1)
            == spec_first_operation(rpc_id) + 4_294_967_296,
        spec_first_operation(rpc_id + 0x1_0000_0000) == spec_first_operation(rpc_id),
{
}

/// A planned request has its number, as many operations as it should have, each one that its
/// scenario admits, and ids that count up from its first.
pub proof fn law_plan_of_request(
    plan: RequestPlan,
    scenario: Scenario,
    rpc_id: nat,
    count: nat,
    j: int,
)
    requires
        plans(plan, scenario, rpc_id, count),
        0 <= j < count,
    ensures
        plan.rpc_id == rpc_id,
        plan.steps@.len() == count,
        plan.steps@[j].1.0 == (rpc_id % 0x1_0000_0000) * 0x1_0000_0000 + 1 + j,
        scenario is FileOnly ==> (if j % 2 == 0 {
            plan.steps@[j].0 is FileRead
        } else {
            plan.steps@[j].0 is FileWrite
        }),
        scenario is NetworkOnly ==> plan.steps@[j].0 is NetworkConnect,
        scenario is Mixed ==> !(plan.steps@[j].0 is ProcessSpawn),
{
    assert(admissible(scenario, j, plan.steps@[j].0));
    law_scenarios_admit(j, plan.steps@[j].0);
}

/// A plan without operations still belongs to its request.
pub proof fn law_empty_plan_of_request(
    plan: RequestPlan,
    scenario: Scenario,
    rpc_id: nat,
    count: nat,
)
    requires
        plans(plan, scenario, rpc_id, count),
    ensures
        plan.rpc_id == rpc_id,
        plan.steps@.len() == count,
{
}

} // verus!
