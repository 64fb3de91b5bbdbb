use causpan::error::CauspanError;
use causpan::event::OperationKind;
use causpan::event::OperationTarget;
use causpan::identity::OperationId;
use causpan::identity::OperationIdGenerator;
use causpan::identity::RpcId;
use causpan::workload::build_ops;
use causpan::workload::choices;
use causpan::workload::connect_address;
use causpan::workload::next_timestamp;
use causpan::workload::operation_for;
use causpan::workload::operation_ids;
use causpan::workload::plan_request;
use causpan::workload::plan_workload;
use causpan::workload::record_of;
use causpan::workload::request_target;
use causpan::workload::rpc_file_path;
use causpan::workload::seed_content;
use causpan::workload::seed_files;
use causpan::workload::timestamp_ns;
use causpan::workload::write_content;
use causpan::workload::OpSpec;
use causpan::workload::Resources;
use causpan::workload::Scenario;
use causpan::workload::Stamp;
use rand::rngs::StdRng;
use rand::SeedableRng;

#[test]
fn identifiers_are_shown() {
    assert_eq!(RpcId::new(7).to_string(), "RPC-7");
    assert_eq!(RpcId(u64::MAX).to_string(), "RPC-18446744073709551615");
    assert_eq!(OperationId::new(3), OperationId(3));
}

#[test]
fn the_generator_counts_up() {
    let mut g = OperationIdGenerator::new(5);
    assert_eq!(g.next(), OperationId(5));
    assert_eq!(g.next(), OperationId(6));
    assert_eq!(g.next(), OperationId(7));
    assert_eq!(OperationIdGenerator::default().next(), OperationId(0));
}

#[test]
fn errors_are_shown() {
    assert_eq!(CauspanError::InvalidRpcId(0).message(), "invalid RPC id: 0");
    assert_eq!(CauspanError::InvalidOperationId(9).message(), "invalid operation id: 9");
    assert_eq!(CauspanError::InvalidPid(1).message(), "invalid PID: 1");
    assert_eq!(CauspanError::InvalidTid(2).message(), "invalid TID: 2");
    assert_eq!(
        CauspanError::UnsupportedOperation("mmap".to_string()).message(),
        "unsupported operation kind: mmap"
    );
}

#[test]
fn file_workloads_alternate() {
    let mut rng = StdRng::seed_from_u64(1);
    let ops = build_ops(Scenario::FileOnly, 5, &mut rng);
    assert_eq!(
        ops,
        vec![OpSpec::FileRead, OpSpec::FileWrite, OpSpec::FileRead, OpSpec::FileWrite, OpSpec::FileRead]
    );
}

#[test]
fn network_workloads_connect() {
    let mut rng = StdRng::seed_from_u64(1);
    assert_eq!(build_ops(Scenario::NetworkOnly, 3, &mut rng), vec![OpSpec::NetworkConnect; 3]);
    assert!(build_ops(Scenario::NetworkOnly, 0, &mut rng).is_empty());
}

#[test]
fn mixed_workloads_draw_from_files_and_network() {
    let mut rng = StdRng::seed_from_u64(42);
    let ops = build_ops(Scenario::Mixed, 300, &mut rng);
    assert_eq!(ops.len(), 300);
    for op in [OpSpec::FileRead, OpSpec::FileWrite, OpSpec::NetworkConnect] {
        assert!(ops.contains(&op));
    }
    assert!(!ops.contains(&OpSpec::ProcessSpawn));
}

#[test]
fn spawning_workloads_draw_from_everything() {
    let mut rng = StdRng::seed_from_u64(42);
    let ops = build_ops(Scenario::WithProcessSpawn, 400, &mut rng);
    assert_eq!(ops.len(), 400);
    for op in [OpSpec::FileRead, OpSpec::FileWrite, OpSpec::NetworkConnect, OpSpec::ProcessSpawn] {
        assert!(ops.contains(&op));
    }
}

#[test]
fn a_seed_gives_one_workload() {
    let mut a = StdRng::seed_from_u64(42);
    let mut b = StdRng::seed_from_u64(42);
    for _ in 0..3 {
        assert_eq!(build_ops(Scenario::Mixed, 50, &mut a), build_ops(Scenario::Mixed, 50, &mut b));
    }
    let mut c = StdRng::seed_from_u64(43);
    let mut d = StdRng::seed_from_u64(42);
    assert_ne!(build_ops(Scenario::Mixed, 50, &mut c), build_ops(Scenario::Mixed, 50, &mut d));
}

#[test]
fn a_draw_decides_an_operation() {
    assert_eq!(choices(Scenario::Mixed), 3);
    assert_eq!(choices(Scenario::WithProcessSpawn), 4);
    assert_eq!(choices(Scenario::FileOnly), 1);
    assert_eq!(choices(Scenario::NetworkOnly), 1);
    let mixed: Vec<OpSpec> = (0..3).map(|d| operation_for(Scenario::Mixed, 0, d)).collect();
    assert_eq!(mixed, vec![OpSpec::FileRead, OpSpec::FileWrite, OpSpec::NetworkConnect]);
    let spawning: Vec<OpSpec> = (0..4).map(|d| operation_for(Scenario::WithProcessSpawn, 0, d)).collect();
    assert_eq!(
        spawning,
        vec![OpSpec::FileRead, OpSpec::FileWrite, OpSpec::NetworkConnect, OpSpec::ProcessSpawn]
    );
}

#[test]
fn each_request_has_its_own_files() {
    assert_eq!(rpc_file_path("/tmp/causpan", 1, "read"), "/tmp/causpan/rpc-1-read.bin");
    let mut paths: Vec<String> = Vec::new();
    for rpc in [1, 11, 111, 2] {
        for suffix in ["read", "write"] {
            let p = rpc_file_path("/d", rpc, suffix);
            assert!(!paths.contains(&p));
            paths.push(p);
        }
    }
}

#[test]
fn texts_of_a_request() {
    assert_eq!(write_content(3, 17), "rpc-3-op-17\n");
    assert_eq!(seed_content(3), "rpc-3-seed\n");
    assert_eq!(connect_address("127.0.0.1", 9999), "127.0.0.1:9999");
}

#[test]
fn times_since_the_epoch() {
    assert_eq!(timestamp_ns(1, 5), 1_000_000_005);
    assert_eq!(timestamp_ns(0, 0), 0);
    let long = (u64::MAX as u128 * 1_000_000_000 + 7) as u64;
    assert_eq!(timestamp_ns(u64::MAX, 7), long);
}

#[test]
fn timestamps_never_fall() {
    assert_eq!(next_timestamp(5, 9), 9);
    assert_eq!(next_timestamp(9, 5), 9);
    assert_eq!(next_timestamp(7, 7), 7);
    let mut last = 0;
    for now in [3, 8, 2, 9, 9, 1] {
        let stamp = next_timestamp(last, now);
        assert!(stamp >= last && stamp >= now);
        last = stamp;
    }
    assert_eq!(last, 9);
}

fn resources() -> Resources {
    Resources { data_dir: "/d".to_string(), net_host: "localhost".to_string(), net_port: 9999 }
}

const ALL_OPS: [OpSpec; 4] =
    [OpSpec::FileRead, OpSpec::FileWrite, OpSpec::NetworkConnect, OpSpec::ProcessSpawn];

#[test]
fn operations_are_recorded() {
    let stamp = Stamp { pid: 10, tid: 11, timestamp_ns: 12 };
    let records: Vec<_> =
        ALL_OPS.iter().map(|op| record_of(*op, &resources(), 2, OperationId(9), stamp)).collect();
    for e in &records {
        assert_eq!((e.rpc_id, e.operation_id), (RpcId(2), OperationId(9)));
        assert_eq!((e.pid, e.tid, e.timestamp_ns), (10, 11, 12));
    }
    let kinds: Vec<OperationKind> = records.iter().map(|e| e.operation).collect();
    assert_eq!(
        kinds,
        vec![
            OperationKind::FileRead,
            OperationKind::FileWrite,
            OperationKind::NetworkConnect,
            OperationKind::ProcessSpawn,
        ]
    );
    assert!(matches!(&records[0].target, OperationTarget::File(f) if f.path == "/d/rpc-2-read.bin"));
    assert!(matches!(&records[1].target, OperationTarget::File(f) if f.path == "/d/rpc-2-write.bin"));
    assert!(
        matches!(&records[2].target, OperationTarget::Network(n) if n.host == "localhost" && n.port == 10000)
    );
    assert!(
        matches!(&records[3].target, OperationTarget::Process { command, args } if command == "true" && args[0] == "rpc-2")
    );
}

#[test]
fn each_request_has_its_own_network_target() {
    assert_eq!(request_target("h", 9999, 1).port, 9999);
    assert_eq!(request_target("h", 9999, 2).port, 10000);
    assert_eq!(request_target("h", 65535, 2).port, 0);
    assert_eq!(request_target("h", 0, 1).port, 0);
    assert_eq!(request_target("h", 9999, 65537).port, 9999);
    assert_eq!(request_target("h", 1, u64::MAX).port, 65535);
    let mut ports: Vec<u16> = (1..=1000).map(|rpc| request_target("h", 65000, rpc).port).collect();
    ports.sort();
    ports.dedup();
    assert_eq!(ports.len(), 1000);
}

#[test]
fn requests_share_no_target() {
    let stamp = Stamp { pid: 1, tid: 1, timestamp_ns: 1 };
    let mut targets: Vec<OperationTarget> = Vec::new();
    for rpc in 1..20u64 {
        for op in ALL_OPS {
            let target = record_of(op, &resources(), rpc, OperationId(1), stamp).target;
            assert!(!targets.contains(&target));
            targets.push(target);
        }
    }
}

#[test]
fn operation_ids_are_unique_across_requests() {
    assert_eq!(operation_ids(1).next(), OperationId((1 << 32) | 1));
    assert_eq!(operation_ids(0x1_0000_0002).next(), OperationId((2 << 32) | 1));
    let mut ids: Vec<OperationId> = Vec::new();
    for rpc in 1..5u64 {
        let mut g = operation_ids(rpc);
        for _ in 0..10 {
            let id = g.next();
            assert!(!ids.contains(&id));
            ids.push(id);
        }
    }
}

#[test]
fn a_request_is_planned() {
    let mut g = operation_ids(3);
    let plan = plan_request(&[OpSpec::FileRead, OpSpec::NetworkConnect], &mut g);
    assert_eq!(
        plan,
        vec![
            (OpSpec::FileRead, OperationId((3 << 32) | 1)),
            (OpSpec::NetworkConnect, OperationId((3 << 32) | 2)),
        ]
    );
    assert_eq!(g.next(), OperationId((3 << 32) | 3));
}

#[test]
fn a_workload_is_planned() {
    let mut rng = StdRng::seed_from_u64(7);
    let plans = plan_workload(Scenario::FileOnly, 3, 2, &mut rng);
    assert_eq!(plans.len(), 3);
    let mut ids: Vec<OperationId> = Vec::new();
    for (i, plan) in plans.iter().enumerate() {
        let rpc = i as u64 + 1;
        assert_eq!(plan.rpc_id, rpc);
        assert_eq!(
            plan.steps,
            vec![
                (OpSpec::FileRead, OperationId((rpc << 32) | 1)),
                (OpSpec::FileWrite, OperationId((rpc << 32) | 2)),
            ]
        );
        for step in &plan.steps {
            assert!(!ids.contains(&step.1));
            ids.push(step.1);
        }
    }
    assert!(plan_workload(Scenario::Mixed, 0, 5, &mut rng).is_empty());
}

#[test]
fn a_workload_draws_for_one_request_after_the_other() {
    let mut a = StdRng::seed_from_u64(42);
    let mut b = StdRng::seed_from_u64(42);
    let plans = plan_workload(Scenario::Mixed, 4, 10, &mut a);
    for plan in &plans {
        let ops: Vec<OpSpec> = plan.steps.iter().map(|s| s.0).collect();
        assert_eq!(ops, build_ops(Scenario::Mixed, 10, &mut b));
    }
}

#[test]
fn files_are_there_before_a_workload_starts() {
    let files = seed_files("/d", 2);
    let shown: Vec<(&str, &str)> =
        files.iter().map(|f| (f.path.as_str(), f.content.as_str())).collect();
    assert_eq!(
        shown,
        vec![
            ("/d/rpc-1-read.bin", "rpc-1-seed\n"),
            ("/d/rpc-1-write.bin", "rpc-1-seed\n"),
            ("/d/rpc-2-read.bin", "rpc-2-seed\n"),
            ("/d/rpc-2-write.bin", "rpc-2-seed\n"),
        ]
    );
}
