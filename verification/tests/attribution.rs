use causpan::evaluation::evaluate;
use causpan::evaluation::evaluate_with_vote;
use causpan::evaluation::run_strategy;
use causpan::evaluation::EvaluationError;
use causpan::event::AttributionOutcome;
use causpan::event::GroundTruthEvent;
use causpan::event::KernelEvent;
use causpan::event::KernelEventArgs;
use causpan::event::KernelEventType;
use causpan::event::OperationKind;
use causpan::event::OperationTarget;
use causpan::grouping::group_gt_by_match_key;
use causpan::grouping::group_ke_by_match_key;
use causpan::grouping::MatchKey;
use causpan::identity::OperationId;
use causpan::identity::RpcId;
use causpan::matcher::operation_matches_kernel;
use causpan::matcher::EventMatcher;
use causpan::metrics::classify;
use causpan::metrics::rank;
use causpan::metrics::EvaluationResults;
use causpan::metrics::Ratio;
use causpan::metrics::StrategyResults;
use causpan::strategies::majority_vote::count_winner;
use causpan::strategies::majority_vote::MajorityVoteStrategy;
use causpan::strategies::pid::PidStrategy;
use causpan::strategies::tid::PidTidStrategy;
use causpan::strategies::time_window::TimeWindowStrategy;
use causpan::strategies::AttributionStrategy;

const SECOND: u64 = 1_000_000_000;

fn truth(rpc: u64, operation: OperationKind, pid: u32, tid: u32, ts: u64) -> GroundTruthEvent {
    GroundTruthEvent {
        rpc_id: RpcId(rpc),
        operation_id: OperationId(rpc * 100 + ts),
        operation,
        target: OperationTarget::Unknown,
        pid,
        tid,
        timestamp_ns: ts,
    }
}

fn read(rpc: u64, pid: u32, tid: u32, ts: u64) -> GroundTruthEvent {
    truth(rpc, OperationKind::FileRead, pid, tid, ts)
}

fn kernel(event_type: KernelEventType, pid: u32, tid: u32, ts: u64) -> KernelEvent {
    KernelEvent {
        pid,
        tid,
        timestamp_ns: ts,
        event_type,
        args: KernelEventArgs::default(),
        return_value: None,
    }
}

fn seen(pid: u32, tid: u32, ts: u64) -> KernelEvent {
    kernel(KernelEventType::Read, pid, tid, ts)
}

const ALL_KINDS: [OperationKind; 4] = [
    OperationKind::FileRead,
    OperationKind::FileWrite,
    OperationKind::NetworkConnect,
    OperationKind::ProcessSpawn,
];

const ALL_TYPES: [KernelEventType; 9] = [
    KernelEventType::Openat,
    KernelEventType::Read,
    KernelEventType::Write,
    KernelEventType::Socket,
    KernelEventType::Connect,
    KernelEventType::Clone,
    KernelEventType::Fork,
    KernelEventType::Execve,
    KernelEventType::Unknown,
];

#[test]
fn operations_produce_their_syscalls() {
    let produced = |op: OperationKind| -> Vec<KernelEventType> {
        ALL_TYPES.iter().copied().filter(|ev| operation_matches_kernel(op, *ev)).collect()
    };
    assert_eq!(produced(OperationKind::FileRead), vec![KernelEventType::Openat, KernelEventType::Read]);
    assert_eq!(produced(OperationKind::FileWrite), vec![KernelEventType::Openat, KernelEventType::Write]);
    assert_eq!(
        produced(OperationKind::NetworkConnect),
        vec![KernelEventType::Socket, KernelEventType::Connect]
    );
    assert_eq!(
        produced(OperationKind::ProcessSpawn),
        vec![KernelEventType::Clone, KernelEventType::Fork, KernelEventType::Execve]
    );
}

#[test]
fn operations_are_shown_by_name() {
    let names: Vec<String> = ALL_KINDS.iter().map(|k| k.to_string()).collect();
    assert_eq!(names, vec!["file_read", "file_write", "network_connect", "process_spawn"]);
}

#[test]
fn the_closest_operation_is_matched() {
    let gt = vec![read(1, 10, 11, 100), read(2, 10, 11, 200), read(3, 10, 12, 150)];
    let m = EventMatcher::new(&gt);
    assert_eq!(m.match_event(&seen(10, 11, 120)), Some(RpcId(1)));
    assert_eq!(m.match_event(&seen(10, 11, 190)), Some(RpcId(2)));
    assert_eq!(m.match_event(&seen(10, 11, 100)), Some(RpcId(1)));
    assert_eq!(m.match_event(&seen(10, 12, 0)), Some(RpcId(3)));
    assert_eq!(m.match_event(&seen(10, 13, 120)), None);
    assert_eq!(m.match_event(&seen(11, 11, 120)), None);
}

#[test]
fn the_order_of_the_ground_truth_does_not_matter_to_the_match() {
    let gt = vec![read(2, 10, 11, 200), read(3, 10, 11, 300), read(1, 10, 11, 100)];
    let m = EventMatcher::new(&gt);
    assert_eq!(m.match_event(&seen(10, 11, 120)), Some(RpcId(1)));
    assert_eq!(m.match_event(&seen(10, 11, 290)), Some(RpcId(3)));
}

#[test]
fn only_fitting_operations_are_matched() {
    let gt = vec![
        truth(1, OperationKind::NetworkConnect, 1, 1, 100),
        truth(2, OperationKind::FileWrite, 1, 1, 500),
    ];
    let m = EventMatcher::new(&gt);
    assert_eq!(m.match_event(&kernel(KernelEventType::Write, 1, 1, 100)), Some(RpcId(2)));
    assert_eq!(m.match_event(&kernel(KernelEventType::Connect, 1, 1, 500)), Some(RpcId(1)));
    assert_eq!(m.match_event(&kernel(KernelEventType::Read, 1, 1, 500)), None);
    assert_eq!(m.match_event(&kernel(KernelEventType::Unknown, 1, 1, 500)), None);
}

#[test]
fn a_match_lies_within_ten_seconds() {
    let m = EventMatcher::new(&[read(1, 1, 1, 20 * SECOND)]);
    assert_eq!(m.match_event(&seen(1, 1, 10 * SECOND)), Some(RpcId(1)));
    assert_eq!(m.match_event(&seen(1, 1, 10 * SECOND - 1)), None);
    assert_eq!(m.match_event(&seen(1, 1, 30 * SECOND)), Some(RpcId(1)));
    assert_eq!(m.match_event(&seen(1, 1, 30 * SECOND + 1)), None);
    assert_eq!(EventMatcher::new(&[]).match_event(&seen(1, 1, 1)), None);
}

#[test]
fn a_match_that_is_not_unique_is_skipped() {
    let gt = vec![read(1, 1, 1, 100), read(2, 1, 1, 200), read(3, 1, 1, 200)];
    let m = EventMatcher::new(&gt);
    // As near to one as to the other.
    assert_eq!(m.match_event(&seen(1, 1, 150)), None);
    // Two at the same time.
    assert_eq!(m.match_event(&seen(1, 1, 210)), None);
    assert_eq!(m.match_event(&seen(1, 1, 149)), Some(RpcId(1)));
}

#[test]
fn keys_group_both_layers() {
    let gt = vec![
        truth(1, OperationKind::FileRead, 1, 1, 1),
        truth(2, OperationKind::NetworkConnect, 1, 1, 2),
        truth(3, OperationKind::FileWrite, 1, 1, 3),
    ];
    let groups = group_gt_by_match_key(&gt);
    let ids: Vec<u64> = groups.get(&MatchKey::File).unwrap().iter().map(|e| e.rpc_id.0).collect();
    assert_eq!(ids, vec![1, 3]);
    assert_eq!(groups.get(&MatchKey::Network).unwrap().len(), 1);
    assert!(groups.get(&MatchKey::Process).is_none());
    let ke = vec![
        kernel(KernelEventType::Openat, 1, 1, 1),
        kernel(KernelEventType::Unknown, 1, 1, 2),
        kernel(KernelEventType::Execve, 1, 1, 3),
        kernel(KernelEventType::Write, 1, 1, 4),
    ];
    let groups = group_ke_by_match_key(&ke);
    let times: Vec<u64> = groups.get(&MatchKey::File).unwrap().iter().map(|e| e.timestamp_ns).collect();
    assert_eq!(times, vec![1, 4]);
    assert_eq!(groups.get(&MatchKey::Process).unwrap().len(), 1);
    assert!(groups.get(&MatchKey::Network).is_none());
}

#[test]
fn an_operation_and_its_syscalls_have_one_key() {
    for op in ALL_KINDS {
        for ev in ALL_TYPES {
            if operation_matches_kernel(op, ev) {
                assert_eq!(
                    MatchKey::from_kernel_event(&kernel(ev, 1, 1, 1)),
                    Some(MatchKey::from_ground_truth(&truth(1, op, 1, 1, 1)))
                );
            }
        }
    }
    assert_eq!(MatchKey::from_kernel_event(&kernel(KernelEventType::Unknown, 1, 1, 1)), None);
}

#[test]
fn the_pid_strategy_knows_the_last_request_of_a_process() {
    let mut s = PidStrategy::new();
    assert_eq!(s.name(), "pid");
    assert_eq!(s.attribute(&seen(1, 1, 1)), None);
    s.load_ground_truth(&[read(1, 1, 1, 100), read(2, 1, 2, 50), read(3, 2, 1, 10)]);
    // The last in the list, not the latest.
    assert_eq!(s.attribute(&seen(1, 1, 100)), Some(RpcId(2)));
    assert_eq!(s.attribute(&kernel(KernelEventType::Unknown, 1, 9, 7)), Some(RpcId(2)));
    assert_eq!(s.attribute(&seen(2, 1, 1)), Some(RpcId(3)));
    assert_eq!(s.attribute(&seen(3, 1, 1)), None);
    s.load_ground_truth(&[read(4, 3, 1, 1)]);
    assert_eq!(s.attribute(&seen(1, 1, 1)), None);
    assert_eq!(s.attribute(&seen(3, 1, 1)), Some(RpcId(4)));
}

#[test]
fn the_thread_strategy_knows_the_last_request_of_a_thread() {
    let mut s = PidTidStrategy::new();
    assert_eq!(s.name(), "pid_tid");
    s.load_ground_truth(&[read(1, 1, 1, 100), read(2, 1, 2, 50), read(3, 1, 1, 10)]);
    assert_eq!(s.attribute(&seen(1, 1, 100)), Some(RpcId(3)));
    assert_eq!(s.attribute(&seen(1, 2, 100)), Some(RpcId(2)));
    assert_eq!(s.attribute(&seen(1, 3, 100)), None);
    assert_eq!(s.attribute(&seen(2, 1, 100)), None);
    s.load_ground_truth(&[]);
    assert_eq!(s.attribute(&seen(1, 1, 100)), None);
}

#[test]
fn the_window_strategy_takes_the_most_recent_request() {
    let mut s = TimeWindowStrategy::new(50);
    s.load_ground_truth(&[read(2, 1, 1, 200), read(1, 1, 1, 100), read(3, 1, 2, 120)]);
    assert_eq!(s.attribute(&seen(1, 1, 120)), Some(RpcId(1)));
    assert_eq!(s.attribute(&seen(1, 1, 160)), Some(RpcId(2)));
    assert_eq!(s.attribute(&seen(1, 1, 150)), Some(RpcId(1)));
    // Nothing before lies in the window: the next one counts.
    assert_eq!(s.attribute(&seen(1, 1, 151)), Some(RpcId(2)));
    // The edges of the window.
    assert_eq!(s.attribute(&seen(1, 1, 50)), Some(RpcId(1)));
    assert_eq!(s.attribute(&seen(1, 1, 49)), None);
    assert_eq!(s.attribute(&seen(1, 1, 250)), Some(RpcId(2)));
    assert_eq!(s.attribute(&seen(1, 1, 251)), None);
    assert_eq!(s.attribute(&seen(1, 3, 120)), None);
}

#[test]
fn a_later_request_does_not_win_over_the_most_recent_one() {
    let mut s = TimeWindowStrategy::new(50);
    s.load_ground_truth(&[read(1, 1, 1, 90), read(2, 1, 1, 101)]);
    assert_eq!(s.attribute(&seen(1, 1, 100)), Some(RpcId(1)));
    assert_eq!(s.attribute(&seen(1, 1, 101)), Some(RpcId(2)));
    assert_eq!(s.window_ns(), 50);
    let mut s = TimeWindowStrategy::new(5);
    s.load_ground_truth(&[read(1, 1, 1, 90), read(2, 1, 1, 101)]);
    assert_eq!(s.attribute(&seen(1, 1, 100)), Some(RpcId(2)));
}

#[test]
fn of_one_time_the_window_strategy_takes_the_last_before_and_the_first_after() {
    let mut s = TimeWindowStrategy::new(50);
    s.load_ground_truth(&[read(1, 1, 1, 100), read(2, 1, 1, 100)]);
    assert_eq!(s.attribute(&seen(1, 1, 100)), Some(RpcId(2)));
    assert_eq!(s.attribute(&seen(1, 1, 110)), Some(RpcId(2)));
    assert_eq!(s.attribute(&seen(1, 1, 90)), Some(RpcId(1)));
}

#[test]
fn the_widest_window_reaches_the_greatest_distance() {
    let mut s = TimeWindowStrategy::new(u64::MAX);
    s.load_ground_truth(&[read(1, 1, 1, 0)]);
    assert_eq!(s.attribute(&seen(1, 1, u64::MAX)), Some(RpcId(1)));
    assert_eq!(s.attribute(&seen(1, 1, u64::MAX - 1)), Some(RpcId(1)));
    s.load_ground_truth(&[read(1, 1, 1, u64::MAX)]);
    assert_eq!(s.attribute(&seen(1, 1, 0)), Some(RpcId(1)));
    let mut s = TimeWindowStrategy::new(u64::MAX - 1);
    s.load_ground_truth(&[read(1, 1, 1, 0)]);
    assert_eq!(s.attribute(&seen(1, 1, u64::MAX)), None);
}

#[test]
fn windows_are_named_by_milliseconds() {
    let names: Vec<String> =
        TimeWindowStrategy::strategies_ms(&[1, 50, 1000, 0]).iter().map(|s| s.name()).collect();
    assert_eq!(names, vec!["time_window_1ms", "time_window_50ms", "time_window_1000ms", "time_window_0ms"]);
    assert_eq!(TimeWindowStrategy::new(999_999).name(), "time_window_0ms");
    assert_eq!(TimeWindowStrategy::new(1_999_999).name(), "time_window_1ms");
    assert!(TimeWindowStrategy::strategies_ms(&[]).is_empty());
}

#[test]
fn windows_in_milliseconds_reach_as_far() {
    let mut all = TimeWindowStrategy::strategies_ms(&[2]);
    all[0].load_ground_truth(&[read(1, 1, 1, 0)]);
    assert_eq!(all[0].attribute(&seen(1, 1, 2_000_000)), Some(RpcId(1)));
    assert_eq!(all[0].attribute(&seen(1, 1, 2_000_001)), None);
}

#[test]
fn a_wider_window_attributes_what_a_narrow_one_does() {
    let gt = vec![read(1, 1, 1, 100), read(2, 1, 1, 180), read(3, 1, 1, 400)];
    let mut narrow = TimeWindowStrategy::new(30);
    let mut wide = TimeWindowStrategy::new(200);
    narrow.load_ground_truth(&gt);
    wide.load_ground_truth(&gt);
    for ts in 0..700 {
        if let Some(rpc) = narrow.attribute(&seen(1, 1, ts)) {
            let now = wide.attribute(&seen(1, 1, ts));
            assert!(now.is_some());
            // The wide window reaches further back between the requests.
            let reaches = (150..180).contains(&ts) || (370..=380).contains(&ts);
            if !reaches {
                assert_eq!(now, Some(rpc));
            }
        }
    }
    assert_eq!(narrow.attribute(&seen(1, 1, 160)), Some(RpcId(2)));
    assert_eq!(wide.attribute(&seen(1, 1, 160)), Some(RpcId(1)));
}

#[test]
fn votes_are_counted() {
    let v = |ids: &[u64]| -> Option<RpcId> {
        let votes: Vec<Option<RpcId>> =
            ids.iter().map(|n| if *n == 0 { None } else { Some(RpcId(*n)) }).collect();
        count_winner(&votes)
    };
    assert_eq!(v(&[]), None);
    assert_eq!(v(&[0, 0]), None);
    assert_eq!(v(&[7]), Some(RpcId(7)));
    assert_eq!(v(&[1, 2, 2]), Some(RpcId(2)));
    assert_eq!(v(&[1, 2, 0, 1, 3]), Some(RpcId(1)));
    // A tie for the most votes has no winner, wherever it stands.
    assert_eq!(v(&[1, 2]), None);
    assert_eq!(v(&[1, 2, 1, 2, 3]), None);
    assert_eq!(v(&[1, 2, 3, 3, 2]), None);
    assert_eq!(v(&[1, 2, 3, 3]), Some(RpcId(3)));
    assert_eq!(v(&[0, 0, 0, 4]), Some(RpcId(4)));
}

#[test]
fn the_vote_follows_most_strategies() {
    let mut s = MajorityVoteStrategy::new(&[1, 10]);
    assert_eq!(s.name(), "majority_vote");
    assert_eq!(s.attribute(&seen(1, 1, 0)), None);
    // Process: 3; thread 1: 2; thread 2: 3.
    s.load_ground_truth(&[
        read(1, 1, 1, 0),
        read(2, 1, 1, 100_000_000),
        read(3, 1, 2, 0),
    ]);
    // pid 3, pid_tid 2, both windows 1.
    assert_eq!(s.attribute(&seen(1, 1, 500_000)), Some(RpcId(1)));
    // pid 3, pid_tid 2, windows: none and 1.
    assert_eq!(s.attribute(&seen(1, 1, 5_000_000)), None);
    // pid 3, pid_tid 2, windows none and 2.
    assert_eq!(s.attribute(&seen(1, 1, 105_000_000)), Some(RpcId(2)));
    // pid 3, pid_tid 2, no window.
    assert_eq!(s.attribute(&seen(1, 1, 50_000_000)), None);
    // All that decide name one.
    assert_eq!(s.attribute(&seen(1, 2, 50_000_000)), Some(RpcId(3)));
    assert_eq!(s.attribute(&seen(2, 2, 0)), None);
}

#[test]
fn an_evaluation_with_the_vote_has_one_more_strategy() {
    let gt = vec![read(1, 1, 1, 0), read(2, 1, 1, 20_000_000)];
    let ke = vec![seen(1, 1, 500_000), seen(1, 1, 26_000_000), seen(1, 1, 20_000_000)];
    for windows in [vec![], vec![1], vec![1, 10]] {
        let plain = evaluate(&gt, &ke, &windows).unwrap();
        let voted = evaluate_with_vote(&gt, &ke, &windows).unwrap();
        assert_eq!(plain.strategies.len(), 2 + windows.len());
        assert_eq!(voted.strategies.len(), 3 + windows.len());
        assert_eq!(voted.matched_events, plain.matched_events);
        let others: Vec<&str> = voted
            .strategies
            .iter()
            .map(|s| s.strategy_name.as_str())
            .filter(|n| *n != "majority_vote")
            .collect();
        let names: Vec<&str> = plain.strategies.iter().map(|s| s.strategy_name.as_str()).collect();
        assert_eq!(others, names);
    }
    let voted = evaluate_with_vote(&gt, &ke, &[1, 10]).unwrap();
    let vote = voted.strategies.iter().find(|s| s.strategy_name == "majority_vote").unwrap();
    // Two against two on the first event; all for request 2 on the others.
    assert_eq!((vote.correct, vote.wrong_rpc, vote.unattributed), (2, 0, 1));
    assert_eq!(evaluate_with_vote(&[], &ke, &[]).unwrap_err(), EvaluationError::NoGroundTruth);
    assert_eq!(evaluate_with_vote(&gt, &[], &[]).unwrap_err(), EvaluationError::NoKernelEvents);
}

#[test]
fn sharing_defeats_the_coarser_strategies() {
    let gt = vec![read(1, 1, 1, 100), read(2, 1, 1, 900), read(3, 1, 2, 500)];
    let ke = vec![seen(1, 1, 101), seen(1, 1, 901), seen(1, 2, 501)];
    let m = EventMatcher::new(&gt);
    let actual: Vec<Option<RpcId>> = ke.iter().map(|k| m.match_event(k)).collect();
    assert_eq!(actual, vec![Some(RpcId(1)), Some(RpcId(2)), Some(RpcId(3))]);
    let mut pid = PidStrategy::new();
    pid.load_ground_truth(&gt);
    let r = run_strategy(&mut pid, &ke, &actual);
    assert_eq!((r.correct, r.wrong_rpc, r.unattributed), (1, 2, 0));
    let mut tid = PidTidStrategy::new();
    tid.load_ground_truth(&gt);
    let r = run_strategy(&mut tid, &ke, &actual);
    assert_eq!((r.correct, r.wrong_rpc, r.unattributed), (2, 1, 0));
    let mut window = TimeWindowStrategy::new(10);
    window.load_ground_truth(&gt);
    let r = run_strategy(&mut window, &ke, &actual);
    assert_eq!((r.correct, r.wrong_rpc, r.unattributed), (3, 0, 0));
}

#[test]
fn without_sharing_the_coarser_strategies_are_right() {
    let gt = vec![read(1, 1, 1, 100), read(2, 2, 2, 100), read(1, 1, 3, 900)];
    let ke = vec![seen(1, 1, 150), seen(2, 2, 150), seen(1, 3, 150)];
    let r = evaluate(&gt, &ke, &[]).unwrap();
    assert_eq!(r.strategies[0].correct, 3);
    assert_eq!(r.strategies[1].correct, 3);
}

#[test]
fn unmatched_events_are_not_counted() {
    let gt = vec![read(1, 1, 1, 100)];
    let ke = vec![seen(1, 1, 100), kernel(KernelEventType::Unknown, 1, 1, 100), seen(9, 9, 100)];
    let r = evaluate(&gt, &ke, &[1]).unwrap();
    assert_eq!(r.matched_events, 1);
    assert_eq!(r.unmatched_events, 2);
    assert_eq!(r.total_kernel_events, 3);
    assert_eq!(r.total_ground_truth_events, 1);
    for s in &r.strategies {
        assert_eq!(s.correct + s.wrong_rpc + s.unattributed, 1);
    }
}

#[test]
fn an_evaluation_ranks_all_strategies() {
    let gt = vec![read(1, 1, 1, 0), read(2, 1, 1, 20_000_000)];
    let ke = vec![seen(1, 1, 500_000), seen(1, 1, 26_000_000), seen(1, 1, 20_000_000)];
    let r = evaluate(&gt, &ke, &[1, 10]).unwrap();
    let shown: Vec<(&str, usize, usize, usize)> = r
        .strategies
        .iter()
        .map(|s| (s.strategy_name.as_str(), s.correct, s.wrong_rpc, s.unattributed))
        .collect();
    assert_eq!(
        shown,
        vec![
            ("time_window_10ms", 3, 0, 0),
            ("time_window_1ms", 2, 0, 1),
            ("pid", 2, 1, 0),
            ("pid_tid", 2, 1, 0),
        ]
    );
    let narrow = &r.strategies[1];
    assert_eq!(narrow.precision, Ratio { numerator: 2, denominator: 2 });
    assert_eq!(narrow.recall, Ratio { numerator: 2, denominator: 2 });
    assert_eq!(narrow.unattributed_rate, Ratio { numerator: 1, denominator: 3 });
    assert_eq!(narrow.wrong_rate, Ratio { numerator: 0, denominator: 3 });
    assert!(r.strategies[0].unattributed <= narrow.unattributed);
}

#[test]
fn an_evaluation_needs_both_layers() {
    let gt = vec![read(1, 1, 1, 100)];
    let ke = vec![seen(1, 1, 100)];
    assert_eq!(evaluate(&[], &ke, &[]).unwrap_err(), EvaluationError::NoGroundTruth);
    assert_eq!(evaluate(&gt, &[], &[]).unwrap_err(), EvaluationError::NoKernelEvents);
    assert_eq!(evaluate(&[], &[], &[]).unwrap_err(), EvaluationError::NoGroundTruth);
    assert_eq!(EvaluationError::NoGroundTruth.message(), "ground-truth file is empty");
    assert_eq!(EvaluationError::NoKernelEvents.message(), "kernel-events file is empty");
}

#[test]
fn outcomes_are_classified() {
    assert_eq!(
        classify(3, RpcId(1), Some(RpcId(1))),
        AttributionOutcome::Correct { kernel_event_index: 3, assigned_rpc_id: RpcId(1), actual_rpc_id: RpcId(1) }
    );
    assert_eq!(
        classify(4, RpcId(1), Some(RpcId(2))),
        AttributionOutcome::WrongRpc { kernel_event_index: 4, assigned_rpc_id: RpcId(2), actual_rpc_id: RpcId(1) }
    );
    assert_eq!(classify(5, RpcId(1), None), AttributionOutcome::Unattributed { kernel_event_index: 5 });
}

#[test]
fn scores_are_the_ratios_of_the_counts() {
    let mut r = StrategyResults::new("pid".to_string());
    assert_eq!(r.strategy_name, "pid");
    assert_eq!(r.precision, Ratio::zero());
    r.correct = 6;
    r.wrong_rpc = 2;
    r.unattributed = 4;
    r.finalise(10, 12);
    assert_eq!(r.precision, Ratio { numerator: 6, denominator: 8 });
    assert_eq!(r.recall, Ratio { numerator: 6, denominator: 10 });
    assert_eq!(r.f1, Ratio { numerator: 12, denominator: 18 });
    assert_eq!(r.wrong_rate, Ratio { numerator: 2, denominator: 12 });
    assert_eq!(r.unattributed_rate, Ratio { numerator: 4, denominator: 12 });
    let p = 6.0 / 8.0;
    let c = 6.0 / 10.0;
    let f1: f64 = 2.0 * p * c / (p + c);
    assert!((f1 - r.f1.numerator as f64 / r.f1.denominator as f64).abs() < 1e-12);
}

#[test]
fn scores_without_events_are_zero() {
    let mut r = StrategyResults::new(String::new());
    r.finalise(0, 0);
    for ratio in [r.precision, r.recall, r.f1, r.wrong_rate, r.unattributed_rate] {
        assert_eq!(ratio, Ratio::zero());
    }
    r.correct = 1;
    r.finalise(0, 1);
    assert_eq!(r.precision, Ratio { numerator: 1, denominator: 1 });
    assert_eq!(r.f1, Ratio::zero());
    assert_eq!(Ratio::of(1, 0), Ratio::zero());
    assert_eq!(Ratio::of(1, 3), Ratio { numerator: 1, denominator: 3 });
    let none = EvaluationResults::default();
    assert_eq!((none.strategies.len(), none.total_kernel_events, none.matched_events), (0, 0, 0));
}

#[test]
fn a_better_strategy_comes_before_a_worse_one() {
    let gt = vec![
        truth(1, OperationKind::FileRead, 1, 1, 0),
        truth(2, OperationKind::FileWrite, 1, 2, 0),
    ];
    let ke = vec![seen(1, 1, 0), seen(1, 2, 0)];
    let r = evaluate(&gt, &ke, &[]).unwrap();
    assert_eq!((r.matched_events, r.unmatched_events), (1, 1));
    assert_eq!((r.total_kernel_events, r.total_ground_truth_events), (2, 2));
    let first = &r.strategies[0];
    assert_eq!(first.strategy_name, "pid_tid");
    assert_eq!((first.correct, first.wrong_rpc, first.unattributed), (1, 0, 0));
    assert_eq!(first.precision, Ratio { numerator: 1, denominator: 1 });
    assert_eq!(first.recall, Ratio { numerator: 1, denominator: 2 });
    assert_eq!(first.f1, Ratio { numerator: 2, denominator: 3 });
    let second = &r.strategies[1];
    assert_eq!(second.strategy_name, "pid");
    assert_eq!((second.correct, second.wrong_rpc, second.unattributed), (0, 1, 0));
    assert_eq!(second.wrong_rate, Ratio { numerator: 1, denominator: 1 });
}

fn with_f1(name: &str, numerator: u128, denominator: u128) -> StrategyResults {
    let mut r = StrategyResults::new(name.to_string());
    r.f1 = Ratio { numerator, denominator };
    r
}

#[test]
fn the_best_comes_first() {
    let ranked = rank(vec![
        with_f1("a", 1, 2),
        with_f1("b", 3, 4),
        with_f1("c", 0, 1),
        with_f1("d", 6, 8),
        with_f1("e", u128::MAX, u128::MAX - 1),
        with_f1("f", 0, 7),
    ]);
    let names: Vec<&str> = ranked.iter().map(|r| r.strategy_name.as_str()).collect();
    assert_eq!(names, vec!["e", "b", "d", "a", "c", "f"]);
    assert!(rank(Vec::new()).is_empty());
}

#[test]
fn ratios_are_compared_exactly() {
    for n in 0..12u128 {
        for d in 1..12u128 {
            for m in 0..12u128 {
                for e in 1..12u128 {
                    let a = Ratio { numerator: n, denominator: d };
                    let b = Ratio { numerator: m, denominator: e };
                    assert_eq!(a.at_least(&b), n * e >= m * d);
                }
            }
        }
    }
    let big = Ratio { numerator: u128::MAX - 1, denominator: u128::MAX };
    let less = Ratio { numerator: u128::MAX - 2, denominator: u128::MAX - 1 };
    assert!(big.at_least(&less));
    assert!(!less.at_least(&big));
}
