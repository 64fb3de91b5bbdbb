use causpan::experiment::binary_path;
use causpan::experiment::check_exit;
use causpan::experiment::check_strace;
use causpan::experiment::check_workload;
use causpan::experiment::default_data_dir;
use causpan::experiment::default_net_host;
use causpan::experiment::default_net_port;
use causpan::experiment::default_ops_per_rpc;
use causpan::experiment::default_output_dir;
use causpan::experiment::default_runs;
use causpan::experiment::default_scenario;
use causpan::experiment::default_seed;
use causpan::experiment::default_strace_output;
use causpan::experiment::default_strace_syscalls;
use causpan::experiment::default_time_windows;
use causpan::experiment::default_worker_threads;
use causpan::experiment::exit_text;
use causpan::experiment::expand_tag;
use causpan::experiment::join_path;
use causpan::experiment::progress_line;
use causpan::experiment::run_tag;
use causpan::experiment::EvaluatorConfig;
use causpan::experiment::ExperimentConfig;
use causpan::experiment::ExperimentMeta;
use causpan::experiment::ExperimentRunner;
use causpan::experiment::RunnerError;
use causpan::experiment::Step;
use causpan::experiment::StraceConfig;
use causpan::experiment::WorkloadConfig;
use causpan::progress::Action;
use causpan::progress::Outcome;
use causpan::progress::Progress;
use causpan::report::aggregated_csv;
use causpan::report::group_runs;
use causpan::report::join_fields;
use causpan::report::raw_csv;
use causpan::report::read_results;
use causpan::report::results_csv;
use causpan::report::table_text;
use causpan::report::AggregatedResult;
use causpan::report::RunResult;
use causpan::report::StrategyRow;

fn config() -> ExperimentConfig {
    ExperimentConfig {
        experiment: ExperimentMeta {
            name: "exp-001".to_string(),
            description: "concurrency".to_string(),
            tags: Vec::new(),
            runs_per_config: 2,
            output_dir: "results/exp".to_string(),
        },
        workload: WorkloadConfig {
            concurrency: vec![1, 16, 1000],
            operations_per_rpc: 4,
            scenario: "mixed".to_string(),
            seed: 42,
            data_dir: "/tmp/causpan".to_string(),
            net_host: "127.0.0.1".to_string(),
            net_port: 9999,
            worker_threads: 2,
        },
        evaluator: EvaluatorConfig { time_windows_ms: vec![1, 50] },
        strace: StraceConfig {
            syscalls: "openat,read".to_string(),
            output_pattern: "strace.{tag}".to_string(),
        },
    }
}

const WORKLOAD: [&str; 16] = [
    "--operations-per-rpc",
    "4",
    "--seed",
    "42",
    "--output",
    "out.jsonl",
    "--data-dir",
    "/tmp/causpan",
    "--net-host",
    "127.0.0.1",
    "--net-port",
    "9999",
    "--scenario",
    "mixed",
    "--worker-threads",
    "2",
];

#[test]
fn defaults_of_the_configuration() {
    assert_eq!(default_runs(), 5);
    assert_eq!(default_output_dir(), "results/default");
    assert_eq!(default_ops_per_rpc(), 4);
    assert_eq!(default_scenario(), "mixed");
    assert_eq!(default_seed(), 42);
    assert_eq!(default_data_dir(), "/tmp/causpan");
    assert_eq!(default_net_host(), "127.0.0.1");
    assert_eq!(default_net_port(), 9999);
    assert_eq!(default_worker_threads(), 2);
    assert_eq!(default_time_windows(), vec![1, 5, 10, 50, 100, 500, 1000]);
    assert_eq!(default_strace_syscalls(), "openat,read,write,socket,connect,clone,fork,execve");
    assert_eq!(default_strace_output(), "strace.{tag}");
    let none = StraceConfig::default();
    assert_eq!((none.syscalls.as_str(), none.output_pattern.as_str()), ("", ""));
}

#[test]
fn all_runs_are_planned() {
    let runner = ExperimentRunner::new(config(), true);
    let plan = runner.plan();
    let shown: Vec<(usize, usize, &str)> =
        plan.iter().map(|p| (p.concurrency, p.run, p.tag.as_str())).collect();
    assert_eq!(
        shown,
        vec![
            (1, 1, "c001-r001"),
            (1, 2, "c001-r002"),
            (16, 1, "c016-r001"),
            (16, 2, "c016-r002"),
            (1000, 1, "c1000-r001"),
            (1000, 2, "c1000-r002"),
        ]
    );
    let mut none = config();
    none.experiment.runs_per_config = 0;
    assert!(ExperimentRunner::new(none, true).plan().is_empty());
}

#[test]
fn tags_tell_runs_apart() {
    let mut seen: Vec<String> = Vec::new();
    for c in [0, 1, 10, 100, 1000, 11] {
        for r in [0, 1, 10, 100, 1000, 11] {
            let t = run_tag(c, r);
            assert_eq!(t, format!("c{:03}-r{:03}", c, r));
            assert!(!seen.contains(&t));
            seen.push(t);
        }
    }
}

#[test]
fn progress_is_shown() {
    assert_eq!(progress_line(3, 10, 16, 1), "[3/10] concurrency=16 run=1");
}

#[test]
fn paths_are_joined_as_std_joins_them() {
    for dir in ["", "a", "a/", "/a/b", "/"] {
        for name in ["x", "x/y", "/x", ""] {
            let expected = std::path::Path::new(dir).join(name);
            assert_eq!(join_path(dir, name), expected.to_str().unwrap(), "{:?} {:?}", dir, name);
        }
    }
}

#[test]
fn tags_are_put_into_patterns() {
    for p in ["", "{tag}", "strace.{tag}", "{tag}{tag}x", "{ta{tag}g}", "{tag", "é{tag}"] {
        assert_eq!(expand_tag(p, "c001-r001"), p.replace("{tag}", "c001-r001"));
        assert_eq!(expand_tag(p, "{tag}"), p.replace("{tag}", "{tag}"));
    }
}

#[test]
fn a_run_has_its_own_files() {
    let runner = ExperimentRunner::new(config(), true);
    let f = runner.files("c001-r002");
    assert_eq!(f.ground_truth, "results/exp/ground-truth/c001-r002.jsonl");
    assert_eq!(f.strace_dir, "results/exp/kernel-events/c001-r002-strace");
    assert_eq!(f.strace_base, "results/exp/kernel-events/c001-r002-strace/strace.c001-r002");
    assert_eq!(f.kernel_events, "results/exp/kernel-events/c001-r002.jsonl");
    assert_eq!(f.evaluation, "results/exp/eval-c001-r002.csv");
    let mut bare = config();
    bare.strace = StraceConfig::default();
    let f = ExperimentRunner::new(bare, true).files("c001-r002");
    assert_eq!(f.strace_base, "results/exp/kernel-events/c001-r002-strace/trace");
}

#[test]
fn steps_depend_on_strace() {
    assert_eq!(
        ExperimentRunner::new(config(), true).steps(),
        vec![Step::Trace, Step::Collect, Step::Evaluate, Step::ReadResults]
    );
    assert_eq!(
        ExperimentRunner::new(config(), false).steps(),
        vec![Step::Workload, Step::NoKernelEvents, Step::Evaluate, Step::ReadResults]
    );
}

#[test]
fn arguments_of_the_commands() {
    let runner = ExperimentRunner::new(config(), true);
    let mut workload = vec!["--concurrency", "16"];
    workload.extend(WORKLOAD);
    assert_eq!(runner.workload_args(16, "out.jsonl"), workload);
    let mut strace = vec!["-f", "-ff", "-ttt", "-e", "openat,read", "-o", "base", "target/debug/workload"];
    strace.extend(workload);
    assert_eq!(runner.strace_args(16, "base", "target/debug/workload", "out.jsonl"), strace);
    assert_eq!(
        runner.collector_args("traces", "ke.jsonl"),
        vec!["--format", "straces", "--data-dir", "/tmp/causpan", "traces", "ke.jsonl"]
    );
    assert_eq!(
        runner.evaluator_args("gt", "ke", "out"),
        vec![
            "--ground-truth", "gt", "--kernel-events", "ke", "--output", "out",
            "--time-windows-ms", "1", "--time-windows-ms", "50",
        ]
    );
}

#[test]
fn programs_are_found() {
    assert_eq!(binary_path("workload", true), "target/release/workload");
    assert_eq!(binary_path("collector", false), "target/debug/collector");
}

#[test]
fn exits_are_judged() {
    for code in [None, Some(0), Some(-1), Some(i32::MIN)] {
        assert_eq!(exit_text(code), format!("exit code: {:?}", code));
    }
    assert_eq!(check_exit("collector", true, Some(0)), Ok(()));
    let e = check_exit("collector", false, Some(2)).unwrap_err();
    assert_eq!(e, RunnerError::CommandFailed("collector".to_string(), "exit code: Some(2)".to_string()));
    assert_eq!(e.message(), "command 'collector' failed: exit code: Some(2)");
    assert_eq!(check_workload(true, Some(0), Some(1)), Ok(()));
    for empty in [None, Some(0)] {
        let e = check_workload(true, Some(0), empty).unwrap_err();
        assert_eq!(e.message(), "command 'workload' failed: produced empty output file");
    }
    let e = check_workload(false, None, Some(1)).unwrap_err();
    assert_eq!(e.message(), "command 'workload' failed: exit code: None");
    assert_eq!(check_strace(true, Some(0), false), Ok(()));
    assert_eq!(check_strace(false, Some(1), true), Ok(()));
    let e = check_strace(false, Some(1), false).unwrap_err();
    assert_eq!(e.message(), "command 'strace' failed: exit code: Some(1)");
    assert_eq!(
        RunnerError::MissingField("seed".to_string(), "workload".to_string()).message(),
        "missing field 'seed' in config section [workload]"
    );
}

fn row(strategy: &str, correct: usize, wrong_rpc: usize, unattributed: usize) -> StrategyRow {
    StrategyRow {
        strategy: strategy.to_string(),
        correct,
        wrong_rpc,
        unattributed,
        precision: "0.7500".to_string(),
        recall: "0.6000".to_string(),
        f1: "0.6667".to_string(),
        wrong_rate: "0.1667".to_string(),
        unattributed_rate: "0.3333".to_string(),
    }
}

const HEADER: &str =
    "strategy,correct,wrong_rpc,unattributed,precision,recall,f1,wrong_rate,unattributed_rate";

#[test]
fn tables_are_written() {
    assert_eq!(join_fields(&vec![]), "");
    assert_eq!(join_fields(&vec!["a".to_string()]), "a");
    assert_eq!(join_fields(&vec!["a".to_string(), "".to_string(), "c".to_string()]), "a,,c");
    assert_eq!(table_text("h", &vec![]), "h\n");
    assert_eq!(table_text("h", &vec!["a".to_string(), "b".to_string()]), "h\na\nb\n");
    assert_eq!(
        results_csv(&vec![row("pid", 6, 2, 4)]),
        format!("{}\npid,6,2,4,0.7500,0.6000,0.6667,0.1667,0.3333\n", HEADER)
    );
}

#[test]
fn written_results_read_back() {
    let rows = vec![row("pid", 6, 2, 4), row("time_window_10ms", usize::MAX, 0, 1)];
    let read = read_results(&results_csv(&rows), 16, 2);
    assert_eq!(read.len(), 2);
    for (r, w) in read.iter().zip(&rows) {
        assert_eq!((r.concurrency, r.run, r.tag.as_str()), (16, 2, "c016-r002"));
        assert_eq!(r.strategy, w.strategy);
        assert_eq!((r.correct, r.wrong_rpc, r.unattributed), (w.correct, w.wrong_rpc, w.unattributed));
        assert_eq!((&r.precision, &r.recall, &r.f1), (&w.precision, &w.recall, &w.f1));
        assert_eq!((&r.wrong_rate, &r.unattributed_rate), (&w.wrong_rate, &w.unattributed_rate));
    }
}

#[test]
fn odd_result_lines_are_read() {
    let content = "anything\npid,x,-1,3,a,b,c,d,e,f,g\n\nshort,1,2\r\ntid,1,2,3,4,5,6,7,8\r\n";
    let read = read_results(content, 1, 1);
    assert_eq!(read.len(), 2);
    assert_eq!((read[0].correct, read[0].wrong_rpc, read[0].unattributed), (0, 0, 3));
    assert_eq!((read[0].precision.as_str(), read[0].unattributed_rate.as_str()), ("a", "e"));
    assert_eq!((read[1].strategy.as_str(), read[1].unattributed_rate.as_str()), ("tid", "8"));
    assert!(read_results("", 1, 1).is_empty());
    assert!(read_results(HEADER, 1, 1).is_empty());
}

fn result(concurrency: usize, run: usize, strategy: &str) -> RunResult {
    let content = results_csv(&vec![row(strategy, 1, 2, 3)]);
    read_results(&content, concurrency, run).remove(0)
}

#[test]
fn results_are_grouped_by_level_and_strategy() {
    let all = vec![
        result(16, 1, "pid_tid"),
        result(2, 1, "time_window_1ms"),
        result(16, 1, "pid"),
        result(2, 1, "time_window_10ms"),
        result(16, 2, "pid_tid"),
        result(2, 2, "time_window_1ms"),
    ];
    let groups = group_runs(&all);
    let shown: Vec<(usize, &str, Vec<usize>)> =
        groups.iter().map(|g| (g.concurrency, g.strategy.as_str(), g.members.clone())).collect();
    assert_eq!(
        shown,
        vec![
            (2, "time_window_10ms", vec![3]),
            (2, "time_window_1ms", vec![1, 5]),
            (16, "pid", vec![2]),
            (16, "pid_tid", vec![0, 4]),
        ]
    );
    for k in 0..all.len() {
        assert_eq!(groups.iter().filter(|g| g.members.contains(&k)).count(), 1);
    }
    assert!(group_runs(&vec![]).is_empty());
}

#[test]
fn the_tables_of_an_experiment_are_written() {
    assert_eq!(
        raw_csv(&vec![result(16, 2, "pid")]),
        "concurrency,run,tag,strategy,correct,wrong_rpc,unattributed,precision,recall,f1,wrong_rate,unattributed_rate\n16,2,c016-r002,pid,1,2,3,0.7500,0.6000,0.6667,0.1667,0.3333\n"
    );
    let a = AggregatedResult {
        concurrency: 16,
        strategy: "pid".to_string(),
        runs: 5,
        precision_mean: "0.1".to_string(),
        precision_std: "0.2".to_string(),
        recall_mean: "0.3".to_string(),
        recall_std: "0.4".to_string(),
        f1_mean: "0.5".to_string(),
        f1_std: "0.6".to_string(),
        wrong_rate_mean: "0.7".to_string(),
        wrong_rate_std: "0.8".to_string(),
    };
    assert_eq!(
        aggregated_csv(&vec![a]),
        "concurrency,strategy,runs,precision_mean,precision_std,recall_mean,recall_std,f1_mean,f1_std,wrong_rate_mean,wrong_rate_std\n16,pid,5,0.1,0.2,0.3,0.4,0.5,0.6,0.7,0.8\n"
    );
}

#[test]
fn an_experiment_takes_its_course() {
    let steps = ExperimentRunner::new(config(), true).steps();
    let mut p: Progress<String> = Progress::new(2, steps.clone());
    let mut performed: Vec<(usize, Step)> = Vec::new();
    while let Action::Perform { run, step } = p.action() {
        performed.push((run, step));
        p = p.next(if step == Step::ReadResults {
            Outcome::Read(vec![result(16, run + 1, "pid")])
        } else {
            Outcome::Done
        });
    }
    let expected: Vec<(usize, Step)> =
        (0..2).flat_map(|run| steps.iter().map(move |s| (run, *s))).collect();
    assert_eq!(performed, expected);
    assert_eq!(p.action(), Action::WriteRaw);
    assert_eq!(p.results().len(), 2);
    p = p.next(Outcome::Done);
    assert_eq!(p.action(), Action::WriteAggregated);
    p = p.next(Outcome::Done);
    assert_eq!(p.action(), Action::Stop);
    let runs: Vec<usize> = p.finish().unwrap().iter().map(|r| r.run).collect();
    assert_eq!(runs, vec![1, 2]);
}

#[test]
fn the_first_failure_ends_an_experiment() {
    let steps = ExperimentRunner::new(config(), false).steps();
    for fails in 0..10 {
        let mut p: Progress<usize> = Progress::new(2, steps.clone());
        for i in 0..12 {
            assert_eq!(p.action() == Action::Stop, i > fails);
            p = p.next(if i >= fails { Outcome::Failed(i) } else { Outcome::Done });
        }
        assert_eq!(p.finish().unwrap_err(), fails);
    }
}

#[test]
fn an_experiment_without_runs_writes_its_tables() {
    let p: Progress<()> = Progress::new(0, vec![Step::Evaluate]);
    assert_eq!(p.action(), Action::WriteRaw);
    let p = p.next(Outcome::Done).next(Outcome::Done).next(Outcome::Done);
    assert_eq!(p.action(), Action::Stop);
    assert!(p.finish().unwrap().is_empty());
}
