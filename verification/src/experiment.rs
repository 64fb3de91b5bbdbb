//! Experiments: their configuration, the runs they are made of, the commands of each run, and
//! what the end of a command means.

use vstd::prelude::*;
use vstd::string::*;

use crate::number::decimal;
use crate::number::law_padded_injective;
use crate::number::lemma_padded_digits;
use crate::number::padded3;
use crate::number::push_decimal;
use crate::number::push_padded3;
use crate::number::push_signed;
use crate::number::signed_decimal;
use crate::text::begins_with;
use crate::text::chars_of;
use crate::text::texts;

verus! {

// ---------------------------------------------------------------------------
// Errors
// ---------------------------------------------------------------------------

/// Why an experiment cannot go on.
#[derive(Debug, Clone, PartialEq, Eq)]
pub enum RunnerError {
    /// A command and why it failed.
    CommandFailed(String, String),
    /// A field and the section that lacks it.
    MissingField(String, String),
}

impl RunnerError {
    /// What the error says.
    pub open spec fn spec_message(self) -> Seq<char> {
        match self {
            RunnerError::CommandFailed(name, why) => "command '"@ + name@ + "' failed: "@ + why@,
            RunnerError::MissingField(field, section) => "missing field '"@ + field@
                + "' in config section ["@ + section@ + "]"@,
        }
    }

    /// What the error says.
    pub fn message(&self) -> (r: String)
        ensures
            r@ == self.spec_message(),
    {
        match self {
            RunnerError::CommandFailed(name, why) => {
                let mut out = "command '".to_owned();
                out.append(name.as_str());
                out.append("' failed: ");
                out.append(why.as_str());
                out
            },
            RunnerError::MissingField(field, section) => {
                let mut out = "missing field '".to_owned();
                out.append(field.as_str());
                out.append("' in config section [");
                out.append(section.as_str());
                out.append("]");
                out
            },
        }
    }
}

// ---------------------------------------------------------------------------
// Configuration
// ---------------------------------------------------------------------------

/// The configuration of an experiment.
#[derive(Debug, Clone)]
pub struct ExperimentConfig {
    pub experiment: ExperimentMeta,
    pub workload: WorkloadConfig,
    pub evaluator: EvaluatorConfig,
    pub strace: StraceConfig,
}

/// What the experiment is, and how often each configuration is run.
#[derive(Debug, Clone)]
pub struct ExperimentMeta {
    pub name: String,
    pub description: String,
    pub tags: Vec<String>,
    pub runs_per_config: usize,
    pub output_dir: String,
}

/// The workload of an experiment.
#[derive(Debug, Clone)]
pub struct WorkloadConfig {
    /// Concurrency levels to test.
    pub concurrency: Vec<usize>,
    /// Number of operations per RPC.
    pub operations_per_rpc: usize,
    /// Workload scenario.
    pub scenario: String,
    /// Random seed for reproducibility.
    pub seed: u64,
    /// Base directory for file operations.
    pub data_dir: String,
    /// Network host for connect operations.
    pub net_host: String,
    /// Network port for connect operations.
    pub net_port: u16,
    /// Tokio worker threads.
    pub worker_threads: usize,
}

/// The evaluation of an experiment.
#[derive(Debug, Clone)]
pub struct EvaluatorConfig {
    /// Time windows (ms) to evaluate.
    pub time_windows_ms: Vec<u64>,
}

/// The trace of an experiment.
#[derive(Debug, Clone)]
pub struct StraceConfig {
    /// Syscall classes to trace.
    pub syscalls: String,
    /// Output file pattern. {tag} is replaced with a unique identifier.
    pub output_pattern: String,
}

impl Default for StraceConfig {
    /// The section where it is left out: it names nothing.
    fn default() -> (r: Self)
        ensures
            r.syscalls@ == Seq::<char>::empty(),
            r.output_pattern@ == Seq::<char>::empty(),
    {
        StraceConfig { syscalls: String::new(), output_pattern: String::new() }
    }
}

/// How often each configuration is run by default.
pub fn default_runs() -> (r: usize)
    ensures
        r == 5,
{
    5
}

/// Where results go by default.
pub fn default_output_dir() -> (r: String)
    ensures
        r@ == "results/default"@,
{
    "results/default".to_owned()
}

/// The number of operations per request by default.
pub fn default_ops_per_rpc() -> (r: usize)
    ensures
        r == 4,
{
    4
}

/// The scenario by default.
pub fn default_scenario() -> (r: String)
    ensures
        r@ == "mixed"@,
{
    "mixed".to_owned()
}

/// The seed by default.
pub fn default_seed() -> (r: u64)
    ensures
        r == 42,
{
    42
}

/// The directory of the files by default.
pub fn default_data_dir() -> (r: String)
    ensures
        r@ == "/tmp/causpan"@,
{
    "/tmp/causpan".to_owned()
}

/// The host of connections by default.
pub fn default_net_host() -> (r: String)
    ensures
        r@ == "127.0.0.1"@,
{
    "127.0.0.1".to_owned()
}

/// The port of connections by default.
pub fn default_net_port() -> (r: u16)
    ensures
        r == 9999,
{
    9999
}

/// The number of worker threads by default.
pub fn default_worker_threads() -> (r: usize)
    ensures
        r == 2,
{
    2
}

/// The time windows by default, in milliseconds.
pub fn default_time_windows() -> (r: Vec<u64>)
    ensures
        r@ == seq![1u64, 5, 10, 50, 100, 500, 1000],
{
    let r: Vec<u64> = vec![1, 5, 10, 50, 100, 500, 1000];
    assert(r@ =~= seq![1u64, 5, 10, 50, 100, 500, 1000]);
    r
}

/// The traced syscalls by default.
pub fn default_strace_syscalls() -> (r: String)
    ensures
        r@ == "openat,read,write,socket,connect,clone,fork,execve"@,
{
    "openat,read,write,socket,connect,clone,fork,execve".to_owned()
}

/// The pattern of the trace files by default.
pub fn default_strace_output() -> (r: String)
    ensures
        r@ == "strace.{tag}"@,
{
    "strace.{tag}".to_owned()
}

// ---------------------------------------------------------------------------
// Runs and their files
// ---------------------------------------------------------------------------

/// The tag of a run.
pub open spec fn spec_tag(concurrency: nat, run: nat) -> Seq<char> {
    "c"@ + padded3(concurrency) + "-r"@ + padded3(run)
}

/// The tag of a run.
pub fn run_tag(concurrency: usize, run: usize) -> (r: String)
    ensures
        r@ == spec_tag(concurrency as nat, run as nat),
{
    let mut out = "c".to_owned();
    push_padded3(&mut out, concurrency as u64);
    out.append("-r");
    push_padded3(&mut out, run as u64);
    out
}

/// One run of an experiment.
#[derive(Debug, Clone)]
pub struct PlannedRun {
    pub concurrency: usize,
    pub run: usize,
    pub tag: String,
}

/// Whether `p` is the run at the place `i` of an experiment: all runs of the first concurrency
/// level, numbered from one, then all of the second, and so on.
pub open spec fn run_at(p: PlannedRun, levels: Seq<usize>, runs: nat, i: int) -> bool {
    &&& p.concurrency == levels[i / (runs as int)]
    &&& p.run == i % (runs as int) + 1
    &&& p.tag@ == spec_tag(p.concurrency as nat, p.run as nat)
}

/// What is shown before a run starts.
pub fn progress_line(current: usize, total: usize, concurrency: usize, run: usize) -> (r: String)
    ensures
        r@ == "["@ + decimal(current as nat) + "/"@ + decimal(total as nat) + "] concurrency="@
            + decimal(concurrency as nat) + " run="@ + decimal(run as nat),
{
    let mut out = "[".to_owned();
    push_decimal(&mut out, current as u64);
    out.append("/");
    push_decimal(&mut out, total as u64);
    out.append("] concurrency=");
    push_decimal(&mut out, concurrency as u64);
    out.append(" run=");
    push_decimal(&mut out, run as u64);
    out
}

/// The path of `name` in the directory `dir`. An absolute path stands for itself.
pub open spec fn spec_join(dir: Seq<char>, name: Seq<char>) -> Seq<char> {
    if dir.len() == 0 || (name.len() > 0 && name[0] == '/') {
        name
    } else if dir.last() == '/' {
        dir + name
    } else {
        dir + "/"@ + name
    }
}

/// The path of `name` in the directory `dir`.
pub fn join_path(dir: &str, name: &str) -> (r: String)
    ensures
        r@ == spec_join(dir@, name@),
{
    let n: usize = dir.unicode_len();
    if n == 0 || (name.unicode_len() > 0 && name.get_char(0) == '/') {
        return name.to_owned();
    }
    let mut out = dir.to_owned();
    if dir.get_char(n - 1) != '/' {
        out.append("/");
    }
    out.append(name);
    out
}

/// What stands for the tag of a run in a file pattern.
pub open spec fn tag_mark() -> Seq<char> {
    "{tag}"@
}

/// `pattern` with `tag` in place of each mark, taken from left to right.
pub open spec fn spec_expand(pattern: Seq<char>, tag: Seq<char>) -> Seq<char>
    decreases pattern.len(),
{
    if pattern.len() == 0 {
        Seq::<char>::empty()
    } else if tag_mark().len() > 0 && begins_with(pattern, tag_mark()) {
        tag + spec_expand(pattern.skip(tag_mark().len() as int), tag)
    } else {
        seq![pattern[0]] + spec_expand(pattern.skip(1), tag)
    }
}

/// `pattern` with `tag` in place of each `{tag}`.
pub fn expand_tag(pattern: &str, tag: &str) -> (r: String)
    ensures
        r@ == spec_expand(pattern@, tag@),
{
    let v = chars_of(pattern);
    let mut out = String::new();
    let mut i: usize = 0;
    proof {
        reveal_strlit("{tag}");
        assert(v@.skip(0) =~= v@);
    }
    assert(out@ + spec_expand(v@.skip(i as int), tag@) =~= spec_expand(pattern@, tag@));
    while i < v.len()
        invariant
            i <= v.len(),
            out@ + spec_expand(v@.skip(i as int), tag@) == spec_expand(pattern@, tag@),
        decreases v.len() - i,
    {
        let ghost rest = v@.skip(i as int);
        let ghost before = out@;
        proof {
            reveal_strlit("{tag}");
        }
        assert(rest[0] == v@[i as int]);
        if v.len() - i >= 5 && v[i] == '{' && v[i + 1] == 't' && v[i + 2] == 'a' && v[i + 3]
            == 'g' && v[i + 4] == '}' {
            assert(rest.take(5) =~= tag_mark());
            out.append(tag);
            assert(rest.skip(5) =~= v@.skip(i + 5));
            i += 5;
            assert(out@ + spec_expand(v@.skip(i as int), tag@) =~= before + spec_expand(rest, tag@));
        } else {
            proof {
                if begins_with(rest, tag_mark()) {
                    let head = rest.take(5);
                    assert(head[0] == '{' && head[1] == 't' && head[2] == 'a' && head[3] == 'g'
                        && head[4] == '}');
                }
            }
            out.push(v[i]);
            assert(rest.skip(1) =~= v@.skip(i + 1));
            i += 1;
            assert(out@ + spec_expand(v@.skip(i as int), tag@) =~= before + spec_expand(rest, tag@));
        }
    }
    assert(spec_expand(v@.skip(i as int), tag@) =~= Seq::<char>::empty());
    assert(out@ + Seq::<char>::empty() =~= out@);
    out
}

/// What the names of the traces begin with: the pattern with the tag of the run, or "trace" where
/// no pattern is configured.
pub open spec fn spec_trace_name(pattern: Seq<char>, tag: Seq<char>) -> Seq<char> {
    if pattern.len() == 0 {
        "trace"@
    } else {
        spec_expand(pattern, tag)
    }
}

/// The files of one run.
#[derive(Debug, Clone)]
pub struct RunFiles {
    /// The ground truth that the workload writes.
    pub ground_truth: String,
    /// The directory of the traces of the run, which keeps them apart from those of others.
    pub strace_dir: String,
    /// What the names of the traces begin with.
    pub strace_base: String,
    /// The kernel events that the collector writes.
    pub kernel_events: String,
    /// The results that the evaluator writes.
    pub evaluation: String,
}

/// A step of a run.
#[derive(Debug, Clone, Copy, PartialEq, Eq, Structural)]
pub enum Step {
    /// Run the workload under strace; ground truth and kernel events share PIDs and TIDs.
    Trace,
    /// Collect the kernel events from the traces.
    Collect,
    /// Run the workload alone.
    Workload,
    /// Leave an empty file of kernel events.
    NoKernelEvents,
    /// Evaluate.
    Evaluate,
    /// Read the results back.
    ReadResults,
}

/// Which program a path names: the one built for release if it is there, else the debug one.
pub fn binary_path(name: &str, release_exists: bool) -> (r: String)
    ensures
        r@ == (if release_exists {
            "target/release/"@ + name@
        } else {
            "target/debug/"@ + name@
        }),
{
    let mut out = if release_exists {
        "target/release/".to_owned()
    } else {
        "target/debug/".to_owned()
    };
    out.append(name);
    out
}

/// `n` in decimal.
fn number(n: u64) -> (r: String)
    ensures
        r@ == decimal(n as nat),
{
    crate::number::decimal_text(n)
}

/// The options of the workload.
pub open spec fn workload_options(cfg: WorkloadConfig, concurrency: nat, output: Seq<char>) -> Seq<
    Seq<char>,
> {
    seq![
        "--concurrency"@,
        decimal(concurrency),
        "--operations-per-rpc"@,
        decimal(cfg.operations_per_rpc as nat),
        "--seed"@,
        decimal(cfg.seed as nat),
        "--output"@,
        output,
        "--data-dir"@,
        cfg.data_dir@,
        "--net-host"@,
        cfg.net_host@,
        "--net-port"@,
        decimal(cfg.net_port as nat),
        "--scenario"@,
        cfg.scenario@,
        "--worker-threads"@,
        decimal(cfg.worker_threads as nat),
    ]
}

/// Appends a text to a list.
fn add(v: &mut Vec<String>, s: String)
    ensures
        texts(final(v)@) == texts(old(v)@).push(s@),
{
    let ghost grown = texts(v@).push(s@);
    v.push(s);
    assert(texts(v@) =~= grown);
}

/// Appends the options of the workload.
fn add_workload_options(v: &mut Vec<String>, cfg: &WorkloadConfig, concurrency: usize, output: &str)
    ensures
        texts(final(v)@) == texts(old(v)@) + workload_options(*cfg, concurrency as nat, output@),
{
    let ghost before = texts(v@);
    self::add(v, "--concurrency".to_owned());
    self::add(v, number(concurrency as u64));
    self::add(v, "--operations-per-rpc".to_owned());
    self::add(v, number(cfg.operations_per_rpc as u64));
    self::add(v, "--seed".to_owned());
    self::add(v, number(cfg.seed));
    self::add(v, "--output".to_owned());
    self::add(v, output.to_owned());
    self::add(v, "--data-dir".to_owned());
    self::add(v, cfg.data_dir.as_str().to_owned());
    self::add(v, "--net-host".to_owned());
    self::add(v, cfg.net_host.as_str().to_owned());
    self::add(v, "--net-port".to_owned());
    self::add(v, number(cfg.net_port as u64));
    self::add(v, "--scenario".to_owned());
    self::add(v, cfg.scenario.as_str().to_owned());
    self::add(v, "--worker-threads".to_owned());
    self::add(v, number(cfg.worker_threads as u64));
    assert(texts(v@) =~= before + workload_options(*cfg, concurrency as nat, output@));
}

/// The options that give the evaluator its windows.
pub open spec fn window_options(windows: Seq<u64>) -> Seq<Seq<char>>
    decreases windows.len(),
{
    if windows.len() == 0 {
        Seq::<Seq<char>>::empty()
    } else {
        window_options(windows.drop_last()).push("--time-windows-ms"@).push(
            decimal(windows.last() as nat),
        )
    }
}

/// Drives the pipeline (workload, strace, collector, evaluator) for each configuration.
#[derive(Debug, Clone)]
pub struct ExperimentRunner {
    config: ExperimentConfig,
    output_dir: String,
    strace_available: bool,
}

impl ExperimentRunner {
    /// The configuration of the experiment.
    pub closed spec fn config(&self) -> ExperimentConfig {
        self.config
    }

    /// Where results go.
    pub closed spec fn output_dir(&self) -> Seq<char> {
        self.output_dir@
    }

    /// Whether runs are traced.
    pub closed spec fn traced(&self) -> bool {
        self.strace_available
    }

    /// A runner of the experiment `config`, on a machine that has strace or not.
    pub fn new(config: ExperimentConfig, strace_available: bool) -> (r: Self)
        ensures
            r.config() == config,
            r.output_dir() == config.experiment.output_dir@,
            r.traced() == strace_available,
    {
        let output_dir = config.experiment.output_dir.as_str().to_owned();
        ExperimentRunner { config, output_dir, strace_available }
    }

    /// The runs of the experiment, in their order.
    pub fn plan(&self) -> (r: Vec<PlannedRun>)
        requires
            self.config().workload.concurrency@.len() * self.config().experiment.runs_per_config
                <= usize::MAX,
        ensures
            r@.len() == self.config().workload.concurrency@.len()
                * self.config().experiment.runs_per_config,
            forall|i: int|
                0 <= i < r@.len() ==> run_at(
                    #[trigger] r@[i],
                    self.config().workload.concurrency@,
                    self.config().experiment.runs_per_config as nat,
                    i,
                ),
    {
        let levels = &self.config.workload.concurrency;
        let runs: usize = self.config.experiment.runs_per_config;
        let mut out: Vec<PlannedRun> = Vec::new();
        let mut i: usize = 0;
        while i < levels.len()
            invariant
                i <= levels.len(),
                out@.len() == i * runs,
                forall|n: int|
                    0 <= n < out@.len() ==> run_at(#[trigger] out@[n], levels@, runs as nat, n),
            decreases levels.len() - i,
        {
            let concurrency: usize = levels[i];
            let mut run: usize = 0;
            while run < runs
                invariant
                    i < levels.len(),
                    concurrency == levels@[i as int],
                    run <= runs,
                    out@.len() == i * runs + run,
                    forall|n: int|
                        0 <= n < out@.len() ==> run_at(#[trigger] out@[n], levels@, runs as nat, n),
                decreases runs - run,
            {
                proof {
                    let n = i * runs + run;
                    vstd::arithmetic::div_mod::lemma_fundamental_div_mod_converse(
                        n,
                        runs as int,
                        i as int,
                        run as int,
                    );
                }
                let number: usize = run + 1;
                out.push(
                    PlannedRun { concurrency, run: number, tag: run_tag(concurrency, number) },
                );
                run += 1;
            }
            assert((i + 1) * runs == i * runs + runs) by (nonlinear_arith);
            i += 1;
        }
        out
    }

    /// The files of the run `tag`.
    pub fn files(&self, tag: &str) -> (r: RunFiles)
        ensures
            r.ground_truth@ == spec_join(
                spec_join(self.output_dir(), "ground-truth"@),
                tag@ + ".jsonl"@,
            ),
            r.strace_dir@ == spec_join(
                spec_join(self.output_dir(), "kernel-events"@),
                tag@ + "-strace"@,
            ),
            r.strace_base@ == spec_join(
                r.strace_dir@,
                spec_trace_name(self.config().strace.output_pattern@, tag@),
            ),
            r.kernel_events@ == spec_join(
                spec_join(self.output_dir(), "kernel-events"@),
                tag@ + ".jsonl"@,
            ),
            r.evaluation@ == spec_join(self.output_dir(), "eval-"@ + tag@ + ".csv"@),
    {
        let gt_dir = join_path(self.output_dir.as_str(), "ground-truth");
        let ke_dir = join_path(self.output_dir.as_str(), "kernel-events");
        let mut jsonl = tag.to_owned();
        jsonl.append(".jsonl");
        let mut traces = tag.to_owned();
        traces.append("-strace");
        let mut csv = "eval-".to_owned();
        csv.append(tag);
        csv.append(".csv");
        let strace_dir = join_path(ke_dir.as_str(), traces.as_str());
        let pattern = self.config.strace.output_pattern.as_str();
        let trace_name = if pattern.unicode_len() == 0 {
            "trace".to_owned()
        } else {
            expand_tag(pattern, tag)
        };
        RunFiles {
            ground_truth: join_path(gt_dir.as_str(), jsonl.as_str()),
            strace_base: join_path(strace_dir.as_str(), trace_name.as_str()),
            strace_dir,
            kernel_events: join_path(ke_dir.as_str(), jsonl.as_str()),
            evaluation: join_path(self.output_dir.as_str(), csv.as_str()),
        }
    }

    /// The steps of a run, each of which is made only if those before it succeeded.
    pub fn steps(&self) -> (r: Vec<Step>)
        ensures
            r@ == (if self.traced() {
                seq![Step::Trace, Step::Collect, Step::Evaluate, Step::ReadResults]
            } else {
                seq![Step::Workload, Step::NoKernelEvents, Step::Evaluate, Step::ReadResults]
            }),
    {
        let mut out: Vec<Step> = Vec::new();
        if self.strace_available {
            out.push(Step::Trace);
            out.push(Step::Collect);
        } else {
            out.push(Step::Workload);
            out.push(Step::NoKernelEvents);
        }
        out.push(Step::Evaluate);
        out.push(Step::ReadResults);
        assert(out@ =~= (if self.traced() {
            seq![Step::Trace, Step::Collect, Step::Evaluate, Step::ReadResults]
        } else {
            seq![Step::Workload, Step::NoKernelEvents, Step::Evaluate, Step::ReadResults]
        }));
        out
    }

    /// The arguments of the workload.
    pub fn workload_args(&self, concurrency: usize, output: &str) -> (r: Vec<String>)
        ensures
            texts(r@) == workload_options(self.config().workload, concurrency as nat, output@),
    {
        let mut out: Vec<String> = Vec::new();
        add_workload_options(&mut out, &self.config.workload, concurrency, output);
        assert(texts(out@) =~= workload_options(
            self.config().workload,
            concurrency as nat,
            output@,
        ));
        out
    }

    /// The arguments of strace: one file per thread, named by its TID; absolute timestamps; the
    /// configured syscalls; and then the workload, which writes its ground truth during this
    /// execution.
    pub fn strace_args(&self, concurrency: usize, output: &str, program: &str, gt_path: &str) -> (r:
        Vec<String>)
        ensures
            texts(r@) == seq![
                "-f"@,
                "-ff"@,
                "-ttt"@,
                "-e"@,
                self.config().strace.syscalls@,
                "-o"@,
                output@,
                program@,
            ] + workload_options(self.config().workload, concurrency as nat, gt_path@),
    {
        let mut out: Vec<String> = Vec::new();
        self::add(&mut out, "-f".to_owned());
        self::add(&mut out, "-ff".to_owned());
        self::add(&mut out, "-ttt".to_owned());
        self::add(&mut out, "-e".to_owned());
        self::add(&mut out, self.config.strace.syscalls.as_str().to_owned());
        self::add(&mut out, "-o".to_owned());
        self::add(&mut out, output.to_owned());
        self::add(&mut out, program.to_owned());
        assert(texts(out@) =~= seq![
            "-f"@,
            "-ff"@,
            "-ttt"@,
            "-e"@,
            self.config().strace.syscalls@,
            "-o"@,
            output@,
            program@,
        ]);
        add_workload_options(&mut out, &self.config.workload, concurrency, gt_path);
        out
    }

    /// The arguments of the collector.
    pub fn collector_args(&self, strace_dir: &str, output: &str) -> (r: Vec<String>)
        ensures
            texts(r@) == seq![
                "--format"@,
                "straces"@,
                "--data-dir"@,
                self.config().workload.data_dir@,
                strace_dir@,
                output@,
            ],
    {
        let mut out: Vec<String> = Vec::new();
        self::add(&mut out, "--format".to_owned());
        self::add(&mut out, "straces".to_owned());
        self::add(&mut out, "--data-dir".to_owned());
        self::add(&mut out, self.config.workload.data_dir.as_str().to_owned());
        self::add(&mut out, strace_dir.to_owned());
        self::add(&mut out, output.to_owned());
        assert(texts(out@) =~= seq![
            "--format"@,
            "straces"@,
            "--data-dir"@,
            self.config().workload.data_dir@,
            strace_dir@,
            output@,
        ]);
        out
    }

    /// The arguments of the evaluator.
    pub fn evaluator_args(&self, gt: &str, ke: &str, output: &str) -> (r: Vec<String>)
        ensures
            texts(r@) == seq![
                "--ground-truth"@,
                gt@,
                "--kernel-events"@,
                ke@,
                "--output"@,
                output@,
            ] + window_options(self.config().evaluator.time_windows_ms@),
    {
        let mut out: Vec<String> = Vec::new();
        self::add(&mut out, "--ground-truth".to_owned());
        self::add(&mut out, gt.to_owned());
        self::add(&mut out, "--kernel-events".to_owned());
        self::add(&mut out, ke.to_owned());
        self::add(&mut out, "--output".to_owned());
        self::add(&mut out, output.to_owned());
        let ghost fixed = seq![
            "--ground-truth"@,
            gt@,
            "--kernel-events"@,
            ke@,
            "--output"@,
            output@,
        ];
        let windows = &self.config.evaluator.time_windows_ms;
        let mut i: usize = 0;
        assert(texts(out@) =~= fixed + window_options(windows@.take(0)));
        while i < windows.len()
            invariant
                i <= windows.len(),
                texts(out@) == fixed + window_options(windows@.take(i as int)),
            decreases windows.len() - i,
        {
            assert(windows@.take(i + 1).drop_last() =~= windows@.take(i as int));
            self::add(&mut out, "--time-windows-ms".to_owned());
            self::add(&mut out, number(windows[i]));
            assert(texts(out@) =~= fixed + window_options(windows@.take(i + 1)));
            i += 1;
        }
        assert(windows@.take(windows.len() as int) =~= windows@);
        out
    }
}

// ---------------------------------------------------------------------------
// How a command ended
// ---------------------------------------------------------------------------

/// How an exit code is shown.
pub open spec fn spec_exit_text(code: Option<i32>) -> Seq<char> {
    match code {
        Some(n) => "exit code: Some("@ + signed_decimal(n as int) + ")"@,
        None => "exit code: None"@,
    }
}

/// How an exit code is shown.
pub fn exit_text(code: Option<i32>) -> (r: String)
    ensures
        r@ == spec_exit_text(code),
{
    match code {
        Some(n) => {
            let mut out = "exit code: Some(".to_owned();
            push_signed(&mut out, n as i64);
            out.append(")");
            out
        },
        None => "exit code: None".to_owned(),
    }
}

/// Whether the command `name` did its work: it must have ended with success.
pub fn check_exit(name: &str, success: bool, code: Option<i32>) -> (r: Result<(), RunnerError>)
    ensures
        success ==> r == Ok::<(), RunnerError>(()),
        !success ==> (r matches Err(RunnerError::CommandFailed(command, why)) && command@ == name@
            && why@ == spec_exit_text(code)),
{
    if success {
        Ok(())
    } else {
        Err(RunnerError::CommandFailed(name.to_owned(), exit_text(code)))
    }
}

/// Whether a file of the length `len`, if it was found, holds something.
pub open spec fn holds_something(len: Option<u64>) -> bool {
    len matches Some(n) && n > 0
}

/// Whether the workload did its work: it must have ended with success, and its output must be
/// there and hold something. `output_len` is the length of the output, if it could be found.
pub fn check_workload(success: bool, code: Option<i32>, output_len: Option<u64>) -> (r: Result<
    (),
    RunnerError,
>)
    ensures
        success && holds_something(output_len) ==> r == Ok::<(), RunnerError>(()),
        !success ==> (r matches Err(RunnerError::CommandFailed(command, why)) && command@
            == "workload"@ && why@ == spec_exit_text(code)),
        success && !holds_something(output_len) ==> (r matches Err(
            RunnerError::CommandFailed(command, why),
        ) && command@ == "workload"@ && why@ == "produced empty output file"@),
{
    if !success {
        return check_exit("workload", success, code);
    }
    match output_len {
        Some(n) if n > 0 => Ok(()),
        _ => Err(
            RunnerError::CommandFailed(
                "workload".to_owned(),
                "produced empty output file".to_owned(),
            ),
        ),
    }
}

/// Whether strace did its work: it often ends without success when it traces certain syscalls,
/// so only one that left no output has failed.
pub fn check_strace(success: bool, code: Option<i32>, has_output: bool) -> (r: Result<
    (),
    RunnerError,
>)
    ensures
        success || has_output ==> r == Ok::<(), RunnerError>(()),
        !success && !has_output ==> (r matches Err(RunnerError::CommandFailed(command, why))
            && command@ == "strace"@ && why@ == spec_exit_text(code)),
{
    check_exit("strace", success || has_output, code)
}

// ---------------------------------------------------------------------------
// Laws
// ---------------------------------------------------------------------------

/// A tag identifies its run: no two runs with another concurrency level or another number share
/// a tag.
pub proof fn law_tags_unique(concurrency_a: nat, run_a: nat, concurrency_b: nat, run_b: nat)
    requires
        spec_tag(concurrency_a, run_a) == spec_tag(concurrency_b, run_b),
    ensures
        concurrency_a == concurrency_b,
        run_a == run_b,
{
    reveal_strlit("c");
    reveal_strlit("-r");
    let p = padded3(concurrency_a);
    let q = padded3(concurrency_b);
    let x = padded3(run_a);
    let y = padded3(run_b);
    let s = spec_tag(concurrency_a, run_a);
    let t = spec_tag(concurrency_b, run_b);
    lemma_padded_digits(concurrency_a);
    lemma_padded_digits(concurrency_b);
    let m: int = p.len() as int;
    let n: int = q.len() as int;
    if m < n {
        assert(s[m + 1] == '-');
        assert(t[m + 1] == q[m]);
    } else if n < m {
        assert(t[n + 1] == '-');
        assert(s[n + 1] == p[n]);
    }
    assert(p =~= s.subrange(1, 1 + m));
    assert(q =~= t.subrange(1, 1 + n));
    assert(x =~= s.skip(m + 3));
    assert(y =~= t.skip(n + 3));
    law_padded_injective(concurrency_a, concurrency_b);
    law_padded_injective(run_a, run_b);
}

/// The runs of an experiment whose concurrency levels differ have different tags, so that no run
/// touches the files of another.
pub proof fn law_planned_tags_unique(
    a: PlannedRun,
    b: PlannedRun,
    levels: Seq<usize>,
    runs: nat,
    i: int,
    j: int,
)
    requires
        levels.no_duplicates(),
        0 <= i < levels.len() * runs,
        0 <= j < levels.len() * runs,
        i != j,
        run_at(a, levels, runs, i),
        run_at(b, levels, runs, j),
    ensures
        a.tag@ != b.tag@,
{
    if a.tag@ == b.tag@ {
        law_tags_unique(a.concurrency as nat, a.run as nat, b.concurrency as nat, b.run as nat);
        let n = runs as int;
        let m = levels.len() as int;
        assert(n > 0) by (nonlinear_arith)
            requires
                0 <= i < m * n,
                n >= 0,
        ;
        vstd::arithmetic::div_mod::lemma_fundamental_div_mod(i, n);
        vstd::arithmetic::div_mod::lemma_fundamental_div_mod(j, n);
        assert(0 <= i / n < m) by (nonlinear_arith)
            requires
                0 <= i < m * n,
                n > 0,
        ;
        assert(0 <= j / n < m) by (nonlinear_arith)
            requires
                0 <= j < m * n,
                n > 0,
        ;
        assert(i / n == j / n);
    }
}

} // verus!
