//! What an experiment runs, where it keeps its files, and in which order it goes on.

use vstd::prelude::*;
use vstd::string::*;

use crate::experiment::holds_something;
use crate::experiment::run_at;
use crate::experiment::spec_expand;
use crate::experiment::spec_join;
use crate::experiment::spec_tag;
use crate::experiment::spec_trace_name;
use crate::experiment::tag_mark;
use crate::experiment::window_options;
use crate::experiment::workload_options;
use crate::experiment::PlannedRun;
use crate::experiment::Step;
use crate::experiment::WorkloadConfig;
use crate::number::decimal;
use crate::number::padded3;
use crate::progress::after;
use crate::progress::gathered;
use crate::progress::initial;
use crate::progress::Action;
use crate::progress::Outcome;
use crate::progress::ProgressModel;
use crate::report::RunResult;
use crate::text::begins_with;

verus! {

// ---------------------------------------------------------------------------
// Runs
// ---------------------------------------------------------------------------

/// A tag is a `c`, the level, a dash, an `r` and the number of the run, the numbers with at least
/// three digits.
pub proof fn law_tag_parts(concurrency: nat, run: nat)
    ensures
        spec_tag(concurrency, run) == seq!['c'] + padded3(concurrency) + seq!['-', 'r'] + padded3(
            run,
        ),
{
    reveal_strlit("c");
    reveal_strlit("-r");
    assert("c"@ =~= seq!['c']);
    assert("-r"@ =~= seq!['-', 'r']);
}

/// The runs of the level at place `l` stand together, numbered from one, after those of the levels
/// before it: run `n` of it stands at `l` times the number of runs, and `n` less one.
pub proof fn law_runs_of_levels(p: PlannedRun, levels: Seq<usize>, runs: nat, l: int, n: int)
    requires
        0 <= l < levels.len(),
        1 <= n <= runs,
        run_at(p, levels, runs, l * runs + n - 1),
    ensures
        p.concurrency == levels[l],
        p.run == n,
        p.tag@ == spec_tag(levels[l] as nat, n as nat),
{
    vstd::arithmetic::div_mod::lemma_fundamental_div_mod_converse(
        l * runs + n - 1,
        runs as int,
        l,
        n - 1,
    );
}

// ---------------------------------------------------------------------------
// Files
// ---------------------------------------------------------------------------

/// A relative path stands in its directory with one slash between them; an absolute path, and one
/// in no directory, stand for themselves.
pub proof fn law_paths_joined(dir: Seq<char>, name: Seq<char>)
    requires
        name.len() > 0 ==> name[0] != '/',
    ensures
        spec_join(Seq::empty(), name) == name,
        spec_join(dir, seq!['/'] + name) == seq!['/'] + name,
        spec_join(dir + seq!['/'], name) == dir + seq!['/'] + name,
        dir.len() > 0 && dir[dir.len() - 1] != '/' ==> spec_join(dir, name) == dir + seq!['/']
            + name,
{
    reveal_strlit("/");
    assert("/"@ =~= seq!['/']);
    assert((dir + seq!['/']).last() == '/');
    assert((seq!['/'] + name)[0] == '/');
}

/// A pattern without a mark stands for itself.
pub proof fn law_pattern_without_mark(pattern: Seq<char>, tag: Seq<char>)
    requires
        forall|i: int|
            0 <= i <= pattern.len() - 5 ==> #[trigger] pattern.subrange(i, i + 5) != seq![
                '{',
                't',
                'a',
                'g',
                '}',
            ],
    ensures
        spec_expand(pattern, tag) == pattern,
    decreases pattern.len(),
{
    reveal_strlit("{tag}");
    assert(tag_mark() =~= seq!['{', 't', 'a', 'g', '}']);
    if pattern.len() > 0 {
        let rest = pattern.skip(1);
        if begins_with(pattern, tag_mark()) {
            let zero: int = 0;
            assert(pattern.subrange(zero, zero + 5) =~= pattern.take(5));
        }
        assert forall|i: int| 0 <= i <= rest.len() - 5 implies #[trigger] rest.subrange(i, i + 5)
            != seq!['{', 't', 'a', 'g', '}'] by {
            assert(rest.subrange(i, i + 5) =~= pattern.subrange(i + 1, i + 1 + 5));
        }
        law_pattern_without_mark(rest, tag);
        assert(seq![pattern[0]] + rest =~= pattern);
    } else {
        assert(spec_expand(pattern, tag) =~= pattern);
    }
}

/// The tag takes the place of the first mark, and what follows it is treated alike. What stands
/// before it stays.
pub proof fn law_tag_in_place_of_mark(
    a: Seq<char>,
    mark: Seq<char>,
    b: Seq<char>,
    tag: Seq<char>,
)
    requires
        mark == "{tag}"@,
        forall|i: int| 0 <= i < a.len() ==> #[trigger] (a + mark + b).subrange(i, i + 5) != mark,
    ensures
        spec_expand(a + mark + b, tag) == a + tag + spec_expand(b, tag),
    decreases a.len(),
{
    reveal_strlit("{tag}");
    let whole = a + mark + b;
    if a.len() == 0 {
        assert(whole.take(5) =~= mark);
        assert(whole.skip(5) =~= b);
        assert(a + tag + spec_expand(b, tag) =~= tag + spec_expand(b, tag));
    } else {
        let rest = a.skip(1);
        if begins_with(whole, tag_mark()) {
            let zero: int = 0;
            assert(whole.subrange(zero, zero + 5) =~= whole.take(5));
        }
        assert(whole.skip(1) =~= rest + mark + b);
        assert forall|i: int| 0 <= i < rest.len() implies #[trigger] (rest + mark + b).subrange(
            i,
            i + 5,
        ) != mark by {
            assert((rest + mark + b).subrange(i, i + 5) =~= whole.subrange(i + 1, i + 1 + 5));
        }
        law_tag_in_place_of_mark(rest, mark, b, tag);
        assert(whole[0] == a[0]);
        assert(seq![a[0]] + (rest + tag + spec_expand(b, tag)) =~= a + tag + spec_expand(b, tag));
    }
}

/// Traces are named by the pattern of the configuration, and by "trace" where there is none.
pub proof fn law_trace_names(pattern: Seq<char>, tag: Seq<char>)
    ensures
        pattern.len() > 0 ==> spec_trace_name(pattern, tag) == spec_expand(pattern, tag),
        spec_trace_name(Seq::empty(), tag) == "trace"@,
{
}

// ---------------------------------------------------------------------------
// Commands
// ---------------------------------------------------------------------------

/// The workload is told its level, the number of operations, the seed, the output, the directory,
/// the host, the port, the scenario and the number of threads, each behind its own name.
pub proof fn law_workload_is_told_all(cfg: WorkloadConfig, concurrency: nat, output: Seq<char>)
    ensures
        ({
            let o = workload_options(cfg, concurrency, output);
            &&& o.len() == 18
            &&& o[0] == "--concurrency"@ && o[1] == decimal(concurrency)
            &&& o[2] == "--operations-per-rpc"@ && o[3] == decimal(cfg.operations_per_rpc as nat)
            &&& o[4] == "--seed"@ && o[5] == decimal(cfg.seed as nat)
            &&& o[6] == "--output"@ && o[7] == output
            &&& o[8] == "--data-dir"@ && o[9] == cfg.data_dir@
            &&& o[10] == "--net-host"@ && o[11] == cfg.net_host@
            &&& o[12] == "--net-port"@ && o[13] == decimal(cfg.net_port as nat)
            &&& o[14] == "--scenario"@ && o[15] == cfg.scenario@
            &&& o[16] == "--worker-threads"@ && o[17] == decimal(cfg.worker_threads as nat)
        }),
{
}

/// The evaluator is told every window, in the given order, each behind the name of the option.
pub proof fn law_evaluator_is_told_windows(windows: Seq<u64>, i: int)
    ensures
        window_options(windows).len() == 2 * windows.len(),
        0 <= i < windows.len() ==> window_options(windows)[2 * i] == "--time-windows-ms"@
            && window_options(windows)[2 * i + 1] == decimal(windows[i] as nat),
    decreases windows.len(),
{
    if windows.len() > 0 {
        law_evaluator_is_told_windows(windows.drop_last(), i);
    }
}

/// An output holds something exactly when it was found and is not empty.
pub proof fn law_outputs(n: u64)
    ensures
        holds_something(Some(n)) <==> n != 0,
        !holds_something(None),
{
}

// ---------------------------------------------------------------------------
// Progress
// ---------------------------------------------------------------------------

/// After all steps of `r` runs and `s` steps of the next, step `s` of run `r` comes.
pub proof fn law_steps_in_order<E>(m: ProgressModel<E>, r: int, s: int)
    requires
        m.failure is None,
        m.runs <= usize::MAX,
        0 <= r < m.runs,
        0 <= s < m.steps.len(),
        m.done == r * m.steps.len() + s,
    ensures
        m.action() matches Action::Perform { run, step } && run == r && step == m.steps[s],
{
    let k = m.steps.len() as int;
    vstd::arithmetic::div_mod::lemma_fundamental_div_mod_converse(m.done as int, k, r, s);
    let n = m.runs as int;
    assert(r * k + s < n * k) by (nonlinear_arith)
        requires
            r + 1 <= n,
            s < k,
            0 <= r,
            0 < k,
    ;
}

/// After all steps of all runs the table of all results comes, then that of aggregated results, and
/// then nothing. After a failure nothing comes.
pub proof fn law_tables_after_steps<E>(m: ProgressModel<E>)
    ensures
        m.failure is None && m.done == m.runs * m.steps.len() ==> m.action() == Action::WriteRaw,
        m.failure is None && m.done == m.runs * m.steps.len() + 1 ==> m.action()
            == Action::WriteAggregated,
        m.done >= m.runs * m.steps.len() + 2 ==> m.action() == Action::Stop,
        m.failure is Some ==> m.action() == Action::Stop,
{
}

/// An action that was done counts, and what it gave comes behind the results so far; one that
/// failed does not count, and its failure stays. Runs and steps do not change.
pub proof fn law_outcomes_count<E>(m: ProgressModel<E>, outcome: Outcome<E>)
    requires
        m.failure is None,
        m.done < m.runs * m.steps.len() + 2,
    ensures
        m.next(outcome).runs == m.runs,
        m.next(outcome).steps == m.steps,
        m.next(outcome).done == (if outcome is Failed {
            m.done
        } else {
            m.done + 1
        }),
        outcome is Done ==> m.next(outcome).results == m.results && m.next(outcome).failure is None,
        outcome matches Outcome::Read(more) ==> m.next(outcome).results == m.results + more@
            && m.next(outcome).failure is None,
        outcome matches Outcome::Failed(e) ==> m.next(outcome).results == m.results && m.next(
            outcome,
        ).failure == Some(e),
{
}

/// At its start an experiment has done nothing; after it has ended nothing changes.
pub proof fn law_start_and_end<E>(
    runs: nat,
    steps: Seq<Step>,
    m: ProgressModel<E>,
    outcome: Outcome<E>,
)
    ensures
        initial::<E>(runs, steps).runs == runs,
        initial::<E>(runs, steps).steps == steps,
        initial::<E>(runs, steps).done == 0,
        initial::<E>(runs, steps).results.len() == 0,
        initial::<E>(runs, steps).failure is None,
        m.failure is Some || m.done >= m.runs * m.steps.len() + 2 ==> m.next(outcome) == m,
{
}

/// What outcomes lead to is found one outcome after the other, and so are the results they gave.
pub proof fn law_outcomes_one_after_the_other<E>(
    m: ProgressModel<E>,
    outcomes: Seq<Outcome<E>>,
    outcome: Outcome<E>,
)
    ensures
        after(m, Seq::<Outcome<E>>::empty()) == m,
        after(m, outcomes.push(outcome)) == after(m, outcomes).next(outcome),
        gathered(Seq::<Outcome<E>>::empty()) == Seq::<RunResult>::empty(),
        outcome matches Outcome::Read(more) ==> gathered(outcomes.push(outcome)) == gathered(
            outcomes,
        ) + more@,
        !(outcome is Read) ==> gathered(outcomes.push(outcome)) == gathered(outcomes),
{
    assert(outcomes.push(outcome).drop_last() =~= outcomes);
}

} // verus!
