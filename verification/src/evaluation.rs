//! Comparing kernel observations with the ground truth, across several strategies.

use vstd::prelude::*;
use vstd::string::*;

use crate::event::AttributionOutcome;
use crate::event::GroundTruthEvent;
use crate::event::KernelEvent;
use crate::identity::RpcId;
use crate::matcher::true_rpc;
use crate::matcher::EventMatcher;
use crate::metrics::best_first;
use crate::metrics::classify;
use crate::metrics::count_correct;
use crate::metrics::count_unattributed;
use crate::metrics::count_wrong;
use crate::metrics::is_arrangement;
use crate::metrics::law_counts_partition;
use crate::metrics::outcome_of;
use crate::metrics::rank;
use crate::metrics::ranking_of;
use crate::metrics::EvaluationResults;
use crate::metrics::StrategyResults;
use crate::strategies::majority_vote::ballots;
use crate::strategies::majority_vote::in_nanoseconds;
use crate::strategies::majority_vote::winner;
use crate::strategies::majority_vote::MajorityVoteStrategy;
use crate::strategies::pid::last_of_pid;
use crate::strategies::pid::PidStrategy;
use crate::strategies::tid::last_of_thread;
use crate::strategies::tid::PidTidStrategy;
use crate::strategies::time_window::window_rpc;
use crate::strategies::time_window::window_label;
use crate::strategies::time_window::TimeWindowStrategy;
use crate::strategies::time_window::NS_PER_MS;
use crate::strategies::AttributionStrategy;

verus! {

/// Why an evaluation cannot be made.
#[derive(Debug, Clone, Copy, PartialEq, Eq, Structural)]
pub enum EvaluationError {
    /// There is no ground-truth event.
    NoGroundTruth,
    /// There is no kernel event.
    NoKernelEvents,
}

impl EvaluationError {
    /// What the error says.
    pub open spec fn spec_message(self) -> Seq<char> {
        match self {
            EvaluationError::NoGroundTruth => "ground-truth file is empty"@,
            EvaluationError::NoKernelEvents => "kernel-events file is empty"@,
        }
    }

    /// What the error says.
    pub fn message(&self) -> (r: String)
        ensures
            r@ == self.spec_message(),
    {
        match self {
            EvaluationError::NoGroundTruth => "ground-truth file is empty".to_owned(),
            EvaluationError::NoKernelEvents => "kernel-events file is empty".to_owned(),
        }
    }
}

// ---------------------------------------------------------------------------
// Running any strategy
// ---------------------------------------------------------------------------

/// The state of a strategy after the first `n` events. Events whose request is not known are
/// skipped.
pub open spec fn state_after<S: AttributionStrategy>(
    s: S,
    events: Seq<KernelEvent>,
    actual: Seq<Option<RpcId>>,
    n: nat,
) -> S
    decreases n,
{
    if n == 0 {
        s
    } else {
        let before = state_after(s, events, actual, (n - 1) as nat);
        if actual[n - 1] is Some {
            before.after(events[n - 1])
        } else {
            before
        }
    }
}

/// The outcomes of a strategy on the first `n` events.
pub open spec fn outcomes<S: AttributionStrategy>(
    s: S,
    events: Seq<KernelEvent>,
    actual: Seq<Option<RpcId>>,
    n: nat,
) -> Seq<AttributionOutcome>
    decreases n,
{
    if n == 0 {
        Seq::<AttributionOutcome>::empty()
    } else {
        let before = outcomes(s, events, actual, (n - 1) as nat);
        match actual[n - 1] {
            Some(rpc) => before.push(
                outcome_of(
                    (n - 1) as usize,
                    rpc,
                    state_after(s, events, actual, (n - 1) as nat).decision(events[n - 1]),
                ),
            ),
            None => before,
        }
    }
}

proof fn lemma_outcomes_len<S: AttributionStrategy>(
    s: S,
    events: Seq<KernelEvent>,
    actual: Seq<Option<RpcId>>,
    n: nat,
)
    ensures
        outcomes(s, events, actual, n).len() <= n,
    decreases n,
{
    if n > 0 {
        lemma_outcomes_len(s, events, actual, (n - 1) as nat);
    }
}

/// Lets a strategy attribute the events whose request is known, and counts the outcomes.
pub fn run_strategy<S: AttributionStrategy>(
    strategy: &mut S,
    kernel_events: &[KernelEvent],
    actual: &Vec<Option<RpcId>>,
) -> (r: StrategyResults)
    requires
        actual@.len() == kernel_events@.len(),
    ensures
        *final(strategy) == state_after(
            *old(strategy),
            kernel_events@,
            actual@,
            kernel_events@.len(),
        ),
        r.strategy_name@ == old(strategy).label(),
        ({
            let os = outcomes(*old(strategy), kernel_events@, actual@, kernel_events@.len());
            &&& r.correct == count_correct(os)
            &&& r.wrong_rpc == count_wrong(os)
            &&& r.unattributed == count_unattributed(os)
            &&& r.correct + r.wrong_rpc + r.unattributed == os.len()
        }),
        r.correct + r.wrong_rpc + r.unattributed <= kernel_events@.len(),
        r.unscored(),
{
    let ghost start = *strategy;
    let mut results = StrategyResults::new(strategy.name());
    let mut idx: usize = 0;
    while idx < kernel_events.len()
        invariant
            idx <= kernel_events.len(),
            actual@.len() == kernel_events@.len(),
            *strategy == state_after(start, kernel_events@, actual@, idx as nat),
            results.strategy_name@ == start.label(),
            results.unscored(),
            results.correct == count_correct(
                outcomes(start, kernel_events@, actual@, idx as nat),
            ),
            results.wrong_rpc == count_wrong(
                outcomes(start, kernel_events@, actual@, idx as nat),
            ),
            results.unattributed == count_unattributed(
                outcomes(start, kernel_events@, actual@, idx as nat),
            ),
        decreases kernel_events.len() - idx,
    {
        let ghost os = outcomes(start, kernel_events@, actual@, idx as nat);
        proof {
            law_counts_partition(os);
            lemma_outcomes_len(start, kernel_events@, actual@, idx as nat);
        }
        match actual[idx] {
            Some(rpc) => {
                let assigned = strategy.attribute(&kernel_events[idx]);
                let outcome = classify(idx, rpc, assigned);
                assert(os.push(outcome).drop_last() =~= os);
                assert(outcomes(start, kernel_events@, actual@, (idx + 1) as nat) == os.push(
                    outcome,
                ));
                match outcome {
                    AttributionOutcome::Correct { .. } => {
                        results.correct += 1;
                    },
                    AttributionOutcome::WrongRpc { .. } => {
                        results.wrong_rpc += 1;
                    },
                    AttributionOutcome::Unattributed { .. } => {
                        results.unattributed += 1;
                    },
                }
            },
            None => {},
        }
        idx += 1;
    }
    proof {
        let os = outcomes(start, kernel_events@, actual@, kernel_events@.len());
        law_counts_partition(os);
        lemma_outcomes_len(start, kernel_events@, actual@, kernel_events@.len());
    }
    results
}

// ---------------------------------------------------------------------------
// The evaluated strategies
// ---------------------------------------------------------------------------

/// A strategy that an evaluation runs.
pub enum Rule {
    Pid,
    PidTid,
    TimeWindow { window_ns: u64 },
    /// A vote of the strategies above, with a time window for each of `windows_ns`.
    MajorityVote { windows_ns: Seq<u64> },
}

impl Rule {
    /// The name of the strategy.
    pub open spec fn label(self) -> Seq<char> {
        match self {
            Rule::Pid => "pid"@,
            Rule::PidTid => "pid_tid"@,
            Rule::TimeWindow { window_ns } => window_label(window_ns),
            Rule::MajorityVote { .. } => "majority_vote"@,
        }
    }

    /// What the strategy decides for `e` when it knows the ground truth `gt`.
    pub open spec fn decide(self, gt: Seq<GroundTruthEvent>, e: KernelEvent) -> Option<RpcId> {
        match self {
            Rule::Pid => last_of_pid(gt, e.pid),
            Rule::PidTid => last_of_thread(gt, e.pid, e.tid),
            Rule::TimeWindow { window_ns } => window_rpc(gt, e, window_ns),
            Rule::MajorityVote { windows_ns } => winner(ballots(gt, e, windows_ns)),
        }
    }
}

/// The strategies that an evaluation with the windows `windows_ms` runs, in their order.
pub open spec fn rules(windows_ms: Seq<u64>) -> Seq<Rule> {
    seq![Rule::Pid, Rule::PidTid] + windows_ms.map_values(
        |ms: u64| Rule::TimeWindow { window_ns: (ms * NS_PER_MS) as u64 },
    )
}

/// The same strategies, and a vote of them all.
pub open spec fn rules_with_vote(windows_ms: Seq<u64>) -> Seq<Rule> {
    rules(windows_ms).push(Rule::MajorityVote { windows_ns: in_nanoseconds(windows_ms) })
}

/// The requests that the kernel events show, as far as the ground truth tells.
pub open spec fn true_rpcs(gt: Seq<GroundTruthEvent>, ke: Seq<KernelEvent>) -> Seq<Option<RpcId>> {
    ke.map_values(|k: KernelEvent| true_rpc(gt, k))
}

/// How many of the requests are known.
pub open spec fn known(actual: Seq<Option<RpcId>>) -> nat
    decreases actual.len(),
{
    if actual.len() == 0 {
        0
    } else {
        known(actual.drop_last()) + (if actual.last() is Some {
            1nat
        } else {
            0nat
        })
    }
}

/// The outcomes of a strategy on the kernel events that can be matched.
pub open spec fn rule_outcomes(
    rule: Rule,
    gt: Seq<GroundTruthEvent>,
    ke: Seq<KernelEvent>,
) -> Seq<AttributionOutcome>
    decreases ke.len(),
{
    if ke.len() == 0 {
        Seq::<AttributionOutcome>::empty()
    } else {
        let before = rule_outcomes(rule, gt, ke.drop_last());
        match true_rpc(gt, ke.last()) {
            Some(rpc) => before.push(
                outcome_of((ke.len() - 1) as usize, rpc, rule.decide(gt, ke.last())),
            ),
            None => before,
        }
    }
}

/// Whether `r` holds the counts and the ratios of the strategy `rule`.
pub open spec fn results_of(
    r: StrategyResults,
    rule: Rule,
    gt: Seq<GroundTruthEvent>,
    ke: Seq<KernelEvent>,
) -> bool {
    let os = rule_outcomes(rule, gt, ke);
    &&& r.strategy_name@ == rule.label()
    &&& r.correct == count_correct(os)
    &&& r.wrong_rpc == count_wrong(os)
    &&& r.unattributed == count_unattributed(os)
    &&& r.scored(gt.len(), known(true_rpcs(gt, ke)))
}

/// Whether `s` holds the results of the strategies `contenders`, the best F1 first and those of
/// equal F1 in the order of `contenders`: `p` says which of them each one is.
pub open spec fn ranked_results(
    s: Seq<StrategyResults>,
    contenders: Seq<Rule>,
    gt: Seq<GroundTruthEvent>,
    ke: Seq<KernelEvent>,
    p: Seq<int>,
) -> bool {
    &&& s.len() == contenders.len()
    &&& is_arrangement(p)
    &&& best_first(s, p)
    &&& forall|i: int| 0 <= i < s.len() ==> results_of(#[trigger] s[i], contenders[p[i]], gt, ke)
}

/// Whether `r` is the evaluation of the strategies `contenders`.
pub open spec fn evaluated(
    r: Result<EvaluationResults, EvaluationError>,
    contenders: Seq<Rule>,
    gt: Seq<GroundTruthEvent>,
    ke: Seq<KernelEvent>,
) -> bool {
    match r {
        Err(EvaluationError::NoGroundTruth) => gt.len() == 0,
        Err(EvaluationError::NoKernelEvents) => gt.len() > 0 && ke.len() == 0,
        Ok(res) => {
            &&& gt.len() > 0
            &&& ke.len() > 0
            &&& res.total_ground_truth_events == gt.len()
            &&& res.total_kernel_events == ke.len()
            &&& res.matched_events == known(true_rpcs(gt, ke))
            &&& res.matched_events + res.unmatched_events == ke.len()
            &&& exists|p: Seq<int>| #[trigger]
                ranked_results(res.strategies@, contenders, gt, ke, p)
        },
    }
}

/// Whether `s` decides as `rule` does, and keeps doing so.
spec fn follows<S: AttributionStrategy>(s: S, rule: Rule, gt: Seq<GroundTruthEvent>) -> bool {
    &&& s.label() == rule.label()
    &&& forall|e: KernelEvent| #[trigger] s.decision(e) == rule.decide(gt, e)
    &&& forall|e: KernelEvent| #[trigger] s.after(e) == s
}

proof fn lemma_follows<S: AttributionStrategy>(
    s: S,
    rule: Rule,
    gt: Seq<GroundTruthEvent>,
    ke: Seq<KernelEvent>,
    n: nat,
)
    requires
        follows(s, rule, gt),
        n <= ke.len(),
    ensures
        state_after(s, ke, true_rpcs(gt, ke), n) == s,
        outcomes(s, ke, true_rpcs(gt, ke), n) == rule_outcomes(rule, gt, ke.take(n as int)),
    decreases n,
{
    if n > 0 {
        lemma_follows(s, rule, gt, ke, (n - 1) as nat);
        assert(ke.take(n as int).drop_last() =~= ke.take(n - 1));
        assert(true_rpcs(gt, ke)[n - 1] == true_rpc(gt, ke[n - 1]));
    }
}

/// Runs one strategy that has the ground truth `gt` loaded, and scores it.
fn run_loaded<S: AttributionStrategy>(
    strategy: &mut S,
    Ghost(rule): Ghost<Rule>,
    gt: &[GroundTruthEvent],
    ke: &[KernelEvent],
    actual: &Vec<Option<RpcId>>,
    matched: usize,
) -> (r: StrategyResults)
    requires
        follows(*old(strategy), rule, gt@),
        actual@ == true_rpcs(gt@, ke@),
        matched == known(actual@),
    ensures
        *final(strategy) == *old(strategy),
        results_of(r, rule, gt@, ke@),
{
    let ghost start = *strategy;
    let mut results = run_strategy(strategy, ke, actual);
    assert(actual.len() == ke@.len());
    proof {
        lemma_follows(start, rule, gt@, ke@, ke@.len());
        assert(ke@.take(ke@.len() as int) =~= ke@);
    }
    results.finalise(gt.len(), matched);
    results
}

/// Runs the strategies of an evaluation, with the vote or without it, and ranks their results.
fn evaluate_all(
    gt_events: &[GroundTruthEvent],
    kernel_events: &[KernelEvent],
    windows_ms: &[u64],
    with_vote: bool,
) -> (r: Result<EvaluationResults, EvaluationError>)
    requires
        forall|i: int|
            0 <= i < windows_ms@.len() ==> #[trigger] windows_ms@[i] * NS_PER_MS <= u64::MAX,
    ensures
        with_vote ==> evaluated(r, rules_with_vote(windows_ms@), gt_events@, kernel_events@),
        !with_vote ==> evaluated(r, rules(windows_ms@), gt_events@, kernel_events@),
{
    if gt_events.len() == 0 {
        return Err(EvaluationError::NoGroundTruth);
    }
    if kernel_events.len() == 0 {
        return Err(EvaluationError::NoKernelEvents);
    }
    // Match kernel events to ground-truth requests.
    let matcher = EventMatcher::new(gt_events);
    let mut matched: usize = 0;
    let mut unmatched: usize = 0;
    let mut actual: Vec<Option<RpcId>> = Vec::new();
    let mut i: usize = 0;
    while i < kernel_events.len()
        invariant
            i <= kernel_events.len(),
            matcher@ == gt_events@,
            actual@ == true_rpcs(gt_events@, kernel_events@).take(i as int),
            matched == known(actual@),
            matched + unmatched == i,
        decreases kernel_events.len() - i,
    {
        let rpc = matcher.match_event(&kernel_events[i]);
        let ghost before = actual@;
        if rpc.is_some() {
            matched += 1;
        } else {
            unmatched += 1;
        }
        actual.push(rpc);
        assert(actual@.drop_last() =~= before);
        assert(actual@ =~= true_rpcs(gt_events@, kernel_events@).take(i + 1));
        i += 1;
    }
    assert(actual@ =~= true_rpcs(gt_events@, kernel_events@));
    let ghost plan = rules(windows_ms@);
    // Run each strategy.
    let mut results: Vec<StrategyResults> = Vec::new();
    let mut pid = PidStrategy::new();
    pid.load_ground_truth(gt_events);
    results.push(
        run_loaded(&mut pid, Ghost(Rule::Pid), gt_events, kernel_events, &actual, matched),
    );
    let mut tid = PidTidStrategy::new();
    tid.load_ground_truth(gt_events);
    results.push(
        run_loaded(&mut tid, Ghost(Rule::PidTid), gt_events, kernel_events, &actual, matched),
    );
    let mut windows = TimeWindowStrategy::strategies_ms(windows_ms);
    let mut j: usize = 0;
    while j < windows.len()
        invariant
            j <= windows.len(),
            windows.len() == windows_ms@.len(),
            actual@ == true_rpcs(gt_events@, kernel_events@),
            matched == known(actual@),
            plan == rules(windows_ms@),
            forall|n: int|
                0 <= n < windows_ms@.len() ==> #[trigger] windows_ms@[n] * NS_PER_MS <= u64::MAX,
            forall|n: int|
                #![trigger windows@[n]]
                0 <= n < windows@.len() ==> windows@[n].window() == windows_ms@[n] * NS_PER_MS,
            results.len() == j + 2,
            forall|n: int|
                #![trigger results@[n]]
                0 <= n < results@.len() ==> results_of(
                    results@[n],
                    plan[n],
                    gt_events@,
                    kernel_events@,
                ),
        decreases windows.len() - j,
    {
        let ghost rule = plan[j + 2];
        let strategy = &mut windows[j];
        strategy.load_ground_truth(gt_events);
        let one = run_loaded(strategy, Ghost(rule), gt_events, kernel_events, &actual, matched);
        results.push(one);
        j += 1;
    }
    let ghost mut contenders = plan;
    if with_vote {
        let mut vote = MajorityVoteStrategy::new(windows_ms);
        vote.load_ground_truth(gt_events);
        let ghost rule = Rule::MajorityVote { windows_ns: in_nanoseconds(windows_ms@) };
        let one = run_loaded(&mut vote, Ghost(rule), gt_events, kernel_events, &actual, matched);
        results.push(one);
        proof {
            contenders = rules_with_vote(windows_ms@);
            assert(contenders == plan.push(rule));
        }
    }
    let ghost unranked = results@;
    proof {
        assert(actual.len() == kernel_events@.len());
        assert forall|i: int| 0 <= i < unranked.len() implies (
        #[trigger] unranked[i]).f1.denominator > 0 by {
            assert(results_of(unranked[i], contenders[i], gt_events@, kernel_events@));
        }
    }
    let strategies = rank(results);
    let ghost p = choose|p: Seq<int>| #[trigger] ranking_of(strategies@, unranked, p);
    proof {
        assert forall|i: int| 0 <= i < strategies@.len() implies results_of(
            #[trigger] strategies@[i],
            contenders[p[i]],
            gt_events@,
            kernel_events@,
        ) by {
            assert(strategies@[i] == unranked[p[i]]);
            assert(0 <= p[i] < p.len());
        }
        assert(ranked_results(strategies@, contenders, gt_events@, kernel_events@, p));
    }
    let res = EvaluationResults {
        strategies,
        total_kernel_events: kernel_events.len(),
        total_ground_truth_events: gt_events.len(),
        matched_events: matched,
        unmatched_events: unmatched,
    };
    proof {
        lemma_evaluated(res, contenders, gt_events@, kernel_events@, p);
    }
    Ok(res)
}

/// Results that are counted and ranked are an evaluation.
proof fn lemma_evaluated(
    res: EvaluationResults,
    contenders: Seq<Rule>,
    gt: Seq<GroundTruthEvent>,
    ke: Seq<KernelEvent>,
    p: Seq<int>,
)
    requires
        gt.len() > 0,
        ke.len() > 0,
        res.total_ground_truth_events == gt.len(),
        res.total_kernel_events == ke.len(),
        res.matched_events == known(true_rpcs(gt, ke)),
        res.matched_events + res.unmatched_events == ke.len(),
        ranked_results(res.strategies@, contenders, gt, ke, p),
    ensures
        evaluated(Ok(res), contenders, gt, ke),
{
}

/// Compares what several strategies make of the kernel events with the ground truth: the PID
/// strategy, the PID+TID strategy, and one time-window strategy for each of `windows_ms`. The
/// results stand with the best F1 first.
pub fn evaluate(
    gt_events: &[GroundTruthEvent],
    kernel_events: &[KernelEvent],
    windows_ms: &[u64],
) -> (r: Result<EvaluationResults, EvaluationError>)
    requires
        forall|i: int|
            0 <= i < windows_ms@.len() ==> #[trigger] windows_ms@[i] * NS_PER_MS <= u64::MAX,
    ensures
        evaluated(r, rules(windows_ms@), gt_events@, kernel_events@),
{
    evaluate_all(gt_events, kernel_events, windows_ms, false)
}

/// The same with one more strategy: the majority vote of the others.
pub fn evaluate_with_vote(
    gt_events: &[GroundTruthEvent],
    kernel_events: &[KernelEvent],
    windows_ms: &[u64],
) -> (r: Result<EvaluationResults, EvaluationError>)
    requires
        forall|i: int|
            0 <= i < windows_ms@.len() ==> #[trigger] windows_ms@[i] * NS_PER_MS <= u64::MAX,
    ensures
        evaluated(r, rules_with_vote(windows_ms@), gt_events@, kernel_events@),
{
    evaluate_all(gt_events, kernel_events, windows_ms, true)
}

} // verus!
