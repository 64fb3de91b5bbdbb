//! What the scores of a strategy count.

use vstd::prelude::*;

use crate::evaluation::evaluated;
use crate::evaluation::known;
use crate::evaluation::outcomes;
use crate::evaluation::ranked_results;
use crate::evaluation::results_of;
use crate::evaluation::rule_outcomes;
use crate::evaluation::state_after;
use crate::evaluation::true_rpcs;
use crate::evaluation::EvaluationError;
use crate::evaluation::Rule;
use crate::event::AttributionOutcome;
use crate::event::GroundTruthEvent;
use crate::event::KernelEvent;
use crate::identity::RpcId;
use crate::matcher::true_rpc;
use crate::metrics::at_least;
use crate::metrics::count_correct;
use crate::metrics::count_unattributed;
use crate::metrics::count_wrong;
use crate::metrics::outcome_of;
use crate::metrics::ranking_of;
use crate::metrics::EvaluationResults;
use crate::metrics::Ratio;
use crate::metrics::StrategyResults;
use crate::strategies::AttributionStrategy;

verus! {

// ---------------------------------------------------------------------------
// Counts
// ---------------------------------------------------------------------------

/// An attribution is correct exactly when the assigned request is the actual one, wrong exactly
/// when it is another, and missing exactly when there is none.
pub proof fn law_outcome_compares_requests(index: usize, actual: RpcId, assigned: Option<RpcId>)
    ensures
        outcome_of(index, actual, assigned) is Correct <==> assigned == Some(actual),
        outcome_of(index, actual, assigned) is WrongRpc <==> assigned is Some && assigned != Some(
            actual,
        ),
        outcome_of(index, actual, assigned) is Unattributed <==> assigned is None,
        match outcome_of(index, actual, assigned) {
            AttributionOutcome::Correct { kernel_event_index, assigned_rpc_id, actual_rpc_id } => {
                kernel_event_index == index && Some(assigned_rpc_id) == assigned && actual_rpc_id
                    == actual
            },
            AttributionOutcome::WrongRpc { kernel_event_index, assigned_rpc_id, actual_rpc_id } => {
                kernel_event_index == index && Some(assigned_rpc_id) == assigned && actual_rpc_id
                    == actual
            },
            AttributionOutcome::Unattributed { kernel_event_index } => kernel_event_index == index,
        },
{
}

/// The three counts are the numbers of outcomes of the three kinds.
pub proof fn law_outcomes_are_counted(os: Seq<AttributionOutcome>)
    ensures
        count_correct(os) == os.filter(|o: AttributionOutcome| o is Correct).len(),
        count_wrong(os) == os.filter(|o: AttributionOutcome| o is WrongRpc).len(),
        count_unattributed(os) == os.filter(|o: AttributionOutcome| o is Unattributed).len(),
    decreases os.len(),
{
    reveal(Seq::filter);
    if os.len() > 0 {
        law_outcomes_are_counted(os.drop_last());
    }
}

/// A strategy is correct on the matched kernel events for which it names the request they are
/// matched to, wrong on those for which it names another, and silent on those for which it names
/// none. Unmatched events count nowhere.
pub proof fn law_counts_compare_decisions(
    rule: Rule,
    gt: Seq<GroundTruthEvent>,
    ke: Seq<KernelEvent>,
)
    ensures
        count_correct(rule_outcomes(rule, gt, ke)) == ke.filter(
            |k: KernelEvent| true_rpc(gt, k) is Some && rule.decide(gt, k) == true_rpc(gt, k),
        ).len(),
        count_wrong(rule_outcomes(rule, gt, ke)) == ke.filter(
            |k: KernelEvent|
                true_rpc(gt, k) is Some && rule.decide(gt, k) is Some && rule.decide(gt, k)
                    != true_rpc(gt, k),
        ).len(),
        count_unattributed(rule_outcomes(rule, gt, ke)) == ke.filter(
            |k: KernelEvent| true_rpc(gt, k) is Some && rule.decide(gt, k) is None,
        ).len(),
        known(true_rpcs(gt, ke)) == ke.filter(|k: KernelEvent| true_rpc(gt, k) is Some).len(),
    decreases ke.len(),
{
    reveal(Seq::filter);
    if ke.len() > 0 {
        let rest = ke.drop_last();
        let k = ke.last();
        law_counts_compare_decisions(rule, gt, rest);
        assert(true_rpcs(gt, ke).drop_last() =~= true_rpcs(gt, rest));
        assert(true_rpcs(gt, ke).last() == true_rpc(gt, k));
        if true_rpc(gt, k) is Some {
            assert(rule_outcomes(rule, gt, ke).drop_last() =~= rule_outcomes(rule, gt, rest));
        }
    }
}

/// A strategy decides on an event whose request is known in the state that the known events before
/// it have left, and on no other event.
pub proof fn law_strategy_sees_known_events<S: AttributionStrategy>(
    s: S,
    events: Seq<KernelEvent>,
    actual: Seq<Option<RpcId>>,
    n: nat,
)
    ensures
        state_after(s, events, actual, 0) == s,
        outcomes(s, events, actual, 0).len() == 0,
        actual[n as int] is None ==> state_after(s, events, actual, n + 1) == state_after(
            s,
            events,
            actual,
            n,
        ) && outcomes(s, events, actual, n + 1) == outcomes(s, events, actual, n),
        actual[n as int] matches Some(rpc) ==> {
            let before = state_after(s, events, actual, n);
            let decided = before.decision(events[n as int]);
            &&& state_after(s, events, actual, n + 1) == before.after(events[n as int])
            &&& outcomes(s, events, actual, n + 1).len() == outcomes(s, events, actual, n).len() + 1
            &&& outcomes(s, events, actual, n + 1).drop_last() == outcomes(s, events, actual, n)
            &&& outcomes(s, events, actual, n + 1).last() is Correct <==> decided == Some(rpc)
            &&& outcomes(s, events, actual, n + 1).last() is Unattributed <==> decided is None
            &&& n <= usize::MAX ==> (match outcomes(s, events, actual, n + 1).last() {
                AttributionOutcome::Correct { kernel_event_index, .. } => kernel_event_index,
                AttributionOutcome::WrongRpc { kernel_event_index, .. } => kernel_event_index,
                AttributionOutcome::Unattributed { kernel_event_index } => kernel_event_index,
            }) == n
        },
{
    if actual[n as int] is Some {
        assert(outcomes(s, events, actual, n + 1).drop_last() =~= outcomes(s, events, actual, n));
    }
}

// ---------------------------------------------------------------------------
// Measures
// ---------------------------------------------------------------------------

/// A ratio is a part by its whole; of nothing it is zero.
pub proof fn law_ratio_of_parts(part: nat, whole: nat)
    requires
        part <= u128::MAX,
        whole <= u128::MAX,
    ensures
        Ratio::spec_of(part, whole).denominator > 0,
        whole > 0 ==> Ratio::spec_of(part, whole).numerator * whole == part * Ratio::spec_of(
            part,
            whole,
        ).denominator,
        whole == 0 ==> Ratio::spec_of(part, whole).numerator == 0,
        Ratio::spec_zero().numerator == 0,
        Ratio::spec_zero().denominator > 0,
{
}

/// Ratios are compared by their values.
pub proof fn law_ratios_compared(a: Ratio, b: Ratio)
    ensures
        at_least(a, b) <==> a.numerator * b.denominator >= b.numerator * a.denominator,
{
}

/// Precision is the share of correct attributions among all attributions, recall among all
/// ground-truth events; the two rates are shares of the matched events; and F1 is twice the correct
/// ones by attributions and ground-truth events together. A share of nothing is zero.
pub proof fn law_measures_are_shares(r: StrategyResults, total_gt: nat, matched: nat)
    requires
        r.scored(total_gt, matched),
        r.correct + r.wrong_rpc <= usize::MAX,
        total_gt <= usize::MAX,
        matched <= usize::MAX,
    ensures
        r.precision.denominator > 0 && r.recall.denominator > 0 && r.f1.denominator > 0
            && r.wrong_rate.denominator > 0 && r.unattributed_rate.denominator > 0,
        r.precision.numerator * (r.correct + r.wrong_rpc) == r.correct * r.precision.denominator,
        r.correct + r.wrong_rpc == 0 ==> r.precision.numerator == 0,
        total_gt > 0 ==> r.recall.numerator * total_gt == r.correct * r.recall.denominator,
        total_gt == 0 ==> r.recall.numerator == 0,
        matched > 0 ==> r.wrong_rate.numerator * matched == r.wrong_rpc
            * r.wrong_rate.denominator,
        matched == 0 ==> r.wrong_rate.numerator == 0,
        matched > 0 ==> r.unattributed_rate.numerator * matched == r.unattributed
            * r.unattributed_rate.denominator,
        matched == 0 ==> r.unattributed_rate.numerator == 0,
        total_gt > 0 ==> r.f1.numerator * (r.correct + r.wrong_rpc + total_gt) == 2 * r.correct
            * r.f1.denominator,
        total_gt == 0 ==> r.f1.numerator == 0,
{
    let c = r.correct as int;
    let w = r.wrong_rpc as int;
    if c + w == 0 {
        assert(r.precision.numerator * (c + w) == 0 && c * r.precision.denominator == 0)
            by (nonlinear_arith)
            requires
                c + w == 0,
                c == 0,
        ;
    } else {
        assert(r.precision.numerator == c && r.precision.denominator == c + w);
    }
    if total_gt > 0 {
        if c > 0 {
            assert(r.f1.numerator == 2 * c && r.f1.denominator == c + w + total_gt);
        } else {
            assert(r.f1.numerator == 0);
            assert(0 * (c + w + total_gt) == 0 && 2 * c * r.f1.denominator == 0)
                by (nonlinear_arith)
                requires
                    c == 0,
            ;
        }
    }
}

// ---------------------------------------------------------------------------
// Evaluations
// ---------------------------------------------------------------------------

/// An evaluation fails exactly where one of the two streams is empty, and the ground truth is
/// looked at first. Else it tells how many events there are and how many could be matched.
pub proof fn law_evaluation_counts_events(
    r: Result<EvaluationResults, EvaluationError>,
    contenders: Seq<Rule>,
    gt: Seq<GroundTruthEvent>,
    ke: Seq<KernelEvent>,
)
    requires
        evaluated(r, contenders, gt, ke),
    ensures
        r is Ok <==> gt.len() > 0 && ke.len() > 0,
        r == Err::<EvaluationResults, EvaluationError>(EvaluationError::NoGroundTruth)
            <==> gt.len() == 0,
        r == Err::<EvaluationResults, EvaluationError>(EvaluationError::NoKernelEvents)
            <==> gt.len() > 0 && ke.len() == 0,
        r matches Ok(res) ==> {
            &&& res.total_ground_truth_events == gt.len()
            &&& res.total_kernel_events == ke.len()
            &&& res.matched_events == ke.filter(|k: KernelEvent| true_rpc(gt, k) is Some).len()
            &&& res.matched_events + res.unmatched_events == ke.len()
            &&& res.strategies@.len() == contenders.len()
        },
{
    law_counts_compare_decisions(Rule::Pid, gt, ke);
}

/// Every strategy of an evaluation has its results there, under its name, and with the counts of
/// its own decisions.
pub proof fn law_evaluation_holds_every_strategy(
    s: Seq<StrategyResults>,
    contenders: Seq<Rule>,
    gt: Seq<GroundTruthEvent>,
    ke: Seq<KernelEvent>,
    p: Seq<int>,
    c: int,
)
    requires
        ranked_results(s, contenders, gt, ke, p),
        0 <= c < contenders.len(),
    ensures
        exists|i: int|
            #![trigger s[i]]
            {
                &&& 0 <= i < s.len()
                &&& p[i] == c
                &&& s[i].strategy_name@ == contenders[c].label()
                &&& s[i].correct == ke.filter(
                    |k: KernelEvent|
                        true_rpc(gt, k) is Some && contenders[c].decide(gt, k) == true_rpc(gt, k),
                ).len()
                &&& s[i].wrong_rpc == ke.filter(
                    |k: KernelEvent|
                        true_rpc(gt, k) is Some && contenders[c].decide(gt, k) is Some
                            && contenders[c].decide(gt, k) != true_rpc(gt, k),
                ).len()
                &&& s[i].unattributed == ke.filter(
                    |k: KernelEvent|
                        true_rpc(gt, k) is Some && contenders[c].decide(gt, k) is None,
                ).len()
                &&& s[i].scored(
                    gt.len(),
                    ke.filter(|k: KernelEvent| true_rpc(gt, k) is Some).len(),
                )
            },
{
    crate::metrics::lemma_arrangement_full(p, c);
    let i = choose|i: int| 0 <= i < p.len() && p[i] == c;
    assert(results_of(s[i], contenders[p[i]], gt, ke));
    law_counts_compare_decisions(contenders[c], gt, ke);
    assert(s[i].strategy_name@ == contenders[c].label());
}

/// Along the results of an evaluation F1 never rises, and strategies of equal F1 stand in the order
/// in which they were run.
pub proof fn law_evaluation_is_ranked(
    s: Seq<StrategyResults>,
    contenders: Seq<Rule>,
    gt: Seq<GroundTruthEvent>,
    ke: Seq<KernelEvent>,
    p: Seq<int>,
    i: int,
    j: int,
)
    requires
        ranked_results(s, contenders, gt, ke, p),
        0 <= i < j < s.len(),
    ensures
        s[i].f1.numerator * s[j].f1.denominator >= s[j].f1.numerator * s[i].f1.denominator,
        s[i].f1.numerator * s[j].f1.denominator == s[j].f1.numerator * s[i].f1.denominator ==> p[i]
            < p[j],
        p[i] != p[j],
        0 <= p[i] < contenders.len(),
        0 <= p[j] < contenders.len(),
{
    assert(at_least(s[i].f1, s[j].f1));
    assert(0 <= p[i] < p.len());
    assert(0 <= p[j] < p.len());
}

/// An evaluation holds the results of every strategy once: under its name, with the counts of its
/// own decisions and the measures of these counts. F1 never rises along them, and strategies of
/// equal F1 stand in the order in which they were run.
pub proof fn law_evaluation_results(
    res: EvaluationResults,
    contenders: Seq<Rule>,
    gt: Seq<GroundTruthEvent>,
    ke: Seq<KernelEvent>,
)
    requires
        evaluated(Ok(res), contenders, gt, ke),
    ensures
        exists|p: Seq<int>|
            {
                let s = res.strategies@;
                &&& s.len() == contenders.len()
                &&& #[trigger] p.len() == contenders.len()
                &&& p.no_duplicates()
                &&& forall|i: int|
                    0 <= i < s.len() ==> {
                        let rule = contenders[p[i]];
                        &&& 0 <= p[i] < contenders.len()
                        &&& (#[trigger] s[i]).strategy_name@ == rule.label()
                        &&& s[i].correct == ke.filter(
                            |k: KernelEvent|
                                true_rpc(gt, k) is Some && rule.decide(gt, k) == true_rpc(gt, k),
                        ).len()
                        &&& s[i].wrong_rpc == ke.filter(
                            |k: KernelEvent|
                                true_rpc(gt, k) is Some && rule.decide(gt, k) is Some
                                    && rule.decide(gt, k) != true_rpc(gt, k),
                        ).len()
                        &&& s[i].unattributed == ke.filter(
                            |k: KernelEvent|
                                true_rpc(gt, k) is Some && rule.decide(gt, k) is None,
                        ).len()
                        &&& s[i].scored(gt.len(), res.matched_events as nat)
                    }
                &&& forall|i: int, j: int|
                    0 <= i < j < s.len() ==> {
                        &&& (#[trigger] s[i]).f1.numerator * (#[trigger] s[j]).f1.denominator
                            >= s[j].f1.numerator * s[i].f1.denominator
                        &&& s[i].f1.numerator * s[j].f1.denominator == s[j].f1.numerator
                            * s[i].f1.denominator ==> p[i] < p[j]
                    }
            },
{
    let p = choose|p: Seq<int>| #[trigger]
        ranked_results(res.strategies@, contenders, gt, ke, p);
    let s = res.strategies@;
    assert forall|i: int| 0 <= i < s.len() implies {
        let rule = contenders[p[i]];
        &&& 0 <= p[i] < contenders.len()
        &&& (#[trigger] s[i]).strategy_name@ == rule.label()
        &&& s[i].correct == ke.filter(
            |k: KernelEvent| true_rpc(gt, k) is Some && rule.decide(gt, k) == true_rpc(gt, k),
        ).len()
        &&& s[i].wrong_rpc == ke.filter(
            |k: KernelEvent|
                true_rpc(gt, k) is Some && rule.decide(gt, k) is Some && rule.decide(gt, k)
                    != true_rpc(gt, k),
        ).len()
        &&& s[i].unattributed == ke.filter(
            |k: KernelEvent| true_rpc(gt, k) is Some && rule.decide(gt, k) is None,
        ).len()
        &&& s[i].scored(gt.len(), res.matched_events as nat)
    } by {
        assert(0 <= p[i] < p.len());
        assert(results_of(s[i], contenders[p[i]], gt, ke));
        law_counts_compare_decisions(contenders[p[i]], gt, ke);
    }
    assert forall|i: int, j: int| 0 <= i < j < s.len() implies {
        &&& (#[trigger] s[i]).f1.numerator * (#[trigger] s[j]).f1.denominator
            >= s[j].f1.numerator * s[i].f1.denominator
        &&& s[i].f1.numerator * s[j].f1.denominator == s[j].f1.numerator * s[i].f1.denominator
            ==> p[i] < p[j]
    } by {
        law_evaluation_is_ranked(s, contenders, gt, ke, p, i, j);
    }
    assert(p.len() == contenders.len());
}

/// Before any event no share is above zero.
pub proof fn law_unscored_measures_are_zero(r: StrategyResults)
    requires
        r.unscored(),
    ensures
        r.precision.numerator == 0 && r.precision.denominator > 0,
        r.recall.numerator == 0 && r.recall.denominator > 0,
        r.f1.numerator == 0 && r.f1.denominator > 0,
        r.wrong_rate.numerator == 0 && r.wrong_rate.denominator > 0,
        r.unattributed_rate.numerator == 0 && r.unattributed_rate.denominator > 0,
{
}

/// A ranking drops no result and adds none.
pub proof fn law_ranking_holds_every_result(
    out: Seq<StrategyResults>,
    input: Seq<StrategyResults>,
    p: Seq<int>,
    c: int,
)
    requires
        ranking_of(out, input, p),
        0 <= c < input.len(),
    ensures
        out.len() == input.len(),
        exists|i: int| 0 <= i < out.len() && p[i] == c && #[trigger] out[i] == input[c],
{
    crate::metrics::lemma_arrangement_full(p, c);
    let i = choose|i: int| 0 <= i < p.len() && p[i] == c;
    assert(out[i] == input[p[i]]);
}

/// A ranking holds every result once, and F1 never rises along it.
pub proof fn law_ranking_is_falling(
    out: Seq<StrategyResults>,
    input: Seq<StrategyResults>,
    p: Seq<int>,
    i: int,
    j: int,
)
    requires
        ranking_of(out, input, p),
        0 <= i < j < out.len(),
    ensures
        out.len() == input.len(),
        out[i].f1.numerator * out[j].f1.denominator >= out[j].f1.numerator
            * out[i].f1.denominator,
        out[i].f1.numerator * out[j].f1.denominator == out[j].f1.numerator * out[i].f1.denominator
            ==> p[i] < p[j],
        p[i] != p[j],
        0 <= p[i] < input.len(),
        out[i] == input[p[i]],
        out[j] == input[p[j]],
{
    assert(at_least(out[i].f1, out[j].f1));
    assert(0 <= p[i] < p.len());
    assert(0 <= p[j] < p.len());
}

} // verus!
