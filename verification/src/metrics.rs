//! Attribution metrics: counts, and the exact ratios they give.

use vstd::prelude::*;
use vstd::string::*;

use crate::event::AttributionOutcome;
use crate::identity::RpcId;
use crate::sorting::reversed;

verus! {

// ---------------------------------------------------------------------------
// Ratios
// ---------------------------------------------------------------------------

/// An exact ratio of two counts.
#[derive(Debug, Clone, Copy, PartialEq, Eq, Structural)]
pub struct Ratio {
    pub numerator: u128,
    pub denominator: u128,
}

impl Ratio {
    /// Zero.
    pub open spec fn spec_zero() -> Ratio {
        Ratio { numerator: 0, denominator: 1 }
    }

    /// `part` of `whole`; zero where there is no whole.
    pub open spec fn spec_of(part: nat, whole: nat) -> Ratio {
        if whole > 0 {
            Ratio { numerator: part as u128, denominator: whole as u128 }
        } else {
            Ratio::spec_zero()
        }
    }

    /// Zero.
    pub fn zero() -> (r: Ratio)
        ensures
            r == Ratio::spec_zero(),
    {
        Ratio { numerator: 0, denominator: 1 }
    }

    /// `part` of `whole`; zero where there is no whole.
    pub fn of(part: usize, whole: usize) -> (r: Ratio)
        ensures
            r == Ratio::spec_of(part as nat, whole as nat),
    {
        if whole > 0 {
            Ratio { numerator: part as u128, denominator: whole as u128 }
        } else {
            Ratio::zero()
        }
    }

    /// Whether the ratio lies between zero and one.
    pub open spec fn proper(self) -> bool {
        self.denominator > 0 && self.numerator <= self.denominator
    }
}

/// The F1 score of `correct` attributions among `attributed` and of `total` events: twice the
/// correct ones by the attributed and the total together. It is zero where precision or recall
/// is.
pub open spec fn f1_of(correct: nat, attributed: nat, total: nat) -> Ratio {
    if correct > 0 && total > 0 {
        Ratio { numerator: (2 * correct) as u128, denominator: (attributed + total) as u128 }
    } else {
        Ratio::spec_zero()
    }
}

// ---------------------------------------------------------------------------
// Results
// ---------------------------------------------------------------------------

/// Per-strategy results.
#[derive(Debug, Clone)]
pub struct StrategyResults {
    pub strategy_name: String,
    pub correct: usize,
    pub wrong_rpc: usize,
    pub unattributed: usize,
    pub precision: Ratio,
    pub recall: Ratio,
    pub f1: Ratio,
    pub wrong_rate: Ratio,
    pub unattributed_rate: Ratio,
}

impl StrategyResults {
    /// Whether no ratio has been computed yet.
    pub open spec fn unscored(self) -> bool {
        &&& self.precision == Ratio::spec_zero()
        &&& self.recall == Ratio::spec_zero()
        &&& self.f1 == Ratio::spec_zero()
        &&& self.wrong_rate == Ratio::spec_zero()
        &&& self.unattributed_rate == Ratio::spec_zero()
    }

    /// Whether the ratios are those of the counts, for `total_gt` ground-truth events and
    /// `matched` kernel events.
    pub open spec fn scored(self, total_gt: nat, matched: nat) -> bool {
        let attributed = (self.correct + self.wrong_rpc) as nat;
        &&& self.precision == Ratio::spec_of(self.correct as nat, attributed)
        &&& self.recall == Ratio::spec_of(self.correct as nat, total_gt)
        &&& self.f1 == f1_of(self.correct as nat, attributed, total_gt)
        &&& self.wrong_rate == Ratio::spec_of(self.wrong_rpc as nat, matched)
        &&& self.unattributed_rate == Ratio::spec_of(self.unattributed as nat, matched)
    }

    /// The results of the strategy `name` before any event.
    pub fn new(name: String) -> (r: Self)
        ensures
            r.strategy_name == name,
            r.correct == 0,
            r.wrong_rpc == 0,
            r.unattributed == 0,
            r.unscored(),
    {
        StrategyResults {
            strategy_name: name,
            correct: 0,
            wrong_rpc: 0,
            unattributed: 0,
            precision: Ratio::zero(),
            recall: Ratio::zero(),
            f1: Ratio::zero(),
            wrong_rate: Ratio::zero(),
            unattributed_rate: Ratio::zero(),
        }
    }

    /// Finalise metrics after all events have been classified.
    pub fn finalise(&mut self, total_gt: usize, matched: usize)
        requires
            old(self).correct + old(self).wrong_rpc <= usize::MAX,
        ensures
            final(self).strategy_name == old(self).strategy_name,
            final(self).correct == old(self).correct,
            final(self).wrong_rpc == old(self).wrong_rpc,
            final(self).unattributed == old(self).unattributed,
            final(self).scored(total_gt as nat, matched as nat),
    {
        let attributed: usize = self.correct + self.wrong_rpc;
        self.precision = Ratio::of(self.correct, attributed);
        self.recall = Ratio::of(self.correct, total_gt);
        self.f1 = if self.correct > 0 && total_gt > 0 {
            Ratio {
                numerator: 2 * (self.correct as u128),
                denominator: attributed as u128 + total_gt as u128,
            }
        } else {
            Ratio::zero()
        };
        self.wrong_rate = Ratio::of(self.wrong_rpc, matched);
        self.unattributed_rate = Ratio::of(self.unattributed, matched);
    }
}

/// Aggregate evaluation results across all strategies.
#[derive(Debug, Clone)]
pub struct EvaluationResults {
    pub strategies: Vec<StrategyResults>,
    pub total_kernel_events: usize,
    pub total_ground_truth_events: usize,
    pub matched_events: usize,
    pub unmatched_events: usize,
}

impl Default for EvaluationResults {
    fn default() -> (r: Self)
        ensures
            r.strategies@.len() == 0,
            r.total_kernel_events == 0,
            r.total_ground_truth_events == 0,
            r.matched_events == 0,
            r.unmatched_events == 0,
    {
        EvaluationResults {
            strategies: Vec::new(),
            total_kernel_events: 0,
            total_ground_truth_events: 0,
            matched_events: 0,
            unmatched_events: 0,
        }
    }
}

// ---------------------------------------------------------------------------
// Outcomes
// ---------------------------------------------------------------------------

/// How the attribution of one event turned out.
pub open spec fn outcome_of(index: usize, actual: RpcId, assigned: Option<RpcId>) -> AttributionOutcome {
    match assigned {
        Some(rpc) => if rpc == actual {
            AttributionOutcome::Correct {
                kernel_event_index: index,
                assigned_rpc_id: rpc,
                actual_rpc_id: actual,
            }
        } else {
            AttributionOutcome::WrongRpc {
                kernel_event_index: index,
                assigned_rpc_id: rpc,
                actual_rpc_id: actual,
            }
        },
        None => AttributionOutcome::Unattributed { kernel_event_index: index },
    }
}

/// How the attribution of one event turned out.
pub fn classify(index: usize, actual: RpcId, assigned: Option<RpcId>) -> (r: AttributionOutcome)
    ensures
        r == outcome_of(index, actual, assigned),
{
    match assigned {
        Some(rpc) => if rpc == actual {
            AttributionOutcome::Correct {
                kernel_event_index: index,
                assigned_rpc_id: rpc,
                actual_rpc_id: actual,
            }
        } else {
            AttributionOutcome::WrongRpc {
                kernel_event_index: index,
                assigned_rpc_id: rpc,
                actual_rpc_id: actual,
            }
        },
        None => AttributionOutcome::Unattributed { kernel_event_index: index },
    }
}

/// The number of correct attributions.
pub open spec fn count_correct(os: Seq<AttributionOutcome>) -> nat
    decreases os.len(),
{
    if os.len() == 0 {
        0
    } else {
        count_correct(os.drop_last()) + (if os.last() is Correct {
            1nat
        } else {
            0nat
        })
    }
}

/// The number of attributions to a wrong request.
pub open spec fn count_wrong(os: Seq<AttributionOutcome>) -> nat
    decreases os.len(),
{
    if os.len() == 0 {
        0
    } else {
        count_wrong(os.drop_last()) + (if os.last() is WrongRpc {
            1nat
        } else {
            0nat
        })
    }
}

/// The number of events that were not attributed.
pub open spec fn count_unattributed(os: Seq<AttributionOutcome>) -> nat
    decreases os.len(),
{
    if os.len() == 0 {
        0
    } else {
        count_unattributed(os.drop_last()) + (if os.last() is Unattributed {
            1nat
        } else {
            0nat
        })
    }
}

/// Every outcome is of one of the three kinds.
pub proof fn law_counts_partition(os: Seq<AttributionOutcome>)
    ensures
        count_correct(os) + count_wrong(os) + count_unattributed(os) == os.len(),
    decreases os.len(),
{
    if os.len() > 0 {
        law_counts_partition(os.drop_last());
    }
}

// ---------------------------------------------------------------------------
// Laws of the ratios
// ---------------------------------------------------------------------------

/// Precision and the two rates lie between zero and one. So do recall and F1, where no more
/// kernel events are correct than there are ground-truth events.
pub proof fn law_ratios_proper(r: StrategyResults, total_gt: nat, matched: nat)
    requires
        r.scored(total_gt, matched),
        r.correct + r.wrong_rpc + r.unattributed == matched,
        matched <= usize::MAX,
        total_gt <= usize::MAX,
    ensures
        r.precision.proper(),
        r.wrong_rate.proper(),
        r.unattributed_rate.proper(),
        r.correct <= total_gt ==> r.recall.proper() && r.f1.proper(),
{
}

/// F1 is the harmonic mean of precision and recall: F1 * (P + R) = 2 * P * R, written without
/// division.
pub proof fn law_f1_harmonic(r: StrategyResults, total_gt: nat, matched: nat)
    requires
        r.scored(total_gt, matched),
        r.correct + r.wrong_rpc <= usize::MAX,
        total_gt <= usize::MAX,
    ensures
        r.f1.numerator * (r.precision.numerator * r.recall.denominator + r.recall.numerator
            * r.precision.denominator) == 2 * r.precision.numerator * r.recall.numerator
            * r.f1.denominator,
{
    let c = r.correct as int;
    let a = r.correct + r.wrong_rpc;
    let g = total_gt as int;
    if r.correct > 0 && total_gt > 0 {
        assert((2 * c) * (c * g + c * a) == 2 * c * c * (a + g)) by (nonlinear_arith);
    } else {
        assert(r.f1.numerator == 0);
        if r.correct == 0 {
            assert(r.precision.numerator == 0);
        } else {
            assert(r.recall.numerator == 0);
        }
        assert(0 * (r.precision.numerator * r.recall.denominator + r.recall.numerator
            * r.precision.denominator) == 0);
        assert(2 * r.precision.numerator * r.recall.numerator * r.f1.denominator == 0)
            by (nonlinear_arith)
            requires
                r.precision.numerator == 0 || r.recall.numerator == 0,
        ;
    }
}

// ---------------------------------------------------------------------------
// Ranking
// ---------------------------------------------------------------------------

/// Whether the ratio `a` is at least the ratio `b`, written without division.
pub open spec fn at_least(a: Ratio, b: Ratio) -> bool {
    a.numerator * b.denominator >= b.numerator * a.denominator
}

/// Two quotients with the same whole part compare as their remainders do.
proof fn lemma_compare_remainders(n: int, d: int, m: int, e: int, q: int, r: int, s: int)
    requires
        d > 0,
        e > 0,
        n == q * d + r,
        m == q * e + s,
    ensures
        n * e >= m * d <==> r * e >= s * d,
{
    assert(n * e == q * d * e + r * e) by (nonlinear_arith)
        requires
            n == q * d + r,
    ;
    assert(m * d == q * d * e + s * d) by (nonlinear_arith)
        requires
            m == q * e + s,
    ;
}

/// Two quotients with different whole parts compare as those do.
proof fn lemma_compare_wholes(n: int, d: int, m: int, e: int, q: int, p: int, r: int, s: int)
    requires
        d > 0,
        e > 0,
        n == q * d + r,
        m == p * e + s,
        0 <= r < d,
        0 <= s < e,
        q > p,
    ensures
        n * e > m * d,
{
    assert(n * e >= q * d * e) by (nonlinear_arith)
        requires
            n == q * d + r,
            r >= 0,
            e > 0,
    ;
    assert(m * d < (p + 1) * e * d) by (nonlinear_arith)
        requires
            m == p * e + s,
            s < e,
            d > 0,
    ;
    assert(q * d * e >= (p + 1) * e * d) by (nonlinear_arith)
        requires
            q >= p + 1,
            d > 0,
            e > 0,
    ;
}

/// Whether `n / d` is at least `m / e`. The whole parts are compared first, and then the
/// remainders upside down, so that no product is formed.
fn quotient_at_least(n: u128, d: u128, m: u128, e: u128) -> (res: bool)
    requires
        d > 0,
        e > 0,
    ensures
        res == (n * e >= m * d),
    decreases d + e,
{
    let q: u128 = n / d;
    let p: u128 = m / e;
    let r: u128 = n % d;
    let s: u128 = m % e;
    proof {
        vstd::arithmetic::div_mod::lemma_fundamental_div_mod(n as int, d as int);
        vstd::arithmetic::div_mod::lemma_fundamental_div_mod(m as int, e as int);
        vstd::arithmetic::mul::lemma_mul_is_commutative(d as int, q as int);
        vstd::arithmetic::mul::lemma_mul_is_commutative(e as int, p as int);
    }
    if q != p {
        proof {
            if q > p {
                lemma_compare_wholes(
                    n as int,
                    d as int,
                    m as int,
                    e as int,
                    q as int,
                    p as int,
                    r as int,
                    s as int,
                );
            } else {
                lemma_compare_wholes(
                    m as int,
                    e as int,
                    n as int,
                    d as int,
                    p as int,
                    q as int,
                    s as int,
                    r as int,
                );
            }
        }
        return q > p;
    }
    proof {
        lemma_compare_remainders(
            n as int,
            d as int,
            m as int,
            e as int,
            q as int,
            r as int,
            s as int,
        );
    }
    if s == 0 {
        assert(r * e >= s * d) by (nonlinear_arith)
            requires
                r >= 0,
                e >= 0,
                s == 0,
        ;
        return true;
    }
    if r == 0 {
        assert(r * e < s * d) by (nonlinear_arith)
            requires
                r == 0,
                s > 0,
                d > 0,
        ;
        return false;
    }
    // r / d >= s / e exactly when e / s >= d / r.
    assert(e * r == r * e && d * s == s * d) by (nonlinear_arith);
    quotient_at_least(e, s, d, r)
}

impl Ratio {
    /// Whether the ratio is at least `other`.
    pub fn at_least(&self, other: &Ratio) -> (r: bool)
        requires
            self.denominator > 0,
            other.denominator > 0,
        ensures
            r == at_least(*self, *other),
    {
        quotient_at_least(
            self.numerator,
            self.denominator,
            other.numerator,
            other.denominator,
        )
    }
}

/// The order of ratios is transitive.
pub proof fn lemma_at_least_transitive(a: Ratio, b: Ratio, c: Ratio)
    requires
        a.denominator > 0,
        b.denominator > 0,
        c.denominator > 0,
        at_least(a, b),
        at_least(b, c),
    ensures
        at_least(a, c),
{
    let (an, ad) = (a.numerator as int, a.denominator as int);
    let (bn, bd) = (b.numerator as int, b.denominator as int);
    let (cn, cd) = (c.numerator as int, c.denominator as int);
    assert(an * bd * cd >= bn * ad * cd) by (nonlinear_arith)
        requires
            an * bd >= bn * ad,
            cd > 0,
    ;
    assert(bn * cd * ad >= cn * bd * ad) by (nonlinear_arith)
        requires
            bn * cd >= cn * bd,
            ad > 0,
    ;
    assert(an * bd * cd == (an * cd) * bd && bn * ad * cd == bn * cd * ad && cn * bd * ad == (cn
        * ad) * bd) by (nonlinear_arith);
    assert(an * cd >= cn * ad) by (nonlinear_arith)
        requires
            (an * cd) * bd >= (cn * ad) * bd,
            bd > 0,
    ;
}

/// Whether `p` lists the places below its length, each once.
pub open spec fn is_arrangement(p: Seq<int>) -> bool {
    &&& p.no_duplicates()
    &&& forall|i: int| 0 <= i < p.len() ==> 0 <= #[trigger] p[i] < p.len()
}

/// Whether `s`, taken from the places `p`, stands with the best F1 first, those of equal F1 in the
/// order of their places.
pub open spec fn best_first(s: Seq<StrategyResults>, p: Seq<int>) -> bool {
    &&& p.len() == s.len()
    &&& forall|i: int, j: int|
        0 <= i <= j < s.len() ==> at_least((#[trigger] s[i]).f1, (#[trigger] s[j]).f1)
    &&& forall|i: int, j: int|
        0 <= i < j < s.len() && at_least((#[trigger] s[j]).f1, (#[trigger] s[i]).f1) ==> p[i]
            < p[j]
}

/// Whether `out` is `input` with the best F1 first, results of equal F1 keeping their order: `p`
/// says where each one stood.
pub open spec fn ranking_of(
    out: Seq<StrategyResults>,
    input: Seq<StrategyResults>,
    p: Seq<int>,
) -> bool {
    &&& out.len() == input.len()
    &&& is_arrangement(p)
    &&& best_first(out, p)
    &&& forall|i: int| 0 <= i < out.len() ==> #[trigger] out[i] == input[p[i]]
}

/// One more result in its place.
proof fn lemma_ranked_insert(
    out: Seq<StrategyResults>,
    input: Seq<StrategyResults>,
    p: Seq<int>,
    x: StrategyResults,
    k: int,
)
    requires
        ranking_of(out, input, p),
        0 <= k <= out.len(),
        x.f1.denominator > 0,
        forall|i: int| 0 <= i < out.len() ==> (#[trigger] out[i]).f1.denominator > 0,
        k > 0 ==> at_least(out[k - 1].f1, x.f1),
        forall|i: int| k <= i < out.len() ==> !at_least((#[trigger] out[i]).f1, x.f1),
    ensures
        ranking_of(out.insert(k, x), input.push(x), p.insert(k, out.len() as int)),
{
    let n = out.len() as int;
    let s = out.insert(k, x);
    let q = p.insert(k, n);
    assert forall|i: int| 0 <= i < k implies at_least((#[trigger] out[i]).f1, x.f1) by {
        assert(at_least(out[i].f1, out[k - 1].f1));
        lemma_at_least_transitive(out[i].f1, out[k - 1].f1, x.f1);
    }
    assert forall|i: int| 0 <= i < s.len() implies #[trigger] s[i] == (if i < k {
        out[i]
    } else if i == k {
        x
    } else {
        out[i - 1]
    }) && q[i] == (if i < k {
        p[i]
    } else if i == k {
        n
    } else {
        p[i - 1]
    }) by {}
    assert forall|i: int, j: int| 0 <= i <= j < s.len() implies at_least(
        (#[trigger] s[i]).f1,
        (#[trigger] s[j]).f1,
    ) by {
        let a = if i <= k {
            i
        } else {
            i - 1
        };
        let b = if j <= k {
            j
        } else {
            j - 1
        };
        if i != k && j != k {
            assert(at_least(out[a].f1, out[b].f1));
        } else if j == k && i < k {
            assert(at_least(out[i].f1, x.f1));
        } else if i == k && j > k {
            assert(!at_least(out[j - 1].f1, x.f1));
        }
    }
    assert forall|i: int, j: int|
        0 <= i < j < s.len() && at_least((#[trigger] s[j]).f1, (#[trigger] s[i]).f1) implies q[i]
        < q[j] by {
        if i == k {
            assert(!at_least(out[j - 1].f1, x.f1));
        } else if j == k {
            assert(p[i] < n);
        } else {
            let a = if i < k {
                i
            } else {
                i - 1
            };
            let b = if j < k {
                j
            } else {
                j - 1
            };
            assert(s[i] == out[a] && s[j] == out[b]);
            assert(at_least(out[b].f1, out[a].f1));
            assert(p[a] < p[b]);
        }
    }
    assert forall|i: int, j: int| 0 <= i < q.len() && 0 <= j < q.len() && i != j implies q[i]
        != q[j] by {
        let a = if i <= k {
            i
        } else {
            i - 1
        };
        let b = if j <= k {
            j
        } else {
            j - 1
        };
        assert(s[i] == s[i] && s[j] == s[j]);
        if i != k && j != k {
            assert(p[a] != p[b]);
        } else if i == k {
            assert(0 <= p[b] < n);
        } else {
            assert(0 <= p[a] < n);
        }
    }
    assert forall|i: int| 0 <= i < q.len() implies 0 <= #[trigger] q[i] < q.len() by {
        assert(s[i] == s[i]);
    }
    assert forall|i: int| 0 <= i < s.len() implies #[trigger] s[i] == input.push(x)[q[i]] by {
        if i < k {
            assert(out[i] == input[p[i]]);
            assert(0 <= p[i] < n);
        } else if i > k {
            assert(out[i - 1] == input[p[i - 1]]);
            assert(0 <= p[i - 1] < n);
        }
    }
}

/// Orders results by F1, the best first; results of equal F1 keep their order.
pub fn rank(results: Vec<StrategyResults>) -> (r: Vec<StrategyResults>)
    requires
        forall|i: int| 0 <= i < results@.len() ==> (#[trigger] results@[i]).f1.denominator > 0,
    ensures
        exists|p: Seq<int>| #[trigger] ranking_of(r@, results@, p),
{
    let ghost whole = results@;
    let mut rest = reversed(results);
    let mut out: Vec<StrategyResults> = Vec::new();
    let ghost mut p: Seq<int> = Seq::empty();
    while rest.len() > 0
        invariant
            out@.len() + rest@.len() == whole.len(),
            rest@ == whole.skip(out@.len() as int).reverse(),
            ranking_of(out@, whole.take(out@.len() as int), p),
            forall|i: int| 0 <= i < whole.len() ==> (#[trigger] whole[i]).f1.denominator > 0,
        decreases rest.len(),
    {
        let ghost n = out@.len() as int;
        let ghost seen = whole.take(n);
        let ghost before = out@;
        proof {
            assert forall|i: int| 0 <= i < before.len() implies (
            #[trigger] before[i]).f1.denominator > 0 by {
                assert(before[i] == seen[p[i]]);
                assert(0 <= p[i] < n);
                assert(seen[p[i]] == whole[p[i]]);
            }
        }
        match rest.pop() {
            Some(x) => {
                assert(x == whole[n]);
                let mut k: usize = out.len();
                while k > 0 && !out[k - 1].f1.at_least(&x.f1)
                    invariant
                        k <= out.len(),
                        out@ == before,
                        x.f1.denominator > 0,
                        forall|i: int|
                            0 <= i < before.len() ==> (#[trigger] before[i]).f1.denominator > 0,
                        forall|i: int|
                            k <= i < before.len() ==> !at_least((#[trigger] before[i]).f1, x.f1),
                    decreases k,
                {
                    k -= 1;
                }
                proof {
                    lemma_ranked_insert(before, seen, p, x, k as int);
                    p = p.insert(k as int, n);
                    assert(seen.push(x) =~= whole.take(n + 1));
                }
                out.insert(k, x);
                assert(out@ =~= before.insert(k as int, whole[n]));
                assert(rest@ =~= whole.skip(n + 1).reverse());
            },
            None => {},
        }
    }
    assert(whole.take(whole.len() as int) =~= whole);
    out
}

/// An arrangement leaves out no place.
pub proof fn lemma_arrangement_full(p: Seq<int>, x: int)
    requires
        is_arrangement(p),
        0 <= x < p.len(),
    ensures
        p.contains(x),
{
    let all = vstd::set_lib::set_int_range(0, p.len() as int);
    vstd::set_lib::lemma_int_range(0, p.len() as int);
    p.unique_seq_to_set();
    assert(p.to_set().subset_of(all)) by {
        assert forall|y: int| p.to_set().contains(y) implies all.contains(y) by {
            let i = choose|i: int| 0 <= i < p.len() && p[i] == y;
            assert(0 <= p[i] < p.len());
        }
    }
    vstd::set_lib::lemma_subset_equality(p.to_set(), all);
    assert(all.contains(x));
    assert(p.to_set().contains(x));
}

/// Where two rankings of one list differ first, the one puts a result before another that the
/// other puts after it.
proof fn lemma_ranked_before(
    out: Seq<StrategyResults>,
    input: Seq<StrategyResults>,
    p: Seq<int>,
    q: Seq<int>,
    n: int,
)
    requires
        ranking_of(out, input, p),
        is_arrangement(q),
        q.len() == p.len(),
        0 <= n < p.len(),
        p[n] != q[n],
        forall|i: int| 0 <= i < n ==> p[i] == q[i],
    ensures
        at_least(input[p[n]].f1, input[q[n]].f1),
        at_least(input[q[n]].f1, input[p[n]].f1) ==> p[n] < q[n],
        0 <= p[n] < p.len(),
        0 <= q[n] < p.len(),
{
    assert(0 <= q[n] < q.len());
    assert(0 <= p[n] < p.len());
    lemma_arrangement_full(p, q[n]);
    let m = choose|m: int| 0 <= m < p.len() && p[m] == q[n];
    assert(m > n) by {
        if m < n {
            assert(q[m] == q[n]);
        }
    }
    assert(out[n] == input[p[n]]);
    assert(out[m] == input[p[m]]);
}

proof fn lemma_rankings_agree(
    a: Seq<StrategyResults>,
    b: Seq<StrategyResults>,
    input: Seq<StrategyResults>,
    p: Seq<int>,
    q: Seq<int>,
    n: int,
)
    requires
        ranking_of(a, input, p),
        ranking_of(b, input, q),
        0 <= n <= p.len(),
    ensures
        forall|i: int| 0 <= i < n ==> p[i] == q[i],
    decreases n,
{
    if n > 0 {
        lemma_rankings_agree(a, b, input, p, q, n - 1);
        if p[n - 1] != q[n - 1] {
            lemma_ranked_before(a, input, p, q, n - 1);
            lemma_ranked_before(b, input, q, p, n - 1);
        }
    }
}

/// Results can be ranked in one way only.
pub proof fn law_ranking_unique(
    a: Seq<StrategyResults>,
    b: Seq<StrategyResults>,
    input: Seq<StrategyResults>,
    p: Seq<int>,
    q: Seq<int>,
)
    requires
        ranking_of(a, input, p),
        ranking_of(b, input, q),
    ensures
        a == b,
        p == q,
{
    lemma_rankings_agree(a, b, input, p, q, p.len() as int);
    assert(p =~= q);
    assert forall|i: int| 0 <= i < a.len() implies a[i] == b[i] by {
        assert(a[i] == input[p[i]]);
        assert(b[i] == input[q[i]]);
    }
    assert(a =~= b);
}

} // verus!
