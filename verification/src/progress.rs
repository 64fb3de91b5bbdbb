//! The course of an experiment: which step of which run is made next, what is kept of its outcome,
//! and when the tables are written.
//!
//! All steps of the first run are made, then all of the second, and so on, and at last the two
//! tables are written. The first failure ends the experiment.

use vstd::prelude::*;

use crate::experiment::Step;
use crate::report::RunResult;

verus! {

/// How an action ended.
#[derive(Debug)]
pub enum Outcome<E> {
    /// It was done.
    Done,
    /// It was done, and gave these results.
    Read(Vec<RunResult>),
    /// It failed.
    Failed(E),
}

/// What is to be done.
#[derive(Debug, Clone, Copy, PartialEq, Eq, Structural)]
pub enum Action {
    /// Make a step of the run at a place of the plan.
    Perform { run: usize, step: Step },
    /// Write the table of all results.
    WriteRaw,
    /// Write the table of aggregated results.
    WriteAggregated,
    /// Nothing: the experiment has ended.
    Stop,
}

/// Where an experiment stands.
#[verifier::ext_equal]
pub struct ProgressModel<E> {
    /// The number of runs.
    pub runs: nat,
    /// The steps of each run.
    pub steps: Seq<Step>,
    /// How many actions were done.
    pub done: nat,
    /// The results so far.
    pub results: Seq<RunResult>,
    /// What ended the experiment early.
    pub failure: Option<E>,
}

impl<E> ProgressModel<E> {
    /// The number of steps of all runs.
    pub open spec fn performed(self) -> nat {
        self.runs * self.steps.len()
    }

    /// The number of all actions: the steps of all runs and two tables.
    pub open spec fn total(self) -> nat {
        self.performed() + 2
    }

    /// Whether the experiment has ended.
    pub open spec fn ended(self) -> bool {
        self.failure is Some || self.done >= self.total()
    }

    /// What is to be done next.
    pub open spec fn action(self) -> Action {
        if self.ended() {
            Action::Stop
        } else if self.done < self.performed() {
            Action::Perform {
                run: (self.done / self.steps.len()) as usize,
                step: self.steps[(self.done % self.steps.len()) as int],
            }
        } else if self.done == self.performed() {
            Action::WriteRaw
        } else {
            Action::WriteAggregated
        }
    }

    /// Where the experiment stands after the next action ended with `outcome`.
    pub open spec fn next(self, outcome: Outcome<E>) -> ProgressModel<E> {
        if self.ended() {
            self
        } else {
            match outcome {
                Outcome::Done => ProgressModel { done: self.done + 1, ..self },
                Outcome::Read(more) => ProgressModel {
                    done: self.done + 1,
                    results: self.results + more@,
                    ..self
                },
                Outcome::Failed(e) => ProgressModel { failure: Some(e), ..self },
            }
        }
    }
}

/// An experiment at its start.
pub open spec fn initial<E>(runs: nat, steps: Seq<Step>) -> ProgressModel<E> {
    ProgressModel { runs, steps, done: 0, results: Seq::empty(), failure: None }
}

/// The course of an experiment.
#[derive(Debug)]
pub struct Progress<E> {
    runs: usize,
    steps: Vec<Step>,
    done: usize,
    results: Vec<RunResult>,
    failure: Option<E>,
}

impl<E> View for Progress<E> {
    type V = ProgressModel<E>;

    closed spec fn view(&self) -> ProgressModel<E> {
        ProgressModel {
            runs: self.runs as nat,
            steps: self.steps@,
            done: self.done as nat,
            results: self.results@,
            failure: self.failure,
        }
    }
}

impl<E> Progress<E> {
    #[verifier::type_invariant]
    spec fn bounded(self) -> bool {
        &&& self.steps@.len() > 0
        &&& self@.total() <= usize::MAX
        &&& self.done <= self@.total()
    }

    /// The start of an experiment with the number of runs `runs`, each of which takes `steps`.
    pub fn new(runs: usize, steps: Vec<Step>) -> (r: Self)
        requires
            steps@.len() > 0,
            runs * steps@.len() + 2 <= usize::MAX,
        ensures
            r@ == initial::<E>(runs as nat, steps@),
    {
        let r = Progress { runs, steps, done: 0, results: Vec::new(), failure: None };
        assert(r@ =~= initial::<E>(runs as nat, steps@));
        r
    }

    /// What is to be done next.
    pub fn action(&self) -> (r: Action)
        ensures
            r == self@.action(),
    {
        proof {
            use_type_invariant(self);
        }
        if self.failure.is_some() {
            return Action::Stop;
        }
        let count: usize = self.steps.len();
        let performed: usize = self.runs * count;
        if self.done < performed {
            Action::Perform { run: self.done / count, step: self.steps[self.done % count] }
        } else if self.done == performed {
            Action::WriteRaw
        } else if self.done == performed + 1 {
            Action::WriteAggregated
        } else {
            Action::Stop
        }
    }

    /// Where the experiment stands after the next action ended with `outcome`.
    pub fn next(self, outcome: Outcome<E>) -> (r: Self)
        ensures
            r@ == self@.next(outcome),
    {
        proof {
            use_type_invariant(&self);
        }
        if self.failure.is_some() || self.done >= self.runs * self.steps.len() + 2 {
            return self;
        }
        match outcome {
            Outcome::Done => Progress {
                runs: self.runs,
                steps: self.steps,
                done: self.done + 1,
                results: self.results,
                failure: None,
            },
            Outcome::Read(more) => {
                let mut results = self.results;
                let mut rest = more;
                results.append(&mut rest);
                Progress {
                    runs: self.runs,
                    steps: self.steps,
                    done: self.done + 1,
                    results,
                    failure: None,
                }
            },
            Outcome::Failed(e) => Progress {
                runs: self.runs,
                steps: self.steps,
                done: self.done,
                results: self.results,
                failure: Some(e),
            },
        }
    }

    /// The results so far.
    pub fn results(&self) -> (r: &Vec<RunResult>)
        ensures
            r@ == self@.results,
    {
        &self.results
    }

    /// What came of the experiment: the failure that ended it, or else its results.
    pub fn finish(self) -> (r: Result<Vec<RunResult>, E>)
        ensures
            match self@.failure {
                Some(e) => r == Err::<Vec<RunResult>, E>(e),
                None => r is Ok && r->Ok_0@ == self@.results,
            },
    {
        match self.failure {
            Some(e) => Err(e),
            None => Ok(self.results),
        }
    }
}

// ---------------------------------------------------------------------------
// Laws
// ---------------------------------------------------------------------------

/// Where an experiment stands after actions with these outcomes, one after the other.
pub open spec fn after<E>(m: ProgressModel<E>, outcomes: Seq<Outcome<E>>) -> ProgressModel<E>
    decreases outcomes.len(),
{
    if outcomes.len() == 0 {
        m
    } else {
        after(m, outcomes.drop_last()).next(outcomes.last())
    }
}

/// The results that these outcomes gave, one after the other.
pub open spec fn gathered<E>(outcomes: Seq<Outcome<E>>) -> Seq<RunResult>
    decreases outcomes.len(),
{
    if outcomes.len() == 0 {
        Seq::<RunResult>::empty()
    } else {
        match outcomes.last() {
            Outcome::Read(more) => gathered(outcomes.drop_last()) + more@,
            _ => gathered(outcomes.drop_last()),
        }
    }
}

/// Whether nothing failed.
pub open spec fn all_well<E>(outcomes: Seq<Outcome<E>>) -> bool {
    forall|i: int| 0 <= i < outcomes.len() ==> !((#[trigger] outcomes[i]) is Failed)
}

/// As long as nothing fails, the actions are made one after the other, and the results are joined
/// in the order of the plan.
pub proof fn law_results_joined_in_order<E>(
    runs: nat,
    steps: Seq<Step>,
    outcomes: Seq<Outcome<E>>,
)
    requires
        all_well(outcomes),
        outcomes.len() <= runs * steps.len() + 2,
    ensures
        ({
            let m = after(initial::<E>(runs, steps), outcomes);
            &&& m.runs == runs
            &&& m.steps == steps
            &&& m.done == outcomes.len()
            &&& m.results == gathered(outcomes)
            &&& m.failure is None
        }),
    decreases outcomes.len(),
{
    if outcomes.len() > 0 {
        let rest = outcomes.drop_last();
        assert forall|i: int| 0 <= i < rest.len() implies !((#[trigger] rest[i]) is Failed) by {
            assert(rest[i] == outcomes[i]);
        }
        law_results_joined_in_order(runs, steps, rest);
        assert(outcomes.last() == outcomes[outcomes.len() - 1]);
    }
}

/// Where nothing fails, every step of every run is made, then the tables are written, and then the
/// experiment ends with all results.
pub proof fn law_experiment_completes<E>(runs: nat, steps: Seq<Step>, outcomes: Seq<Outcome<E>>)
    requires
        all_well(outcomes),
        outcomes.len() == runs * steps.len() + 2,
    ensures
        after(initial::<E>(runs, steps), outcomes).action() == Action::Stop,
        after(initial::<E>(runs, steps), outcomes).failure is None,
        after(initial::<E>(runs, steps), outcomes).results == gathered(outcomes),
{
    law_results_joined_in_order(runs, steps, outcomes);
}

/// The first failure ends the experiment: what comes after it changes nothing, no further step is
/// made and no further table written, and the experiment ends with that failure.
pub proof fn law_first_failure_ends<E>(
    runs: nat,
    steps: Seq<Step>,
    outcomes: Seq<Outcome<E>>,
    n: int,
)
    requires
        0 <= n < outcomes.len(),
        n < runs * steps.len() + 2,
        all_well(outcomes.take(n)),
        outcomes[n] is Failed,
    ensures
        ({
            let m = after(initial::<E>(runs, steps), outcomes);
            &&& m.failure == Some(outcomes[n]->Failed_0)
            &&& m.done == n
            &&& m.results == gathered(outcomes.take(n))
            &&& m.action() == Action::Stop
        }),
    decreases outcomes.len(),
{
    let rest = outcomes.drop_last();
    if n == outcomes.len() - 1 {
        assert(outcomes.take(n) =~= rest);
        law_results_joined_in_order(runs, steps, rest);
    } else {
        assert(rest.take(n) =~= outcomes.take(n));
        law_first_failure_ends(runs, steps, rest, n);
    }
}

/// A table is written only after every step of every run was done, and nothing failed.
pub proof fn law_tables_come_last<E>(m: ProgressModel<E>)
    requires
        m.action() == Action::WriteRaw || m.action() == Action::WriteAggregated,
    ensures
        m.failure is None,
        m.done >= m.performed(),
{
}

} // verus!
