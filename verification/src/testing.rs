//! A harness for testing decisions in given-when-then style: a history of events, a
//! decision taken on the state they build, and the changes or the error expected.
use vstd::prelude::*;
use vstd::std_specs::cmp::PartialEqSpec;

use crate::decision::state::{fold_events, StateMutate};
use crate::decision::Decision;
use crate::event::Event;

verus! {

/// Test harness for decisions.
pub struct TestHarness;

/// The "given" step: only the history is set.
pub struct Given;

/// The "when" step: the result of the decision.
pub struct When<R, ERR> {
    result: Result<Vec<R>, ERR>,
}

/// A step of the test harness, with the history of events.
pub struct TestHarnessStep<E: Event + Clone, ST> {
    history: Vec<E>,
    step: ST,
}

impl TestHarness {
    /// Sets up a history of events.
    pub fn given<E: Event + Clone>(history: Vec<E>) -> (r: TestHarnessStep<E, Given>)
        ensures
            r.spec_history() == history@,
    {
        TestHarnessStep { history, step: Given }
    }
}

impl<E: Event + Clone, ST> TestHarnessStep<E, ST> {
    /// The history of events.
    pub closed spec fn spec_history(&self) -> Seq<E> {
        self.history@
    }
}

/// `applied` holds a clone of each event of `history`, in order.
pub open spec fn clones_of<E: Clone>(history: Seq<E>, applied: Seq<E>) -> bool {
    &&& applied.len() == history.len()
    &&& forall|i: int| 0 <= i < history.len() ==> cloned(#[trigger] history[i], applied[i])
}

impl<E: Event + Clone> TestHarnessStep<E, Given> {
    /// Takes the decision on the state built from the history: a clone of every event of the
    /// history is applied in order to the decision's state query, and the result is what
    /// the decision answers on that state.
    pub fn when<D, S, R, ERR>(self, decision: D) -> (r: TestHarnessStep<E, When<R, ERR>>)
        where
            D: Decision<Event = R, Error = ERR, StateQuery = S>,
            S: StateMutate<Event = E>,
            R: Event + Clone,
        ensures
            r.spec_history() == self.spec_history(),
            exists|applied: Seq<E>|
                #[trigger] clones_of(self.spec_history(), applied) && r.spec_result()
                    == decision.spec_process(fold_events(decision.spec_state_query(), applied)),
    {
        let mut state = decision.state_query();
        let ghost mut applied: Seq<E> = Seq::empty();
        let mut i: usize = 0;
        while i < self.history.len()
            invariant
                i <= self.history@.len(),
                applied.len() == i,
                forall|j: int| 0 <= j < i ==> cloned(#[trigger] self.history@[j], applied[j]),
                state == fold_events(decision.spec_state_query(), applied),
            decreases self.history@.len() - i,
        {
            let event = self.history[i].clone();
            proof {
                let ghost old_applied = applied;
                applied = applied.push(event);
                assert(applied.drop_last() =~= old_applied);
            }
            state.mutate(event);
            i = i + 1;
        }
        let result = decision.process(&state);
        proof {
            assert(clones_of(self.history@, applied));
        }
        TestHarnessStep { history: self.history, step: When { result } }
    }
}

/// The changes agree with the expected ones item by item, as `==` compares them.
pub open spec fn same_changes<R: PartialEq>(changes: Seq<R>, expected: Seq<R>) -> bool {
    &&& changes.len() == expected.len()
    &&& forall|i: int| 0 <= i < changes.len() ==> (#[trigger] changes[i]).eq_spec(&expected[i])
}

impl<E: Event + Clone, R, ERR> TestHarnessStep<E, When<R, ERR>> {
    /// The result of the decision.
    pub closed spec fn spec_result(&self) -> Result<Vec<R>, ERR> {
        self.step.result
    }

    /// The result of the decision.
    pub fn result(&self) -> (r: &Result<Vec<R>, ERR>)
        ensures
            *r == self.spec_result(),
    {
        &self.step.result
    }
}

impl<E: Event + Clone, R: PartialEq, ERR: PartialEq> TestHarnessStep<E, When<R, ERR>> {
    /// Checks that the decision produced exactly the expected changes: `true` when it
    /// succeeded with changes equal, item by item, to `expected`.
    #[must_use]
    pub fn then(self, expected: Vec<R>) -> (r: bool)
        ensures
            R::obeys_eq_spec() ==> r == (self.spec_result() matches Ok(changes) && same_changes(
                changes@,
                expected@,
            )),
    {
        match &self.step.result {
            Ok(changes) => {
                if changes.len() != expected.len() {
                    return false;
                }
                let mut i: usize = 0;
                while i < changes.len()
                    invariant
                        i <= changes@.len(),
                        changes@.len() == expected@.len(),
                        self.spec_result() matches Ok(c) && c@ == changes@,
                        R::obeys_eq_spec() ==> forall|j: int|
                            0 <= j < i ==> (#[trigger] changes@[j]).eq_spec(&expected@[j]),
                    decreases changes@.len() - i,
                {
                    if !(changes[i] == expected[i]) {
                        proof {
                            assert(R::obeys_eq_spec() ==> !changes@[i as int].eq_spec(&expected@[i as int]));
                        }
                        return false;
                    }
                    i = i + 1;
                }
                true
            },
            Err(_) => false,
        }
    }

    /// Checks that the decision failed with the expected error: `true` when it failed with
    /// an error equal to `expected`.
    #[must_use]
    pub fn then_err(self, expected: ERR) -> (r: bool)
        ensures
            ERR::obeys_eq_spec() ==> r == (self.spec_result() matches Err(e) && e.eq_spec(&expected)),
    {
        match &self.step.result {
            Ok(_) => false,
            Err(e) => *e == expected,
        }
    }
}

} // verus!
