use disintegrate::decision::state::{StateMutate, StateQuery};
use disintegrate::decision::Decision;
use disintegrate::domain_identifier::DomainIdentifierSet;
use disintegrate::event::{Event, EventSchema};
use disintegrate::stream_query::{query, StreamFilter, StreamQuery};
use disintegrate::testing::TestHarness;

#[derive(Clone, Debug, PartialEq)]
enum SampleEvent {
    Created(String),
    Deleted(String),
}

impl Event for SampleEvent {
    fn schema() -> EventSchema {
        EventSchema { events: &["Created", "Deleted"], events_info: &[], domain_identifiers: &[] }
    }

    fn domain_identifiers(&self) -> DomainIdentifierSet {
        DomainIdentifierSet::new(vec![])
    }

    fn name(&self) -> &'static str {
        match self {
            SampleEvent::Created(_) => "Created",
            SampleEvent::Deleted(_) => "Deleted",
        }
    }
}

#[derive(Debug, Clone, PartialEq)]
struct SampleState {
    changes: Vec<SampleEvent>,
}

impl StateQuery for SampleState {
    fn name() -> &'static str {
        "SampleState"
    }

    type Event = SampleEvent;

    fn query(&self) -> StreamQuery<SampleEvent> {
        query::<SampleEvent, SampleEvent>(None::<StreamFilter<SampleEvent>>)
    }
}

impl StateMutate for SampleState {
    fn mutate(&mut self, event: SampleEvent) {
        self.changes.push(event);
    }
}

struct SampleDecision {
    result: Result<Vec<SampleEvent>, &'static str>,
}

impl SampleDecision {
    fn new(result: Result<Vec<SampleEvent>, &'static str>) -> Self {
        Self { result }
    }
}

impl Decision for SampleDecision {
    type Event = SampleEvent;
    type StateQuery = SampleState;
    type Error = &'static str;

    fn state_query(&self) -> SampleState {
        SampleState { changes: Vec::new() }
    }

    fn process(&self, _state: &SampleState) -> Result<Vec<SampleEvent>, &'static str> {
        self.result.clone()
    }
}

/// Produces, as its changes, the events that built its state.
struct EchoHistory;

impl Decision for EchoHistory {
    type Event = SampleEvent;
    type StateQuery = SampleState;
    type Error = &'static str;

    fn state_query(&self) -> SampleState {
        SampleState { changes: Vec::new() }
    }

    fn process(&self, state: &SampleState) -> Result<Vec<SampleEvent>, &'static str> {
        Ok(state.changes.clone())
    }
}

#[test]
fn it_should_set_up_initial_state_and_apply_the_history() {
    assert!(TestHarness::given(vec![SampleEvent::Created("x".into())])
        .when(SampleDecision::new(Ok(vec![SampleEvent::Created("x".into()), SampleEvent::Deleted("x".into())])))
        .then(vec![SampleEvent::Created("x".into()), SampleEvent::Deleted("x".into())]));
}

#[test]
fn it_should_assert_expected_error_with_then_err() {
    assert!(TestHarness::given(Vec::<SampleEvent>::new())
        .when(SampleDecision::new(Err("Some error")))
        .then_err("Some error"));
}

#[test]
fn then_reports_a_failed_decision_when_events_were_expected() {
    let step = TestHarness::given(Vec::<SampleEvent>::new()).when(SampleDecision::new(Err("Some error")));
    assert!(!step.then(vec![SampleEvent::Deleted("x".into())]));
}

#[test]
fn then_err_reports_changes_when_an_error_was_expected() {
    let changes = || {
        TestHarness::given(vec![SampleEvent::Created("x".into())]).when(SampleDecision::new(Ok(vec![
            SampleEvent::Created("x".into()),
            SampleEvent::Deleted("x".into()),
        ])))
    };
    assert!(!changes().then_err("Some error"));
    assert!(!changes().then(vec![SampleEvent::Created("x".into())]));
    assert!(!changes().then(vec![SampleEvent::Created("x".into()), SampleEvent::Created("x".into())]));
}

#[test]
fn then_err_reports_a_different_error() {
    let step = TestHarness::given(Vec::<SampleEvent>::new()).when(SampleDecision::new(Err("Some error")));
    assert!(!step.then_err("Other error"));
}

#[test]
fn when_applies_the_history_in_order() {
    let history = vec![SampleEvent::Created("a".into()), SampleEvent::Deleted("a".into()), SampleEvent::Created("b".into())];
    let step = TestHarness::given(history.clone()).when(EchoHistory);
    assert_eq!(step.result(), &Ok(history.clone()));
    assert!(step.then(history));
}
