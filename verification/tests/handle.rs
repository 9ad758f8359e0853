use quent::fsm::builder::{FsmEntityBuilder, StateDecl};
use quent::fsm::{Fsm, State, Transition};
use quent::handle::{
    dynamic_transition_sources, once_event_bits, TooManyFsmStates, TooManyOnceEvents,
    MAX_FSM_STATES, MAX_ONCE_EVENTS,
};
use quent::schema::Cardinality::{Multi, Once};
use quent::schema::{Annotations, Cardinality, Entity, Event, Identifier};

fn entity(cardinalities: &[Cardinality]) -> Entity {
    Entity {
        name: Identifier::new("Query"),
        events: cardinalities
            .iter()
            .enumerate()
            .map(|(i, c)| Event {
                name: Identifier::new(&format!("e{i}")),
                cardinality: *c,
                payload: vec![],
                conventions: vec![],
            })
            .collect(),
        annotations: Annotations::default(),
        conventions: vec![],
    }
}

#[test]
fn once_events_claim_successive_bits() {
    let bits = once_event_bits(&entity(&[Once, Multi, Once, Multi, Once])).unwrap();
    assert_eq!(bits, vec![Some(0), None, Some(1), None, Some(2)]);
}

#[test]
fn sixty_four_once_events_fit() {
    let bits = once_event_bits(&entity(&[Cardinality::Once; 64])).unwrap();
    assert_eq!(bits.last(), Some(&Some(63)));
    assert_eq!(MAX_ONCE_EVENTS, 64);
}

#[test]
fn too_many_once_events_is_an_error() {
    let mut e = entity(&[Cardinality::Once; MAX_ONCE_EVENTS + 1]);
    e.name = Identifier::new("Big");
    assert_eq!(
        once_event_bits(&e),
        Err(TooManyOnceEvents {
            entity: Identifier::new("Big"),
            count: MAX_ONCE_EVENTS + 1
        })
    );
}

#[test]
fn once_events_beyond_the_limit_are_counted_among_multi_events() {
    let mut cards = vec![Cardinality::Multi; 3];
    cards.extend([Cardinality::Once; 65]);
    assert_eq!(
        once_event_bits(&entity(&cards)),
        Err(TooManyOnceEvents {
            entity: Identifier::new("Query"),
            count: 65
        })
    );
}

fn named(n: &str) -> State {
    State::Named(Identifier::new(n))
}

fn fsm(edges: &[(State, State)]) -> Fsm {
    Fsm {
        transitions: edges
            .iter()
            .map(|(s, t)| Transition { source: s.clone(), target: t.clone() })
            .collect(),
    }
}

#[test]
fn dynamic_sources_follow_the_topology() {
    // e0 -> e1 -> e2, e2 -> e1, e1 -> e1, e0 -> e1 again.
    let topology = fsm(&[
        (State::Entry, named("e0")),
        (named("e0"), named("e1")),
        (named("e1"), named("e2")),
        (named("e2"), named("e1")),
        (named("e1"), named("e1")),
        (named("e0"), named("e1")),
        (named("e2"), State::Exit),
    ]);
    let sources =
        dynamic_transition_sources(&entity(&[Once, Multi, Multi]), &topology).unwrap();
    assert_eq!(sources, vec![vec![0], vec![1, 3, 2], vec![2]]);
}

#[test]
fn dynamic_sources_of_an_initial_state_on_a_cycle_start_with_zero() {
    let topology = fsm(&[
        (State::Entry, named("e0")),
        (named("e1"), named("e0")),
        (named("e0"), named("e1")),
        (named("e1"), State::Exit),
    ]);
    let sources = dynamic_transition_sources(&entity(&[Multi, Multi]), &topology).unwrap();
    assert_eq!(sources, vec![vec![0, 2], vec![1]]);
}

#[test]
fn dynamic_sources_fit_up_to_255_events() {
    let topology = fsm(&[(State::Entry, named("e0")), (named("e0"), State::Exit)]);
    let sources =
        dynamic_transition_sources(&entity(&[Cardinality::Once; 255]), &topology).unwrap();
    assert_eq!(sources.len(), MAX_FSM_STATES);
    assert_eq!(sources[0], vec![0]);
    assert!(sources[254].is_empty());
}

#[test]
fn rejects_more_states_than_the_dynamic_representation_supports() {
    let states = (0..=MAX_FSM_STATES)
        .map(|index| StateDecl {
            name: Identifier::new(&format!("state_{index}")),
            attributes: vec![],
            to: if index < MAX_FSM_STATES {
                vec![Identifier::new(&format!("state_{}", index + 1))]
            } else {
                vec![]
            },
            initial: index == 0,
            exit: index == MAX_FSM_STATES,
        })
        .collect::<Vec<_>>();
    let built = FsmEntityBuilder::new(Identifier::new("Large"), Annotations::default())
        .try_with_states(states)
        .unwrap()
        .build()
        .unwrap();
    assert_eq!(
        dynamic_transition_sources(&built.entity, &built.fsm),
        Err(TooManyFsmStates {
            entity: Identifier::new("Large"),
            count: MAX_FSM_STATES + 1
        })
    );
}
