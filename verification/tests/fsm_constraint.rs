use quent::fsm::constraint::{fsm_constraint_data, FsmConstraint, FSM_CONSTRAINT_NAME};
use quent::fsm::{Fsm, FsmError, State, Transition};
use quent::schema::{Annotations, Cardinality, Constraint, Entity, Event, Identifier, Schema};

fn ident(s: &str) -> Identifier {
    Identifier::new(s)
}

fn event(name: &str, cardinality: Cardinality) -> Event {
    Event {
        name: ident(name),
        cardinality,
        payload: vec![],
        conventions: vec![],
    }
}

/// The constraint carrying an FSM. The topology travels beside the schema as
/// its decoded value; the text stands for its serialized form.
fn fsm_constraint() -> Constraint {
    Constraint {
        name: FSM_CONSTRAINT_NAME.to_string(),
        data: Some("{\"transitions\":[]}".to_string()),
    }
}

fn entity_with(name: &str, events: Vec<Event>) -> Entity {
    Entity {
        name: ident(name),
        events,
        annotations: Annotations {
            constraints: vec![fsm_constraint()],
        },
        conventions: vec![],
    }
}

fn schema_with(entity: Entity) -> Schema {
    Schema {
        name: ident("S"),
        entities: vec![entity],
        records: vec![],
        conventions: vec![],
    }
}

fn errors_of(result: Result<(), FsmError>) -> Vec<FsmError> {
    match result {
        Ok(()) => Vec::new(),
        Err(FsmError::Multiple(errors)) => errors,
        Err(single) => vec![single],
    }
}

/// Validates a schema whose single entity's constraint data decodes to `fsm`.
fn validate(schema: &Schema, fsm: &Fsm) -> Vec<FsmError> {
    let decoded = vec![Some(Ok(fsm.clone()))];
    errors_of(FsmConstraint.validate(schema, &decoded))
}

fn linear_transitions(named: &[&str]) -> Vec<Transition> {
    let mut ts = Vec::new();
    let mut prev = State::Entry;
    for n in named {
        let curr = State::Named(ident(n));
        ts.push(Transition {
            source: prev,
            target: curr.clone(),
        });
        prev = curr;
    }
    ts.push(Transition {
        source: prev,
        target: State::Exit,
    });
    ts
}

fn t(source: State, target: State) -> Transition {
    Transition { source, target }
}

fn named(n: &str) -> State {
    State::Named(ident(n))
}

#[test]
fn well_formed_linear_fsm_passes() {
    let fsm = Fsm {
        transitions: linear_transitions(&["a", "b"]),
    };
    let entity = entity_with(
        "E",
        vec![event("a", Cardinality::Once), event("b", Cardinality::Once)],
    );
    assert!(validate(&schema_with(entity), &fsm).is_empty());
}

#[test]
fn well_formed_self_loop_fsm_passes() {
    let fsm = Fsm {
        transitions: vec![
            t(State::Entry, named("a")),
            t(named("a"), named("a")),
            t(named("a"), State::Exit),
        ],
    };
    let entity = entity_with("E", vec![event("a", Cardinality::Multi)]);
    assert!(validate(&schema_with(entity), &fsm).is_empty());
}

#[test]
fn missing_data_is_rejected() {
    let entity = Entity {
        name: ident("E"),
        events: vec![event("a", Cardinality::Once)],
        annotations: Annotations {
            constraints: vec![Constraint {
                name: FSM_CONSTRAINT_NAME.to_string(),
                data: None,
            }],
        },
        conventions: vec![],
    };
    let errors = errors_of(FsmConstraint.validate(&schema_with(entity), &vec![None]));
    assert!(errors
        .iter()
        .any(|e| matches!(e, FsmError::InvalidData { .. })));
}

#[test]
fn invalid_json_is_rejected() {
    let entity = Entity {
        name: ident("E"),
        events: vec![event("a", Cardinality::Once)],
        annotations: Annotations {
            constraints: vec![Constraint {
                name: FSM_CONSTRAINT_NAME.to_string(),
                data: Some("{ trash".to_string()),
            }],
        },
        conventions: vec![],
    };
    let decoded = vec![Some(Err("key must be a string at line 1 column 3".to_string()))];
    let errors = errors_of(FsmConstraint.validate(&schema_with(entity), &decoded));
    assert!(errors
        .iter()
        .any(|e| matches!(e, FsmError::InvalidData { .. })));
}

#[test]
fn fsm_with_no_named_states_is_rejected() {
    let fsm = Fsm {
        transitions: vec![t(State::Entry, State::Exit)],
    };
    let entity = entity_with("E", vec![]);
    let errors = validate(&schema_with(entity), &fsm);
    assert!(errors
        .iter()
        .any(|e| matches!(e, FsmError::NoNamedStates { .. })));
}

#[test]
fn reserved_name_entry_is_rejected() {
    let fsm = Fsm {
        transitions: linear_transitions(&["a"]),
    };
    let entity = entity_with(
        "E",
        vec![event("Entry", Cardinality::Once), event("a", Cardinality::Once)],
    );
    let errors = validate(&schema_with(entity), &fsm);
    assert!(errors
        .iter()
        .any(|e| matches!(e, FsmError::ReservedStateName { name: "entry", .. })));
}

#[test]
fn reserved_name_exit_is_rejected() {
    let fsm = Fsm {
        transitions: linear_transitions(&["a"]),
    };
    let entity = entity_with(
        "E",
        vec![event("EXIT", Cardinality::Once), event("a", Cardinality::Once)],
    );
    let errors = validate(&schema_with(entity), &fsm);
    assert!(errors
        .iter()
        .any(|e| matches!(e, FsmError::ReservedStateName { name: "exit", .. })));
}

#[test]
fn no_entry_transition_is_rejected() {
    let fsm = Fsm {
        transitions: vec![t(named("a"), State::Exit)],
    };
    let entity = entity_with("E", vec![event("a", Cardinality::Once)]);
    let errors = validate(&schema_with(entity), &fsm);
    assert!(errors
        .iter()
        .any(|e| matches!(e, FsmError::WrongEntryCount { found: 0, .. })));
    assert!(!errors
        .iter()
        .any(|e| matches!(e, FsmError::UnreachableFromEntry { .. })));
}

#[test]
fn two_entry_transitions_are_rejected() {
    let fsm = Fsm {
        transitions: vec![
            t(State::Entry, named("a")),
            t(State::Entry, named("b")),
            t(named("a"), State::Exit),
            t(named("b"), State::Exit),
        ],
    };
    let entity = entity_with(
        "E",
        vec![event("a", Cardinality::Once), event("b", Cardinality::Once)],
    );
    let errors = validate(&schema_with(entity), &fsm);
    assert!(errors
        .iter()
        .any(|e| matches!(e, FsmError::WrongEntryCount { found: 2, .. })));
}

#[test]
fn no_exit_transition_is_rejected() {
    let fsm = Fsm {
        transitions: vec![t(State::Entry, named("a"))],
    };
    let entity = entity_with("E", vec![event("a", Cardinality::Once)]);
    let errors = validate(&schema_with(entity), &fsm);
    assert!(errors.iter().any(|e| matches!(e, FsmError::NoExit { .. })));
    assert!(!errors
        .iter()
        .any(|e| matches!(e, FsmError::CannotReachExit { .. })));
}

#[test]
fn transition_into_entry_is_rejected() {
    let fsm = Fsm {
        transitions: vec![
            t(State::Entry, named("a")),
            t(named("a"), State::Entry),
            t(named("a"), State::Exit),
        ],
    };
    let entity = entity_with("E", vec![event("a", Cardinality::Multi)]);
    let errors = validate(&schema_with(entity), &fsm);
    assert!(errors
        .iter()
        .any(|e| matches!(e, FsmError::TransitionIntoEntry { .. })));
}

#[test]
fn transition_out_of_exit_is_rejected() {
    let fsm = Fsm {
        transitions: vec![
            t(State::Entry, named("a")),
            t(named("a"), State::Exit),
            t(State::Exit, named("a")),
        ],
    };
    let entity = entity_with("E", vec![event("a", Cardinality::Multi)]);
    let errors = validate(&schema_with(entity), &fsm);
    assert!(errors
        .iter()
        .any(|e| matches!(e, FsmError::TransitionOutOfExit { .. })));
}

#[test]
fn state_unreachable_from_entry_is_rejected() {
    let fsm = Fsm {
        transitions: vec![
            t(State::Entry, named("a")),
            t(named("a"), State::Exit),
            t(named("b"), State::Exit),
        ],
    };
    let entity = entity_with(
        "E",
        vec![event("a", Cardinality::Once), event("b", Cardinality::Once)],
    );
    let errors = validate(&schema_with(entity), &fsm);
    assert!(errors.iter().any(
        |e| matches!(e, FsmError::UnreachableFromEntry { state, .. } if state.as_str() == "b")
    ));
}

#[test]
fn state_cannot_reach_exit_is_rejected() {
    let fsm = Fsm {
        transitions: vec![
            t(State::Entry, named("a")),
            t(named("a"), named("b")),
            t(named("a"), State::Exit),
        ],
    };
    let entity = entity_with(
        "E",
        vec![event("a", Cardinality::Once), event("b", Cardinality::Once)],
    );
    let errors = validate(&schema_with(entity), &fsm);
    assert!(errors.iter().any(
        |e| matches!(e, FsmError::CannotReachExit { state, .. } if state.as_str() == "b")
    ));
}

#[test]
fn fsm_state_not_in_events_is_rejected() {
    let fsm = Fsm {
        transitions: linear_transitions(&["phantom"]),
    };
    let entity = entity_with("E", vec![event("a", Cardinality::Once)]);
    let errors = validate(&schema_with(entity), &fsm);
    assert!(errors.iter().any(
        |e| matches!(e, FsmError::UnknownState { state, .. } if state.as_str() == "phantom")
    ));
}

#[test]
fn event_not_covered_by_fsm_is_rejected() {
    let fsm = Fsm {
        transitions: linear_transitions(&["a"]),
    };
    let entity = entity_with(
        "E",
        vec![event("a", Cardinality::Once), event("dead", Cardinality::Once)],
    );
    let errors = validate(&schema_with(entity), &fsm);
    assert!(errors.iter().any(
        |e| matches!(e, FsmError::UncoveredEvent { event, .. } if event.as_str() == "dead")
    ));
}

#[test]
fn cycle_requires_multi_cardinality() {
    let fsm = Fsm {
        transitions: vec![
            t(State::Entry, named("a")),
            t(named("a"), named("a")),
            t(named("a"), State::Exit),
        ],
    };
    let entity = entity_with("E", vec![event("a", Cardinality::Once)]);
    let errors = validate(&schema_with(entity), &fsm);
    assert!(errors.iter().any(|e| matches!(
        e,
        FsmError::CardinalityMismatch {
            expected: Cardinality::Multi,
            found: Cardinality::Once,
            ..
        }
    )));
}

#[test]
fn acyclic_requires_once_cardinality() {
    let fsm = Fsm {
        transitions: linear_transitions(&["a"]),
    };
    let entity = entity_with("E", vec![event("a", Cardinality::Multi)]);
    let errors = validate(&schema_with(entity), &fsm);
    assert!(errors.iter().any(|e| matches!(
        e,
        FsmError::CardinalityMismatch {
            expected: Cardinality::Once,
            found: Cardinality::Multi,
            ..
        }
    )));
}

#[test]
fn scc_of_size_two_requires_multi_for_both_states() {
    let fsm = Fsm {
        transitions: vec![
            t(State::Entry, named("a")),
            t(named("a"), named("b")),
            t(named("b"), named("a")),
            t(named("b"), State::Exit),
        ],
    };
    let entity = entity_with(
        "E",
        vec![event("a", Cardinality::Once), event("b", Cardinality::Once)],
    );
    let errors = validate(&schema_with(entity), &fsm);
    assert!(errors.iter().any(|e| matches!(
        e,
        FsmError::CardinalityMismatch { state, expected: Cardinality::Multi, .. }
            if state.as_str() == "a"
    )));
    assert!(errors.iter().any(|e| matches!(
        e,
        FsmError::CardinalityMismatch { state, expected: Cardinality::Multi, .. }
            if state.as_str() == "b"
    )));

    let entity = entity_with(
        "E",
        vec![event("a", Cardinality::Multi), event("b", Cardinality::Multi)],
    );
    assert!(validate(&schema_with(entity), &fsm).is_empty());
}

#[test]
fn entity_without_fsm_constraint_is_ignored() {
    let entity = Entity {
        name: ident("E"),
        events: vec![event("a", Cardinality::Once)],
        annotations: Annotations::default(),
        conventions: vec![],
    };
    let errors = errors_of(FsmConstraint.validate(&schema_with(entity), &vec![None]));
    assert!(errors.is_empty());
}

#[test]
fn fsm_constraint_has_its_name() {
    assert_eq!(FsmConstraint.name(), "quent.fsm.v1");
}

#[test]
fn decode_failure_message_carries_the_decoder_message() {
    let entity = entity_with("E", vec![event("a", Cardinality::Once)]);
    let decoded = vec![Some(Err("eof".to_string()))];
    let result = FsmConstraint.validate(&schema_with(entity), &decoded);
    match result {
        Err(FsmError::InvalidData { entity, message }) => {
            assert_eq!(entity.as_str(), "E");
            assert_eq!(message, "failed to decode fsm: eof");
        }
        other => panic!("unexpected {other:?}"),
    }
}

#[test]
fn missing_data_message_is_fixed() {
    let entity = Entity {
        name: ident("E"),
        events: vec![],
        annotations: Annotations {
            constraints: vec![Constraint {
                name: FSM_CONSTRAINT_NAME.to_string(),
                data: None,
            }],
        },
        conventions: vec![],
    };
    let result = FsmConstraint.validate(&schema_with(entity), &vec![None]);
    assert!(matches!(
        result,
        Err(FsmError::InvalidData { ref message, .. }) if message == "constraint data is missing"
    ));
}

#[test]
fn constraint_data_is_read_from_the_first_fsm_constraint() {
    let entity = Entity {
        name: ident("E"),
        events: vec![],
        annotations: Annotations {
            constraints: vec![
                Constraint {
                    name: "other".to_string(),
                    data: Some("x".to_string()),
                },
                Constraint {
                    name: FSM_CONSTRAINT_NAME.to_string(),
                    data: Some("first".to_string()),
                },
                Constraint {
                    name: FSM_CONSTRAINT_NAME.to_string(),
                    data: Some("second".to_string()),
                },
            ],
        },
        conventions: vec![],
    };
    assert_eq!(fsm_constraint_data(&entity).map(|d| d.as_str()), Some("first"));
    let bare = Entity {
        annotations: Annotations::default(),
        ..entity
    };
    assert!(fsm_constraint_data(&bare).is_none());
}
