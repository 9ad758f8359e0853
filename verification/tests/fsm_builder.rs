use quent::fsm::builder::{FsmEntityBuilder, FsmShapeError, StateDecl};
use quent::fsm::constraint::{FsmConstraint, FSM_CONSTRAINT_NAME};
use quent::fsm::{FsmError, State, Transition};
use quent::schema::{
    Annotations, BuilderError, Cardinality, Constraint, Field, Identifier, Schema,
};

fn ident(s: &str) -> Identifier {
    Identifier::new(s)
}

fn field(name: &str) -> Field {
    Field {
        name: ident(name),
        conventions: vec![],
    }
}

fn state(name: &str, to: &[&str], initial: bool, exit: bool, fields: Vec<Field>) -> StateDecl {
    StateDecl {
        name: ident(name),
        attributes: fields,
        to: to.iter().map(|t| ident(t)).collect(),
        initial,
        exit,
    }
}

fn query_builder() -> FsmEntityBuilder {
    FsmEntityBuilder::new(ident("Query"), Annotations::default())
        .try_with_states(vec![
            state("init", &["planning"], true, false, vec![field("sql")]),
            state("planning", &["executing"], false, false, vec![]),
            state("executing", &["executing", "done"], false, false, vec![field("rows")]),
            state("done", &[], false, true, vec![]),
        ])
        .unwrap()
}

#[test]
fn states_become_events_with_topology_cardinality() {
    let built = query_builder().build().unwrap();
    let entity = &built.entity;
    assert_eq!(entity.name.as_str(), "Query");
    let events: Vec<(&str, Cardinality)> = entity
        .events
        .iter()
        .map(|e| (e.name.as_str(), e.cardinality))
        .collect();
    assert_eq!(
        events,
        vec![
            ("init", Cardinality::Once),
            ("planning", Cardinality::Once),
            ("executing", Cardinality::Multi),
            ("done", Cardinality::Once),
        ]
    );
    assert_eq!(entity.events[0].payload, vec![field("sql")]);
    assert_eq!(entity.events[2].payload, vec![field("rows")]);
}

#[test]
fn topology_runs_from_entry_through_the_states_to_exit() {
    let built = query_builder().build().unwrap();
    let t = |source: State, target: State| Transition { source, target };
    let named = |n: &str| State::Named(ident(n));
    assert_eq!(
        built.fsm.transitions,
        vec![
            t(State::Entry, named("init")),
            t(named("init"), named("planning")),
            t(named("planning"), named("executing")),
            t(named("executing"), named("executing")),
            t(named("executing"), named("done")),
            t(named("done"), State::Exit),
        ]
    );
}

#[test]
fn built_entity_satisfies_its_fsm_constraint() {
    let built = query_builder().build().unwrap();
    let fsm = built.fsm.clone();
    let entity = built.with_constraint_data("{}".to_string());
    assert_eq!(
        entity.annotations.constraints,
        vec![Constraint {
            name: FSM_CONSTRAINT_NAME.to_string(),
            data: Some("{}".to_string())
        }]
    );
    let schema = Schema {
        name: ident("S"),
        entities: vec![entity],
        records: vec![],
        conventions: vec![],
    };
    assert_eq!(
        FsmConstraint.validate(&schema, &vec![Some(Ok(fsm))]),
        Ok::<(), FsmError>(())
    );
}

#[test]
fn constraint_data_replaces_an_earlier_fsm_constraint() {
    let annotations = Annotations {
        constraints: vec![
            Constraint {
                name: "other".to_string(),
                data: None,
            },
            Constraint {
                name: FSM_CONSTRAINT_NAME.to_string(),
                data: Some("old".to_string()),
            },
        ],
    };
    let entity = FsmEntityBuilder::new(ident("E"), annotations)
        .try_with_state(state("a", &[], true, true, vec![]))
        .unwrap()
        .build()
        .unwrap()
        .with_constraint_data("new".to_string());
    assert_eq!(entity.annotations.constraints.len(), 2);
    assert_eq!(entity.annotations.constraints[1].data, Some("new".to_string()));
}

#[test]
fn shape_errors_come_in_order() {
    let b = FsmEntityBuilder::new(ident("E"), Annotations::default());
    assert!(matches!(b.build(), Err(FsmShapeError::NoInitialState)));

    let b = FsmEntityBuilder::new(ident("E"), Annotations::default())
        .try_with_states(vec![
            state("a", &[], true, true, vec![]),
            state("b", &[], true, false, vec![]),
        ])
        .unwrap();
    match b.build() {
        Err(FsmShapeError::MultipleInitialStates(names)) => {
            let names: Vec<&str> = names.iter().map(|n| n.as_str()).collect();
            assert_eq!(names, vec!["a", "b"]);
        }
        other => panic!("unexpected {other:?}"),
    }

    let b = FsmEntityBuilder::new(ident("E"), Annotations::default())
        .try_with_state(state("a", &[], true, false, vec![]))
        .unwrap();
    assert!(matches!(b.build(), Err(FsmShapeError::NoExitState)));

    let b = FsmEntityBuilder::new(ident("E"), Annotations::default())
        .try_with_states(vec![
            state("a", &["b"], true, false, vec![field("x"), field("y")]),
            state("b", &[], false, true, vec![field("p"), field("q"), field("p")]),
        ])
        .unwrap();
    assert!(matches!(
        b.build(),
        Err(FsmShapeError::Build(BuilderError::DuplicateName(n))) if n == "p"
    ));
}

#[test]
fn duplicate_state_names_are_refused() {
    let r = FsmEntityBuilder::new(ident("E"), Annotations::default())
        .try_with_states(vec![
            state("a", &[], true, true, vec![]),
            state("a", &[], false, false, vec![]),
        ]);
    assert!(matches!(r, Err(BuilderError::DuplicateName(n)) if n == "a"));

    let mut b = FsmEntityBuilder::new(ident("E"), Annotations::default());
    assert!(b.try_insert_state(state("s", &[], true, true, vec![])).is_ok());
    assert_eq!(
        b.try_insert_state(state("s", &[], false, false, vec![])),
        Err(BuilderError::DuplicateName("s".to_string()))
    );
}
