use quent::convention::{Convention, Error, Validator};
use quent::schema::{
    Cardinality, ConventionRef, Entity, Event, Field, Identifier, Record, Schema,
};

fn ident(s: &str) -> Identifier {
    Identifier::new(s)
}

fn validated(name: &str) -> ConventionRef {
    ConventionRef {
        name: name.to_string(),
        validated: true,
        data: None,
    }
}

fn metadata(name: &str) -> ConventionRef {
    ConventionRef {
        name: name.to_string(),
        validated: false,
        data: None,
    }
}

fn empty_schema() -> Schema {
    Schema {
        name: ident("TestSchema"),
        entities: vec![],
        records: vec![],
        conventions: vec![],
    }
}

struct NoopA;
impl Convention for NoopA {
    const NAME: &'static str = "a";
    fn validate(&self, _schema: &Schema) -> Result<(), Vec<Error>> {
        Ok(())
    }
}

struct NoopB;
impl Convention for NoopB {
    const NAME: &'static str = "b";
    fn validate(&self, _schema: &Schema) -> Result<(), Vec<Error>> {
        Ok(())
    }
}

struct Failing {
    errors: Vec<Error>,
}

impl Convention for Failing {
    const NAME: &'static str = "a";
    fn validate(&self, _schema: &Schema) -> Result<(), Vec<Error>> {
        Err(self.errors.clone())
    }
}

#[test]
fn empty_validator_on_empty_schema_passes() {
    assert_eq!(Validator::default().validate(&empty_schema()), Ok(()));
}

#[test]
fn try_with_rejects_duplicate_name() {
    assert_eq!(
        Validator::default()
            .try_with(NoopA)
            .unwrap()
            .try_with(NoopA)
            .err(),
        Some(Error::DuplicateConvention("a"))
    );
}

#[test]
fn try_with_accepts_distinct_names() {
    Validator::default()
        .try_with(NoopA)
        .unwrap()
        .try_with(NoopB)
        .unwrap();
}

#[test]
fn validated_convention_without_validator_is_unregistered() {
    let schema = Schema {
        conventions: vec![validated("unknown")],
        ..empty_schema()
    };
    let errs = Validator::default().validate(&schema).unwrap_err();
    assert_eq!(errs.len(), 1);
    assert!(matches!(
        &errs[0],
        Error::UnregisteredConvention { convention, .. } if convention == "unknown"
    ));
}

#[test]
fn metadata_convention_without_validator_is_allowed() {
    let schema = Schema {
        conventions: vec![metadata("not_validated")],
        ..empty_schema()
    };
    assert_eq!(Validator::default().validate(&schema), Ok(()));
}

#[test]
fn unregistered_convention_is_detected_at_every_site() {
    let unknown = || validated("unknown");
    let schema = Schema {
        name: ident("S"),
        conventions: vec![unknown()],
        entities: vec![Entity {
            name: ident("E"),
            conventions: vec![unknown()],
            annotations: Default::default(),
            events: vec![Event {
                name: ident("Ev"),
                cardinality: Cardinality::Once,
                conventions: vec![unknown()],
                payload: vec![Field {
                    name: ident("ef"),
                    conventions: vec![unknown()],
                }],
            }],
        }],
        records: vec![Record {
            name: ident("R"),
            conventions: vec![unknown()],
            fields: vec![Field {
                name: ident("rf"),
                conventions: vec![unknown()],
            }],
        }],
    };
    let errs = Validator::default().validate(&schema).unwrap_err();
    assert_eq!(errs.len(), 6, "expected one error per site, got: {errs:?}");
    assert!(
        errs.iter().all(|e| matches!(
            e,
            Error::UnregisteredConvention { convention, .. } if convention == "unknown"
        )),
        "all errors should be UnregisteredConvention for 'unknown', got: {errs:?}",
    );
}

#[test]
fn validator_errors_are_collected() {
    let err = Error::Validation {
        convention: "a".to_string(),
        message: "boom".to_string(),
    };
    let errs = Validator::default()
        .try_with(Failing {
            errors: vec![err.clone(), err.clone()],
        })
        .unwrap()
        .try_with(NoopB)
        .unwrap()
        .validate(&empty_schema())
        .unwrap_err();
    assert_eq!(errs, vec![err.clone(), err]);
}

#[test]
fn unregistered_and_validator_errors_aggregate() {
    let schema = Schema {
        conventions: vec![validated("unknown")],
        ..empty_schema()
    };
    let validator_err = Error::Validation {
        convention: "a".to_string(),
        message: "boom".to_string(),
    };
    let errs = Validator::default()
        .try_with(Failing {
            errors: vec![validator_err.clone()],
        })
        .unwrap()
        .validate(&schema)
        .unwrap_err();
    assert_eq!(errs.len(), 2);
    assert!(errs.iter().any(|e| matches!(
        e,
        Error::UnregisteredConvention { convention, .. } if convention == "unknown"
    )));
    assert!(errs.contains(&validator_err));
}

#[test]
fn unregistered_errors_name_their_owner_in_schema_order() {
    let schema = Schema {
        name: ident("S"),
        conventions: vec![validated("x"), validated("a")],
        entities: vec![Entity {
            name: ident("E"),
            conventions: vec![],
            annotations: Default::default(),
            events: vec![Event {
                name: ident("Ev"),
                cardinality: Cardinality::Multi,
                conventions: vec![validated("y")],
                payload: vec![],
            }],
        }],
        records: vec![Record {
            name: ident("R"),
            conventions: vec![metadata("z")],
            fields: vec![Field {
                name: ident("f"),
                conventions: vec![validated("w")],
            }],
        }],
    };
    let errs = Validator::default()
        .try_with(NoopA)
        .unwrap()
        .run(&schema)
        .unwrap_err();
    let owners: Vec<(String, String)> = errs
        .iter()
        .map(|e| match e {
            Error::UnregisteredConvention { owner, convention } => {
                (owner.as_str().to_string(), convention.clone())
            }
            other => panic!("unexpected {other:?}"),
        })
        .collect();
    assert_eq!(
        owners,
        vec![
            ("S".to_string(), "x".to_string()),
            ("E".to_string(), "y".to_string()),
            ("R".to_string(), "w".to_string()),
        ]
    );
}

#[test]
fn failing_convention_with_no_errors_passes() {
    assert_eq!(
        Validator::default()
            .try_with(Failing { errors: vec![] })
            .unwrap()
            .validate(&empty_schema()),
        Ok(())
    );
}
