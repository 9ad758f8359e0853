//! The FSM constraint applied to every entity of a schema that carries it.
use vstd::prelude::*;
use vstd::string::StringExecFns;

use super::check::check_entity;
use super::spec::{errors_view, fsm_errors};
use super::{Fsm, FsmError, FsmErrorV};
use crate::schema::{events_view, Constraint, Entity, Schema};

verus! {

/// Constrains the order of an entity's events by a finite-state-machine
/// topology; see the module documentation for the requirements.
#[derive(Clone, Copy, Debug, Default)]
pub struct FsmConstraint;

/// The name under which the FSM constraint is attached to entities.
pub const FSM_CONSTRAINT_NAME: &'static str = "quent.fsm.v1";

/// The first constraint named `name`, if any.
pub open spec fn find_constraint(cs: Seq<Constraint>, name: Seq<char>) -> Option<Constraint>
    decreases cs.len(),
{
    if cs.len() == 0 {
        None
    } else if cs[0].name@ == name {
        Some(cs[0])
    } else {
        find_constraint(cs.drop_first(), name)
    }
}

/// The FSM constraint of an entity, if it carries one.
pub open spec fn fsm_constraint_of(entity: Entity) -> Option<Constraint> {
    find_constraint(entity.annotations.constraints@, FSM_CONSTRAINT_NAME@)
}

/// The violations reported for one entity: none without the constraint, an
/// invalid-data error when the constraint data is missing or did not decode,
/// and otherwise every violation of its decoded FSM.
pub open spec fn entity_errors(entity: Entity, decoded: Option<Result<Fsm, String>>) -> Seq<
    FsmErrorV,
> {
    match fsm_constraint_of(entity) {
        None => seq![],
        Some(c) => match c.data {
            None => seq![
                FsmErrorV::InvalidData {
                    entity: entity.name@,
                    message: "constraint data is missing"@,
                },
            ],
            Some(_) => match decoded {
                Some(Ok(fsm)) => fsm_errors(entity.name@, events_view(entity.events@), fsm@),
                Some(Err(msg)) => seq![
                    FsmErrorV::InvalidData {
                        entity: entity.name@,
                        message: "failed to decode fsm: "@ + msg@,
                    },
                ],
                None => seq![],
            },
        },
    }
}

/// The violations reported for the first `n` entities, in order.
pub open spec fn schema_errors(
    entities: Seq<Entity>,
    decoded: Seq<Option<Result<Fsm, String>>>,
    n: int,
) -> Seq<FsmErrorV>
    decreases n,
{
    if n <= 0 {
        seq![]
    } else {
        schema_errors(entities, decoded, n - 1) + entity_errors(entities[n - 1], decoded[n - 1])
    }
}

/// Whether the constraint data that is present has been decoded: `decoded[i]`
/// holds the outcome of decoding the FSM constraint data of entity `i`.
pub open spec fn decoded_where_present(
    entities: Seq<Entity>,
    decoded: Seq<Option<Result<Fsm, String>>>,
) -> bool {
    &&& decoded.len() == entities.len()
    &&& forall|i: int|
        0 <= i < entities.len() ==> match fsm_constraint_of(#[trigger] entities[i]) {
            Some(c) => c.data is Some ==> decoded[i] is Some,
            None => true,
        }
    &&& forall|i: int|
        0 <= i < decoded.len() ==> match #[trigger] decoded[i] {
            Some(Ok(fsm)) => fsm.transitions.len() < 0x2000_0000_0000_0000,
            _ => true,
        }
}

/// The first constraint of the entity named like the FSM constraint.
fn find_fsm_constraint(entity: &Entity) -> (r: Option<&Constraint>)
    ensures
        match r {
            Some(c) => fsm_constraint_of(*entity) == Some(*c),
            None => fsm_constraint_of(*entity) is None,
        },
{
    let name = String::from_str(FSM_CONSTRAINT_NAME);
    let cs = &entity.annotations.constraints;
    let mut i: usize = 0;
    assert(cs@.skip(0) =~= cs@);
    while i < cs.len()
        invariant
            i <= cs.len(),
            name@ == FSM_CONSTRAINT_NAME@,
            cs == &entity.annotations.constraints,
            find_constraint(cs@, name@) == find_constraint(cs@.skip(i as int), name@),
        decreases cs.len() - i,
    {
        assert(cs@.skip(i as int).drop_first() =~= cs@.skip(i + 1));
        assert(cs@.skip(i as int)[0] == cs@[i as int]);
        if cs[i].name == name {
            return Some(&cs[i]);
        }
        i = i + 1;
    }
    assert(cs@.skip(i as int).len() == 0);
    None
}

/// The data of the FSM constraint of an entity: of the first constraint with
/// the FSM constraint's name, if that constraint carries data.
pub fn fsm_constraint_data(entity: &Entity) -> (r: Option<&String>)
    ensures
        match fsm_constraint_of(*entity) {
            Some(c) => match c.data {
                Some(d) => r matches Some(x) && *x == d,
                None => r is None,
            },
            None => r is None,
        },
{
    match find_fsm_constraint(entity) {
        Some(c) => match &c.data {
            Some(d) => Some(d),
            None => None,
        },
        None => None,
    }
}

impl FsmConstraint {
    /// The name under which the constraint is attached to entities.
    pub fn name(&self) -> (r: &'static str)
        ensures
            r@ == FSM_CONSTRAINT_NAME@,
    {
        FSM_CONSTRAINT_NAME
    }

    /// Validates every entity of `schema` that carries the FSM constraint,
    /// where `decoded[i]` is the outcome of decoding entity `i`'s constraint
    /// data (an FSM, or the decoder's message).
    ///
    /// Returns `Ok` when there is no violation, the violation itself when
    /// there is one, and [`FsmError::Multiple`] with all of them otherwise.
    pub fn validate(&self, schema: &Schema, decoded: &Vec<Option<Result<Fsm, String>>>) -> (r:
        Result<(), FsmError>)
        requires
            decoded_where_present(schema.entities@, decoded@),
        ensures
            ({
                let errs = schema_errors(schema.entities@, decoded@, schema.entities@.len() as int);
                &&& r is Ok <==> errs.len() == 0
                &&& errs.len() == 1 ==> (r matches Err(e) && e@ == errs[0])
                &&& errs.len() > 1 ==> (r matches Err(FsmError::Multiple(v)) && errors_view(v@)
                    == errs)
            }),
    {
        let ghost entities = schema.entities@;
        let mut errors: Vec<FsmError> = Vec::new();
        let mut i: usize = 0;
        while i < schema.entities.len()
            invariant
                i <= schema.entities.len(),
                entities == schema.entities@,
                decoded_where_present(entities, decoded@),
                errors_view(errors@) == schema_errors(entities, decoded@, i as int),
            decreases schema.entities.len() - i,
        {
            let entity = &schema.entities[i];
            let ghost before = errors_view(errors@);
            let ghost d = decoded@[i as int];
            assert(entities[i as int] == *entity);
            if let Some(constraint) = find_fsm_constraint(entity) {
                match &constraint.data {
                    None => {
                        errors.push(
                            FsmError::InvalidData {
                                entity: entity.name.duplicate(),
                                message: String::from_str("constraint data is missing"),
                            },
                        );
                    },
                    Some(_) => {
                        match &decoded[i] {
                            Some(Ok(fsm)) => {
                                check_entity(entity, fsm, &mut errors);
                            },
                            Some(Err(msg)) => {
                                let mut message = String::from_str("failed to decode fsm: ");
                                message.append(msg.as_str());
                                errors.push(
                                    FsmError::InvalidData {
                                        entity: entity.name.duplicate(),
                                        message,
                                    },
                                );
                            },
                            None => {},
                        }
                    },
                }
            }
            assert(errors_view(errors@) =~= before + entity_errors(entities[i as int], d));
            i = i + 1;
        }
        let n = errors.len();
        if n == 0 {
            Ok(())
        } else if n == 1 {
            let e = errors.pop().unwrap();
            Err(e)
        } else {
            Err(FsmError::Multiple(errors))
        }
    }
}

} // verus!
