//! What a validation run reports, stated over the schema.
use vstd::prelude::*;

use super::Error;
use crate::schema::{ConventionRef, Entity, Event, Field, Record, Schema};

verus! {

/// The mathematical value of an [`Error`].
pub enum ErrorV {
    DuplicateConvention(Seq<char>),
    UnregisteredConvention { owner: Seq<char>, convention: Seq<char> },
    Validation { convention: Seq<char>, message: Seq<char> },
}

/// The texts of convention names.
pub open spec fn name_values(names: Seq<&'static str>) -> Seq<Seq<char>> {
    names.map_values(|n: &'static str| n@)
}

/// The value of an error.
pub open spec fn error_view(e: Error) -> ErrorV {
    match e {
        Error::DuplicateConvention(name) => ErrorV::DuplicateConvention(name@),
        Error::UnregisteredConvention { owner, convention } => ErrorV::UnregisteredConvention {
            owner: owner@,
            convention: convention@,
        },
        Error::Validation { convention, message } => ErrorV::Validation {
            convention: convention@,
            message: message@,
        },
    }
}

/// The values of a sequence of errors.
pub open spec fn errors_view(errors: Seq<Error>) -> Seq<ErrorV> {
    errors.map_values(|e: Error| error_view(e))
}

/// An error for every convention in `cs` that requires validation and whose
/// name is not among `names`, owned by `owner`, in order.
pub open spec fn unregistered(
    cs: Seq<ConventionRef>,
    owner: Seq<char>,
    names: Seq<Seq<char>>,
) -> Seq<ErrorV>
    decreases cs.len(),
{
    if cs.len() == 0 {
        Seq::empty()
    } else {
        let rest = unregistered(cs.drop_last(), owner, names);
        let c = cs.last();
        if c.validated && !names.contains(c.name@) {
            rest.push(ErrorV::UnregisteredConvention { owner, convention: c.name@ })
        } else {
            rest
        }
    }
}

/// The unregistered-convention errors of fields owned by `owner`.
pub open spec fn fields_unregistered(
    fields: Seq<Field>,
    owner: Seq<char>,
    names: Seq<Seq<char>>,
) -> Seq<ErrorV>
    decreases fields.len(),
{
    if fields.len() == 0 {
        Seq::empty()
    } else {
        fields_unregistered(fields.drop_last(), owner, names) + unregistered(
            fields.last().conventions@,
            owner,
            names,
        )
    }
}

/// The unregistered-convention errors of events and their payload fields,
/// owned by `owner`.
pub open spec fn events_unregistered(
    events: Seq<Event>,
    owner: Seq<char>,
    names: Seq<Seq<char>>,
) -> Seq<ErrorV>
    decreases events.len(),
{
    if events.len() == 0 {
        Seq::empty()
    } else {
        let e = events.last();
        events_unregistered(events.drop_last(), owner, names) + unregistered(
            e.conventions@,
            owner,
            names,
        ) + fields_unregistered(e.payload@, owner, names)
    }
}

/// The unregistered-convention errors of entities, each owning those of its
/// events and their fields.
pub open spec fn entities_unregistered(entities: Seq<Entity>, names: Seq<Seq<char>>) -> Seq<
    ErrorV,
>
    decreases entities.len(),
{
    if entities.len() == 0 {
        Seq::empty()
    } else {
        let e = entities.last();
        entities_unregistered(entities.drop_last(), names) + unregistered(
            e.conventions@,
            e.name@,
            names,
        ) + events_unregistered(e.events@, e.name@, names)
    }
}

/// The unregistered-convention errors of records, each owning those of its
/// fields.
pub open spec fn records_unregistered(records: Seq<Record>, names: Seq<Seq<char>>) -> Seq<
    ErrorV,
>
    decreases records.len(),
{
    if records.len() == 0 {
        Seq::empty()
    } else {
        let r = records.last();
        records_unregistered(records.drop_last(), names) + unregistered(
            r.conventions@,
            r.name@,
            names,
        ) + fields_unregistered(r.fields@, r.name@, names)
    }
}

/// The unregistered-convention errors of a schema: its own conventions, then
/// its entities', then its records'.
pub open spec fn schema_unregistered(schema: &Schema, names: Seq<Seq<char>>) -> Seq<ErrorV> {
    unregistered(schema.conventions@, schema.name@, names) + entities_unregistered(
        schema.entities@,
        names,
    ) + records_unregistered(schema.records@, names)
}

/// The errors of one convention's validation result.
pub open spec fn result_errors(r: Result<(), Vec<Error>>) -> Seq<ErrorV> {
    match r {
        Ok(()) => Seq::empty(),
        Err(errors) => errors_view(errors@),
    }
}

/// The errors of several validation results, in order.
pub open spec fn results_errors(rs: Seq<Result<(), Vec<Error>>>) -> Seq<ErrorV>
    decreases rs.len(),
{
    if rs.len() == 0 {
        Seq::empty()
    } else {
        results_errors(rs.drop_last()) + result_errors(rs.last())
    }
}

/// What a validation run gives back, from the errors of the unregistered
/// conventions and the results of the registered conventions' own validation:
/// all of these errors in order, and success exactly when there are none.
pub open spec fn validation_outcome(
    unregistered: Seq<ErrorV>,
    results: Seq<Result<(), Vec<Error>>>,
    r: Result<(), Vec<Error>>,
) -> bool {
    match r {
        Ok(()) => unregistered + results_errors(results) == Seq::<ErrorV>::empty(),
        Err(errors) => {
            &&& errors_view(errors@) == unregistered + results_errors(results)
            &&& errors@.len() > 0
        },
    }
}

} // verus!
