//! Conventions of an application event model and their validation.
//!
//! A convention is a set of properties added to an application event model,
//! conveyed through opaque data attached to the constituents of a [`Schema`].
//! A convention attached with `validated` set must be registered with the
//! [`Validator`] that checks the schema, which then runs every registered
//! convention's own validation.
use vstd::prelude::*;

use crate::schema::{ConventionRef, Entity, Event, Field, Identifier, Record, Schema};

pub mod laws;
pub mod spec;

use laws::{law_unregistered_sites, lemma_contains_add, schema_reports};

use spec::{
    entities_unregistered, error_view, errors_view, name_values, events_unregistered, fields_unregistered,
    records_unregistered, result_errors, results_errors, schema_unregistered, unregistered,
    validation_outcome, ErrorV,
};

verus! {

/// A type that implements a convention.
///
/// While no restrictions are imposed on convention names, the dot-separated
/// pattern `project.convention.version` (for example `quent.fsm.v1`) reduces
/// the probability of clashes and makes breaking changes visible.
pub trait Convention {
    /// A unique name for this convention.
    const NAME: &'static str;

    /// What validating this convention against `schema` gives, depending on
    /// the convention and the schema alone. An implementation states its own;
    /// where it states none, the result is left unspecified.
    closed spec fn validation(&self, schema: &Schema) -> Result<(), Vec<Error>> {
        arbitrary()
    }

    /// Validate this convention against `schema`.
    fn validate(&self, schema: &Schema) -> (r: Result<(), Vec<Error>>)
        ensures
            r == self.validation(schema),
    ;
}

/// Errors of [`Convention`] and [`Validator`].
#[derive(Debug, Clone, PartialEq, Eq)]
pub enum Error {
    /// A convention of this name is already registered.
    DuplicateConvention(&'static str),
    /// The element `owner` carries the convention `convention`, which requires
    /// validation, but no convention of that name is registered.
    UnregisteredConvention { owner: Identifier, convention: String },
    /// The convention `convention` failed to validate with `message`.
    Validation { convention: String, message: String },
}

/// A registered convention, with its type erased.
pub trait RegisteredConvention {
    /// What validating the registered convention against `schema` gives.
    spec fn registered_validation(&self, schema: &Schema) -> Result<(), Vec<Error>>;

    /// Validate the registered convention against `schema`.
    fn validate_erased(&self, schema: &Schema) -> (r: Result<(), Vec<Error>>)
        ensures
            r == self.registered_validation(schema),
    ;
}

impl<C: Convention> RegisteredConvention for C {
    open spec fn registered_validation(&self, schema: &Schema) -> Result<(), Vec<Error>> {
        self.validation(schema)
    }

    fn validate_erased(&self, schema: &Schema) -> (r: Result<(), Vec<Error>>) {
        self.validate(schema)
    }
}

/// Validates registered [`Convention`]s.
///
/// Validation fails when a convention that the schema uses and that requires
/// validation is not registered, or when a registered convention's own
/// validation fails.
pub struct Validator {
    names: Vec<&'static str>,
    conventions: Vec<Registration>,
}

/// A registered convention, held beside its name in a [`Validator`].
struct Registration {
    convention: Box<dyn RegisteredConvention>,
}

impl Validator {
    /// The names of the registered conventions, in registration order.
    pub closed spec fn registered(&self) -> Seq<Seq<char>> {
        name_values(self.names@)
    }

    /// What the registered conventions' own validations of `schema` give, in
    /// registration order.
    pub closed spec fn own_results(&self, schema: &Schema) -> Seq<Result<(), Vec<Error>>> {
        Seq::new(
            self.conventions@.len(),
            |k: int| self.conventions@[k].convention.registered_validation(schema),
        )
    }

    /// Each registered name stands beside its convention.
    #[verifier::type_invariant]
    spec fn names_match_conventions(&self) -> bool {
        self.names.len() == self.conventions.len()
    }
}

impl Default for Validator {
    fn default() -> (v: Self)
        ensures
            v.registered() == Seq::<Seq<char>>::empty(),
            forall|schema: Schema| #[trigger] v.own_results(&schema) == Seq::<Result<(), Vec<Error>>>::empty(),
    {
        let v = Validator { names: Vec::new(), conventions: Vec::new() };
        assert(v.registered() =~= Seq::<Seq<char>>::empty());
        assert forall|schema: Schema| #[trigger] v.own_results(&schema) == Seq::<Result<(), Vec<Error>>>::empty() by {
            assert(v.own_results(&schema) =~= Seq::<Result<(), Vec<Error>>>::empty());
        }
        v
    }
}

/// Pushing onto a sequence adds one to its length (stated for any element
/// type, so that it applies to [`Registration`] too).
proof fn lemma_push_len<A>(s: Seq<A>, a: A)
    ensures
        s.push(a).len() == s.len() + 1,
{
}

/// Pushing onto a sequence keeps its elements and puts the new one last.
proof fn lemma_push_index<A>(s: Seq<A>, a: A)
    ensures
        s.push(a)[s.len() as int] == a,
        forall|k: int| 0 <= k < s.len() ==> #[trigger] s.push(a)[k] == s[k],
{
}

/// Whether `name` is among `names`.
fn is_registered(names: &Vec<&'static str>, name: &String) -> (r: bool)
    ensures
        r == name_values(names@).contains(name@),
{
    let ghost view = name_values(names@);
    let mut i: usize = 0;
    while i < names.len()
        invariant
            i <= names.len(),
            view == name_values(names@),
            forall|k: int| 0 <= k < i ==> view[k] != name@,
        decreases names.len() - i,
    {
        let candidate = names[i].to_owned();
        if candidate == *name {
            assert(view[i as int] == name@);
            return true;
        }
        i += 1;
    }
    false
}

/// Appends an error for every convention in `conventions` that requires
/// validation and is not among `names`.
fn push_unregistered(
    conventions: &Vec<ConventionRef>,
    owner: &Identifier,
    names: &Vec<&'static str>,
    errors: &mut Vec<Error>,
)
    ensures
        errors_view(final(errors)@) == errors_view(old(errors)@) + unregistered(
            conventions@,
            owner@,
            name_values(names@),
        ),
{
    let ghost registered = name_values(names@);
    let ghost start = errors_view(errors@);
    let mut i: usize = 0;
    while i < conventions.len()
        invariant
            i <= conventions.len(),
            registered == name_values(names@),
            errors_view(errors@) == start + unregistered(
                conventions@.take(i as int),
                owner@,
                registered,
            ),
        decreases conventions.len() - i,
    {
        let ghost before = errors@;
        proof {
            assert(conventions@.take(i as int + 1).drop_last() =~= conventions@.take(i as int));
        }
        let conv = &conventions[i];
        if conv.validated && !is_registered(names, &conv.name) {
            let error = Error::UnregisteredConvention {
                owner: owner.duplicate(),
                convention: conv.name.clone(),
            };
            errors.push(error);
            proof {
                assert(errors_view(errors@) =~= errors_view(before).push(error_view(error)));
            }
        }
        i += 1;
    }
    proof {
        assert(conventions@.take(conventions@.len() as int) =~= conventions@);
    }
}

/// Appends the unregistered-convention errors of `fields`, owned by `owner`.
fn push_field_errors(
    fields: &Vec<Field>,
    owner: &Identifier,
    names: &Vec<&'static str>,
    errors: &mut Vec<Error>,
)
    ensures
        errors_view(final(errors)@) == errors_view(old(errors)@) + fields_unregistered(
            fields@,
            owner@,
            name_values(names@),
        ),
{
    let ghost registered = name_values(names@);
    let ghost start = errors_view(errors@);
    let mut i: usize = 0;
    while i < fields.len()
        invariant
            i <= fields.len(),
            registered == name_values(names@),
            errors_view(errors@) == start + fields_unregistered(
                fields@.take(i as int),
                owner@,
                registered,
            ),
        decreases fields.len() - i,
    {
        proof {
            assert(fields@.take(i as int + 1).drop_last() =~= fields@.take(i as int));
        }
        push_unregistered(&fields[i].conventions, owner, names, errors);
        proof {
            assert(fields@.take(i as int + 1).last() == fields@[i as int]);
        }
        i += 1;
    }
    proof {
        assert(fields@.take(fields@.len() as int) =~= fields@);
    }
}

/// Appends the unregistered-convention errors of `events` and their payload
/// fields, owned by `owner`.
fn push_event_errors(
    events: &Vec<Event>,
    owner: &Identifier,
    names: &Vec<&'static str>,
    errors: &mut Vec<Error>,
)
    ensures
        errors_view(final(errors)@) == errors_view(old(errors)@) + events_unregistered(
            events@,
            owner@,
            name_values(names@),
        ),
{
    let ghost registered = name_values(names@);
    let ghost start = errors_view(errors@);
    let mut i: usize = 0;
    while i < events.len()
        invariant
            i <= events.len(),
            registered == name_values(names@),
            errors_view(errors@) == start + events_unregistered(
                events@.take(i as int),
                owner@,
                registered,
            ),
        decreases events.len() - i,
    {
        proof {
            assert(events@.take(i as int + 1).drop_last() =~= events@.take(i as int));
            assert(events@.take(i as int + 1).last() == events@[i as int]);
        }
        push_unregistered(&events[i].conventions, owner, names, errors);
        push_field_errors(&events[i].payload, owner, names, errors);
        i += 1;
    }
    proof {
        assert(events@.take(events@.len() as int) =~= events@);
    }
}

/// Appends the unregistered-convention errors of `entities`, their events and
/// their payload fields.
fn push_entity_errors(entities: &Vec<Entity>, names: &Vec<&'static str>, errors: &mut Vec<Error>)
    ensures
        errors_view(final(errors)@) == errors_view(old(errors)@) + entities_unregistered(
            entities@,
            name_values(names@),
        ),
{
    let ghost registered = name_values(names@);
    let ghost start = errors_view(errors@);
    let mut i: usize = 0;
    while i < entities.len()
        invariant
            i <= entities.len(),
            registered == name_values(names@),
            errors_view(errors@) == start + entities_unregistered(
                entities@.take(i as int),
                registered,
            ),
        decreases entities.len() - i,
    {
        proof {
            assert(entities@.take(i as int + 1).drop_last() =~= entities@.take(i as int));
            assert(entities@.take(i as int + 1).last() == entities@[i as int]);
        }
        let entity = &entities[i];
        push_unregistered(&entity.conventions, &entity.name, names, errors);
        push_event_errors(&entity.events, &entity.name, names, errors);
        i += 1;
    }
    proof {
        assert(entities@.take(entities@.len() as int) =~= entities@);
    }
}

/// Appends the unregistered-convention errors of `records` and their fields.
fn push_record_errors(records: &Vec<Record>, names: &Vec<&'static str>, errors: &mut Vec<Error>)
    ensures
        errors_view(final(errors)@) == errors_view(old(errors)@) + records_unregistered(
            records@,
            name_values(names@),
        ),
{
    let ghost registered = name_values(names@);
    let ghost start = errors_view(errors@);
    let mut i: usize = 0;
    while i < records.len()
        invariant
            i <= records.len(),
            registered == name_values(names@),
            errors_view(errors@) == start + records_unregistered(
                records@.take(i as int),
                registered,
            ),
        decreases records.len() - i,
    {
        proof {
            assert(records@.take(i as int + 1).drop_last() =~= records@.take(i as int));
            assert(records@.take(i as int + 1).last() == records@[i as int]);
        }
        let record = &records[i];
        push_unregistered(&record.conventions, &record.name, names, errors);
        push_field_errors(&record.fields, &record.name, names, errors);
        i += 1;
    }
    proof {
        assert(records@.take(records@.len() as int) =~= records@);
    }
}

/// The errors for every convention in `schema` that requires validation but
/// is not registered under `names`, in schema order: the schema's own, then
/// each entity's (the entity, its events, their payload fields), then each
/// record's (the record, its fields).
pub fn check_conventions(schema: &Schema, names: &Vec<&'static str>) -> (errors: Vec<Error>)
    ensures
        errors_view(errors@) == schema_unregistered(
            schema,
            name_values(names@),
        ),
{
    let mut errors: Vec<Error> = Vec::new();
    assert(errors_view(errors@) =~= Seq::<ErrorV>::empty());
    push_unregistered(&schema.conventions, &schema.name, names, &mut errors);
    push_entity_errors(&schema.entities, names, &mut errors);
    push_record_errors(&schema.records, names, &mut errors);
    errors
}

/// Combines the errors of a validation run: `unregistered` first, then the
/// errors of each convention's own validation, in order. The run succeeds
/// when there are no errors at all.
pub fn collect_errors(unregistered: Vec<Error>, results: Vec<Result<(), Vec<Error>>>) -> (r: Result<
    (),
    Vec<Error>,
>)
    ensures
        match r {
            Ok(()) => errors_view(unregistered@) + results_errors(results@) == Seq::<
                ErrorV,
            >::empty(),
            Err(errors) => {
                &&& errors_view(errors@) == errors_view(unregistered@) + results_errors(results@)
                &&& errors@.len() > 0
            },
        },
{
    let mut errors = unregistered;
    let ghost start = errors_view(errors@);
    let mut i: usize = 0;
    let mut results = results;
    let n = results.len();
    let ghost all = results@;
    while i < n
        invariant
            n == all.len(),
            0 <= i <= all.len(),
            results@ == all.skip(i as int),
            errors_view(errors@) == start + results_errors(all.take(i as int)),
        decreases all.len() - i,
    {
        proof {
            assert(all.take(i as int + 1).drop_last() =~= all.take(i as int));
            assert(results@[0] == all[i as int]);
        }
        let next = results.remove(0);
        match next {
            Ok(()) => {},
            Err(more) => {
                let ghost before = errors@;
                let mut more = more;
                errors.append(&mut more);
                proof {
                    assert(errors_view(errors@) =~= errors_view(before) + result_errors(
                        all[i as int],
                    ));
                }
            },
        }
        proof {
            assert(results@ =~= all.skip(i as int + 1));
        }
        i += 1;
    }
    proof {
        assert(all.take(all.len() as int) =~= all);
    }
    if errors.len() == 0 {
        assert(errors_view(errors@) =~= Seq::<ErrorV>::empty());
        Ok(())
    } else {
        Err(errors)
    }
}

impl Validator {
    /// Register a [`Convention`] to be validated; a second convention with
    /// the same name is refused.
    pub fn try_with<C: Convention + 'static>(self, convention: C) -> (r: Result<Self, Error>)
        ensures
            match r {
                Ok(v) => {
                    &&& !self.registered().contains(C::NAME@)
                    &&& v.registered() == self.registered().push(C::NAME@)
                    &&& forall|schema: Schema|
                        #[trigger] v.own_results(&schema) == self.own_results(&schema).push(
                            convention.validation(&schema),
                        )
                },
                Err(e) => {
                    &&& self.registered().contains(C::NAME@)
                    &&& e == Error::DuplicateConvention(C::NAME)
                },
            },
    {
        let name: &'static str = C::NAME;
        proof {
            use_type_invariant(&self);
        }
        if is_registered(&self.names, &name.to_owned()) {
            return Err(Error::DuplicateConvention(name));
        }
        let Validator { names, conventions } = self;
        let ghost before = names@;
        let mut names = names;
        let mut conventions = conventions;
        names.push(name);
        let ghost old_conventions = conventions@;
        let entry = Registration { convention: Box::new(convention) };
        proof {
            lemma_push_len(conventions@, entry);
        }
        conventions.push(entry);
        proof {
            lemma_push_index(old_conventions, entry);
        }
        let v = Validator { names, conventions };
        assert(name_values(v.names@) =~= name_values(before).push(name@));
        assert(name@ == C::NAME@);
        assert forall|schema: Schema|
            #[trigger] v.own_results(&schema) == self.own_results(&schema).push(
                convention.validation(&schema),
            ) by {
            assert(entry.convention.registered_validation(&schema) == convention.validation(&schema));
            assert(v.own_results(&schema) =~= self.own_results(&schema).push(
                convention.validation(&schema),
            ));
        }
        Ok(v)
    }

    /// Run validation of all registered conventions against `schema`.
    ///
    /// The errors are those of [`check_conventions`] followed by the errors of
    /// each registered convention's own validation, in registration order; the
    /// run succeeds when there are none. With no convention registered the
    /// run succeeds exactly when no convention is unregistered.
    pub fn run(&self, schema: &Schema) -> (r: Result<(), Vec<Error>>)
        ensures
            self.own_results(schema).len() == self.registered().len(),
            validation_outcome(
                schema_unregistered(schema, self.registered()),
                self.own_results(schema),
                r,
            ),
            self.registered().len() == 0 ==> validation_outcome(
                schema_unregistered(schema, self.registered()),
                Seq::empty(),
                r,
            ),
            forall|x: ErrorV|
                #[trigger] schema_reports(schema, self.registered(), x) ==> (r matches Err(errors)
                    && errors_view(errors@).contains(x)),
    {
        proof {
            use_type_invariant(self);
        }
        let unregistered = check_conventions(schema, &self.names);
        let mut results: Vec<Result<(), Vec<Error>>> = Vec::new();
        let mut i: usize = 0;
        while i < self.conventions.len()
            invariant
                i <= self.conventions.len(),
                results@.len() == i,
                forall|k: int|
                    0 <= k < i ==> #[trigger] results@[k] == self.own_results(schema)[k],
            decreases self.conventions.len() - i,
        {
            results.push(self.conventions[i].convention.validate_erased(schema));
            i += 1;
        }
        let ghost rs = results@;
        let ghost unreg = errors_view(unregistered@);
        let r = collect_errors(unregistered, results);
        proof {
            assert(self.registered().len() == self.names@.len());
            assert(unreg == schema_unregistered(schema, self.registered()));
            assert(validation_outcome(unreg, rs, r));
            assert(rs =~= self.own_results(schema));
            assert forall|x: ErrorV|
                #[trigger] schema_reports(schema, self.registered(), x) implies (r matches Err(errors)
                    && errors_view(errors@).contains(x)) by {
                law_unregistered_sites(schema, self.registered(), x);
                lemma_contains_add(unreg, results_errors(rs), x);
                if r is Ok {
                    assert((unreg + results_errors(rs)).len() == 0);
                    assert(unreg.len() == 0);
                }
            }
            if self.registered().len() == 0 {
                assert(rs =~= Seq::<Result<(), Vec<Error>>>::empty());
            }
        }
        r
    }

    /// Validate `schema`: the same as [`Validator::run`].
    pub fn validate(&self, schema: &Schema) -> (r: Result<(), Vec<Error>>)
        ensures
            self.own_results(schema).len() == self.registered().len(),
            validation_outcome(
                schema_unregistered(schema, self.registered()),
                self.own_results(schema),
                r,
            ),
            self.registered().len() == 0 ==> validation_outcome(
                schema_unregistered(schema, self.registered()),
                Seq::empty(),
                r,
            ),
            forall|x: ErrorV|
                #[trigger] schema_reports(schema, self.registered(), x) ==> (r matches Err(errors)
                    && errors_view(errors@).contains(x)),
    {
        self.run(schema)
    }
}

} // verus!
