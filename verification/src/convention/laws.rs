//! What the unregistered-convention errors of a schema are, site by site.
use vstd::prelude::*;

use super::spec::{
    entities_unregistered, events_unregistered, fields_unregistered, records_unregistered,
    schema_unregistered, unregistered, ErrorV,
};
use crate::schema::{ConventionRef, Entity, Event, Field, Record, Schema};

verus! {

/// Whether some element of `s` satisfies `q`.
pub open spec fn some_element<A>(s: Seq<A>, q: spec_fn(A) -> bool) -> bool {
    exists|i: int| 0 <= i < s.len() && q(#[trigger] s[i])
}

/// Whether `x` is the error for one of the conventions `cs` owned by
/// `owner`: one that requires validation and whose name is not among
/// `names`.
pub open spec fn reports(
    cs: Seq<ConventionRef>,
    owner: Seq<char>,
    names: Seq<Seq<char>>,
    x: ErrorV,
) -> bool {
    some_element(
        cs,
        |c: ConventionRef|
            c.validated && !names.contains(c.name@) && x == ErrorV::UnregisteredConvention {
                owner,
                convention: c.name@,
            },
    )
}

/// Whether `x` is the error for a convention of one of the fields `fs`.
pub open spec fn fields_report(
    fs: Seq<Field>,
    owner: Seq<char>,
    names: Seq<Seq<char>>,
    x: ErrorV,
) -> bool {
    some_element(fs, |f: Field| reports(f.conventions@, owner, names, x))
}

/// Whether `x` is the error for a convention of one of the events `evs` or
/// of one of their payload fields.
pub open spec fn events_report(
    evs: Seq<Event>,
    owner: Seq<char>,
    names: Seq<Seq<char>>,
    x: ErrorV,
) -> bool {
    some_element(
        evs,
        |e: Event| reports(e.conventions@, owner, names, x) || fields_report(e.payload@, owner, names, x),
    )
}

/// Whether `x` is the error for a convention of one of the entities `es`,
/// of one of their events, or of one of those events' payload fields; the
/// entity owns it.
pub open spec fn entities_report(es: Seq<Entity>, names: Seq<Seq<char>>, x: ErrorV) -> bool {
    some_element(
        es,
        |e: Entity|
            reports(e.conventions@, e.name@, names, x) || events_report(e.events@, e.name@, names, x),
    )
}

/// Whether `x` is the error for a convention of one of the records `rs` or
/// of one of their fields; the record owns it.
pub open spec fn records_report(rs: Seq<Record>, names: Seq<Seq<char>>, x: ErrorV) -> bool {
    some_element(
        rs,
        |r: Record| reports(r.conventions@, r.name@, names, x) || fields_report(r.fields@, r.name@, names, x),
    )
}

/// Whether `x` is the error for some site of `schema` that carries a
/// convention requiring validation whose name is not among `names`: the
/// schema itself, an entity, an event, an event's payload field, a record or
/// a record's field.
pub open spec fn schema_reports(schema: &Schema, names: Seq<Seq<char>>, x: ErrorV) -> bool {
    ||| reports(schema.conventions@, schema.name@, names, x)
    ||| entities_report(schema.entities@, names, x)
    ||| records_report(schema.records@, names, x)
}

/// Some element of a non-empty sequence satisfies `q` exactly when one of
/// all but its last does or its last does.
proof fn lemma_some_element<A>(s: Seq<A>, q: spec_fn(A) -> bool)
    ensures
        some_element(s, q) == (s.len() > 0 && (some_element(s.drop_last(), q) || q(s.last()))),
{
    if s.len() > 0 {
        let init = s.drop_last();
        if some_element(s, q) {
            let i = choose|i: int| 0 <= i < s.len() && q(#[trigger] s[i]);
            if i < init.len() {
                assert(q(init[i]));
            }
        }
        if some_element(init, q) {
            let i = choose|i: int| 0 <= i < init.len() && q(#[trigger] init[i]);
            assert(q(s[i]));
        }
        if q(s.last()) {
            assert(q(s[s.len() - 1]));
        }
    }
}

/// An element of a concatenation is one of either part.
pub(crate) proof fn lemma_contains_add<A>(a: Seq<A>, b: Seq<A>, x: A)
    ensures
        (a + b).contains(x) == (a.contains(x) || b.contains(x)),
{
    if (a + b).contains(x) {
        let i = choose|i: int| 0 <= i < (a + b).len() && (a + b)[i] == x;
        if i < a.len() {
            assert(a[i] == x);
        } else {
            assert(b[i - a.len()] == x);
        }
    }
    if a.contains(x) {
        let i = choose|i: int| 0 <= i < a.len() && a[i] == x;
        assert((a + b)[i] == x);
    }
    if b.contains(x) {
        let i = choose|i: int| 0 <= i < b.len() && b[i] == x;
        assert((a + b)[a.len() + i] == x);
    }
}

/// The errors of a list of conventions are those of its conventions.
proof fn lemma_unregistered(cs: Seq<ConventionRef>, owner: Seq<char>, names: Seq<Seq<char>>, x: ErrorV)
    ensures
        unregistered(cs, owner, names).contains(x) == reports(cs, owner, names, x),
    decreases cs.len(),
{
    let q = |c: ConventionRef|
        c.validated && !names.contains(c.name@) && x == ErrorV::UnregisteredConvention {
            owner,
            convention: c.name@,
        };
    lemma_some_element(cs, q);
    if cs.len() > 0 {
        let rest = unregistered(cs.drop_last(), owner, names);
        lemma_unregistered(cs.drop_last(), owner, names, x);
        let c = cs.last();
        let err = ErrorV::UnregisteredConvention { owner, convention: c.name@ };
        if c.validated && !names.contains(c.name@) {
            lemma_contains_add(rest, seq![err], x);
            assert(rest.push(err) =~= rest + seq![err]);
            assert(seq![err].contains(x) == (x == err)) by {
                if x == err {
                    assert(seq![err][0] == x);
                }
            }
        }
    } else {
        assert(!Seq::<ErrorV>::empty().contains(x));
    }
}

/// The errors of fields are those of their conventions.
proof fn lemma_fields(fs: Seq<Field>, owner: Seq<char>, names: Seq<Seq<char>>, x: ErrorV)
    ensures
        fields_unregistered(fs, owner, names).contains(x) == fields_report(fs, owner, names, x),
    decreases fs.len(),
{
    lemma_some_element(fs, |f: Field| reports(f.conventions@, owner, names, x));
    if fs.len() > 0 {
        lemma_fields(fs.drop_last(), owner, names, x);
        lemma_unregistered(fs.last().conventions@, owner, names, x);
        lemma_contains_add(
            fields_unregistered(fs.drop_last(), owner, names),
            unregistered(fs.last().conventions@, owner, names),
            x,
        );
    } else {
        assert(!Seq::<ErrorV>::empty().contains(x));
    }
}

/// The errors of events are those of their conventions and of their
/// payload fields' conventions.
proof fn lemma_events(evs: Seq<Event>, owner: Seq<char>, names: Seq<Seq<char>>, x: ErrorV)
    ensures
        events_unregistered(evs, owner, names).contains(x) == events_report(evs, owner, names, x),
    decreases evs.len(),
{
    lemma_some_element(
        evs,
        |e: Event| reports(e.conventions@, owner, names, x) || fields_report(e.payload@, owner, names, x),
    );
    if evs.len() > 0 {
        let e = evs.last();
        lemma_events(evs.drop_last(), owner, names, x);
        lemma_unregistered(e.conventions@, owner, names, x);
        lemma_fields(e.payload@, owner, names, x);
        let a = events_unregistered(evs.drop_last(), owner, names);
        let b = unregistered(e.conventions@, owner, names);
        let c = fields_unregistered(e.payload@, owner, names);
        lemma_contains_add(a + b, c, x);
        lemma_contains_add(a, b, x);
    } else {
        assert(!Seq::<ErrorV>::empty().contains(x));
    }
}

/// The errors of entities are those of their conventions, their events'
/// and their events' payload fields'.
proof fn lemma_entities(es: Seq<Entity>, names: Seq<Seq<char>>, x: ErrorV)
    ensures
        entities_unregistered(es, names).contains(x) == entities_report(es, names, x),
    decreases es.len(),
{
    lemma_some_element(
        es,
        |e: Entity|
            reports(e.conventions@, e.name@, names, x) || events_report(e.events@, e.name@, names, x),
    );
    if es.len() > 0 {
        let e = es.last();
        lemma_entities(es.drop_last(), names, x);
        lemma_unregistered(e.conventions@, e.name@, names, x);
        lemma_events(e.events@, e.name@, names, x);
        let a = entities_unregistered(es.drop_last(), names);
        let b = unregistered(e.conventions@, e.name@, names);
        let c = events_unregistered(e.events@, e.name@, names);
        lemma_contains_add(a + b, c, x);
        lemma_contains_add(a, b, x);
    } else {
        assert(!Seq::<ErrorV>::empty().contains(x));
    }
}

/// The errors of records are those of their conventions and their fields'.
proof fn lemma_records(rs: Seq<Record>, names: Seq<Seq<char>>, x: ErrorV)
    ensures
        records_unregistered(rs, names).contains(x) == records_report(rs, names, x),
    decreases rs.len(),
{
    lemma_some_element(
        rs,
        |r: Record| reports(r.conventions@, r.name@, names, x) || fields_report(r.fields@, r.name@, names, x),
    );
    if rs.len() > 0 {
        let r = rs.last();
        lemma_records(rs.drop_last(), names, x);
        lemma_unregistered(r.conventions@, r.name@, names, x);
        lemma_fields(r.fields@, r.name@, names, x);
        let a = records_unregistered(rs.drop_last(), names);
        let b = unregistered(r.conventions@, r.name@, names);
        let c = fields_unregistered(r.fields@, r.name@, names);
        lemma_contains_add(a + b, c, x);
        lemma_contains_add(a, b, x);
    } else {
        assert(!Seq::<ErrorV>::empty().contains(x));
    }
}

/// Law: the unregistered-convention errors of a schema are exactly the
/// errors for its sites (the schema, each entity, event, event payload
/// field, record and record field) that carry a convention requiring
/// validation whose name is not among `names`, each owned by the schema,
/// the entity or the record it belongs to. A site is reported whatever the
/// conventions of the sites around it.
pub proof fn law_unregistered_sites(schema: &Schema, names: Seq<Seq<char>>, x: ErrorV)
    ensures
        schema_unregistered(schema, names).contains(x) == schema_reports(schema, names, x),
{
    let a = unregistered(schema.conventions@, schema.name@, names);
    let b = entities_unregistered(schema.entities@, names);
    let c = records_unregistered(schema.records@, names);
    lemma_unregistered(schema.conventions@, schema.name@, names, x);
    lemma_entities(schema.entities@, names, x);
    lemma_records(schema.records@, names, x);
    lemma_contains_add(a + b, c, x);
    lemma_contains_add(a, b, x);
}

} // verus!
