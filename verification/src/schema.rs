//! The parts of an application event model (a schema) that the validators
//! read: names, entities with their events, records with their fields, and
//! the constraint and convention annotations attached to them.
use vstd::prelude::*;

verus! {

/// The name of a schema element.
#[derive(Clone, Debug, PartialEq, Eq, Hash, PartialOrd, Ord)]
pub struct Identifier(pub String);

impl View for Identifier {
    type V = Seq<char>;

    open spec fn view(&self) -> Seq<char> {
        self.0@
    }
}

impl Identifier {
    /// Creates an identifier from its text.
    pub fn new(name: &str) -> (id: Identifier)
        ensures
            id@ == name@,
    {
        Identifier(name.to_owned())
    }

    /// Returns the text of this identifier.
    pub fn as_str(&self) -> (s: &str)
        ensures
            s@ == self@,
    {
        self.0.as_str()
    }

    /// Compares two identifiers by their text.
    pub fn same(&self, other: &Identifier) -> (r: bool)
        ensures
            r == (self@ == other@),
    {
        self.0 == other.0
    }

    /// Returns a copy of this identifier.
    pub fn duplicate(&self) -> (r: Identifier)
        ensures
            r@ == self@,
    {
        Identifier(self.0.clone())
    }
}

/// How often an event may occur for one entity instance.
#[derive(Clone, Copy, Debug, PartialEq, Eq, Hash, Structural)]
pub enum Cardinality {
    /// At most once.
    Once,
    /// Any number of times.
    Multi,
}

/// A constraint attached to a schema element: a name and opaque data.
#[derive(Clone, Debug, PartialEq, Eq)]
pub struct Constraint {
    pub name: String,
    pub data: Option<String>,
}

/// Annotations attached to a schema element.
#[derive(Clone, Debug, Default, PartialEq, Eq)]
pub struct Annotations {
    pub constraints: Vec<Constraint>,
}

/// A convention attached to a schema element. Only conventions marked
/// `validated` require a registered validator.
#[derive(Clone, Debug, PartialEq, Eq)]
pub struct ConventionRef {
    pub name: String,
    pub validated: bool,
    pub data: Option<String>,
}

/// A field of an event payload or of a record.
#[derive(Clone, Debug, PartialEq, Eq)]
pub struct Field {
    pub name: Identifier,
    pub conventions: Vec<ConventionRef>,
}

/// An event of an entity.
#[derive(Clone, Debug, PartialEq, Eq)]
pub struct Event {
    pub name: Identifier,
    pub cardinality: Cardinality,
    pub payload: Vec<Field>,
    pub conventions: Vec<ConventionRef>,
}

/// An entity: a named set of events.
#[derive(Clone, Debug, PartialEq, Eq)]
pub struct Entity {
    pub name: Identifier,
    pub events: Vec<Event>,
    pub annotations: Annotations,
    pub conventions: Vec<ConventionRef>,
}

/// A record: a named set of fields.
#[derive(Clone, Debug, PartialEq, Eq)]
pub struct Record {
    pub name: Identifier,
    pub fields: Vec<Field>,
    pub conventions: Vec<ConventionRef>,
}

/// An application event model.
#[derive(Clone, Debug, PartialEq, Eq)]
pub struct Schema {
    pub name: Identifier,
    pub entities: Vec<Entity>,
    pub records: Vec<Record>,
    pub conventions: Vec<ConventionRef>,
}

/// An error of assembling schema elements.
#[derive(Clone, Debug, PartialEq, Eq)]
pub enum BuilderError {
    /// The name is already declared in its scope.
    DuplicateName(String),
}

/// The view of an event as the validators read it: its name and cardinality.
pub open spec fn event_view(e: Event) -> (Seq<char>, Cardinality) {
    (e.name@, e.cardinality)
}

/// The events of an entity as (name, cardinality) pairs.
pub open spec fn events_view(events: Seq<Event>) -> Seq<(Seq<char>, Cardinality)> {
    events.map_values(|e: Event| event_view(e))
}

} // verus!
