//! The finite-state-machine constraint of an entity.
//!
//! Through this constraint, the behavior of an entity is modeled as an FSM:
//! the event order is restricted by a topology of states and transitions,
//! where events represent the moment the FSM transitions into a state with the
//! name of the event. For every entity carrying the constraint:
//!
//! 1. No event may be named `entry` or `exit` (case-insensitively).
//! 2. Exactly one transition has [`State::Entry`] as its source, and no
//!    transition has [`State::Entry`] as its target.
//! 3. At least one transition has [`State::Exit`] as its target, and no
//!    transition has [`State::Exit`] as its source.
//! 4. There is at least one [`State::Named`] state.
//! 5. Every [`State::Named`] state is reachable from [`State::Entry`].
//! 6. Every [`State::Named`] state can reach [`State::Exit`].
//! 7. Every [`State::Named`] state corresponds to an event in the entity.
//! 8. Every event in the entity appears as some [`State::Named`] state.
//! 9. A state on a cycle has [`Cardinality::Multi`], otherwise
//!    [`Cardinality::Once`].
use vstd::prelude::*;

use crate::schema::{Cardinality, Identifier};

pub mod builder;
pub mod check;
pub mod constraint;
pub mod laws;
pub mod lemmas;
pub mod spec;

verus! {

/// A node in an [`Fsm`] topology.
#[derive(Debug, Clone, PartialEq, Eq, Hash)]
pub enum State {
    /// A special state that, when transitioned from, describes the FSM came
    /// into existence.
    Entry,
    /// A special state that, when transitioned into, describes an FSM going out
    /// of existence.
    Exit,
    /// A regular state, named after the event that transitions into it.
    Named(Identifier),
}

/// The mathematical value of a [`State`].
pub enum StateV {
    Entry,
    Exit,
    Named(Seq<char>),
}

impl View for State {
    type V = StateV;

    open spec fn view(&self) -> StateV {
        match self {
            State::Entry => StateV::Entry,
            State::Exit => StateV::Exit,
            State::Named(n) => StateV::Named(n@),
        }
    }
}

/// A directed transition between two [`State`]s in an [`Fsm`].
#[derive(Debug, Clone, PartialEq, Eq, Hash)]
pub struct Transition {
    pub source: State,
    pub target: State,
}

impl View for Transition {
    type V = (StateV, StateV);

    open spec fn view(&self) -> (StateV, StateV) {
        (self.source@, self.target@)
    }
}

/// The state-transition topology of a finite state machine.
#[derive(Debug, Clone, PartialEq, Eq)]
pub struct Fsm {
    pub transitions: Vec<Transition>,
}

impl View for Fsm {
    type V = Seq<(StateV, StateV)>;

    open spec fn view(&self) -> Seq<(StateV, StateV)> {
        self.transitions@.map_values(|t: Transition| t@)
    }
}

/// A violation of the FSM constraint.
#[derive(Debug, PartialEq, Eq)]
pub enum FsmError {
    /// The constraint data is missing or could not be decoded.
    InvalidData { entity: Identifier, message: String },
    /// An event is named like one of the special states.
    ReservedStateName { entity: Identifier, name: &'static str },
    /// Not exactly one transition leaves the entry state.
    WrongEntryCount { entity: Identifier, found: usize },
    /// No transition reaches the exit state.
    NoExit { entity: Identifier },
    /// A transition targets the entry state.
    TransitionIntoEntry { entity: Identifier },
    /// A transition originates from the exit state.
    TransitionOutOfExit { entity: Identifier },
    /// The FSM has no named states.
    NoNamedStates { entity: Identifier },
    /// A named state is unreachable from the entry state.
    UnreachableFromEntry { entity: Identifier, state: Identifier },
    /// A named state cannot reach the exit state.
    CannotReachExit { entity: Identifier, state: Identifier },
    /// A named state does not match any event of the entity.
    UnknownState { entity: Identifier, state: Identifier },
    /// An event of the entity is not a state of the FSM.
    UncoveredEvent { entity: Identifier, event: Identifier },
    /// The cardinality of a state's event does not match the topology.
    CardinalityMismatch {
        entity: Identifier,
        state: Identifier,
        expected: Cardinality,
        found: Cardinality,
    },
    /// Several violations.
    Multiple(Vec<FsmError>),
}

/// The mathematical value of an [`FsmError`]; several violations are viewed
/// through [`spec::errors_view`] of the inner errors.
pub enum FsmErrorV {
    InvalidData { entity: Seq<char>, message: Seq<char> },
    ReservedStateName { entity: Seq<char>, name: Seq<char> },
    WrongEntryCount { entity: Seq<char>, found: nat },
    NoExit { entity: Seq<char> },
    TransitionIntoEntry { entity: Seq<char> },
    TransitionOutOfExit { entity: Seq<char> },
    NoNamedStates { entity: Seq<char> },
    UnreachableFromEntry { entity: Seq<char>, state: Seq<char> },
    CannotReachExit { entity: Seq<char>, state: Seq<char> },
    UnknownState { entity: Seq<char>, state: Seq<char> },
    UncoveredEvent { entity: Seq<char>, event: Seq<char> },
    CardinalityMismatch {
        entity: Seq<char>,
        state: Seq<char>,
        expected: Cardinality,
        found: Cardinality,
    },
    Multiple,
}

impl View for FsmError {
    type V = FsmErrorV;

    open spec fn view(&self) -> FsmErrorV {
        match self {
            FsmError::InvalidData { entity, message } => FsmErrorV::InvalidData {
                entity: entity@,
                message: message@,
            },
            FsmError::ReservedStateName { entity, name } => FsmErrorV::ReservedStateName {
                entity: entity@,
                name: name@,
            },
            FsmError::WrongEntryCount { entity, found } => FsmErrorV::WrongEntryCount {
                entity: entity@,
                found: *found as nat,
            },
            FsmError::NoExit { entity } => FsmErrorV::NoExit { entity: entity@ },
            FsmError::TransitionIntoEntry { entity } => FsmErrorV::TransitionIntoEntry {
                entity: entity@,
            },
            FsmError::TransitionOutOfExit { entity } => FsmErrorV::TransitionOutOfExit {
                entity: entity@,
            },
            FsmError::NoNamedStates { entity } => FsmErrorV::NoNamedStates { entity: entity@ },
            FsmError::UnreachableFromEntry { entity, state } => FsmErrorV::UnreachableFromEntry {
                entity: entity@,
                state: state@,
            },
            FsmError::CannotReachExit { entity, state } => FsmErrorV::CannotReachExit {
                entity: entity@,
                state: state@,
            },
            FsmError::UnknownState { entity, state } => FsmErrorV::UnknownState {
                entity: entity@,
                state: state@,
            },
            FsmError::UncoveredEvent { entity, event } => FsmErrorV::UncoveredEvent {
                entity: entity@,
                event: event@,
            },
            FsmError::CardinalityMismatch { entity, state, expected, found } =>
                FsmErrorV::CardinalityMismatch {
                    entity: entity@,
                    state: state@,
                    expected: *expected,
                    found: *found,
                },
            FsmError::Multiple(_) => FsmErrorV::Multiple,
        }
    }
}

} // verus!
