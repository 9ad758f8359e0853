//! What the FSM constraint reports, stated over the mathematical values of an
//! entity's events and of an FSM's transitions.
use vstd::prelude::*;

use super::{FsmError, FsmErrorV, StateV};
use crate::schema::Cardinality;

verus! {

/// The views of a sequence of errors.
pub open spec fn errors_view(errors: Seq<FsmError>) -> Seq<FsmErrorV> {
    errors.map_values(|e: FsmError| e@)
}

/// The lowercase ASCII code of a character (other characters are unchanged).
pub open spec fn ascii_lower(c: char) -> int {
    if 65 <= c as int <= 90 {
        c as int + 32
    } else {
        c as int
    }
}

/// Whether `name` equals the lowercase `word` when ASCII letters are
/// lowercased.
pub open spec fn lowercases_to(name: Seq<char>, word: Seq<char>) -> bool {
    &&& name.len() == word.len()
    &&& forall|i: int| 0 <= i < name.len() ==> ascii_lower(#[trigger] name[i]) == word[i] as int
}

pub open spec fn entry_word() -> Seq<char> {
    seq!['e', 'n', 't', 'r', 'y']
}

pub open spec fn exit_word() -> Seq<char> {
    seq!['e', 'x', 'i', 't']
}

/// Requirement 1: the error for an event named like a special state.
pub open spec fn reserved_error(entity: Seq<char>, event: (Seq<char>, Cardinality)) -> Option<
    FsmErrorV,
> {
    if lowercases_to(event.0, entry_word()) {
        Some(FsmErrorV::ReservedStateName { entity, name: "entry"@ })
    } else if lowercases_to(event.0, exit_word()) {
        Some(FsmErrorV::ReservedStateName { entity, name: "exit"@ })
    } else {
        None
    }
}

/// The number of transitions whose source is `s`.
pub open spec fn count_sources(ts: Seq<(StateV, StateV)>, s: StateV) -> nat
    decreases ts.len(),
{
    if ts.len() == 0 {
        0
    } else {
        count_sources(ts.drop_last(), s) + if ts.last().0 == s {
            1nat
        } else {
            0nat
        }
    }
}

/// The number of transitions whose target is `s`.
pub open spec fn count_targets(ts: Seq<(StateV, StateV)>, s: StateV) -> nat
    decreases ts.len(),
{
    if ts.len() == 0 {
        0
    } else {
        count_targets(ts.drop_last(), s) + if ts.last().1 == s {
            1nat
        } else {
            0nat
        }
    }
}

/// Appends the name of `s` to `names` unless `s` is not named or the name is
/// already there.
pub open spec fn add_name(names: Seq<Seq<char>>, s: StateV) -> Seq<Seq<char>> {
    match s {
        StateV::Named(n) => if names.contains(n) {
            names
        } else {
            names.push(n)
        },
        _ => names,
    }
}

/// The distinct names of the named states, in order of first appearance
/// (source before target within a transition).
pub open spec fn named_states(ts: Seq<(StateV, StateV)>) -> Seq<Seq<char>>
    decreases ts.len(),
{
    if ts.len() == 0 {
        seq![]
    } else {
        add_name(add_name(named_states(ts.drop_last()), ts.last().0), ts.last().1)
    }
}

/// Whether `(a, b)` is a transition.
pub open spec fn has_transition(ts: Seq<(StateV, StateV)>, a: StateV, b: StateV) -> bool {
    exists|i: int| 0 <= i < ts.len() && #[trigger] ts[i] == (a, b)
}

/// Whether `p` is a sequence of at least one state along transitions.
pub open spec fn is_state_walk(ts: Seq<(StateV, StateV)>, p: Seq<StateV>) -> bool {
    &&& p.len() >= 1
    &&& forall|i: int| 0 <= i < p.len() - 1 ==> has_transition(ts, #[trigger] p[i], p[i + 1])
}

/// Whether state `b` can be reached from state `a` by zero or more
/// transitions.
pub open spec fn state_reaches(ts: Seq<(StateV, StateV)>, a: StateV, b: StateV) -> bool {
    exists|p: Seq<StateV>| #[trigger] is_state_walk(ts, p) && p[0] == a && p.last() == b
}

/// Whether state `s` lies on a cycle: it has a self-transition, or it and
/// another state reach each other.
pub open spec fn on_cycle(ts: Seq<(StateV, StateV)>, s: StateV) -> bool {
    ||| has_transition(ts, s, s)
    ||| exists|m: StateV| m != s && #[trigger] state_reaches(ts, s, m) && state_reaches(ts, m, s)
}

/// Requirement 9: the cardinality a named state's event must have.
pub open spec fn expected_cardinality(ts: Seq<(StateV, StateV)>, n: Seq<char>) -> Cardinality {
    if on_cycle(ts, StateV::Named(n)) {
        Cardinality::Multi
    } else {
        Cardinality::Once
    }
}

/// The names of the events.
pub open spec fn event_names(evs: Seq<(Seq<char>, Cardinality)>) -> Seq<Seq<char>> {
    evs.map_values(|e: (Seq<char>, Cardinality)| e.0)
}

/// The cardinality of the last event named `n`, if any.
pub open spec fn cardinality_of(evs: Seq<(Seq<char>, Cardinality)>, n: Seq<char>) -> Option<
    Cardinality,
>
    decreases evs.len(),
{
    if evs.len() == 0 {
        None
    } else if evs.last().0 == n {
        Some(evs.last().1)
    } else {
        cardinality_of(evs.drop_last(), n)
    }
}

/// A one-element sequence if `c` holds, otherwise the empty one.
pub open spec fn error_if(c: bool, e: FsmErrorV) -> Seq<FsmErrorV> {
    if c {
        seq![e]
    } else {
        seq![]
    }
}

/// Requirement 7: named states that match no event.
pub open spec fn unknown_state_errors(
    entity: Seq<char>,
    evs: Seq<(Seq<char>, Cardinality)>,
    named: Seq<Seq<char>>,
) -> Seq<FsmErrorV> {
    named.filter_map(
        |n: Seq<char>|
            if event_names(evs).contains(n) {
                None
            } else {
                Some(FsmErrorV::UnknownState { entity, state: n })
            },
    )
}

/// Requirement 8: events that are not named states.
pub open spec fn uncovered_event_errors(
    entity: Seq<char>,
    evs: Seq<(Seq<char>, Cardinality)>,
    named: Seq<Seq<char>>,
) -> Seq<FsmErrorV> {
    evs.filter_map(
        |e: (Seq<char>, Cardinality)|
            if named.contains(e.0) {
                None
            } else {
                Some(FsmErrorV::UncoveredEvent { entity, event: e.0 })
            },
    )
}

/// Requirement 5: named states that the entry state does not reach.
pub open spec fn unreachable_errors(
    entity: Seq<char>,
    ts: Seq<(StateV, StateV)>,
    named: Seq<Seq<char>>,
) -> Seq<FsmErrorV> {
    named.filter_map(
        |n: Seq<char>|
            if state_reaches(ts, StateV::Entry, StateV::Named(n)) {
                None
            } else {
                Some(FsmErrorV::UnreachableFromEntry { entity, state: n })
            },
    )
}

/// Requirement 6: named states that do not reach the exit state.
pub open spec fn cannot_exit_errors(
    entity: Seq<char>,
    ts: Seq<(StateV, StateV)>,
    named: Seq<Seq<char>>,
) -> Seq<FsmErrorV> {
    named.filter_map(
        |n: Seq<char>|
            if state_reaches(ts, StateV::Named(n), StateV::Exit) {
                None
            } else {
                Some(FsmErrorV::CannotReachExit { entity, state: n })
            },
    )
}

/// The error for a named state whose event has the wrong cardinality.
pub open spec fn cardinality_error(
    entity: Seq<char>,
    evs: Seq<(Seq<char>, Cardinality)>,
    ts: Seq<(StateV, StateV)>,
    n: Seq<char>,
) -> Option<FsmErrorV> {
    match cardinality_of(evs, n) {
        Some(found) => if found != expected_cardinality(ts, n) {
            Some(
                FsmErrorV::CardinalityMismatch {
                    entity,
                    state: n,
                    expected: expected_cardinality(ts, n),
                    found,
                },
            )
        } else {
            None
        },
        None => None,
    }
}

/// Requirement 9 over all named states.
pub open spec fn cardinality_errors(
    entity: Seq<char>,
    evs: Seq<(Seq<char>, Cardinality)>,
    ts: Seq<(StateV, StateV)>,
    named: Seq<Seq<char>>,
) -> Seq<FsmErrorV> {
    named.filter_map(|n: Seq<char>| cardinality_error(entity, evs, ts, n))
}

/// Requirements 2 and 3: the transitions out of the entry state and into
/// the exit state.
pub open spec fn endpoint_errors(entity: Seq<char>, ts: Seq<(StateV, StateV)>) -> Seq<FsmErrorV> {
    let entries = count_sources(ts, StateV::Entry);
    error_if(entries != 1, FsmErrorV::WrongEntryCount { entity, found: entries }) + error_if(
        count_targets(ts, StateV::Entry) != 0,
        FsmErrorV::TransitionIntoEntry { entity },
    ) + error_if(count_targets(ts, StateV::Exit) == 0, FsmErrorV::NoExit { entity }) + error_if(
        count_sources(ts, StateV::Exit) != 0,
        FsmErrorV::TransitionOutOfExit { entity },
    )
}

/// Requirements 5 and 6, each checked only when the entry state (or the exit
/// state) has transitions at all.
pub open spec fn reachability_errors(
    entity: Seq<char>,
    ts: Seq<(StateV, StateV)>,
    named: Seq<Seq<char>>,
) -> Seq<FsmErrorV> {
    (if count_sources(ts, StateV::Entry) != 0 {
        unreachable_errors(entity, ts, named)
    } else {
        seq![]
    }) + (if count_targets(ts, StateV::Exit) != 0 {
        cannot_exit_errors(entity, ts, named)
    } else {
        seq![]
    })
}

/// Every violation of the FSM constraint by an entity named `entity` with
/// events `evs` and an FSM with transitions `ts`, in the order they are
/// reported: requirement 1, then 2 and 3, 4, 7, 8, 5 and 6, and 9.
pub open spec fn fsm_errors(
    entity: Seq<char>,
    evs: Seq<(Seq<char>, Cardinality)>,
    ts: Seq<(StateV, StateV)>,
) -> Seq<FsmErrorV> {
    let named = named_states(ts);
    evs.filter_map(|e: (Seq<char>, Cardinality)| reserved_error(entity, e)) + endpoint_errors(
        entity,
        ts,
    ) + error_if(named.len() == 0, FsmErrorV::NoNamedStates { entity }) + unknown_state_errors(
        entity,
        evs,
        named,
    ) + uncovered_event_errors(entity, evs, named) + reachability_errors(entity, ts, named)
        + cardinality_errors(entity, evs, ts, named)
}

} // verus!
