//! Checking an entity against its FSM constraint.
use vstd::prelude::*;

use super::spec::{
    add_name, cardinality_error, endpoint_errors, error_if, reachability_errors, state_reaches, on_cycle, has_transition, ascii_lower, cannot_exit_errors, cardinality_errors, cardinality_of, count_sources,
    count_targets, entry_word, errors_view, event_names, exit_word, expected_cardinality, fsm_errors,
    lowercases_to, named_states, reserved_error, uncovered_event_errors, unknown_state_errors,
    unreachable_errors,
};
use super::{Fsm, FsmError, FsmErrorV, State, StateV, Transition};
use super::lemmas::{
    encode, has_code, lemma_codes_reach, lemma_endpoints_have_codes, lemma_named_states,
    lemma_on_cycle_iff, lemma_reaches_iff, node_code,
};
use crate::graph::{reachable_from, reaches, reaching, strongly_connected};
use crate::schema::{events_view, Cardinality, Entity, Event, Identifier};

verus! {

/// Whether `s` equals the lowercase ASCII word `lower` when its ASCII letters
/// are lowercased; `upper` is the same word in uppercase.
fn lowercases_to_word(s: &str, lower: &[char], upper: &[char]) -> (r: bool)
    requires
        lower@.len() == upper@.len(),
        forall|i: int|
            0 <= i < lower@.len() ==> 97 <= (#[trigger] lower@[i]) as int <= 122 && upper@[i] as int
                == lower@[i] as int - 32,
    ensures
        r == lowercases_to(s@, lower@),
{
    let n = s.unicode_len();
    if n != lower.len() {
        return false;
    }
    let mut i: usize = 0;
    while i < n
        invariant
            n == s@.len(),
            n == lower@.len(),
            lower@.len() == upper@.len(),
            forall|k: int|
                0 <= k < lower@.len() ==> 97 <= (#[trigger] lower@[k]) as int <= 122
                    && upper@[k] as int == lower@[k] as int - 32,
            i <= n,
            forall|j: int| 0 <= j < i ==> ascii_lower(#[trigger] s@[j]) == lower@[j] as int,
        decreases n - i,
    {
        let c = s.get_char(i);
        if c != lower[i] && c != upper[i] {
            assert(ascii_lower(s@[i as int]) != lower@[i as int] as int);
            return false;
        }
        i = i + 1;
    }
    true
}

/// Requirement 1: reports every event named like a special state.
fn push_reserved_errors(entity: &Entity, errors: &mut Vec<FsmError>)
    ensures
        errors_view(final(errors)@) == errors_view(old(errors)@) + events_view(
            entity.events@,
        ).filter_map(|e: (Seq<char>, Cardinality)| reserved_error(entity.name@, e)),
{
    let entry: [char; 5] = ['e', 'n', 't', 'r', 'y'];
    let entry_upper: [char; 5] = ['E', 'N', 'T', 'R', 'Y'];
    let exit: [char; 4] = ['e', 'x', 'i', 't'];
    let exit_upper: [char; 4] = ['E', 'X', 'I', 'T'];
    assert(entry@ =~= entry_word());
    assert(exit@ =~= exit_word());
    let ghost evs = events_view(entity.events@);
    let ghost f = |e: (Seq<char>, Cardinality)| reserved_error(entity.name@, e);
    let ghost start = errors_view(errors@);
    let mut i: usize = 0;
    while i < entity.events.len()
        invariant
            i <= entity.events.len(),
            evs == events_view(entity.events@),
            f == (|e: (Seq<char>, Cardinality)| reserved_error(entity.name@, e)),
            entry@ == entry_word(),
            exit@ == exit_word(),
            entry_upper@ == seq!['E', 'N', 'T', 'R', 'Y'],
            exit_upper@ == seq!['E', 'X', 'I', 'T'],
            errors_view(errors@) == start + evs.take(i as int).filter_map(f),
        decreases entity.events.len() - i,
    {
        let name = entity.events[i].name.as_str();
        let ghost before = errors@;
        proof {
            assert(evs.take(i + 1).drop_last() =~= evs.take(i as int));
            assert(evs.take(i + 1).last() == evs[i as int]);
            assert(evs[i as int].0 == name@);
        }
        if lowercases_to_word(name, entry.as_slice(), entry_upper.as_slice()) {
            errors.push(FsmError::ReservedStateName { entity: entity.name.duplicate(), name: "entry" });
        } else if lowercases_to_word(name, exit.as_slice(), exit_upper.as_slice()) {
            errors.push(FsmError::ReservedStateName { entity: entity.name.duplicate(), name: "exit" });
        }
        proof {
            assert(errors_view(errors@) =~= errors_view(before) + match f(evs[i as int]) {
                Some(e) => seq![e],
                None => seq![],
            });
            assert(errors_view(errors@) =~= start + evs.take(i + 1).filter_map(f));
        }
        i = i + 1;
    }
    assert(evs.take(entity.events.len() as int) =~= evs);
}

/// The view of one state: whether it is the entry, the exit, or a named state.
fn same_state(s: &State, v: &State) -> (r: bool)
    ensures
        r == (s@ == v@),
{
    match (s, v) {
        (State::Entry, State::Entry) => true,
        (State::Exit, State::Exit) => true,
        (State::Named(a), State::Named(b)) => a.same(b),
        _ => false,
    }
}

/// Counts the transitions whose source (or, with `by_target`, target) is `s`.
fn count_endpoints(fsm: &Fsm, s: &State, by_target: bool) -> (r: usize)
    ensures
        by_target ==> r == count_targets(fsm@, s@),
        !by_target ==> r == count_sources(fsm@, s@),
{
    let ghost ts = fsm@;
    let mut count: usize = 0;
    let mut i: usize = 0;
    while i < fsm.transitions.len()
        invariant
            ts == fsm@,
            i <= fsm.transitions.len(),
            count <= i,
            by_target ==> count == count_targets(ts.take(i as int), s@),
            !by_target ==> count == count_sources(ts.take(i as int), s@),
        decreases fsm.transitions.len() - i,
    {
        proof {
            assert(ts.take(i + 1).drop_last() =~= ts.take(i as int));
            assert(ts.take(i + 1).last() == fsm.transitions@[i as int]@);
        }
        let t = &fsm.transitions[i];
        let endpoint = if by_target {
            &t.target
        } else {
            &t.source
        };
        if same_state(endpoint, s) {
            count = count + 1;
        }
        i = i + 1;
    }
    assert(ts.take(fsm.transitions.len() as int) =~= ts);
    count
}

/// Whether the names contain `n`.
pub(crate) fn contains_name(names: &Vec<Identifier>, n: &Identifier) -> (r: bool)
    ensures
        r == names@.map_values(|x: Identifier| x@).contains(n@),
{
    let ghost view = names@.map_values(|x: Identifier| x@);
    let mut i: usize = 0;
    while i < names.len()
        invariant
            i <= names.len(),
            view == names@.map_values(|x: Identifier| x@),
            forall|j: int| 0 <= j < i ==> view[j] != n@,
        decreases names.len() - i,
    {
        if names[i].same(n) {
            assert(view[i as int] == n@);
            return true;
        }
        i = i + 1;
    }
    false
}

/// Appends the name of a named state unless it is already there.
fn add_state_name(names: &mut Vec<Identifier>, s: &State)
    ensures
        final(names)@.map_values(|x: Identifier| x@) == add_name(
            old(names)@.map_values(|x: Identifier| x@),
            s@,
        ),
{
    if let State::Named(n) = s {
        if !contains_name(names, n) {
            let ghost before = names@;
            names.push(n.duplicate());
            assert(names@.map_values(|x: Identifier| x@) =~= before.map_values(
                |x: Identifier| x@,
            ).push(n@));
        }
    }
}

/// The distinct names of the named states, in order of first appearance.
pub(crate) fn named_state_names(fsm: &Fsm) -> (names: Vec<Identifier>)
    ensures
        names@.map_values(|x: Identifier| x@) == named_states(fsm@),
{
    let ghost ts = fsm@;
    let mut names: Vec<Identifier> = Vec::new();
    let mut i: usize = 0;
    assert(names@.map_values(|x: Identifier| x@) =~= named_states(ts.take(0)));
    while i < fsm.transitions.len()
        invariant
            ts == fsm@,
            i <= fsm.transitions.len(),
            names@.map_values(|x: Identifier| x@) == named_states(ts.take(i as int)),
        decreases fsm.transitions.len() - i,
    {
        proof {
            assert(ts.take(i + 1).drop_last() =~= ts.take(i as int));
            assert(ts.take(i + 1).last() == fsm.transitions@[i as int]@);
        }
        add_state_name(&mut names, &fsm.transitions[i].source);
        add_state_name(&mut names, &fsm.transitions[i].target);
        i = i + 1;
    }
    assert(ts.take(fsm.transitions.len() as int) =~= ts);
    names
}

/// The position of a name among distinct names is the position it is found
/// at.
proof fn lemma_index_of_distinct(names: Seq<Seq<char>>, i: int)
    requires
        names.no_duplicates(),
        0 <= i < names.len(),
    ensures
        names.index_of(names[i]) == i,
{
    let j = names.index_of(names[i]);
    assert(names.contains(names[i]));
    assert(0 <= j < names.len() && names[j] == names[i]);
}

/// The position of `n` among the names.
pub(crate) fn name_index(names: &Vec<Identifier>, n: &Identifier) -> (r: usize)
    requires
        names@.map_values(|x: Identifier| x@).contains(n@),
    ensures
        r < names.len(),
        names@[r as int]@ == n@,
{
    let ghost view = names@.map_values(|x: Identifier| x@);
    let mut i: usize = 0;
    while i < names.len()
        invariant
            i <= names.len(),
            view == names@.map_values(|x: Identifier| x@),
            view.contains(n@),
            forall|j: int| 0 <= j < i ==> view[j] != n@,
        decreases names.len() - i,
    {
        if names[i].same(n) {
            return i;
        }
        i = i + 1;
    }
    proof {
        let k = choose|k: int| 0 <= k < view.len() && view[k] == n@;
        assert(view[k] == n@);
    }
    0
}

/// The code of a state that has one.
fn state_code(names: &Vec<Identifier>, s: &State) -> (r: u64)
    requires
        has_code(names@.map_values(|x: Identifier| x@), s@),
        names@.map_values(|x: Identifier| x@).no_duplicates(),
        names.len() < 0x4000_0000_0000_0000,
    ensures
        r == node_code(names@.map_values(|x: Identifier| x@), s@),
{
    match s {
        State::Entry => 0,
        State::Exit => 1,
        State::Named(n) => {
            let i = name_index(names, n);
            proof {
                lemma_index_of_distinct(names@.map_values(|x: Identifier| x@), i as int);
            }
            (i as u64) + 2
        },
    }
}

/// The transitions as edges between the codes of their endpoints.
pub(crate) fn encode_transitions(fsm: &Fsm, names: &Vec<Identifier>) -> (edges: Vec<(u64, u64)>)
    requires
        names@.map_values(|x: Identifier| x@) == named_states(fsm@),
        fsm.transitions.len() < 0x2000_0000_0000_0000,
    ensures
        edges@ == encode(named_states(fsm@), fsm@),
{
    let ghost ts = fsm@;
    let ghost named = named_states(ts);
    proof {
        lemma_named_states(ts);
    }
    let mut edges: Vec<(u64, u64)> = Vec::new();
    let mut i: usize = 0;
    while i < fsm.transitions.len()
        invariant
            ts == fsm@,
            named == named_states(ts),
            names@.map_values(|x: Identifier| x@) == named,
            named.no_duplicates(),
            named.len() <= 2 * ts.len(),
            fsm.transitions.len() < 0x2000_0000_0000_0000,
            i <= fsm.transitions.len(),
            edges@ == encode(named, ts.take(i as int)),
        decreases fsm.transitions.len() - i,
    {
        proof {
            lemma_endpoints_have_codes(ts, i as int);
            assert(ts[i as int] == fsm.transitions@[i as int]@);
        }
        let t = &fsm.transitions[i];
        let a = state_code(names, &t.source);
        let b = state_code(names, &t.target);
        edges.push((a, b));
        i = i + 1;
        assert(edges@ =~= encode(named, ts.take(i as int)));
    }
    assert(ts.take(fsm.transitions.len() as int) =~= ts);
    edges
}

/// Whether `x` is among `v`.
fn contains_u64(v: &Vec<u64>, x: u64) -> (r: bool)
    ensures
        r == v@.contains(x),
{
    let mut i: usize = 0;
    while i < v.len()
        invariant
            i <= v.len(),
            forall|j: int| 0 <= j < i ==> v@[j] != x,
        decreases v.len() - i,
    {
        if v[i] == x {
            return true;
        }
        i = i + 1;
    }
    false
}

/// Whether some event of the entity is named `n`.
fn event_has_name(entity: &Entity, n: &Identifier) -> (r: bool)
    ensures
        r == event_names(events_view(entity.events@)).contains(n@),
{
    let ghost names = event_names(events_view(entity.events@));
    let mut i: usize = 0;
    while i < entity.events.len()
        invariant
            i <= entity.events.len(),
            names == event_names(events_view(entity.events@)),
            names.len() == entity.events.len(),
            forall|j: int| 0 <= j < i ==> names[j] != n@,
        decreases entity.events.len() - i,
    {
        if entity.events[i].name.same(n) {
            assert(names[i as int] == n@);
            return true;
        }
        i = i + 1;
    }
    false
}

/// Requirement 7: reports every named state that matches no event.
fn push_unknown_state_errors(entity: &Entity, names: &Vec<Identifier>, errors: &mut Vec<FsmError>)
    ensures
        errors_view(final(errors)@) == errors_view(old(errors)@) + unknown_state_errors(
            entity.name@,
            events_view(entity.events@),
            names@.map_values(|x: Identifier| x@),
        ),
{
    let ghost evs = events_view(entity.events@);
    let ghost named = names@.map_values(|x: Identifier| x@);
    let ghost f = |n: Seq<char>|
        if event_names(evs).contains(n) {
            None
        } else {
            Some(FsmErrorV::UnknownState { entity: entity.name@, state: n })
        };
    let ghost start = errors_view(errors@);
    let mut i: usize = 0;
    while i < names.len()
        invariant
            i <= names.len(),
            evs == events_view(entity.events@),
            named == names@.map_values(|x: Identifier| x@),
            f == (|n: Seq<char>|
                if event_names(evs).contains(n) {
                    None
                } else {
                    Some(FsmErrorV::UnknownState { entity: entity.name@, state: n })
                }),
            errors_view(errors@) == start + named.take(i as int).filter_map(f),
        decreases names.len() - i,
    {
        let ghost before = errors@;
        proof {
            assert(named.take(i + 1).drop_last() =~= named.take(i as int));
            assert(named.take(i + 1).last() == named[i as int]);
        }
        if !event_has_name(entity, &names[i]) {
            errors.push(
                FsmError::UnknownState {
                    entity: entity.name.duplicate(),
                    state: names[i].duplicate(),
                },
            );
        }
        proof {
            assert(errors_view(errors@) =~= errors_view(before) + match f(named[i as int]) {
                Some(e) => seq![e],
                None => seq![],
            });
        }
        i = i + 1;
    }
    assert(named.take(names.len() as int) =~= named);
    proof {
        assert(f == (|n: Seq<char>|
            if event_names(evs).contains(n) {
                None
            } else {
                Some(FsmErrorV::UnknownState { entity: entity.name@, state: n })
            }));
    }
}

/// Requirement 8: reports every event that is not a named state.
fn push_uncovered_event_errors(entity: &Entity, names: &Vec<Identifier>, errors: &mut Vec<FsmError>)
    ensures
        errors_view(final(errors)@) == errors_view(old(errors)@) + uncovered_event_errors(
            entity.name@,
            events_view(entity.events@),
            names@.map_values(|x: Identifier| x@),
        ),
{
    let ghost evs = events_view(entity.events@);
    let ghost named = names@.map_values(|x: Identifier| x@);
    let ghost f = |e: (Seq<char>, Cardinality)|
        if named.contains(e.0) {
            None
        } else {
            Some(FsmErrorV::UncoveredEvent { entity: entity.name@, event: e.0 })
        };
    let ghost start = errors_view(errors@);
    let mut i: usize = 0;
    while i < entity.events.len()
        invariant
            i <= entity.events.len(),
            evs == events_view(entity.events@),
            named == names@.map_values(|x: Identifier| x@),
            f == (|e: (Seq<char>, Cardinality)|
                if named.contains(e.0) {
                    None
                } else {
                    Some(FsmErrorV::UncoveredEvent { entity: entity.name@, event: e.0 })
                }),
            errors_view(errors@) == start + evs.take(i as int).filter_map(f),
        decreases entity.events.len() - i,
    {
        let ghost before = errors@;
        proof {
            assert(evs.take(i + 1).drop_last() =~= evs.take(i as int));
            assert(evs.take(i + 1).last() == evs[i as int]);
        }
        if !contains_name(names, &entity.events[i].name) {
            errors.push(
                FsmError::UncoveredEvent {
                    entity: entity.name.duplicate(),
                    event: entity.events[i].name.duplicate(),
                },
            );
        }
        proof {
            assert(errors_view(errors@) =~= errors_view(before) + match f(evs[i as int]) {
                Some(e) => seq![e],
                None => seq![],
            });
        }
        i = i + 1;
    }
    assert(evs.take(entity.events.len() as int) =~= evs);
}

/// Requirement 5: reports every named state that the entry state does not reach.
fn push_unreachable_errors(
    entity: &Entity,
    fsm: &Fsm,
    names: &Vec<Identifier>,
    found: &Vec<u64>,
    errors: &mut Vec<FsmError>,
)
    requires
        names@.map_values(|x: Identifier| x@) == named_states(fsm@),
        fsm.transitions.len() < 0x2000_0000_0000_0000,
        forall|n: u64| found@.contains(n) <==> reaches(encode(named_states(fsm@), fsm@), 0, n),
    ensures
        errors_view(final(errors)@) == errors_view(old(errors)@) + unreachable_errors(
            entity.name@,
            fsm@,
            named_states(fsm@),
        ),
{
    let ghost ts = fsm@;
    let ghost named = named_states(ts);
    let ghost f = |n: Seq<char>|
        if state_reaches(ts, StateV::Entry, StateV::Named(n)) {
            None
        } else {
            Some(FsmErrorV::UnreachableFromEntry { entity: entity.name@, state: n })
        };
    let ghost start = errors_view(errors@);
    proof {
        lemma_named_states(ts);
    }
    let mut i: usize = 0;
    while i < names.len()
        invariant
            i <= names.len(),
            ts == fsm@,
            named == named_states(ts),
            named.no_duplicates(),
            named.len() <= 2 * ts.len(),
            fsm.transitions.len() < 0x2000_0000_0000_0000,
            names@.map_values(|x: Identifier| x@) == named,
            forall|n: u64| found@.contains(n) <==> reaches(encode(named, ts), 0, n),
            f == (|n: Seq<char>|
                if state_reaches(ts, StateV::Entry, StateV::Named(n)) {
                    None
                } else {
                    Some(FsmErrorV::UnreachableFromEntry { entity: entity.name@, state: n })
                }),
            errors_view(errors@) == start + named.take(i as int).filter_map(f),
        decreases names.len() - i,
    {
        let ghost before = errors@;
        let ghost n = named[i as int];
        proof {
            assert(named.take(i + 1).drop_last() =~= named.take(i as int));
            assert(named.take(i + 1).last() == n);
            lemma_index_of_distinct(named, i as int);
            assert(named.contains(n));
            lemma_reaches_iff(ts, StateV::Entry, StateV::Named(n));
        }
        let code = (i as u64) + 2;
        assert(code == node_code(named, StateV::Named(n)));
        if !contains_u64(found, code) {
            errors.push(
                FsmError::UnreachableFromEntry {
                    entity: entity.name.duplicate(),
                    state: names[i].duplicate(),
                },
            );
        }
        proof {
            assert(errors_view(errors@) =~= errors_view(before) + match f(n) {
                Some(e) => seq![e],
                None => seq![],
            });
        }
        i = i + 1;
    }
    assert(named.take(names.len() as int) =~= named);
}

/// Requirement 6: reports every named state that does not reach the exit state.
fn push_cannot_exit_errors(
    entity: &Entity,
    fsm: &Fsm,
    names: &Vec<Identifier>,
    found: &Vec<u64>,
    errors: &mut Vec<FsmError>,
)
    requires
        names@.map_values(|x: Identifier| x@) == named_states(fsm@),
        fsm.transitions.len() < 0x2000_0000_0000_0000,
        forall|n: u64| found@.contains(n) <==> reaches(encode(named_states(fsm@), fsm@), n, 1),
    ensures
        errors_view(final(errors)@) == errors_view(old(errors)@) + cannot_exit_errors(
            entity.name@,
            fsm@,
            named_states(fsm@),
        ),
{
    let ghost ts = fsm@;
    let ghost named = named_states(ts);
    let ghost f = |n: Seq<char>|
        if state_reaches(ts, StateV::Named(n), StateV::Exit) {
            None
        } else {
            Some(FsmErrorV::CannotReachExit { entity: entity.name@, state: n })
        };
    let ghost start = errors_view(errors@);
    proof {
        lemma_named_states(ts);
    }
    let mut i: usize = 0;
    while i < names.len()
        invariant
            i <= names.len(),
            ts == fsm@,
            named == named_states(ts),
            named.no_duplicates(),
            named.len() <= 2 * ts.len(),
            fsm.transitions.len() < 0x2000_0000_0000_0000,
            names@.map_values(|x: Identifier| x@) == named,
            forall|n: u64| found@.contains(n) <==> reaches(encode(named, ts), n, 1),
            f == (|n: Seq<char>|
                if state_reaches(ts, StateV::Named(n), StateV::Exit) {
                    None
                } else {
                    Some(FsmErrorV::CannotReachExit { entity: entity.name@, state: n })
                }),
            errors_view(errors@) == start + named.take(i as int).filter_map(f),
        decreases names.len() - i,
    {
        let ghost before = errors@;
        let ghost n = named[i as int];
        proof {
            assert(named.take(i + 1).drop_last() =~= named.take(i as int));
            assert(named.take(i + 1).last() == n);
            lemma_index_of_distinct(named, i as int);
            assert(named.contains(n));
            lemma_reaches_iff(ts, StateV::Named(n), StateV::Exit);
        }
        let code = (i as u64) + 2;
        assert(code == node_code(named, StateV::Named(n)));
        if !contains_u64(found, code) {
            errors.push(
                FsmError::CannotReachExit {
                    entity: entity.name.duplicate(),
                    state: names[i].duplicate(),
                },
            );
        }
        proof {
            assert(errors_view(errors@) =~= errors_view(before) + match f(n) {
                Some(e) => seq![e],
                None => seq![],
            });
        }
        i = i + 1;
    }
    assert(named.take(names.len() as int) =~= named);
}

/// Whether `x` is in one of the first `upto` components with more than one
/// node.
spec fn in_large_component(sccs: Seq<Vec<u64>>, upto: int, x: u64) -> bool {
    exists|c: int| 0 <= c < upto && (#[trigger] sccs[c])@.len() > 1 && sccs[c]@.contains(x)
}

/// A node is in a component of more than one node exactly when another node
/// and it reach each other.
proof fn lemma_large_component_iff(sccs: Seq<Vec<u64>>, edges: Seq<(u64, u64)>, x: u64)
    requires
        forall|c: int| 0 <= c < sccs.len() ==> (#[trigger] sccs[c])@.no_duplicates(),
        forall|c: int, i: int, j: int|
            0 <= c < sccs.len() && 0 <= i < sccs[c]@.len() && 0 <= j < sccs[c]@.len() ==> reaches(
                edges,
                #[trigger] sccs[c]@[i],
                #[trigger] sccs[c]@[j],
            ),
        forall|a: u64, b: u64|
            a != b && #[trigger] reaches(edges, a, b) && #[trigger] reaches(edges, b, a) ==> exists|
                c: int,
            |
                0 <= c < sccs.len() && (#[trigger] sccs[c])@.contains(a) && sccs[c]@.contains(b),
    ensures
        in_large_component(sccs, sccs.len() as int, x) <==> exists|y: u64|
            y != x && #[trigger] reaches(edges, x, y) && reaches(edges, y, x),
{
    if in_large_component(sccs, sccs.len() as int, x) {
        let c = choose|c: int|
            0 <= c < sccs.len() && (#[trigger] sccs[c])@.len() > 1 && sccs[c]@.contains(x);
        let comp = sccs[c]@;
        let i = choose|i: int| 0 <= i < comp.len() && comp[i] == x;
        let j = if i == 0 {
            1int
        } else {
            0int
        };
        assert(comp[j] != comp[i]);
        assert(reaches(edges, comp[i], comp[j]));
        assert(reaches(edges, comp[j], comp[i]));
    }
    if exists|y: u64| y != x && #[trigger] reaches(edges, x, y) && reaches(edges, y, x) {
        let y = choose|y: u64| y != x && #[trigger] reaches(edges, x, y) && reaches(edges, y, x);
        let c = choose|c: int|
            0 <= c < sccs.len() && (#[trigger] sccs[c])@.contains(x) && sccs[c]@.contains(y);
        let comp = sccs[c]@;
        let i = choose|i: int| 0 <= i < comp.len() && comp[i] == x;
        let j = choose|j: int| 0 <= j < comp.len() && comp[j] == y;
        assert(i != j);
        assert(comp.len() > 1);
    }
}

/// Whether the first `upto` transitions hold a self-transition of `n`.
spec fn self_transition_upto(ts: Seq<(StateV, StateV)>, upto: int, n: Seq<char>) -> bool {
    exists|k: int|
        0 <= k < upto && #[trigger] ts[k] == (StateV::Named(n), StateV::Named(n))
}

/// For each named state, whether it lies on a cycle (requirement 9).
pub(crate) fn cycle_flags(fsm: &Fsm, names: &Vec<Identifier>, edges: &Vec<(u64, u64)>) -> (flags: Vec<bool>)
    requires
        names@.map_values(|x: Identifier| x@) == named_states(fsm@),
        edges@ == encode(named_states(fsm@), fsm@),
        fsm.transitions.len() < 0x2000_0000_0000_0000,
    ensures
        flags.len() == names.len(),
        forall|i: int|
            0 <= i < flags.len() ==> flags@[i] == on_cycle(
                fsm@,
                StateV::Named(named_states(fsm@)[i]),
            ),
{
    let ghost ts = fsm@;
    let ghost named = named_states(ts);
    proof {
        lemma_named_states(ts);
    }
    let sccs = strongly_connected(edges);
    let n = names.len();
    let mut flags: Vec<bool> = Vec::new();
    while flags.len() < n
        invariant
            flags.len() <= n,
            forall|i: int| 0 <= i < flags.len() ==> !flags@[i],
        decreases n - flags.len(),
    {
        flags.push(false);
    }
    let mut c: usize = 0;
    while c < sccs.len()
        invariant
            n == names.len(),
            n == named.len(),
            ts == fsm@,
            named.len() <= 2 * ts.len(),
            fsm.transitions.len() < 0x2000_0000_0000_0000,
            flags.len() == n,
            c <= sccs.len(),
            forall|i: int|
                0 <= i < n ==> flags@[i] == in_large_component(sccs@, c as int, (i + 2) as u64),
        decreases sccs.len() - c,
    {
        if sccs[c].len() > 1 {
            let mut j: usize = 0;
            while j < sccs[c].len()
                invariant
                    n == named.len(),
                    ts == fsm@,
                    named.len() <= 2 * ts.len(),
                    fsm.transitions.len() < 0x2000_0000_0000_0000,
                    flags.len() == n,
                    c < sccs.len(),
                    sccs@[c as int]@.len() > 1,
                    j <= sccs@[c as int]@.len(),
                    forall|i: int|
                        0 <= i < n ==> flags@[i] == (in_large_component(
                            sccs@,
                            c as int,
                            (i + 2) as u64,
                        ) || exists|k: int|
                            0 <= k < j && #[trigger] sccs@[c as int]@[k] == (i + 2) as u64),
                decreases sccs@[c as int]@.len() - j,
            {
                let node = sccs[c][j];
                if node >= 2 && node - 2 < n as u64 {
                    let ghost old_flags = flags@;
                    flags.set((node - 2) as usize, true);
                    assert forall|i: int| 0 <= i < n implies flags@[i] == (in_large_component(
                        sccs@,
                        c as int,
                        (i + 2) as u64,
                    ) || exists|k: int|
                        0 <= k < j + 1 && #[trigger] sccs@[c as int]@[k] == (i + 2) as u64) by {
                        assert((i + 2) as u64 == i + 2);
                        if i == (node - 2) as int {
                            assert(sccs@[c as int]@[j as int] == (i + 2) as u64);
                        } else {
                            assert(old_flags[i] == flags@[i]);
                            if exists|k: int|
                                0 <= k < j + 1 && #[trigger] sccs@[c as int]@[k] == (i + 2) as u64 {
                                let k = choose|k: int|
                                    0 <= k < j + 1 && #[trigger] sccs@[c as int]@[k] == (i + 2) as u64;
                                assert(k != j);
                            }
                        }
                    }
                } else {
                    assert forall|i: int| 0 <= i < n implies flags@[i] == (in_large_component(
                        sccs@,
                        c as int,
                        (i + 2) as u64,
                    ) || exists|k: int|
                        0 <= k < j + 1 && #[trigger] sccs@[c as int]@[k] == (i + 2) as u64) by {
                        assert((i + 2) as u64 == i + 2);
                        if exists|k: int|
                            0 <= k < j + 1 && #[trigger] sccs@[c as int]@[k] == (i + 2) as u64 {
                            let k = choose|k: int|
                                0 <= k < j + 1 && #[trigger] sccs@[c as int]@[k] == (i + 2) as u64;
                            assert(k != j);
                        }
                    }
                }
                j = j + 1;
            }
            assert forall|i: int| 0 <= i < n implies flags@[i] == in_large_component(
                sccs@,
                c + 1,
                (i + 2) as u64,
            ) by {
                let x = (i + 2) as u64;
                if exists|k: int| 0 <= k < sccs@[c as int]@.len() && #[trigger] sccs@[c as int]@[k] == x {
                    let k = choose|k: int|
                        0 <= k < sccs@[c as int]@.len() && #[trigger] sccs@[c as int]@[k] == x;
                    assert(sccs@[c as int]@.contains(x));
                }
                if in_large_component(sccs@, c + 1, x) {
                    let c2 = choose|c2: int|
                        0 <= c2 < c + 1 && (#[trigger] sccs@[c2])@.len() > 1 && sccs@[c2]@.contains(x);
                    if c2 == c {
                        let k = choose|k: int| 0 <= k < sccs@[c2]@.len() && sccs@[c2]@[k] == x;
                        assert(sccs@[c as int]@[k] == x);
                    }
                }
            }
        } else {
            assert forall|i: int| 0 <= i < n implies flags@[i] == in_large_component(
                sccs@,
                c + 1,
                (i + 2) as u64,
            ) by {
                let x = (i + 2) as u64;
                if in_large_component(sccs@, c + 1, x) {
                    let c2 = choose|c2: int|
                        0 <= c2 < c + 1 && (#[trigger] sccs@[c2])@.len() > 1 && sccs@[c2]@.contains(x);
                    assert(c2 != c);
                }
            }
        }
        c = c + 1;
    }
    let mut k: usize = 0;
    while k < fsm.transitions.len()
        invariant
            ts == fsm@,
            named == named_states(ts),
            names@.map_values(|x: Identifier| x@) == named,
            n == names.len(),
            n == named.len(),
            flags.len() == n,
            k <= fsm.transitions.len(),
            forall|i: int|
                0 <= i < n ==> flags@[i] == (in_large_component(
                    sccs@,
                    sccs@.len() as int,
                    (i + 2) as u64,
                ) || self_transition_upto(ts, k as int, named[i])),
        decreases fsm.transitions.len() - k,
    {
        let ghost old_flags = flags@;
        let t = &fsm.transitions[k];
        assert(ts[k as int] == t@);
        let ghost mut hit: int = -1;
        if let State::Named(a) = &t.source {
            if let State::Named(b) = &t.target {
                if a.same(b) {
                    proof {
                        lemma_endpoints_have_codes(ts, k as int);
                    }
                    let idx = name_index(names, a);
                    flags.set(idx, true);
                    proof {
                        hit = idx as int;
                    }
                }
            }
        }
        proof {
            lemma_named_states(ts);
        }
        assert(hit >= 0 ==> 0 <= hit < n && ts[k as int] == (
            StateV::Named(named[hit]),
            StateV::Named(named[hit]),
        ) && flags@ == old_flags.update(hit, true));
        assert(hit < 0 ==> flags@ == old_flags && forall|x: Seq<char>|
            ts[k as int] != (StateV::Named(x), StateV::Named(x)));
        assert forall|i: int| 0 <= i < n implies flags@[i] == (in_large_component(
            sccs@,
            sccs@.len() as int,
            (i + 2) as u64,
        ) || self_transition_upto(ts, k + 1, named[i])) by {
            if self_transition_upto(ts, k + 1, named[i]) && !self_transition_upto(ts, k as int, named[i]) {
                assert(ts[k as int] == (StateV::Named(named[i]), StateV::Named(named[i])));
                assert(hit >= 0);
                assert(named[hit] == named[i]);
            }
            if self_transition_upto(ts, k as int, named[i]) {
                let kk = choose|kk: int|
                    0 <= kk < k && #[trigger] ts[kk] == (StateV::Named(named[i]), StateV::Named(named[i]));
                assert(self_transition_upto(ts, k + 1, named[i]));
            }
            if hit >= 0 && i == hit {
                assert(self_transition_upto(ts, k + 1, named[i]));
            }
        }
        k = k + 1;
    }
    assert forall|i: int| 0 <= i < n implies flags@[i] == on_cycle(ts, StateV::Named(named[i])) by {
        let x = (i + 2) as u64;
        lemma_index_of_distinct(named, i);
        assert(named.contains(named[i]));
        assert(x == node_code(named, StateV::Named(named[i])));
        lemma_large_component_iff(sccs@, edges@, x);
        lemma_on_cycle_iff(ts, named[i]);
        if has_transition(ts, StateV::Named(named[i]), StateV::Named(named[i])) {
            let kk = choose|kk: int|
                0 <= kk < ts.len() && #[trigger] ts[kk] == (StateV::Named(named[i]), StateV::Named(named[i]));
            assert(self_transition_upto(ts, ts.len() as int, named[i]));
        }
    }
    flags
}

/// The cardinality of the last event of the entity named `n`, if any.
fn event_cardinality(entity: &Entity, n: &Identifier) -> (r: Option<Cardinality>)
    ensures
        r == cardinality_of(events_view(entity.events@), n@),
{
    let ghost evs = events_view(entity.events@);
    let mut found: Option<Cardinality> = None;
    let mut i: usize = 0;
    while i < entity.events.len()
        invariant
            i <= entity.events.len(),
            evs == events_view(entity.events@),
            found == cardinality_of(evs.take(i as int), n@),
        decreases entity.events.len() - i,
    {
        proof {
            assert(evs.take(i + 1).drop_last() =~= evs.take(i as int));
            assert(evs.take(i + 1).last() == evs[i as int]);
        }
        if entity.events[i].name.same(n) {
            found = Some(entity.events[i].cardinality);
        }
        i = i + 1;
    }
    assert(evs.take(entity.events.len() as int) =~= evs);
    found
}

/// Requirement 9: reports every named state whose event has the wrong
/// cardinality.
fn push_cardinality_errors(
    entity: &Entity,
    fsm: &Fsm,
    names: &Vec<Identifier>,
    flags: &Vec<bool>,
    errors: &mut Vec<FsmError>,
)
    requires
        names@.map_values(|x: Identifier| x@) == named_states(fsm@),
        flags.len() == names.len(),
        forall|i: int|
            0 <= i < flags.len() ==> flags@[i] == on_cycle(
                fsm@,
                StateV::Named(named_states(fsm@)[i]),
            ),
    ensures
        errors_view(final(errors)@) == errors_view(old(errors)@) + cardinality_errors(
            entity.name@,
            events_view(entity.events@),
            fsm@,
            named_states(fsm@),
        ),
{
    let ghost ts = fsm@;
    let ghost evs = events_view(entity.events@);
    let ghost named = named_states(ts);
    let ghost f = |n: Seq<char>| cardinality_error(entity.name@, evs, ts, n);
    let ghost start = errors_view(errors@);
    let mut i: usize = 0;
    while i < names.len()
        invariant
            i <= names.len(),
            ts == fsm@,
            evs == events_view(entity.events@),
            named == named_states(ts),
            names@.map_values(|x: Identifier| x@) == named,
            flags.len() == names.len(),
            forall|j: int| 0 <= j < flags.len() ==> flags@[j] == on_cycle(ts, StateV::Named(named[j])),
            f == (|n: Seq<char>| cardinality_error(entity.name@, evs, ts, n)),
            errors_view(errors@) == start + named.take(i as int).filter_map(f),
        decreases names.len() - i,
    {
        let ghost before = errors@;
        proof {
            assert(named.take(i + 1).drop_last() =~= named.take(i as int));
            assert(named.take(i + 1).last() == named[i as int]);
        }
        let expected = if flags[i] {
            Cardinality::Multi
        } else {
            Cardinality::Once
        };
        assert(expected == expected_cardinality(ts, named[i as int]));
        if let Some(found) = event_cardinality(entity, &names[i]) {
            if found != expected {
                errors.push(
                    FsmError::CardinalityMismatch {
                        entity: entity.name.duplicate(),
                        state: names[i].duplicate(),
                        expected,
                        found,
                    },
                );
            }
        }
        proof {
            assert(errors_view(errors@) =~= errors_view(before) + match f(named[i as int]) {
                Some(e) => seq![e],
                None => seq![],
            });
        }
        i = i + 1;
    }
    assert(named.take(names.len() as int) =~= named);
}

/// Requirements 2 and 3: reports the transitions out of the entry state and
/// into the exit state; returns how many leave the entry and how many reach
/// the exit.
fn push_endpoint_errors(entity: &Entity, fsm: &Fsm, errors: &mut Vec<FsmError>) -> (r: (
    usize,
    usize,
))
    ensures
        r.0 == count_sources(fsm@, StateV::Entry),
        r.1 == count_targets(fsm@, StateV::Exit),
        errors_view(final(errors)@) == errors_view(old(errors)@) + endpoint_errors(
            entity.name@,
            fsm@,
        ),
{
    let ghost ts = fsm@;
    let ghost ename = entity.name@;
    let ghost start = errors_view(errors@);
    let entries = count_endpoints(fsm, &State::Entry, false);
    if entries != 1 {
        errors.push(FsmError::WrongEntryCount { entity: entity.name.duplicate(), found: entries });
    }
    let ghost s1 = errors_view(errors@);
    assert(s1 =~= start + error_if(
        entries != 1,
        FsmErrorV::WrongEntryCount { entity: ename, found: entries as nat },
    ));
    // Entry is only ever transitioned from, never into.
    let into_entry = count_endpoints(fsm, &State::Entry, true);
    if into_entry != 0 {
        errors.push(FsmError::TransitionIntoEntry { entity: entity.name.duplicate() });
    }
    let ghost s2 = errors_view(errors@);
    assert(s2 =~= s1 + error_if(into_entry != 0, FsmErrorV::TransitionIntoEntry { entity: ename }));
    let exits = count_endpoints(fsm, &State::Exit, true);
    if exits == 0 {
        errors.push(FsmError::NoExit { entity: entity.name.duplicate() });
    }
    let ghost s3 = errors_view(errors@);
    assert(s3 =~= s2 + error_if(exits == 0, FsmErrorV::NoExit { entity: ename }));
    // Exit is only ever transitioned into, never from.
    let out_of_exit = count_endpoints(fsm, &State::Exit, false);
    if out_of_exit != 0 {
        errors.push(FsmError::TransitionOutOfExit { entity: entity.name.duplicate() });
    }
    let ghost s4 = errors_view(errors@);
    assert(s4 =~= s3 + error_if(out_of_exit != 0, FsmErrorV::TransitionOutOfExit { entity: ename }));
    assert(s4 =~= start + endpoint_errors(ename, ts));
    (entries, exits)
}

/// Requirements 5 and 6: reports the named states that the entry does not
/// reach (when the entry has transitions) and that do not reach the exit (when
/// the exit has transitions).
fn push_reachability_errors(
    entity: &Entity,
    fsm: &Fsm,
    names: &Vec<Identifier>,
    edges: &Vec<(u64, u64)>,
    entries: usize,
    exits: usize,
    errors: &mut Vec<FsmError>,
)
    requires
        names@.map_values(|x: Identifier| x@) == named_states(fsm@),
        edges@ == encode(named_states(fsm@), fsm@),
        fsm.transitions.len() < 0x2000_0000_0000_0000,
        entries == count_sources(fsm@, StateV::Entry),
        exits == count_targets(fsm@, StateV::Exit),
    ensures
        errors_view(final(errors)@) == errors_view(old(errors)@) + reachability_errors(
            entity.name@,
            fsm@,
            named_states(fsm@),
        ),
{
    let ghost start = errors_view(errors@);
    // Requirement 5: every named state is reachable from Entry.
    if entries != 0 {
        let from_entry = reachable_from(edges, 0);
        push_unreachable_errors(entity, fsm, names, &from_entry, errors);
    }
    let ghost mid = errors_view(errors@);
    // Requirement 6: every named state can reach Exit.
    if exits != 0 {
        let to_exit = reaching(edges, 1);
        push_cannot_exit_errors(entity, fsm, names, &to_exit, errors);
    }
    assert(errors_view(errors@) =~= start + reachability_errors(
        entity.name@,
        fsm@,
        named_states(fsm@),
    ));
}

/// Checks an entity against its FSM and appends every violation, in the order
/// of [`fsm_errors`].
pub fn check_entity(entity: &Entity, fsm: &Fsm, errors: &mut Vec<FsmError>)
    requires
        fsm.transitions.len() < 0x2000_0000_0000_0000,
    ensures
        errors_view(final(errors)@) == errors_view(old(errors)@) + fsm_errors(
            entity.name@,
            events_view(entity.events@),
            fsm@,
        ),
{
    let ghost start = errors_view(errors@);
    let ghost ename = entity.name@;

    // Requirement 1: no event may be named "entry" or "exit".
    push_reserved_errors(entity, errors);
    let ghost s1 = errors_view(errors@);

    // Requirements 2 and 3.
    let (entries, exits) = push_endpoint_errors(entity, fsm, errors);
    let ghost s2 = errors_view(errors@);

    // Requirement 4: the FSM has at least one named state.
    let names = named_state_names(fsm);
    if names.len() == 0 {
        errors.push(FsmError::NoNamedStates { entity: entity.name.duplicate() });
    }
    let ghost s3 = errors_view(errors@);
    assert(s3 =~= s2 + error_if(names.len() == 0, FsmErrorV::NoNamedStates { entity: ename }));

    // Requirements 7 and 8: named states and events correspond.
    push_unknown_state_errors(entity, &names, errors);
    push_uncovered_event_errors(entity, &names, errors);

    // Requirements 5 and 6.
    let edges = encode_transitions(fsm, &names);
    push_reachability_errors(entity, fsm, &names, &edges, entries, exits, errors);

    // Requirement 9: a state on a cycle is Multi, otherwise Once.
    let flags = cycle_flags(fsm, &names, &edges);
    push_cardinality_errors(entity, fsm, &names, &flags, errors);
    assert(errors_view(errors@) =~= start + fsm_errors(ename, events_view(entity.events@), fsm@));
}

} // verus!
