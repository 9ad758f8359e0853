//! What the FSM constraint reports for each requirement, stated over the
//! events and transitions themselves.
use vstd::prelude::*;

use super::lemmas::{lemma_filter_map_keeps, lemma_named_states};
use super::spec::{
    cannot_exit_errors, cardinality_errors, count_sources, count_targets, endpoint_errors,
    entry_word, error_if, event_names, exit_word, fsm_errors, lowercases_to, named_states,
    reachability_errors, reserved_error, state_reaches, uncovered_event_errors,
    unknown_state_errors, unreachable_errors,
};
use super::{FsmErrorV, StateV};
use crate::schema::Cardinality;

verus! {

/// Whether `n` names a state at either end of some transition of `ts`.
pub open spec fn is_named_state(ts: Seq<(StateV, StateV)>, n: Seq<char>) -> bool {
    exists|k: int|
        0 <= k < ts.len() && ((#[trigger] ts[k]).0 == StateV::Named(n) || ts[k].1 == StateV::Named(
            n,
        ))
}

/// Whether some event of `evs` is named `n`.
pub open spec fn is_event(evs: Seq<(Seq<char>, Cardinality)>, n: Seq<char>) -> bool {
    exists|i: int| 0 <= i < evs.len() && (#[trigger] evs[i]).0 == n
}

/// Whether some event of `evs` is named like `word` when ASCII letters are
/// lowercased.
pub open spec fn has_event_named_like(evs: Seq<(Seq<char>, Cardinality)>, word: Seq<char>) -> bool {
    exists|i: int| 0 <= i < evs.len() && lowercases_to((#[trigger] evs[i]).0, word)
}

/// A number for each kind of report.
pub open spec fn kind(x: FsmErrorV) -> int {
    match x {
        FsmErrorV::InvalidData { .. } => 0,
        FsmErrorV::ReservedStateName { .. } => 1,
        FsmErrorV::WrongEntryCount { .. } => 2,
        FsmErrorV::NoExit { .. } => 3,
        FsmErrorV::TransitionIntoEntry { .. } => 4,
        FsmErrorV::TransitionOutOfExit { .. } => 5,
        FsmErrorV::NoNamedStates { .. } => 6,
        FsmErrorV::UnreachableFromEntry { .. } => 7,
        FsmErrorV::CannotReachExit { .. } => 8,
        FsmErrorV::UnknownState { .. } => 9,
        FsmErrorV::UncoveredEvent { .. } => 10,
        FsmErrorV::CardinalityMismatch { .. } => 11,
        FsmErrorV::Multiple => 12,
    }
}

/// An element of a concatenation is one of either part.
proof fn lemma_contains_add<A>(a: Seq<A>, b: Seq<A>, x: A)
    ensures
        (a + b).contains(x) == (a.contains(x) || b.contains(x)),
{
    if (a + b).contains(x) {
        let i = choose|i: int| 0 <= i < (a + b).len() && (a + b)[i] == x;
        if i < a.len() {
            assert(a[i] == x);
        } else {
            assert(b[i - a.len()] == x);
        }
    }
    if a.contains(x) {
        let i = choose|i: int| 0 <= i < a.len() && a[i] == x;
        assert((a + b)[i] == x);
    }
    if b.contains(x) {
        let i = choose|i: int| 0 <= i < b.len() && b[i] == x;
        assert((a + b)[a.len() + i] == x);
    }
}

/// What `filter_map` keeps: exactly the values of the elements that map to
/// one.
proof fn lemma_filter_map_iff<A, B>(s: Seq<A>, f: spec_fn(A) -> Option<B>, x: B)
    ensures
        s.filter_map(f).contains(x) == exists|t: A| #[trigger] s.contains(t) && f(t) == Some(x),
{
    if s.filter_map(f).contains(x) {
        s.lemma_filter_map_contains(f, x);
    }
    if exists|t: A| #[trigger] s.contains(t) && f(t) == Some(x) {
        let t = choose|t: A| #[trigger] s.contains(t) && f(t) == Some(x);
        lemma_filter_map_keeps(s, f, t);
    }
}

/// A one-element report holds exactly its element.
proof fn lemma_error_if(c: bool, e: FsmErrorV, x: FsmErrorV)
    ensures
        error_if(c, e).contains(x) == (c && x == e),
{
    if c && x == e {
        assert(error_if(c, e)[0] == x);
    }
}

/// The reports of an entity, part by part: each part holds reports of its
/// own kinds only, and the whole holds what its parts hold.
proof fn lemma_parts(
    entity: Seq<char>,
    evs: Seq<(Seq<char>, Cardinality)>,
    ts: Seq<(StateV, StateV)>,
    x: FsmErrorV,
)
    ensures
        ({
            let named = named_states(ts);
            let p1 = evs.filter_map(|e: (Seq<char>, Cardinality)| reserved_error(entity, e));
            let p2 = endpoint_errors(entity, ts);
            let p3 = error_if(named.len() == 0, FsmErrorV::NoNamedStates { entity });
            let p4 = unknown_state_errors(entity, evs, named);
            let p5 = uncovered_event_errors(entity, evs, named);
            let p6 = reachability_errors(entity, ts, named);
            let p7 = cardinality_errors(entity, evs, ts, named);
            &&& fsm_errors(entity, evs, ts).contains(x) == (p1.contains(x) || p2.contains(x)
                || p3.contains(x) || p4.contains(x) || p5.contains(x) || p6.contains(x)
                || p7.contains(x))
            &&& p1.contains(x) ==> kind(x) == 1
            &&& p2.contains(x) ==> 2 <= kind(x) <= 5
            &&& p3.contains(x) ==> kind(x) == 6
            &&& p4.contains(x) ==> kind(x) == 9
            &&& p5.contains(x) ==> kind(x) == 10
            &&& p6.contains(x) ==> 7 <= kind(x) <= 8
            &&& p7.contains(x) ==> kind(x) == 11
        }),
{
    let named = named_states(ts);
    let r = |e: (Seq<char>, Cardinality)| reserved_error(entity, e);
    let p1 = evs.filter_map(r);
    let p2 = endpoint_errors(entity, ts);
    let p3 = error_if(named.len() == 0, FsmErrorV::NoNamedStates { entity });
    let p4 = unknown_state_errors(entity, evs, named);
    let p5 = uncovered_event_errors(entity, evs, named);
    let p6 = reachability_errors(entity, ts, named);
    let p7 = cardinality_errors(entity, evs, ts, named);
    assert(fsm_errors(entity, evs, ts) == p1 + p2 + p3 + p4 + p5 + p6 + p7);
    lemma_contains_add(p1 + p2 + p3 + p4 + p5 + p6, p7, x);
    lemma_contains_add(p1 + p2 + p3 + p4 + p5, p6, x);
    lemma_contains_add(p1 + p2 + p3 + p4, p5, x);
    lemma_contains_add(p1 + p2 + p3, p4, x);
    lemma_contains_add(p1 + p2, p3, x);
    lemma_contains_add(p1, p2, x);
    if p1.contains(x) {
        evs.lemma_filter_map_contains(r, x);
    }
    let entries = count_sources(ts, StateV::Entry);
    let a = error_if(entries != 1, FsmErrorV::WrongEntryCount { entity, found: entries });
    let b = error_if(
        count_targets(ts, StateV::Entry) != 0,
        FsmErrorV::TransitionIntoEntry { entity },
    );
    let c = error_if(count_targets(ts, StateV::Exit) == 0, FsmErrorV::NoExit { entity });
    let d = error_if(
        count_sources(ts, StateV::Exit) != 0,
        FsmErrorV::TransitionOutOfExit { entity },
    );
    assert(p2 == a + b + c + d);
    lemma_contains_add(a + b + c, d, x);
    lemma_contains_add(a + b, c, x);
    lemma_contains_add(a, b, x);
    lemma_error_if(entries != 1, FsmErrorV::WrongEntryCount { entity, found: entries }, x);
    lemma_error_if(
        count_targets(ts, StateV::Entry) != 0,
        FsmErrorV::TransitionIntoEntry { entity },
        x,
    );
    lemma_error_if(count_targets(ts, StateV::Exit) == 0, FsmErrorV::NoExit { entity }, x);
    lemma_error_if(
        count_sources(ts, StateV::Exit) != 0,
        FsmErrorV::TransitionOutOfExit { entity },
        x,
    );
    lemma_error_if(named.len() == 0, FsmErrorV::NoNamedStates { entity }, x);
    if p4.contains(x) {
        named.lemma_filter_map_contains(
            |n: Seq<char>|
                if event_names(evs).contains(n) {
                    None
                } else {
                    Some(FsmErrorV::UnknownState { entity, state: n })
                },
            x,
        );
    }
    if p5.contains(x) {
        evs.lemma_filter_map_contains(
            |e: (Seq<char>, Cardinality)|
                if named.contains(e.0) {
                    None
                } else {
                    Some(FsmErrorV::UncoveredEvent { entity, event: e.0 })
                },
            x,
        );
    }
    let u = if count_sources(ts, StateV::Entry) != 0 {
        unreachable_errors(entity, ts, named)
    } else {
        seq![]
    };
    let v = if count_targets(ts, StateV::Exit) != 0 {
        cannot_exit_errors(entity, ts, named)
    } else {
        seq![]
    };
    assert(p6 == u + v);
    lemma_contains_add(u, v, x);
    if u.contains(x) {
        named.lemma_filter_map_contains(
            |n: Seq<char>|
                if state_reaches(ts, StateV::Entry, StateV::Named(n)) {
                    None
                } else {
                    Some(FsmErrorV::UnreachableFromEntry { entity, state: n })
                },
            x,
        );
    }
    if v.contains(x) {
        named.lemma_filter_map_contains(
            |n: Seq<char>|
                if state_reaches(ts, StateV::Named(n), StateV::Exit) {
                    None
                } else {
                    Some(FsmErrorV::CannotReachExit { entity, state: n })
                },
            x,
        );
    }
    if p7.contains(x) {
        named.lemma_filter_map_contains(
            |n: Seq<char>| super::spec::cardinality_error(entity, evs, ts, n),
            x,
        );
    }
}

/// The names of the events are the events' names.
proof fn lemma_event_names(evs: Seq<(Seq<char>, Cardinality)>, n: Seq<char>)
    ensures
        event_names(evs).contains(n) == is_event(evs, n),
{
    if event_names(evs).contains(n) {
        let i = choose|i: int| 0 <= i < event_names(evs).len() && event_names(evs)[i] == n;
        assert(evs[i].0 == n);
    }
    if is_event(evs, n) {
        let i = choose|i: int| 0 <= i < evs.len() && (#[trigger] evs[i]).0 == n;
        assert(event_names(evs)[i] == n);
    }
}

/// Law (requirements 7 and 8): a state is reported unknown exactly when it
/// names a transition's end but no event; an event is reported uncovered
/// exactly when it is no transition's end.
pub proof fn law_unknown_and_uncovered(
    entity: Seq<char>,
    evs: Seq<(Seq<char>, Cardinality)>,
    ts: Seq<(StateV, StateV)>,
    n: Seq<char>,
)
    ensures
        fsm_errors(entity, evs, ts).contains(FsmErrorV::UnknownState { entity, state: n }) == (
        is_named_state(ts, n) && !is_event(evs, n)),
        fsm_errors(entity, evs, ts).contains(FsmErrorV::UncoveredEvent { entity, event: n }) == (
        is_event(evs, n) && !is_named_state(ts, n)),
{
    let named = named_states(ts);
    lemma_named_states(ts);
    lemma_event_names(evs, n);
    let x = FsmErrorV::UnknownState { entity, state: n };
    let y = FsmErrorV::UncoveredEvent { entity, event: n };
    lemma_parts(entity, evs, ts, x);
    lemma_parts(entity, evs, ts, y);
    let f = |m: Seq<char>|
        if event_names(evs).contains(m) {
            None
        } else {
            Some(FsmErrorV::UnknownState { entity, state: m })
        };
    lemma_filter_map_iff(named, f, x);
    if named.contains(n) && !event_names(evs).contains(n) {
        assert(named.contains(n) && f(n) == Some(x));
    }
    let g = |e: (Seq<char>, Cardinality)|
        if named.contains(e.0) {
            None
        } else {
            Some(FsmErrorV::UncoveredEvent { entity, event: e.0 })
        };
    lemma_filter_map_iff(evs, g, y);
    if is_event(evs, n) && !named.contains(n) {
        let i = choose|i: int| 0 <= i < evs.len() && (#[trigger] evs[i]).0 == n;
        assert(evs.contains(evs[i]) && g(evs[i]) == Some(y));
    }
    if exists|t: (Seq<char>, Cardinality)| #[trigger] evs.contains(t) && g(t) == Some(y) {
        let t = choose|t: (Seq<char>, Cardinality)| #[trigger] evs.contains(t) && g(t) == Some(y);
        let i = choose|i: int| 0 <= i < evs.len() && evs[i] == t;
        assert(evs[i].0 == n);
    }
}

/// Law (requirements 5 and 6): where some transition leaves the entry
/// state, a state is reported unreachable exactly when it names a
/// transition's end that the entry state does not reach; where some
/// transition enters the exit state, a state is reported unable to exit
/// exactly when it names a transition's end that does not reach the exit.
/// Without such a transition, neither is reported.
pub proof fn law_reachability(
    entity: Seq<char>,
    evs: Seq<(Seq<char>, Cardinality)>,
    ts: Seq<(StateV, StateV)>,
    n: Seq<char>,
)
    ensures
        fsm_errors(entity, evs, ts).contains(FsmErrorV::UnreachableFromEntry { entity, state: n })
            == (count_sources(ts, StateV::Entry) != 0 && is_named_state(ts, n) && !state_reaches(
            ts,
            StateV::Entry,
            StateV::Named(n),
        )),
        fsm_errors(entity, evs, ts).contains(FsmErrorV::CannotReachExit { entity, state: n }) == (
        count_targets(ts, StateV::Exit) != 0 && is_named_state(ts, n) && !state_reaches(
            ts,
            StateV::Named(n),
            StateV::Exit,
        )),
{
    let named = named_states(ts);
    lemma_named_states(ts);
    let x = FsmErrorV::UnreachableFromEntry { entity, state: n };
    let y = FsmErrorV::CannotReachExit { entity, state: n };
    lemma_parts(entity, evs, ts, x);
    lemma_parts(entity, evs, ts, y);
    let fu = |m: Seq<char>|
        if state_reaches(ts, StateV::Entry, StateV::Named(m)) {
            None
        } else {
            Some(FsmErrorV::UnreachableFromEntry { entity, state: m })
        };
    let fv = |m: Seq<char>|
        if state_reaches(ts, StateV::Named(m), StateV::Exit) {
            None
        } else {
            Some(FsmErrorV::CannotReachExit { entity, state: m })
        };
    let u = if count_sources(ts, StateV::Entry) != 0 {
        unreachable_errors(entity, ts, named)
    } else {
        seq![]
    };
    let v = if count_targets(ts, StateV::Exit) != 0 {
        cannot_exit_errors(entity, ts, named)
    } else {
        seq![]
    };
    assert(reachability_errors(entity, ts, named) == u + v);
    lemma_contains_add(u, v, x);
    lemma_contains_add(u, v, y);
    lemma_filter_map_iff(named, fu, x);
    lemma_filter_map_iff(named, fu, y);
    lemma_filter_map_iff(named, fv, x);
    lemma_filter_map_iff(named, fv, y);
    if named.contains(n) {
        assert(fu(n) == Some(x) || state_reaches(ts, StateV::Entry, StateV::Named(n)));
        assert(fv(n) == Some(y) || state_reaches(ts, StateV::Named(n), StateV::Exit));
    }
    assert(!seq![].contains(x));
    assert(!seq![].contains(y));
}

/// Law (requirement 4): the absence of named states is reported exactly
/// when no transition has a named end.
pub proof fn law_no_named_states(
    entity: Seq<char>,
    evs: Seq<(Seq<char>, Cardinality)>,
    ts: Seq<(StateV, StateV)>,
)
    ensures
        fsm_errors(entity, evs, ts).contains(FsmErrorV::NoNamedStates { entity }) == (forall|
            n: Seq<char>,
        | !is_named_state(ts, n)),
{
    let x = FsmErrorV::NoNamedStates { entity };
    let named = named_states(ts);
    lemma_named_states(ts);
    lemma_parts(entity, evs, ts, x);
    lemma_error_if(named.len() == 0, x, x);
    if named.len() > 0 {
        assert(named.contains(named[0]));
        assert(is_named_state(ts, named[0]));
    } else {
        assert forall|n: Seq<char>| !is_named_state(ts, n) by {
            if is_named_state(ts, n) {
                assert(named.contains(n));
            }
        }
    }
}

/// The endpoint reports hold exactly the reports whose conditions hold.
proof fn lemma_endpoint_contains(entity: Seq<char>, ts: Seq<(StateV, StateV)>, x: FsmErrorV)
    ensures
        endpoint_errors(entity, ts).contains(x) == ({
            ||| (count_sources(ts, StateV::Entry) != 1
            && x == FsmErrorV::WrongEntryCount { entity, found: count_sources(ts, StateV::Entry) })
        ||| (count_targets(ts, StateV::Entry) != 0 && x == FsmErrorV::TransitionIntoEntry {
            entity,
        })
        ||| (count_targets(ts, StateV::Exit) == 0 && x == FsmErrorV::NoExit { entity })
        ||| (count_sources(ts, StateV::Exit) != 0 && x == FsmErrorV::TransitionOutOfExit {
            entity,
        })
        }),
{
    let entries = count_sources(ts, StateV::Entry);
    let a = error_if(entries != 1, FsmErrorV::WrongEntryCount { entity, found: entries });
    let b = error_if(
        count_targets(ts, StateV::Entry) != 0,
        FsmErrorV::TransitionIntoEntry { entity },
    );
    let c = error_if(count_targets(ts, StateV::Exit) == 0, FsmErrorV::NoExit { entity });
    let d = error_if(
        count_sources(ts, StateV::Exit) != 0,
        FsmErrorV::TransitionOutOfExit { entity },
    );
    assert(endpoint_errors(entity, ts) == a + b + c + d);
    lemma_contains_add(a + b + c, d, x);
    lemma_contains_add(a + b, c, x);
    lemma_contains_add(a, b, x);
    lemma_error_if(entries != 1, FsmErrorV::WrongEntryCount { entity, found: entries }, x);
    lemma_error_if(
        count_targets(ts, StateV::Entry) != 0,
        FsmErrorV::TransitionIntoEntry { entity },
        x,
    );
    lemma_error_if(count_targets(ts, StateV::Exit) == 0, FsmErrorV::NoExit { entity }, x);
    lemma_error_if(
        count_sources(ts, StateV::Exit) != 0,
        FsmErrorV::TransitionOutOfExit { entity },
        x,
    );
}

/// Law (requirements 2 and 3): the endpoint reports. A wrong number of
/// transitions out of the entry state is reported, with that number,
/// exactly when it is not one; a transition into the entry state, a missing
/// transition into the exit state and a transition out of the exit state
/// are each reported exactly when they occur.
pub proof fn law_endpoints(
    entity: Seq<char>,
    evs: Seq<(Seq<char>, Cardinality)>,
    ts: Seq<(StateV, StateV)>,
    found: nat,
)
    ensures
        fsm_errors(entity, evs, ts).contains(FsmErrorV::WrongEntryCount { entity, found }) == (
        count_sources(ts, StateV::Entry) != 1 && found == count_sources(ts, StateV::Entry)),
        fsm_errors(entity, evs, ts).contains(FsmErrorV::TransitionIntoEntry { entity }) == (
        count_targets(ts, StateV::Entry) != 0),
        fsm_errors(entity, evs, ts).contains(FsmErrorV::NoExit { entity }) == (count_targets(
            ts,
            StateV::Exit,
        ) == 0),
        fsm_errors(entity, evs, ts).contains(FsmErrorV::TransitionOutOfExit { entity }) == (
        count_sources(ts, StateV::Exit) != 0),
{
    let x1 = FsmErrorV::WrongEntryCount { entity, found };
    let x2 = FsmErrorV::TransitionIntoEntry { entity };
    let x3 = FsmErrorV::NoExit { entity };
    let x4 = FsmErrorV::TransitionOutOfExit { entity };
    lemma_parts(entity, evs, ts, x1);
    lemma_parts(entity, evs, ts, x2);
    lemma_parts(entity, evs, ts, x3);
    lemma_parts(entity, evs, ts, x4);
    lemma_endpoint_contains(entity, ts, x1);
    lemma_endpoint_contains(entity, ts, x2);
    lemma_endpoint_contains(entity, ts, x3);
    lemma_endpoint_contains(entity, ts, x4);
}

/// Law (requirement 1): an event named `entry` in any ASCII case is
/// reported as taking the entry state's name, and one named `exit` the
/// exit state's; nothing else is reported under a special state's name.
pub proof fn law_reserved_names(
    entity: Seq<char>,
    evs: Seq<(Seq<char>, Cardinality)>,
    ts: Seq<(StateV, StateV)>,
)
    ensures
        fsm_errors(entity, evs, ts).contains(
            FsmErrorV::ReservedStateName { entity, name: "entry"@ },
        ) == has_event_named_like(evs, entry_word()),
        fsm_errors(entity, evs, ts).contains(FsmErrorV::ReservedStateName { entity, name: "exit"@ })
            == has_event_named_like(evs, exit_word()),
{
    reveal_strlit("entry");
    reveal_strlit("exit");
    let r = |e: (Seq<char>, Cardinality)| reserved_error(entity, e);
    let x = FsmErrorV::ReservedStateName { entity, name: "entry"@ };
    let y = FsmErrorV::ReservedStateName { entity, name: "exit"@ };
    assert("entry"@ != "exit"@) by {
        assert("entry"@.len() != "exit"@.len());
    }
    lemma_parts(entity, evs, ts, x);
    lemma_parts(entity, evs, ts, y);
    lemma_filter_map_iff(evs, r, x);
    lemma_filter_map_iff(evs, r, y);
    if has_event_named_like(evs, entry_word()) {
        let i = choose|i: int| 0 <= i < evs.len() && lowercases_to((#[trigger] evs[i]).0, entry_word());
        assert(evs.contains(evs[i]) && r(evs[i]) == Some(x));
    }
    if has_event_named_like(evs, exit_word()) {
        let i = choose|i: int| 0 <= i < evs.len() && lowercases_to((#[trigger] evs[i]).0, exit_word());
        assert(!lowercases_to(evs[i].0, entry_word()));
        assert(evs.contains(evs[i]) && r(evs[i]) == Some(y));
    }
    if exists|t: (Seq<char>, Cardinality)| #[trigger] evs.contains(t) && r(t) == Some(x) {
        let t = choose|t: (Seq<char>, Cardinality)| #[trigger] evs.contains(t) && r(t) == Some(x);
        let i = choose|i: int| 0 <= i < evs.len() && evs[i] == t;
        assert(lowercases_to(evs[i].0, entry_word()));
    }
    if exists|t: (Seq<char>, Cardinality)| #[trigger] evs.contains(t) && r(t) == Some(y) {
        let t = choose|t: (Seq<char>, Cardinality)| #[trigger] evs.contains(t) && r(t) == Some(y);
        let i = choose|i: int| 0 <= i < evs.len() && evs[i] == t;
        assert(lowercases_to(evs[i].0, exit_word()));
    }
}

} // verus!
