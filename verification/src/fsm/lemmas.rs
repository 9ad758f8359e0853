//! The FSM's transitions as a graph over integer node codes, and why
//! reachability over the codes is reachability over the states.
use vstd::prelude::*;

use super::spec::{
    add_name, cannot_exit_errors, cardinality_error, cardinality_errors, cardinality_of,
    endpoint_errors, error_if, expected_cardinality, fsm_errors, has_transition, is_state_walk,
    named_states, on_cycle, reachability_errors, reserved_error, state_reaches,
    uncovered_event_errors, unknown_state_errors, unreachable_errors,
};
use super::{FsmErrorV, StateV};
use crate::schema::Cardinality;
use crate::graph::{has_edge, is_walk, reaches};

verus! {

/// The code of a state: 0 for the entry, 1 for the exit, and 2 plus the
/// position of its name among the named states.
pub open spec fn node_code(named: Seq<Seq<char>>, s: StateV) -> u64 {
    match s {
        StateV::Entry => 0,
        StateV::Exit => 1,
        StateV::Named(n) => (2 + named.index_of(n)) as u64,
    }
}

/// The state of a code.
pub open spec fn node_state(named: Seq<Seq<char>>, k: u64) -> StateV {
    if k == 0 {
        StateV::Entry
    } else if k == 1 {
        StateV::Exit
    } else if k - 2 < named.len() {
        StateV::Named(named[k - 2])
    } else {
        StateV::Entry
    }
}

/// Whether a state has a code: the special states, and named states whose
/// name is among `named`.
pub open spec fn has_code(named: Seq<Seq<char>>, s: StateV) -> bool {
    match s {
        StateV::Named(n) => named.contains(n),
        _ => true,
    }
}

/// The transitions as edges between codes.
pub open spec fn encode(named: Seq<Seq<char>>, ts: Seq<(StateV, StateV)>) -> Seq<(u64, u64)> {
    ts.map_values(|t: (StateV, StateV)| (node_code(named, t.0), node_code(named, t.1)))
}

/// Adding the name of a state keeps the names distinct and adds exactly that
/// name.
pub proof fn lemma_add_name(names: Seq<Seq<char>>, s: StateV)
    requires
        names.no_duplicates(),
    ensures
        add_name(names, s).no_duplicates(),
        add_name(names, s).len() <= names.len() + 1,
        forall|n: Seq<char>|
            #[trigger] add_name(names, s).contains(n) <==> (names.contains(n) || s
                == StateV::Named(n)),
{
    if let StateV::Named(m) = s {
        if !names.contains(m) {
            let d = names.push(m);
            assert forall|n: Seq<char>| #[trigger] d.contains(n) <==> (names.contains(n) || m == n) by {
                if names.contains(n) {
                    let i = choose|i: int| 0 <= i < names.len() && names[i] == n;
                    assert(d[i] == n);
                }
                if m == n {
                    assert(d[names.len() as int] == n);
                }
                if d.contains(n) {
                    let i = choose|i: int| 0 <= i < d.len() && d[i] == n;
                    if i < names.len() {
                        assert(names[i] == n);
                    }
                }
            }
        }
    }
}

/// The named states are distinct, at most two per transition, and exactly the
/// names of the transitions' named endpoints.
pub proof fn lemma_named_states(ts: Seq<(StateV, StateV)>)
    ensures
        named_states(ts).no_duplicates(),
        named_states(ts).len() <= 2 * ts.len(),
        forall|n: Seq<char>|
            #[trigger] named_states(ts).contains(n) <==> exists|k: int|
                0 <= k < ts.len() && (ts[k].0 == StateV::Named(n) || ts[k].1 == StateV::Named(
                    n,
                )),
    decreases ts.len(),
{
    if ts.len() > 0 {
        let rest = ts.drop_last();
        lemma_named_states(rest);
        let t = ts.last();
        let d0 = named_states(rest);
        let d1 = add_name(d0, t.0);
        let d2 = add_name(d1, t.1);
        lemma_add_name(d0, t.0);
        lemma_add_name(d1, t.1);
        assert forall|n: Seq<char>| #[trigger] d2.contains(n) <==> exists|k: int|
            0 <= k < ts.len() && (ts[k].0 == StateV::Named(n) || ts[k].1 == StateV::Named(n)) by {
            if d2.contains(n) {
                if d0.contains(n) {
                    let k = choose|k: int|
                        0 <= k < rest.len() && (rest[k].0 == StateV::Named(n) || rest[k].1
                            == StateV::Named(n));
                    assert(ts[k] == rest[k]);
                } else if t.0 == StateV::Named(n) {
                    assert(ts[ts.len() - 1] == t);
                } else {
                    assert(d1.contains(n) ==> d0.contains(n) || t.0 == StateV::Named(n));
                    assert(ts[ts.len() - 1] == t);
                }
            }
            if exists|k: int|
                0 <= k < ts.len() && (ts[k].0 == StateV::Named(n) || ts[k].1 == StateV::Named(n)) {
                let k = choose|k: int|
                    0 <= k < ts.len() && (ts[k].0 == StateV::Named(n) || ts[k].1 == StateV::Named(
                        n,
                    ));
                if k < ts.len() - 1 {
                    assert(rest[k] == ts[k]);
                    assert(d0.contains(n));
                    assert(d1.contains(n));
                } else {
                    if t.0 == StateV::Named(n) {
                        assert(d1.contains(n));
                    }
                }
            }
        }
        assert(d1.no_duplicates());
    }
}

/// Every endpoint of a transition has a code.
pub proof fn lemma_endpoints_have_codes(ts: Seq<(StateV, StateV)>, k: int)
    requires
        0 <= k < ts.len(),
    ensures
        has_code(named_states(ts), ts[k].0),
        has_code(named_states(ts), ts[k].1),
{
    lemma_named_states(ts);
    if let StateV::Named(n) = ts[k].0 {
        assert(named_states(ts).contains(n));
    }
    if let StateV::Named(n) = ts[k].1 {
        assert(named_states(ts).contains(n));
    }
}

/// A state with a code is the state of its code.
pub proof fn lemma_state_of_code(named: Seq<Seq<char>>, s: StateV)
    requires
        has_code(named, s),
        named.len() < 0x4000_0000_0000_0000,
    ensures
        node_state(named, node_code(named, s)) == s,
{
    if let StateV::Named(n) = s {
        let i = named.index_of(n);
        assert(0 <= i < named.len() && named[i] == n);
    }
}

/// A walk over the states is a walk over their codes.
pub proof fn lemma_reaches_codes(
    named: Seq<Seq<char>>,
    ts: Seq<(StateV, StateV)>,
    a: StateV,
    b: StateV,
)
    requires
        state_reaches(ts, a, b),
    ensures
        reaches(encode(named, ts), node_code(named, a), node_code(named, b)),
{
    let enc = encode(named, ts);
    let p = choose|p: Seq<StateV>| #[trigger] is_state_walk(ts, p) && p[0] == a && p.last() == b;
    let q = p.map_values(|s: StateV| node_code(named, s));
    assert forall|i: int| 0 <= i < q.len() - 1 implies has_edge(enc, #[trigger] q[i], q[i + 1]) by {
        assert(has_transition(ts, p[i], p[i + 1]));
        let k = choose|k: int| 0 <= k < ts.len() && #[trigger] ts[k] == (p[i], p[i + 1]);
        assert(enc[k] == (q[i], q[i + 1]));
    }
    assert(is_walk(enc, q));
}

/// A walk over codes from the code of `a` ends at the code of a state that `a`
/// reaches.
pub proof fn lemma_codes_reach(ts: Seq<(StateV, StateV)>, a: StateV, y: u64)
    requires
        has_code(named_states(ts), a),
        reaches(encode(named_states(ts), ts), node_code(named_states(ts), a), y),
        ts.len() < 0x2000_0000_0000_0000,
    ensures
        has_code(named_states(ts), node_state(named_states(ts), y)),
        node_code(named_states(ts), node_state(named_states(ts), y)) == y,
        state_reaches(ts, a, node_state(named_states(ts), y)),
{
    let named = named_states(ts);
    lemma_named_states(ts);
    let enc = encode(named, ts);
    let q = choose|q: Seq<u64>| #[trigger]
        is_walk(enc, q) && q[0] == node_code(named, a) && q.last() == y;
    let p = q.map_values(|k: u64| node_state(named, k));
    lemma_state_of_code(named, a);
    assert forall|i: int| 0 <= i < p.len() - 1 implies has_transition(ts, #[trigger] p[i], p[i + 1]) by {
        assert(has_edge(enc, q[i], q[i + 1]));
        let k = choose|k: int| 0 <= k < enc.len() && #[trigger] enc[k] == (q[i], q[i + 1]);
        lemma_endpoints_have_codes(ts, k);
        lemma_state_of_code(named, ts[k].0);
        lemma_state_of_code(named, ts[k].1);
        assert(ts[k] == (p[i], p[i + 1]));
    }
    assert(is_state_walk(ts, p));
    if q.len() > 1 {
        let i = q.len() - 2;
        assert(has_edge(enc, q[i], q[i + 1]));
        let k = choose|k: int| 0 <= k < enc.len() && #[trigger] enc[k] == (q[i], q[i + 1]);
        lemma_endpoints_have_codes(ts, k);
        lemma_state_of_code(named, ts[k].1);
    }
}

/// Reachability between states with codes is reachability between the codes.
pub proof fn lemma_reaches_iff(ts: Seq<(StateV, StateV)>, a: StateV, b: StateV)
    requires
        has_code(named_states(ts), a),
        has_code(named_states(ts), b),
        ts.len() < 0x2000_0000_0000_0000,
    ensures
        state_reaches(ts, a, b) <==> reaches(
            encode(named_states(ts), ts),
            node_code(named_states(ts), a),
            node_code(named_states(ts), b),
        ),
{
    let named = named_states(ts);
    lemma_named_states(ts);
    if state_reaches(ts, a, b) {
        lemma_reaches_codes(named, ts, a, b);
    }
    if reaches(encode(named, ts), node_code(named, a), node_code(named, b)) {
        lemma_codes_reach(ts, a, node_code(named, b));
        lemma_state_of_code(named, b);
    }
}

/// A named state lies on a cycle exactly when it has a self-transition or its
/// code and another code reach each other.
pub proof fn lemma_on_cycle_iff(ts: Seq<(StateV, StateV)>, n: Seq<char>)
    requires
        named_states(ts).contains(n),
        ts.len() < 0x2000_0000_0000_0000,
    ensures
        on_cycle(ts, StateV::Named(n)) <==> (has_transition(ts, StateV::Named(n), StateV::Named(n))
            || exists|y: u64|
            y != node_code(named_states(ts), StateV::Named(n)) && #[trigger] reaches(
                encode(named_states(ts), ts),
                node_code(named_states(ts), StateV::Named(n)),
                y,
            ) && reaches(
                encode(named_states(ts), ts),
                y,
                node_code(named_states(ts), StateV::Named(n)),
            )),
{
    let named = named_states(ts);
    let enc = encode(named, ts);
    let s = StateV::Named(n);
    let x = node_code(named, s);
    lemma_named_states(ts);
    lemma_state_of_code(named, s);
    if exists|m: StateV| m != s && #[trigger] state_reaches(ts, s, m) && state_reaches(ts, m, s) {
        let m = choose|m: StateV| m != s && #[trigger] state_reaches(ts, s, m) && state_reaches(ts, m, s);
        let p = choose|p: Seq<StateV>| #[trigger] is_state_walk(ts, p) && p[0] == s && p.last() == m;
        assert(p.len() > 1);
        let i = p.len() - 2;
        assert(has_transition(ts, p[i], p[i + 1]));
        let k = choose|k: int| 0 <= k < ts.len() && #[trigger] ts[k] == (p[i], p[i + 1]);
        lemma_endpoints_have_codes(ts, k);
        lemma_state_of_code(named, m);
        lemma_reaches_codes(named, ts, s, m);
        lemma_reaches_codes(named, ts, m, s);
        let y = node_code(named, m);
        assert(y != x);
        assert(reaches(enc, x, y) && reaches(enc, y, x));
    }
    if exists|y: u64| y != x && #[trigger] reaches(enc, x, y) && reaches(enc, y, x) {
        let y = choose|y: u64| y != x && #[trigger] reaches(enc, x, y) && reaches(enc, y, x);
        lemma_codes_reach(ts, s, y);
        let m = node_state(named, y);
        lemma_codes_reach(ts, m, x);
        assert(m != s);
        assert(state_reaches(ts, s, m) && state_reaches(ts, m, s));
    }
}

/// An element that `f` maps to a value is kept, as that value, by
/// `filter_map`.
pub(crate) proof fn lemma_filter_map_keeps<A, B>(s: Seq<A>, f: spec_fn(A) -> Option<B>, t: A)
    requires
        s.contains(t),
        f(t) is Some,
    ensures
        s.filter_map(f).contains(f(t)->0),
    decreases s.len(),
{
    let rest = s.drop_last();
    if s.last() == t {
        assert(s.filter_map(f) == rest.filter_map(f) + seq![f(t)->0]);
        assert(s.filter_map(f)[rest.filter_map(f).len() as int] == f(t)->0);
    } else {
        let i = choose|i: int| 0 <= i < s.len() && s[i] == t;
        assert(rest[i] == t);
        lemma_filter_map_keeps(rest, f, t);
        let fm = rest.filter_map(f);
        let k = choose|k: int| 0 <= k < fm.len() && fm[k] == f(t)->0;
        match f(s.last()) {
            Some(b) => {
                assert(s.filter_map(f) == fm + seq![b]);
                assert(s.filter_map(f)[k] == f(t)->0);
            },
            None => {
                assert(s.filter_map(f) == fm);
            },
        }
    }
}

/// Whether `e` reports a cardinality mismatch of the state named `n`.
pub open spec fn is_mismatch_of(e: FsmErrorV, n: Seq<char>) -> bool {
    e matches FsmErrorV::CardinalityMismatch { state, .. } && state == n
}

/// An element of a concatenation is an element of one of its parts.
proof fn lemma_contains_concat<A>(a: Seq<A>, b: Seq<A>, x: A)
    requires
        (a + b).contains(x),
    ensures
        a.contains(x) || b.contains(x),
{
    let i = choose|i: int| 0 <= i < (a + b).len() && (a + b)[i] == x;
    if i < a.len() {
        assert(a[i] == x);
    } else {
        assert(b[i - a.len()] == x);
    }
}

/// The FSM constraint reports a cardinality mismatch for the state named
/// `n` exactly when `n` is a named state of the topology whose event's
/// cardinality differs from the one the topology asks for (multi on a cycle,
/// once otherwise); the report carries both, and there is at most that one
/// kind of report for `n`.
pub proof fn law_cardinality_mismatch(
    entity: Seq<char>,
    evs: Seq<(Seq<char>, Cardinality)>,
    ts: Seq<(StateV, StateV)>,
    n: Seq<char>,
)
    ensures
        forall|e: FsmErrorV|
            #![trigger fsm_errors(entity, evs, ts).contains(e)]
            fsm_errors(entity, evs, ts).contains(e) && is_mismatch_of(e, n) ==> {
                &&& named_states(ts).contains(n)
                &&& cardinality_of(evs, n) is Some
                &&& cardinality_of(evs, n)->0 != expected_cardinality(ts, n)
                &&& e == FsmErrorV::CardinalityMismatch {
                    entity,
                    state: n,
                    expected: expected_cardinality(ts, n),
                    found: cardinality_of(evs, n)->0,
                }
            },
        named_states(ts).contains(n) && cardinality_of(evs, n) is Some && cardinality_of(evs, n)->0
            != expected_cardinality(ts, n) ==> fsm_errors(entity, evs, ts).contains(
            FsmErrorV::CardinalityMismatch {
                entity,
                state: n,
                expected: expected_cardinality(ts, n),
                found: cardinality_of(evs, n)->0,
            },
        ),
{
    let named = named_states(ts);
    let f = |m: Seq<char>| cardinality_error(entity, evs, ts, m);
    let card = cardinality_errors(entity, evs, ts, named);
    assert(card == named.filter_map(f));
    let reserved = evs.filter_map(|e: (Seq<char>, Cardinality)| reserved_error(entity, e));
    let prefix = reserved + endpoint_errors(entity, ts) + error_if(
        named.len() == 0,
        FsmErrorV::NoNamedStates { entity },
    ) + unknown_state_errors(entity, evs, named) + uncovered_event_errors(entity, evs, named)
        + reachability_errors(entity, ts, named);
    assert(fsm_errors(entity, evs, ts) == prefix + card);
    assert forall|e: FsmErrorV|
        #![trigger fsm_errors(entity, evs, ts).contains(e)]
        fsm_errors(entity, evs, ts).contains(e) && is_mismatch_of(e, n) implies {
        &&& named.contains(n)
        &&& cardinality_of(evs, n) is Some
        &&& cardinality_of(evs, n)->0 != expected_cardinality(ts, n)
        &&& e == FsmErrorV::CardinalityMismatch {
            entity,
            state: n,
            expected: expected_cardinality(ts, n),
            found: cardinality_of(evs, n)->0,
        }
    } by {
        lemma_contains_concat(prefix, card, e);
        if prefix.contains(e) {
            lemma_no_mismatch_before_cardinality(entity, evs, ts, e);
            assert(false);
        } else {
            named.lemma_filter_map_contains(f, e);
            let m = choose|m: Seq<char>| #[trigger] named.contains(m) && f(m) == Some(e);
            assert(f(m) == Some(e));
        }
    }
    if named.contains(n) && cardinality_of(evs, n) is Some && cardinality_of(evs, n)->0
        != expected_cardinality(ts, n) {
        lemma_filter_map_keeps(named, f, n);
        let x = FsmErrorV::CardinalityMismatch {
            entity,
            state: n,
            expected: expected_cardinality(ts, n),
            found: cardinality_of(evs, n)->0,
        };
        let k = choose|k: int| 0 <= k < card.len() && card[k] == x;
        assert((prefix + card)[prefix.len() + k] == x);
    }
}

/// The checks before the cardinality check report no cardinality mismatch.
proof fn lemma_no_mismatch_before_cardinality(
    entity: Seq<char>,
    evs: Seq<(Seq<char>, Cardinality)>,
    ts: Seq<(StateV, StateV)>,
    e: FsmErrorV,
)
    requires
        ({
            let named = named_states(ts);
            (evs.filter_map(|x: (Seq<char>, Cardinality)| reserved_error(entity, x))
                + endpoint_errors(entity, ts) + error_if(
                named.len() == 0,
                FsmErrorV::NoNamedStates { entity },
            ) + unknown_state_errors(entity, evs, named) + uncovered_event_errors(
                entity,
                evs,
                named,
            ) + reachability_errors(entity, ts, named)).contains(e)
        }),
    ensures
        !(e is CardinalityMismatch),
{
    let named = named_states(ts);
    let r = |x: (Seq<char>, Cardinality)| reserved_error(entity, x);
    let p1 = evs.filter_map(r);
    let p2 = endpoint_errors(entity, ts);
    let p3 = error_if(named.len() == 0, FsmErrorV::NoNamedStates { entity });
    let p4 = unknown_state_errors(entity, evs, named);
    let p5 = uncovered_event_errors(entity, evs, named);
    let p6 = reachability_errors(entity, ts, named);
    lemma_contains_concat(p1 + p2 + p3 + p4 + p5, p6, e);
    if (p1 + p2 + p3 + p4 + p5).contains(e) {
        lemma_contains_concat(p1 + p2 + p3 + p4, p5, e);
        if (p1 + p2 + p3 + p4).contains(e) {
            lemma_contains_concat(p1 + p2 + p3, p4, e);
            if (p1 + p2 + p3).contains(e) {
                lemma_contains_concat(p1 + p2, p3, e);
                if (p1 + p2).contains(e) {
                    lemma_contains_concat(p1, p2, e);
                }
            }
        }
    }
    if p1.contains(e) {
        evs.lemma_filter_map_contains(r, e);
    } else if p2.contains(e) {
        let entries = super::spec::count_sources(ts, StateV::Entry);
        let a = error_if(entries != 1, FsmErrorV::WrongEntryCount { entity, found: entries });
        let b = error_if(
            super::spec::count_targets(ts, StateV::Entry) != 0,
            FsmErrorV::TransitionIntoEntry { entity },
        );
        let c = error_if(
            super::spec::count_targets(ts, StateV::Exit) == 0,
            FsmErrorV::NoExit { entity },
        );
        let d = error_if(
            super::spec::count_sources(ts, StateV::Exit) != 0,
            FsmErrorV::TransitionOutOfExit { entity },
        );
        assert(p2 == a + b + c + d);
        lemma_contains_concat(a + b + c, d, e);
        if (a + b + c).contains(e) {
            lemma_contains_concat(a + b, c, e);
            if (a + b).contains(e) {
                lemma_contains_concat(a, b, e);
            }
        }
    } else if p3.contains(e) {
    } else if p4.contains(e) {
        named.lemma_filter_map_contains(
            |m: Seq<char>|
                if super::spec::event_names(evs).contains(m) {
                    None
                } else {
                    Some(FsmErrorV::UnknownState { entity, state: m })
                },
            e,
        );
    } else if p5.contains(e) {
        evs.lemma_filter_map_contains(
            |x: (Seq<char>, Cardinality)|
                if named.contains(x.0) {
                    None
                } else {
                    Some(FsmErrorV::UncoveredEvent { entity, event: x.0 })
                },
            e,
        );
    } else {
        let u = if super::spec::count_sources(ts, StateV::Entry) != 0 {
            unreachable_errors(entity, ts, named)
        } else {
            seq![]
        };
        let v = if super::spec::count_targets(ts, StateV::Exit) != 0 {
            cannot_exit_errors(entity, ts, named)
        } else {
            seq![]
        };
        assert(p6 == u + v);
        lemma_contains_concat(u, v, e);
        if u.contains(e) {
            named.lemma_filter_map_contains(
                |m: Seq<char>|
                    if state_reaches(ts, StateV::Entry, StateV::Named(m)) {
                        None
                    } else {
                        Some(FsmErrorV::UnreachableFromEntry { entity, state: m })
                    },
                e,
            );
        } else {
            named.lemma_filter_map_contains(
                |m: Seq<char>|
                    if state_reaches(ts, StateV::Named(m), StateV::Exit) {
                        None
                    } else {
                        Some(FsmErrorV::CannotReachExit { entity, state: m })
                    },
                e,
            );
        }
    }
}

} // verus!
