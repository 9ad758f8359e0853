//! The once-flags of an entity handle: each once-cardinality event of an
//! entity claims one bit of the handle's `u64` flag word, in declaration
//! order, so that the event is emitted at most once per instance;
//! multi-cardinality events claim none.
//!
//! The dynamic state of an FSM handle is one byte: zero before the first
//! transition, and `i + 1` once the entity's `i`-th event has been emitted.
//! Each event may be emitted from the states listed by
//! [`dynamic_transition_sources`].
use vstd::prelude::*;

use crate::fsm::{Fsm, State, StateV};
use crate::schema::{Cardinality, Entity, Event, Identifier};

verus! {

/// The maximum once-events an entity may declare: one bit per event in the
/// handle's `u64` once-flag word.
pub const MAX_ONCE_EVENTS: usize = 64;

/// An entity whose once-events do not fit the handle's flag word.
#[derive(Debug, Clone, PartialEq, Eq)]
pub struct TooManyOnceEvents {
    /// The offending entity.
    pub entity: Identifier,
    /// The number of once-cardinality events the entity declares.
    pub count: usize,
}

/// The number of once-cardinality events among `events`.
pub open spec fn once_count(events: Seq<Event>) -> nat
    decreases events.len(),
{
    if events.len() == 0 {
        0
    } else {
        once_count(events.drop_last()) + if events.last().cardinality == Cardinality::Once {
            1nat
        } else {
            0nat
        }
    }
}

/// The flag bit of each event: the number of once-events before it for a
/// once-event, none for a multi-event.
pub open spec fn once_bits(events: Seq<Event>) -> Seq<Option<nat>>
    decreases events.len(),
{
    if events.len() == 0 {
        Seq::empty()
    } else {
        let d = events.drop_last();
        once_bits(d).push(
            if events.last().cardinality == Cardinality::Once {
                Some(once_count(d))
            } else {
                None
            },
        )
    }
}

/// The number of once-cardinality events among the first `i` of `events`.
pub open spec fn once_before(events: Seq<Event>, i: int) -> nat {
    events.take(i).filter(|e: Event| e.cardinality == Cardinality::Once).len()
}

/// One more event counts one more once-event exactly when it is one.
proof fn lemma_once_before_step(events: Seq<Event>, i: int)
    requires
        0 <= i < events.len(),
    ensures
        once_before(events, i + 1) == once_before(events, i) + if events[i].cardinality
            == Cardinality::Once {
            1nat
        } else {
            0nat
        },
{
    let t1 = events.take(i + 1);
    assert(t1.drop_last() =~= events.take(i));
    assert(t1.last() == events[i]);
    reveal_with_fuel(Seq::filter, 1);
}

/// More events count at least as many once-events.
proof fn lemma_once_before_mono(events: Seq<Event>, i: int, j: int)
    requires
        0 <= i <= j <= events.len(),
    ensures
        once_before(events, i) <= once_before(events, j),
    decreases j - i,
{
    if i < j {
        lemma_once_before_step(events, j - 1);
        lemma_once_before_mono(events, i, j - 1);
    }
}

/// The once-events of all events, counted by [`once_count`].
proof fn lemma_once_count_is_before(events: Seq<Event>)
    ensures
        once_count(events) == once_before(events, events.len() as int),
    decreases events.len(),
{
    if events.len() > 0 {
        let d = events.drop_last();
        lemma_once_count_is_before(d);
        lemma_once_before_step(events, events.len() - 1);
        assert(events.take(events.len() - 1) =~= d.take(d.len() as int));
        assert(events.take(events.len() as int) =~= events);
        assert(d.take(d.len() as int) =~= d);
    } else {
        assert(events.take(0) =~= Seq::<Event>::empty());
    }
}

/// Law: every event has a flag slot; a once-event's bit is the number of
/// once-events before it, so the bits of the once-events are distinct and
/// each is below the number of once-events; a multi-event has none.
pub proof fn law_once_bits(events: Seq<Event>)
    ensures
        once_bits(events).len() == events.len(),
        forall|i: int|
            0 <= i < events.len() ==> #[trigger] once_bits(events)[i] == if events[i].cardinality
                == Cardinality::Once {
                Some(once_before(events, i))
            } else {
                None
            },
        forall|i: int, j: int|
            0 <= i < j < events.len() && once_bits(events)[i] is Some && once_bits(events)[j] is Some
                ==> once_bits(events)[i] != once_bits(events)[j],
        forall|i: int|
            0 <= i < events.len() && #[trigger] once_bits(events)[i] is Some ==> once_bits(events)[i]->0
                < once_before(events, events.len() as int),
    decreases events.len(),
{
    lemma_once_bits_len(events);
    if events.len() > 0 {
        let d = events.drop_last();
        law_once_bits(d);
        lemma_once_count_is_before(d);
        let n = events.len() - 1;
        assert forall|i: int|
            0 <= i < events.len() implies #[trigger] once_bits(events)[i] == if events[i].cardinality
                == Cardinality::Once {
                Some(once_before(events, i))
            } else {
                None
            } by {
            assert(d.take(d.len() as int) =~= events.take(n));
            if i < n {
                assert(once_bits(events)[i] == once_bits(d)[i]);
                assert(d[i] == events[i]);
                assert(d.take(i) =~= events.take(i));
            }
        }
        assert forall|i: int, j: int|
            0 <= i < j < events.len() && once_bits(events)[i] is Some && once_bits(events)[j] is Some
                implies once_bits(events)[i] != once_bits(events)[j] by {
            assert(once_bits(events)[i] == Some(once_before(events, i)));
            assert(once_bits(events)[j] == Some(once_before(events, j)));
            lemma_once_before_step(events, i);
            lemma_once_before_mono(events, i + 1, j);
        }
        assert forall|i: int|
            0 <= i < events.len() && #[trigger] once_bits(events)[i] is Some implies once_bits(
                events,
            )[i]->0 < once_before(events, events.len() as int) by {
            assert(once_bits(events)[i] == Some(once_before(events, i)));
            lemma_once_before_step(events, i);
            lemma_once_before_mono(events, i + 1, events.len() as int);
        }
    }
}

/// Assigns the once-flag bits of an entity's events, or reports that its
/// once-events do not fit the flag word.
pub fn once_event_bits(entity: &Entity) -> (r: Result<Vec<Option<u32>>, TooManyOnceEvents>)
    ensures
        match r {
            Ok(bits) => {
                &&& once_count(entity.events@) <= MAX_ONCE_EVENTS
                &&& bits@.len() == entity.events@.len()
                &&& forall|i: int|
                    0 <= i < bits@.len() ==> (match (#[trigger] bits@[i]) {
                        Some(b) => once_bits(entity.events@)[i] == Some(b as nat),
                        None => once_bits(entity.events@)[i] is None,
                    })
                &&& once_before(entity.events@, entity.events@.len() as int) <= MAX_ONCE_EVENTS
                &&& forall|i: int|
                    0 <= i < bits@.len() ==> (match (#[trigger] bits@[i]) {
                        Some(b) => entity.events@[i].cardinality == Cardinality::Once && b
                            == once_before(entity.events@, i),
                        None => entity.events@[i].cardinality == Cardinality::Multi,
                    })
            },
            Err(e) => {
                &&& once_count(entity.events@) > MAX_ONCE_EVENTS
                &&& e.entity@ == entity.name@
                &&& e.count == once_count(entity.events@)
                &&& e.count == once_before(entity.events@, entity.events@.len() as int)
            },
        },
{
    let events = &entity.events;
    let ghost s = events@;
    let mut count: usize = 0;
    let mut i: usize = 0;
    while i < events.len()
        invariant
            s == events@,
            i <= s.len(),
            count == once_count(s.take(i as int)),
            count <= i,
        decreases s.len() - i,
    {
        proof {
            assert(s.take(i as int + 1).drop_last() =~= s.take(i as int));
        }
        if events[i].cardinality == Cardinality::Once {
            count += 1;
        }
        i += 1;
    }
    proof {
        assert(s.take(s.len() as int) =~= s);
    }
    if count > MAX_ONCE_EVENTS {
        proof {
            law_once_bits(entity.events@);
            lemma_once_count_is_before(entity.events@);
        }
        return Err(TooManyOnceEvents { entity: entity.name.duplicate(), count });
    }
    let mut bits: Vec<Option<u32>> = Vec::new();
    let mut next: u32 = 0;
    let mut j: usize = 0;
    while j < events.len()
        invariant
            s == events@,
            j <= s.len(),
            once_count(s) <= MAX_ONCE_EVENTS,
            next == once_count(s.take(j as int)),
            bits@.len() == j,
            forall|k: int|
                0 <= k < j ==> (match (#[trigger] bits@[k]) {
                    Some(b) => once_bits(s.take(j as int))[k] == Some(b as nat),
                    None => once_bits(s.take(j as int))[k] is None,
                }),
        decreases s.len() - j,
    {
        let ghost t = s.take(j as int);
        let ghost t1 = s.take(j as int + 1);
        proof {
            assert(t1.drop_last() =~= t);
            assert(t1.last() == s[j as int]);
            lemma_once_count_prefix(s, j as int + 1);
            lemma_once_bits_len(t);
            assert(once_bits(t1) == once_bits(t).push(
                if s[j as int].cardinality == Cardinality::Once {
                    Some(once_count(t))
                } else {
                    None
                },
            ));
        }
        if events[j].cardinality == Cardinality::Once {
            bits.push(Some(next));
            next += 1;
        } else {
            bits.push(None);
        }
        j += 1;
    }
    proof {
        assert(s.take(s.len() as int) =~= s);
    }
    proof {
        law_once_bits(s);
        lemma_once_count_is_before(s);
        assert forall|i: int| 0 <= i < bits@.len() implies (match (#[trigger] bits@[i]) {
            Some(b) => s[i].cardinality == Cardinality::Once && b == once_before(s, i),
            None => s[i].cardinality == Cardinality::Multi,
        }) by {
            assert(once_bits(s.take(s.len() as int)) == once_bits(s));
            match bits@[i] {
                Some(b) => {},
                None => {
                    assert(once_bits(s)[i] is None);
                    if s[i].cardinality == Cardinality::Once {
                        assert(once_bits(s)[i] is Some);
                    }
                },
            }
        }
    }
    Ok(bits)
}

/// Every event has its entry among the flag bits.
proof fn lemma_once_bits_len(s: Seq<Event>)
    ensures
        once_bits(s).len() == s.len(),
    decreases s.len(),
{
    if s.len() > 0 {
        lemma_once_bits_len(s.drop_last());
    }
}

/// A prefix has no more once-events than the whole.
proof fn lemma_once_count_prefix(s: Seq<Event>, n: int)
    requires
        0 <= n <= s.len(),
    ensures
        once_count(s.take(n)) <= once_count(s),
    decreases s.len() - n,
{
    if n < s.len() {
        lemma_once_count_prefix(s, n + 1);
        assert(s.take(n + 1).drop_last() =~= s.take(n));
    } else {
        assert(s.take(n) =~= s);
    }
}

/// The maximum number of events of an FSM entity: its dynamic state is one
/// byte, and zero stands for the state before the first transition.
pub const MAX_FSM_STATES: usize = 255;

/// An FSM entity whose events do not fit the one-byte dynamic state.
#[derive(Debug, Clone, PartialEq, Eq)]
pub struct TooManyFsmStates {
    /// The offending entity.
    pub entity: Identifier,
    /// The number of events the entity declares.
    pub count: usize,
}

/// The names of `events`, in order.
pub open spec fn names_of(events: Seq<Event>) -> Seq<Seq<char>> {
    events.map_values(|e: Event| e.name@)
}

/// The position of the first of `names` that equals `s` (the length of
/// `names` where none does).
pub open spec fn first_index(names: Seq<Seq<char>>, s: Seq<char>) -> int
    decreases names.len(),
{
    if names.len() == 0 {
        0
    } else if names[0] == s {
        0
    } else {
        1 + first_index(names.subrange(1, names.len() as int), s)
    }
}

/// Whether some transition of `ts` leads from the entry state into `target`.
pub open spec fn enters_from_entry(ts: Seq<(StateV, StateV)>, target: Seq<char>) -> bool {
    exists|i: int|
        0 <= i < ts.len() && (#[trigger] ts[i]).0 is Entry && ts[i].1 == StateV::Named(target)
}

/// The dynamic states from which `target` may be entered through the named
/// transitions of `ts`, appended to `start` in transition order: the
/// position plus one of each transition's source among `names`, each once.
pub open spec fn named_sources(
    ts: Seq<(StateV, StateV)>,
    names: Seq<Seq<char>>,
    target: Seq<char>,
    start: Seq<usize>,
) -> Seq<usize>
    decreases ts.len(),
{
    if ts.len() == 0 {
        start
    } else {
        let prev = named_sources(ts.drop_last(), names, target, start);
        match ts.last() {
            (StateV::Named(s), StateV::Named(t)) => if t == target {
                let k = (first_index(names, s) + 1) as usize;
                if prev.contains(k) {
                    prev
                } else {
                    prev.push(k)
                }
            } else {
                prev
            },
            _ => prev,
        }
    }
}

/// The dynamic states from which the event named `target` may be emitted:
/// the state before the first transition where the entry state leads into
/// `target`, then the state of each named source of a transition into
/// `target`, in transition order, each once.
pub open spec fn transition_sources(
    ts: Seq<(StateV, StateV)>,
    names: Seq<Seq<char>>,
    target: Seq<char>,
) -> Seq<usize> {
    named_sources(
        ts,
        names,
        target,
        if enters_from_entry(ts, target) {
            seq![0usize]
        } else {
            Seq::empty()
        },
    )
}

/// Every named source of a transition into one of `names` is among `names`.
pub open spec fn sources_named(ts: Seq<(StateV, StateV)>, names: Seq<Seq<char>>) -> bool {
    forall|i: int|
        0 <= i < ts.len() ==> match #[trigger] ts[i] {
            (StateV::Named(s), StateV::Named(t)) => names.contains(t) ==> names.contains(s),
            _ => true,
        }
}

/// The dynamic states from which each event of `entity` may be emitted
/// under `fsm`, in the order of the entity's events; refused where the
/// entity has more events than the one-byte dynamic state can tell apart.
pub fn dynamic_transition_sources(entity: &Entity, fsm: &Fsm) -> (r: Result<
    Vec<Vec<usize>>,
    TooManyFsmStates,
>)
    requires
        entity.events@.len() <= MAX_FSM_STATES ==> sources_named(fsm@, names_of(entity.events@)),
    ensures
        match r {
            Ok(sources) => {
                &&& entity.events@.len() <= MAX_FSM_STATES
                &&& sources@.len() == entity.events@.len()
                &&& forall|j: int|
                    0 <= j < sources@.len() ==> (#[trigger] sources@[j])@ == transition_sources(
                        fsm@,
                        names_of(entity.events@),
                        entity.events@[j].name@,
                    )
            },
            Err(e) => {
                &&& entity.events@.len() > MAX_FSM_STATES
                &&& e.entity@ == entity.name@
                &&& e.count == entity.events@.len()
            },
        },
{
    let count = entity.events.len();
    if count > MAX_FSM_STATES {
        return Err(TooManyFsmStates { entity: entity.name.duplicate(), count });
    }
    let ghost names = names_of(entity.events@);
    let mut all: Vec<Vec<usize>> = Vec::new();
    let mut j: usize = 0;
    while j < count
        invariant
            count == entity.events@.len(),
            count <= MAX_FSM_STATES,
            names == names_of(entity.events@),
            sources_named(fsm@, names),
            j <= count,
            all@.len() == j,
            forall|k: int|
                0 <= k < j ==> (#[trigger] all@[k])@ == transition_sources(
                    fsm@,
                    names,
                    entity.events@[k].name@,
                ),
        decreases count - j,
    {
        proof {
            assert(names[j as int] == entity.events@[j as int].name@);
        }
        let sources = event_sources(entity, fsm, &entity.events[j].name);
        all.push(sources);
        j += 1;
    }
    Ok(all)
}

/// The dynamic states from which the event named `target`, one of the
/// entity's events, may be emitted under `fsm`.
fn event_sources(entity: &Entity, fsm: &Fsm, target: &Identifier) -> (r: Vec<usize>)
    requires
        entity.events@.len() <= MAX_FSM_STATES,
        sources_named(fsm@, names_of(entity.events@)),
        names_of(entity.events@).contains(target@),
    ensures
        r@ == transition_sources(fsm@, names_of(entity.events@), target@),
{
    let ghost names = names_of(entity.events@);
    let ghost ts = fsm@;
    let transitions = &fsm.transitions;
    let mut from_entry = false;
    let mut i: usize = 0;
    while i < transitions.len()
        invariant
            ts == fsm@,
            transitions == &fsm.transitions,
            i <= transitions@.len(),
            from_entry == exists|k: int|
                0 <= k < i && (#[trigger] ts[k]).0 is Entry && ts[k].1 == StateV::Named(target@),
        decreases transitions@.len() - i,
    {
        proof {
            assert(ts[i as int] == transitions@[i as int]@);
        }
        if let State::Entry = &transitions[i].source {
            if let State::Named(t) = &transitions[i].target {
                if t.same(target) {
                    from_entry = true;
                }
            }
        }
        i += 1;
    }
    let mut sources: Vec<usize> = Vec::new();
    if from_entry {
        sources.push(0);
    }
    let ghost start = sources@;
    proof {
        assert(start == if enters_from_entry(ts, target@) {
            seq![0usize]
        } else {
            Seq::<usize>::empty()
        });
    }
    let mut i: usize = 0;
    while i < transitions.len()
        invariant
            ts == fsm@,
            transitions == &fsm.transitions,
            names == names_of(entity.events@),
            entity.events@.len() <= MAX_FSM_STATES,
            sources_named(ts, names),
            names.contains(target@),
            i <= transitions@.len(),
            sources@ == named_sources(ts.take(i as int), names, target@, start),
        decreases transitions@.len() - i,
    {
        proof {
            assert(ts.take(i as int + 1).drop_last() =~= ts.take(i as int));
            assert(ts.take(i as int + 1).last() == transitions@[i as int]@);
        }
        if let State::Named(s) = &transitions[i].source {
            if let State::Named(t) = &transitions[i].target {
                if t.same(target) {
                    proof {
                        assert(ts[i as int] == (StateV::Named(s@), StateV::Named(t@)));
                    }
                    let k = position_of(&entity.events, s) + 1;
                    if !contains_state(&sources, k) {
                        sources.push(k);
                    }
                }
            }
        }
        i += 1;
    }
    proof {
        assert(ts.take(ts.len() as int) =~= ts);
    }
    sources
}

/// The position of the first of `events` named `name`, which is one of them.
fn position_of(events: &Vec<Event>, name: &Identifier) -> (r: usize)
    requires
        names_of(events@).contains(name@),
        events@.len() <= MAX_FSM_STATES,
    ensures
        r == first_index(names_of(events@), name@),
        r < events@.len(),
{
    let ghost names = names_of(events@);
    let mut i: usize = 0;
    while i < events.len()
        invariant
            names == names_of(events@),
            names.contains(name@),
            i <= events@.len(),
            forall|k: int| 0 <= k < i ==> names[k] != name@,
        decreases events@.len() - i,
    {
        if events[i].name.same(name) {
            proof {
                lemma_first_index(names, name@, i as int);
            }
            return i;
        }
        i += 1;
    }
    proof {
        let w = choose|w: int| 0 <= w < names.len() && names[w] == name@;
        assert(names[w] == name@);
    }
    i
}

/// Whether `states` holds `k`.
fn contains_state(states: &Vec<usize>, k: usize) -> (r: bool)
    ensures
        r == states@.contains(k),
{
    let mut i: usize = 0;
    while i < states.len()
        invariant
            i <= states@.len(),
            forall|m: int| 0 <= m < i ==> states@[m] != k,
        decreases states@.len() - i,
    {
        if states[i] == k {
            return true;
        }
        i += 1;
    }
    false
}

/// The first position at which `s` occurs is the one before which it does
/// not occur.
proof fn lemma_first_index(names: Seq<Seq<char>>, s: Seq<char>, j: int)
    requires
        0 <= j < names.len(),
        names[j] == s,
        forall|k: int| 0 <= k < j ==> names[k] != s,
    ensures
        first_index(names, s) == j,
    decreases j,
{
    if j > 0 {
        let rest = names.subrange(1, names.len() as int);
        assert(names[0] != s);
        assert forall|k: int| 0 <= k < j - 1 implies rest[k] != s by {
            assert(rest[k] == names[k + 1]);
        }
        lemma_first_index(rest, s, j - 1);
    }
}

/// Whether `t` leads from a named state into `target`.
pub open spec fn leads_into(t: (StateV, StateV), target: Seq<char>) -> bool {
    t.0 is Named && t.1 == StateV::Named(target)
}

/// The dynamic state of the source of `t`: one more than the position of
/// its name among `names`.
pub open spec fn source_state(names: Seq<Seq<char>>, t: (StateV, StateV)) -> usize {
    match t.0 {
        StateV::Named(s) => (first_index(names, s) + 1) as usize,
        _ => 0,
    }
}

/// Law: the dynamic states from which an event may be emitted are distinct;
/// the state before the first transition (zero) is among them exactly when
/// the entry state leads into the event; every other state among them is
/// one more than the position of a state that leads into the event, and
/// every such state's is among them. Each state names an event: it is at
/// most the number of events, and one more than the position of the source
/// state's name.
pub proof fn law_transition_sources(
    ts: Seq<(StateV, StateV)>,
    names: Seq<Seq<char>>,
    target: Seq<char>,
)
    requires
        names.len() <= MAX_FSM_STATES,
        sources_named(ts, names),
        names.contains(target),
    ensures
        transition_sources(ts, names, target).no_duplicates(),
        transition_sources(ts, names, target).contains(0) <==> enters_from_entry(ts, target),
        forall|k: usize|
            k != 0 ==> (#[trigger] transition_sources(ts, names, target).contains(k)
                <==> some_source(ts, names, target, k)),
        forall|i: int|
            0 <= i < ts.len() && leads_into(#[trigger] ts[i], target) ==> {
                &&& 1 <= source_state(names, ts[i]) <= names.len()
                &&& ts[i].0 == StateV::Named(names[source_state(names, ts[i]) - 1])
            },
{
    let start = if enters_from_entry(ts, target) {
        seq![0usize]
    } else {
        Seq::<usize>::empty()
    };
    assert(start.no_duplicates());
    lemma_named_sources(ts, names, target, start);
    assert forall|i: int|
        0 <= i < ts.len() && leads_into(#[trigger] ts[i], target) implies {
        &&& 1 <= source_state(names, ts[i]) <= names.len()
        &&& ts[i].0 == StateV::Named(names[source_state(names, ts[i]) - 1])
    } by {
        if let StateV::Named(s) = ts[i].0 {
            assert(names.contains(s));
            lemma_first_index_found(names, s);
        }
    }
    let r = transition_sources(ts, names, target);
    assert(r == named_sources(ts, names, target, start));
    assert forall|k: usize| k != 0 implies (r.contains(k) <==> some_source(ts, names, target, k)) by {
        if k != 0 && start.contains(k) {
            assert(start[0] == k);
        }
        assert(r.contains(k) <==> start.contains(k) || some_source(ts, names, target, k));
    }
    assert(r.contains(0) <==> start.contains(0) || some_source(ts, names, target, 0));
    if some_source(ts, names, target, 0) {
        let i = choose|i: int|
            0 <= i < ts.len() && leads_into(#[trigger] ts[i], target) && 0 == source_state(
                names,
                ts[i],
            );
        if let StateV::Named(s) = ts[i].0 {
            lemma_first_index_bounds(names, s);
        }
        assert(false);
    }
    if enters_from_entry(ts, target) {
        assert(start[0] == 0);
    }
}

/// Whether the dynamic state `x` is that of the source of a transition of
/// `ts` into `target`.
pub open spec fn some_source(
    ts: Seq<(StateV, StateV)>,
    names: Seq<Seq<char>>,
    target: Seq<char>,
    x: usize,
) -> bool {
    exists|i: int|
        0 <= i < ts.len() && leads_into(#[trigger] ts[i], target) && x == source_state(names, ts[i])
}

/// The dynamic states collected from the transitions of `ts` into `target`
/// are distinct, and are those of `start` and those of the transitions'
/// sources.
proof fn lemma_named_sources(
    ts: Seq<(StateV, StateV)>,
    names: Seq<Seq<char>>,
    target: Seq<char>,
    start: Seq<usize>,
)
    requires
        start.no_duplicates(),
    ensures
        named_sources(ts, names, target, start).no_duplicates(),
        forall|x: usize|
            #[trigger] named_sources(ts, names, target, start).contains(x) <==> start.contains(x)
                || some_source(ts, names, target, x),
    decreases ts.len(),
{
    if ts.len() > 0 {
        let init = ts.drop_last();
        lemma_named_sources(init, names, target, start);
        let prev = named_sources(init, names, target, start);
        let r = named_sources(ts, names, target, start);
        let last = ts.last();
        let n = ts.len() - 1;
        assert(ts[n] == last);
        let k = source_state(names, last);
        if leads_into(last, target) {
            if !prev.contains(k) {
                assert(r == prev.push(k));
                assert forall|a: int, b: int| 0 <= a < b < r.len() implies r[a] != r[b] by {
                    if b == prev.len() {
                        assert(prev[a] == r[a]);
                    } else {
                        assert(prev[a] == r[a] && prev[b] == r[b]);
                    }
                }
            } else {
                assert(r == prev);
            }
        } else {
            assert(r == prev) by {
                match last {
                    (StateV::Named(_), StateV::Named(t)) => {
                        assert(t != target);
                    },
                    _ => {},
                }
            }
        }
        assert forall|x: usize| #[trigger] r.contains(x) implies start.contains(x) || some_source(
            ts,
            names,
            target,
            x,
        ) by {
            if prev.contains(x) {
                if !start.contains(x) {
                    assert(some_source(init, names, target, x));
                    let i = choose|i: int|
                        0 <= i < init.len() && leads_into(#[trigger] init[i], target) && x
                            == source_state(names, init[i]);
                    assert(init[i] == ts[i]);
                    assert(leads_into(ts[i], target) && x == source_state(names, ts[i]));
                }
            } else {
                let m = choose|m: int| 0 <= m < r.len() && r[m] == x;
                if r == prev {
                    assert(prev[m] == x);
                }
                assert(x == k);
                assert(leads_into(ts[n], target) && x == source_state(names, ts[n]));
            }
        }
        assert forall|x: usize|
            start.contains(x) || some_source(ts, names, target, x) implies #[trigger] r.contains(
            x,
        ) by {
            if !start.contains(x) {
                let i = choose|i: int|
                    0 <= i < ts.len() && leads_into(#[trigger] ts[i], target) && x == source_state(
                        names,
                        ts[i],
                    );
                if i < n {
                    assert(init[i] == ts[i]);
                    assert(leads_into(init[i], target) && x == source_state(names, init[i]));
                    assert(prev.contains(x));
                } else {
                    assert(x == k && leads_into(last, target));
                }
            } else {
                assert(prev.contains(x));
            }
            if prev.contains(x) {
                let m = choose|m: int| 0 <= m < prev.len() && prev[m] == x;
                if r != prev {
                    assert(r == prev.push(k));
                    assert(r[m] == x);
                }
            } else {
                assert(x == k && !prev.contains(k));
                assert(r == prev.push(k));
                assert(r[prev.len() as int] == x);
            }
        }
    }
}

/// The first position of a name is a position, at most the length.
proof fn lemma_first_index_bounds(names: Seq<Seq<char>>, s: Seq<char>)
    ensures
        0 <= first_index(names, s) <= names.len(),
    decreases names.len(),
{
    if names.len() > 0 && names[0] != s {
        lemma_first_index_bounds(names.subrange(1, names.len() as int), s);
    }
}

/// The first position of a name that occurs holds that name.
proof fn lemma_first_index_found(names: Seq<Seq<char>>, s: Seq<char>)
    requires
        names.contains(s),
    ensures
        0 <= first_index(names, s) < names.len(),
        names[first_index(names, s)] == s,
    decreases names.len(),
{
    if names[0] != s {
        let rest = names.subrange(1, names.len() as int);
        let w = choose|w: int| 0 <= w < names.len() && names[w] == s;
        assert(rest[w - 1] == s);
        lemma_first_index_found(rest, s);
        assert(names[first_index(names, s)] == rest[first_index(rest, s)]);
    }
}

} // verus!
