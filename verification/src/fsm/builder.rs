//! Lowering of FSM states to an entity: every state becomes an event.
use vstd::prelude::*;

use super::check::{contains_name, cycle_flags, encode_transitions, name_index, named_state_names};
use super::constraint::{find_constraint, fsm_constraint_of, FSM_CONSTRAINT_NAME};
use super::lemmas::lemma_named_states;
use super::spec::{
    cardinality_error, cardinality_errors, cardinality_of, expected_cardinality, has_transition,
    named_states, on_cycle, state_reaches,
};
use super::{Fsm, FsmErrorV, State, StateV, Transition};
use crate::schema::{
    events_view, Annotations, BuilderError, Cardinality, Constraint, ConventionRef, Entity, Event, Field,
    Identifier,
};

verus! {

/// One state of an FSM entity: its name, the event payload it carries, its
/// outgoing transitions and its role flags.
#[derive(Debug, Clone)]
pub struct StateDecl {
    /// State name, used verbatim as the state event's name.
    pub name: Identifier,
    /// Fields of the state event.
    pub attributes: Vec<Field>,
    /// States this state transitions to.
    pub to: Vec<Identifier>,
    /// Whether the FSM begins in this state.
    pub initial: bool,
    /// Whether the FSM may exit from this state.
    pub exit: bool,
}

/// A structural problem that prevents building an FSM entity at all, before
/// any topology validation.
#[derive(Debug, Clone, PartialEq, Eq)]
pub enum FsmShapeError {
    /// No state was marked initial.
    NoInitialState,
    /// More than one state was marked initial; these ones.
    MultipleInitialStates(Vec<Identifier>),
    /// No state was marked as an exit.
    NoExitState,
    /// A state declares two attributes of the same name.
    Build(BuilderError),
}

/// An entity built from FSM states, with the topology that its FSM
/// constraint is to carry.
#[derive(Debug)]
pub struct FsmEntity {
    pub entity: Entity,
    pub fsm: Fsm,
}

/// Builds an FSM [`Entity`] from its states, so that every frontend gets the
/// same state-to-event lowering.
///
/// Each state becomes one event whose cardinality is derived from the
/// topology (a state on a cycle is [`Cardinality::Multi`], otherwise
/// [`Cardinality::Once`]). Whether the topology is valid is checked separately
/// by the FSM constraint during schema validation.
pub struct FsmEntityBuilder {
    id: Identifier,
    annotations: Annotations,
    states: Vec<StateDecl>,
}

/// The names of the states.
pub open spec fn state_names(states: Seq<StateDecl>) -> Seq<Seq<char>> {
    states.map_values(|s: StateDecl| s.name@)
}

/// The names of the states marked initial, in order.
pub open spec fn initial_names(states: Seq<StateDecl>) -> Seq<Seq<char>>
    decreases states.len(),
{
    if states.len() == 0 {
        Seq::empty()
    } else if states.last().initial {
        initial_names(states.drop_last()).push(states.last().name@)
    } else {
        initial_names(states.drop_last())
    }
}

/// The names of the states marked as exits, in order.
pub open spec fn exit_names(states: Seq<StateDecl>) -> Seq<Seq<char>>
    decreases states.len(),
{
    if states.len() == 0 {
        Seq::empty()
    } else if states.last().exit {
        exit_names(states.drop_last()).push(states.last().name@)
    } else {
        exit_names(states.drop_last())
    }
}

/// The transitions out of one state, to each of its targets in order.
pub open spec fn out_transitions(s: StateDecl) -> Seq<(StateV, StateV)> {
    s.to@.map_values(|t: Identifier| (StateV::Named(s.name@), StateV::Named(t@)))
}

/// The transitions out of all states, state by state.
pub open spec fn state_transitions(states: Seq<StateDecl>) -> Seq<(StateV, StateV)>
    decreases states.len(),
{
    if states.len() == 0 {
        Seq::empty()
    } else {
        state_transitions(states.drop_last()) + out_transitions(states.last())
    }
}

/// The transitions from the exit states to the exit.
pub open spec fn exit_transitions(exits: Seq<Seq<char>>) -> Seq<(StateV, StateV)> {
    exits.map_values(|e: Seq<char>| (StateV::Named(e), StateV::Exit))
}

/// The topology of the states: entry to the initial state, the declared
/// transitions, then every exit state to the exit.
pub open spec fn builder_topology(states: Seq<StateDecl>, initial: Seq<char>) -> Seq<
    (StateV, StateV),
> {
    seq![(StateV::Entry, StateV::Named(initial))] + state_transitions(states) + exit_transitions(
        exit_names(states),
    )
}

/// The attribute at `j` repeats the name of an earlier attribute.
pub open spec fn repeats_attribute(fields: Seq<Field>, j: int) -> bool {
    exists|i: int| 0 <= i < j && fields[i].name@ == fields[j].name@
}

/// The attributes have distinct names.
pub open spec fn attributes_distinct(fields: Seq<Field>) -> bool {
    forall|j: int| 0 <= j < fields.len() ==> !repeats_attribute(fields, j)
}

/// The state at `k` is the first with a repeated attribute name, and the
/// attribute at `j` is its first repetition.
pub open spec fn is_first_repeated_attribute(states: Seq<StateDecl>, k: int, j: int) -> bool {
    &&& 0 <= k < states.len()
    &&& forall|m: int| 0 <= m < k ==> attributes_distinct(#[trigger] states[m].attributes@)
    &&& 0 <= j < states[k].attributes@.len()
    &&& repeats_attribute(states[k].attributes@, j)
    &&& forall|i: int| 0 <= i < j ==> !repeats_attribute(states[k].attributes@, i)
}

/// The event that a state becomes in an FSM with the transitions `ts`.
pub open spec fn is_state_event(e: Event, s: StateDecl, ts: Seq<(StateV, StateV)>) -> bool {
    &&& e.name@ == s.name@
    &&& e.cardinality == expected_cardinality(ts, s.name@)
    &&& e.payload@ == s.attributes@
    &&& e.conventions@.len() == 0
}

/// A state not named by any transition is on no cycle.
proof fn lemma_on_cycle_is_named(ts: Seq<(StateV, StateV)>, n: Seq<char>)
    requires
        on_cycle(ts, StateV::Named(n)),
    ensures
        named_states(ts).contains(n),
{
    lemma_named_states(ts);
    let s = StateV::Named(n);
    if has_transition(ts, s, s) {
        let k = choose|k: int| 0 <= k < ts.len() && #[trigger] ts[k] == (s, s);
        assert(ts[k].0 == StateV::Named(n));
    } else {
        let m = choose|m: StateV| m != s && #[trigger] state_reaches(ts, s, m) && state_reaches(
            ts,
            m,
            s,
        );
        let p = choose|p: Seq<StateV>| #[trigger] super::spec::is_state_walk(ts, p) && p[0] == s
            && p.last() == m;
        assert(p.len() >= 2);
        assert(has_transition(ts, p[0], p[1]));
        let k = choose|k: int| 0 <= k < ts.len() && #[trigger] ts[k] == (p[0], p[1]);
        assert(ts[k].0 == StateV::Named(n));
    }
}

impl FsmEntityBuilder {
    /// The states are named distinctly.
    #[verifier::type_invariant]
    spec fn inv(self) -> bool {
        state_names(self.states@).no_duplicates()
    }

    /// The name of the entity being built.
    pub closed spec fn id(&self) -> Identifier {
        self.id
    }

    /// The annotations of the entity being built.
    pub closed spec fn annotations(&self) -> Annotations {
        self.annotations
    }

    /// The states added so far, in order.
    pub closed spec fn states(&self) -> Seq<StateDecl> {
        self.states@
    }

    /// Begin an FSM entity named `id`, carrying `annotations` (to which the
    /// FSM constraint is to be added).
    pub fn new(id: Identifier, annotations: Annotations) -> (b: Self)
        ensures
            b.id() == id,
            b.annotations() == annotations,
            b.states() == Seq::<StateDecl>::empty(),
            state_names(b.states()).no_duplicates(),
    {
        let b = FsmEntityBuilder { id, annotations, states: Vec::new() };
        assert(state_names(b.states@) =~= Seq::<Seq<char>>::empty());
        proof {
            use_type_invariant(&b);
        }
        b
    }

    /// Add a state; a state whose name is already declared is refused.
    pub fn try_insert_state(&mut self, state: StateDecl) -> (r: Result<(), BuilderError>)
        ensures
            final(self).id() == old(self).id(),
            final(self).annotations() == old(self).annotations(),
            state_names(final(self).states()).no_duplicates(),
            match r {
                Ok(()) => {
                    &&& !state_names(old(self).states()).contains(state.name@)
                    &&& final(self).states() == old(self).states().push(state)
                },
                Err(BuilderError::DuplicateName(n)) => {
                    &&& state_names(old(self).states()).contains(state.name@)
                    &&& n@ == state.name@
                    &&& final(self).states() == old(self).states()
                },
            },
    {
        proof {
            use_type_invariant(&*self);
        }
        let ghost names = state_names(self.states@);
        let mut i: usize = 0;
        while i < self.states.len()
            invariant
                i <= self.states@.len(),
                names == state_names(self.states@),
                forall|k: int| 0 <= k < i ==> names[k] != state.name@,
            decreases self.states@.len() - i,
        {
            if self.states[i].name.same(&state.name) {
                assert(names[i as int] == state.name@);
                proof {
                    use_type_invariant(&*self);
                }
                return Err(BuilderError::DuplicateName(state.name.0.clone()));
            }
            i += 1;
        }
        assert(!names.contains(state.name@));
        let mut states: Vec<StateDecl> = Vec::new();
        core::mem::swap(&mut states, &mut self.states);
        let ghost before = states@;
        states.push(state);
        assert(state_names(states@) =~= state_names(before).push(state.name@));
        self.states = states;
        proof {
            use_type_invariant(&*self);
        }
        Ok(())
    }

    /// Add a state, returning the builder for chaining.
    pub fn try_with_state(self, state: StateDecl) -> (r: Result<Self, BuilderError>)
        ensures
            match r {
                Ok(b) => {
                    &&& !state_names(self.states()).contains(state.name@)
                    &&& b.id() == self.id()
                    &&& b.annotations() == self.annotations()
                    &&& b.states() == self.states().push(state)
                    &&& state_names(b.states()).no_duplicates()
                },
                Err(BuilderError::DuplicateName(n)) => {
                    &&& state_names(self.states()).contains(state.name@)
                    &&& n@ == state.name@
                },
            },
    {
        let mut b = self;
        match b.try_insert_state(state) {
            Ok(()) => Ok(b),
            Err(e) => Err(e),
        }
    }

    /// Add several states in order, returning the builder for chaining; the
    /// first state whose name is already declared is refused.
    pub fn try_with_states(self, states: Vec<StateDecl>) -> (r: Result<Self, BuilderError>)
        ensures
            match r {
                Ok(b) => {
                    &&& b.id() == self.id()
                    &&& b.annotations() == self.annotations()
                    &&& b.states() == self.states() + states@
                    &&& state_names(b.states()).no_duplicates()
                },
                Err(BuilderError::DuplicateName(n)) => exists|k: int|
                    0 <= k < states@.len() && n@ == states@[k].name@ && (state_names(self.states())
                        + state_names(states@.take(k))).contains(n@),
            },
    {
        let mut b = self;
        let ghost all = states@;
        let mut rest = states;
        let total = rest.len();
        let mut k: usize = 0;
        while rest.len() > 0
            invariant
                all == states@,
                total == all.len(),
                k + rest@.len() == all.len(),
                rest@ == all.skip(k as int),
                b.id() == self.id(),
                b.annotations() == self.annotations(),
                b.states() == self.states() + all.take(k as int),
            decreases rest@.len(),
        {
            let state = rest.remove(0);
            let ghost before = b.states();
            match b.try_insert_state(state) {
                Ok(()) => {},
                Err(BuilderError::DuplicateName(n)) => {
                    proof {
                        assert(all[k as int] == state);
                        assert(state_names(before) =~= state_names(self.states()) + state_names(
                            all.take(k as int),
                        ));
                        assert(0 <= k < all.len() && n@ == all[k as int].name@);
                        assert(state_names(before).contains(state.name@));
                        assert((state_names(self.states()) + state_names(all.take(k as int))).contains(
                            n@,
                        ));
                        assert(states@ == all);
                    }
                    return Err(BuilderError::DuplicateName(n));
                },
            }
            proof {
                assert(all.take(k as int + 1) =~= all.take(k as int).push(all[k as int]));
                assert(rest@ =~= all.skip(k as int + 1));
            }
            k += 1;
        }
        proof {
            assert(all.take(k as int) =~= all);
            use_type_invariant(&b);
        }
        Ok(b)
    }
}

/// The names of the states marked initial (or exit), as identifiers.
fn flagged_names(states: &Vec<StateDecl>, initial: bool) -> (names: Vec<Identifier>)
    ensures
        names@.map_values(|x: Identifier| x@) == (if initial {
            initial_names(states@)
        } else {
            exit_names(states@)
        }),
{
    let mut names: Vec<Identifier> = Vec::new();
    let mut i: usize = 0;
    while i < states.len()
        invariant
            i <= states@.len(),
            names@.map_values(|x: Identifier| x@) == (if initial {
                initial_names(states@.take(i as int))
            } else {
                exit_names(states@.take(i as int))
            }),
        decreases states@.len() - i,
    {
        proof {
            assert(states@.take(i as int + 1).drop_last() =~= states@.take(i as int));
            assert(states@.take(i as int + 1).last() == states@[i as int]);
        }
        let s = &states[i];
        let flagged = if initial {
            s.initial
        } else {
            s.exit
        };
        if flagged {
            let ghost before = names@;
            names.push(s.name.duplicate());
            assert(names@.map_values(|x: Identifier| x@) =~= before.map_values(
                |x: Identifier| x@,
            ).push(s.name@));
        }
        i += 1;
    }
    assert(states@.take(states@.len() as int) =~= states@);
    names
}

/// The topology of the states, as an [`Fsm`].
fn topology(states: &Vec<StateDecl>, initial: &Identifier, exits: &Vec<Identifier>) -> (fsm: Fsm)
    requires
        exits@.map_values(|x: Identifier| x@) == exit_names(states@),
    ensures
        fsm@ == builder_topology(states@, initial@),
{
    let mut transitions: Vec<Transition> = Vec::new();
    transitions.push(
        Transition { source: State::Entry, target: State::Named(initial.duplicate()) },
    );
    let ghost head = seq![(StateV::Entry, StateV::Named(initial@))];
    assert(transitions@.map_values(|t: Transition| t@) =~= head);
    let mut i: usize = 0;
    while i < states.len()
        invariant
            i <= states@.len(),
            transitions@.map_values(|t: Transition| t@) == head + state_transitions(
                states@.take(i as int),
            ),
        decreases states@.len() - i,
    {
        proof {
            assert(states@.take(i as int + 1).drop_last() =~= states@.take(i as int));
            assert(states@.take(i as int + 1).last() == states@[i as int]);
        }
        let s = &states[i];
        let ghost base = transitions@.map_values(|t: Transition| t@);
        let mut j: usize = 0;
        while j < s.to.len()
            invariant
                j <= s.to@.len(),
                transitions@.map_values(|t: Transition| t@) == base + out_transitions(
                    *s,
                ).take(j as int),
            decreases s.to@.len() - j,
        {
            let ghost before = transitions@;
            transitions.push(
                Transition {
                    source: State::Named(s.name.duplicate()),
                    target: State::Named(s.to[j].duplicate()),
                },
            );
            assert(out_transitions(*s).take(j as int + 1) =~= out_transitions(*s).take(
                j as int,
            ).push(out_transitions(*s)[j as int]));
            assert(transitions@.map_values(|t: Transition| t@) =~= before.map_values(
                |t: Transition| t@,
            ).push(out_transitions(*s)[j as int]));
            j += 1;
        }
        assert(out_transitions(*s).take(s.to@.len() as int) =~= out_transitions(*s));
        i += 1;
    }
    assert(states@.take(states@.len() as int) =~= states@);
    let ghost mid = transitions@.map_values(|t: Transition| t@);
    let mut e: usize = 0;
    while e < exits.len()
        invariant
            e <= exits@.len(),
            exits@.map_values(|x: Identifier| x@) == exit_names(states@),
            transitions@.map_values(|t: Transition| t@) == mid + exit_transitions(
                exit_names(states@),
            ).take(e as int),
        decreases exits@.len() - e,
    {
        let ghost before = transitions@;
        let ghost ex = exit_transitions(exit_names(states@));
        transitions.push(
            Transition { source: State::Named(exits[e].duplicate()), target: State::Exit },
        );
        assert(exits@.map_values(|x: Identifier| x@)[e as int] == exits@[e as int]@);
        assert(ex.take(e as int + 1) =~= ex.take(e as int).push(ex[e as int]));
        assert(transitions@.map_values(|t: Transition| t@) =~= before.map_values(
            |t: Transition| t@,
        ).push(ex[e as int]));
        e += 1;
    }
    assert(exit_transitions(exit_names(states@)).take(exits@.len() as int) =~= exit_transitions(
        exit_names(states@),
    ));
    Fsm { transitions }
}

/// The position of the first attribute repeating an earlier attribute's name.
fn first_repeated_attribute(fields: &Vec<Field>) -> (r: Option<usize>)
    ensures
        match r {
            Some(j) => j < fields@.len() && repeats_attribute(fields@, j as int) && forall|i: int|
                0 <= i < j ==> !repeats_attribute(fields@, i),
            None => attributes_distinct(fields@),
        },
{
    let mut j: usize = 0;
    while j < fields.len()
        invariant
            j <= fields@.len(),
            forall|i: int| 0 <= i < j ==> !repeats_attribute(fields@, i),
        decreases fields@.len() - j,
    {
        let mut i: usize = 0;
        while i < j
            invariant
                i <= j < fields@.len(),
                forall|m: int| 0 <= m < j ==> !repeats_attribute(fields@, m),
                forall|m: int| 0 <= m < i ==> fields@[m].name@ != fields@[j as int].name@,
            decreases j - i,
        {
            if fields[i].name.same(&fields[j].name) {
                assert(fields@[i as int].name@ == fields@[j as int].name@);
                assert(repeats_attribute(fields@, j as int));
                return Some(j);
            }
            i += 1;
        }
        j += 1;
    }
    None
}

/// The cardinality the topology demands of the state named `n`.
fn state_cardinality(fsm: &Fsm, names: &Vec<Identifier>, flags: &Vec<bool>, n: &Identifier) -> (c:
    Cardinality)
    requires
        names@.map_values(|x: Identifier| x@) == named_states(fsm@),
        flags.len() == names.len(),
        forall|i: int|
            0 <= i < flags.len() ==> flags@[i] == on_cycle(
                fsm@,
                StateV::Named(named_states(fsm@)[i]),
            ),
    ensures
        c == expected_cardinality(fsm@, n@),
{
    if contains_name(names, n) {
        let i = name_index(names, n);
        assert(names@.map_values(|x: Identifier| x@)[i as int] == n@);
        if flags[i] {
            Cardinality::Multi
        } else {
            Cardinality::Once
        }
    } else {
        proof {
            if on_cycle(fsm@, StateV::Named(n@)) {
                lemma_on_cycle_is_named(fsm@, n@);
            }
        }
        Cardinality::Once
    }
}

impl FsmEntityBuilder {
    /// Assemble the entity: derive each state event's cardinality from the
    /// topology and attach the events; the topology comes along, for the FSM
    /// constraint.
    ///
    /// Fails if there is not exactly one initial state, no exit state, or a
    /// state with two attributes of the same name, checked in this order.
    pub fn build(self) -> (r: Result<FsmEntity, FsmShapeError>)
        requires
            1 + state_transitions(self.states()).len() + exit_names(self.states()).len()
                < 0x2000_0000_0000_0000,
        ensures
            match r {
                Ok(built) => {
                    let states = self.states();
                    &&& initial_names(states).len() == 1
                    &&& exit_names(states).len() >= 1
                    &&& forall|k: int|
                        0 <= k < states.len() ==> attributes_distinct(
                            #[trigger] states[k].attributes@,
                        )
                    &&& built.fsm@ == builder_topology(states, initial_names(states)[0])
                    &&& built.entity.name == self.id()
                    &&& built.entity.annotations == self.annotations()
                    &&& built.entity.conventions@.len() == 0
                    &&& built.entity.events@.len() == states.len()
                    &&& forall|k: int|
                        0 <= k < states.len() ==> is_state_event(
                            #[trigger] built.entity.events@[k],
                            states[k],
                            built.fsm@,
                        )
                },
                Err(FsmShapeError::NoInitialState) => initial_names(self.states()).len() == 0,
                Err(FsmShapeError::MultipleInitialStates(found)) => {
                    &&& initial_names(self.states()).len() > 1
                    &&& found@.map_values(|x: Identifier| x@) == initial_names(self.states())
                },
                Err(FsmShapeError::NoExitState) => {
                    &&& initial_names(self.states()).len() == 1
                    &&& exit_names(self.states()).len() == 0
                },
                Err(FsmShapeError::Build(BuilderError::DuplicateName(n))) => {
                    &&& initial_names(self.states()).len() == 1
                    &&& exit_names(self.states()).len() >= 1
                    &&& exists|k: int, j: int|
                        is_first_repeated_attribute(self.states(), k, j) && n@ == self.states()[k].attributes@[j].name@
                },
            },
    {
        proof {
            use_type_invariant(&self);
        }
        let FsmEntityBuilder { id, annotations, states } = self;
        assert(states@ == self.states());
        let initials = flagged_names(&states, true);
        if initials.len() == 0 {
            return Err(FsmShapeError::NoInitialState);
        }
        if initials.len() > 1 {
            return Err(FsmShapeError::MultipleInitialStates(initials));
        }
        let exits = flagged_names(&states, false);
        if exits.len() == 0 {
            return Err(FsmShapeError::NoExitState);
        }
        let initial = &initials[0];
        assert(initials@.map_values(|x: Identifier| x@)[0] == initial@);
        let mut k: usize = 0;
        while k < states.len()
            invariant
                k <= states@.len(),
                states@ == self.states(),
                initial_names(self.states()).len() == 1,
                exit_names(self.states()).len() >= 1,
                forall|m: int| 0 <= m < k ==> attributes_distinct(#[trigger] states@[m].attributes@),
            decreases states@.len() - k,
        {
            if let Some(j) = first_repeated_attribute(&states[k].attributes) {
                proof {
                    assert(is_first_repeated_attribute(self.states(), k as int, j as int));
                }
                return Err(
                    FsmShapeError::Build(
                        BuilderError::DuplicateName(states[k].attributes[j].name.0.clone()),
                    ),
                );
            }
            k += 1;
        }
        let fsm = topology(&states, initial, &exits);
        proof {
            assert(fsm.transitions@.len() == fsm@.len());
        }
        let names = named_state_names(&fsm);
        let edges = encode_transitions(&fsm, &names);
        let flags = cycle_flags(&fsm, &names, &edges);
        let ghost all = states@;
        let mut rest = states;
        let mut events: Vec<Event> = Vec::new();
        let mut i: usize = 0;
        let n = rest.len();
        while i < n
            invariant
                n == all.len(),
                i <= n,
                rest@ == all.skip(i as int),
                events@.len() == i,
                names@.map_values(|x: Identifier| x@) == named_states(fsm@),
                flags.len() == names.len(),
                forall|j: int|
                    0 <= j < flags.len() ==> flags@[j] == on_cycle(
                        fsm@,
                        StateV::Named(named_states(fsm@)[j]),
                    ),
                forall|m: int| 0 <= m < i ==> is_state_event(#[trigger] events@[m], all[m], fsm@),
            decreases n - i,
        {
            let state = rest.remove(0);
            assert(state == all[i as int]);
            let cardinality = state_cardinality(&fsm, &names, &flags, &state.name);
            let StateDecl { name, attributes, to: _, initial: _, exit: _ } = state;
            events.push(
                Event { name, cardinality, payload: attributes, conventions: Vec::new() },
            );
            proof {
                assert(rest@ =~= all.skip(i as int + 1));
            }
            i += 1;
        }
        let entity = Entity { name: id, events, annotations, conventions: Vec::new() };
        Ok(FsmEntity { entity, fsm })
    }
}

impl FsmEntity {
    /// The entity with the FSM constraint set to `data` (the serialized
    /// topology): the first constraint of that name gets the data, or the
    /// constraint is added when there is none.
    pub fn with_constraint_data(self, data: String) -> (entity: Entity)
        ensures
            entity.name == self.entity.name,
            entity.events == self.entity.events,
            entity.conventions == self.entity.conventions,
            fsm_constraint_of(entity) matches Some(c) && c.data matches Some(d) && d@ == data@,
    {
        let FsmEntity { entity, fsm: _ } = self;
        let Entity { name, events, annotations, conventions } = entity;
        let mut constraints = annotations.constraints;
        let key = String::from_str(FSM_CONSTRAINT_NAME);
        let mut i: usize = 0;
        while i < constraints.len()
            invariant
                i <= constraints@.len(),
                key@ == FSM_CONSTRAINT_NAME@,
                forall|m: int| 0 <= m < i ==> constraints@[m].name@ != key@,
            decreases constraints@.len() - i,
        {
            if constraints[i].name == key {
                break;
            }
            i += 1;
        }
        let ghost before = constraints@;
        if i < constraints.len() {
            constraints.set(i, Constraint { name: key, data: Some(data) });
            proof {
                lemma_find_constraint_first(constraints@, FSM_CONSTRAINT_NAME@, i as int);
            }
        } else {
            constraints.push(Constraint { name: key, data: Some(data) });
            proof {
                lemma_find_constraint_first(constraints@, FSM_CONSTRAINT_NAME@, i as int);
            }
        }
        Entity { name, events, annotations: Annotations { constraints }, conventions }
    }
}

/// Every event named `n` among events that states became carries the
/// cardinality the topology demands of `n`.
proof fn lemma_state_event_cardinality(
    events: Seq<Event>,
    states: Seq<StateDecl>,
    ts: Seq<(StateV, StateV)>,
    n: Seq<char>,
)
    requires
        events.len() == states.len(),
        forall|k: int| 0 <= k < events.len() ==> is_state_event(#[trigger] events[k], states[k], ts),
    ensures
        cardinality_of(events_view(events), n) is None || cardinality_of(events_view(events), n)
            == Some(expected_cardinality(ts, n)),
    decreases events.len(),
{
    if events.len() > 0 {
        let d = events.drop_last();
        assert(events_view(d) =~= events_view(events).drop_last());
        assert forall|k: int| 0 <= k < d.len() implies is_state_event(
            #[trigger] d[k],
            states.drop_last()[k],
            ts,
        ) by {
            assert(is_state_event(events[k], states[k], ts));
        }
        lemma_state_event_cardinality(d, states.drop_last(), ts, n);
        assert(is_state_event(events[events.len() - 1], states[events.len() - 1], ts));
    }
}

/// Law: the events that FSM states become never disagree with their topology
/// on cardinality, so the cardinality requirement of the FSM constraint holds
/// for a built entity whatever its topology.
pub proof fn law_state_events_match_topology_cardinality(
    entity: Seq<char>,
    events: Seq<Event>,
    states: Seq<StateDecl>,
    ts: Seq<(StateV, StateV)>,
)
    requires
        events.len() == states.len(),
        forall|k: int| 0 <= k < events.len() ==> is_state_event(#[trigger] events[k], states[k], ts),
    ensures
        cardinality_errors(entity, events_view(events), ts, named_states(ts)) == Seq::<
            FsmErrorV,
        >::empty(),
{
    let evs = events_view(events);
    let f = |n: Seq<char>| cardinality_error(entity, evs, ts, n);
    assert forall|n: Seq<char>| #[trigger] f(n) is None by {
        lemma_state_event_cardinality(events, states, ts, n);
    }
    lemma_filter_map_none(named_states(ts), f);
}

/// A filter-map that maps every element to nothing yields nothing.
proof fn lemma_filter_map_none(s: Seq<Seq<char>>, f: spec_fn(Seq<char>) -> Option<FsmErrorV>)
    requires
        forall|n: Seq<char>| #[trigger] f(n) is None,
    ensures
        s.filter_map(f) == Seq::<FsmErrorV>::empty(),
    decreases s.len(),
{
    if s.len() > 0 {
        lemma_filter_map_none(s.drop_last(), f);
        assert(f(s.last()) is None);
    }
}

/// The constraint found under `name` is the first of that name.
proof fn lemma_find_constraint_first(cs: Seq<Constraint>, name: Seq<char>, i: int)
    requires
        0 <= i < cs.len(),
        cs[i].name@ == name,
        forall|m: int| 0 <= m < i ==> cs[m].name@ != name,
    ensures
        find_constraint(cs, name) == Some(cs[i]),
    decreases i,
{
    if i > 0 {
        lemma_find_constraint_first(cs.drop_first(), name, i - 1);
    }
}

} // verus!
