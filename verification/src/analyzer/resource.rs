//! Resources and resource groups defined at run time, assembled from their
//! events during analysis.
use vstd::prelude::*;

use crate::analyzer::error::{AnalyzerError, IncompleteEntity, ValidationError};

verus! {

/// The capacities a resource offers while operating.
#[derive(Debug, Clone, PartialEq, Eq)]
pub struct ResourceCapacities(pub Vec<u64>);

/// A state transition of a resource, with the time (nanoseconds since the
/// Unix epoch) at which it happened.
#[derive(Debug, Clone, PartialEq, Eq)]
pub enum RtResourceTransition {
    Init(u64),
    Operating(u64, ResourceCapacities),
    Resizing(u64),
    Finalizing(u64),
    Exit(u64),
}

/// The time of a transition.
pub open spec fn time_of(t: RtResourceTransition) -> u64 {
    match t {
        RtResourceTransition::Init(ts) => ts,
        RtResourceTransition::Operating(ts, _) => ts,
        RtResourceTransition::Resizing(ts) => ts,
        RtResourceTransition::Finalizing(ts) => ts,
        RtResourceTransition::Exit(ts) => ts,
    }
}

/// The name of the state a transition leads to.
pub open spec fn state_name_of(t: RtResourceTransition) -> Seq<char> {
    match t {
        RtResourceTransition::Init(_) => "init"@,
        RtResourceTransition::Operating(_, _) => "operating"@,
        RtResourceTransition::Resizing(_) => "resizing"@,
        RtResourceTransition::Finalizing(_) => "finalizing"@,
        RtResourceTransition::Exit(_) => "exit"@,
    }
}

/// Transitions in order of time.
pub open spec fn in_time_order(s: Seq<RtResourceTransition>) -> bool {
    forall|i: int, j: int| 0 <= i <= j < s.len() ==> time_of(s[i]) <= time_of(s[j])
}

/// `s` with `t` inserted after every transition at or before its time: the
/// transitions stay in time order, and transitions at the same time stay in
/// the order they were added.
pub open spec fn insert_in_time_order(s: Seq<RtResourceTransition>, t: RtResourceTransition) -> Seq<
    RtResourceTransition,
>
    decreases s.len(),
{
    if s.len() == 0 {
        seq![t]
    } else if time_of(s.last()) <= time_of(t) {
        s.push(t)
    } else {
        insert_in_time_order(s.drop_last(), t).push(s.last())
    }
}

/// Law: adding a transition to transitions in time order puts it after
/// every transition at or before its time and before every later one,
/// keeping the others as they were: the result is in time order, and it is
/// the transitions up to some point, the new one, and the rest.
pub proof fn law_insert_in_time_order(s: Seq<RtResourceTransition>, t: RtResourceTransition)
    requires
        in_time_order(s),
    ensures
        in_time_order(insert_in_time_order(s, t)),
        exists|k: int|
            0 <= k <= s.len() && insert_in_time_order(s, t) == s.take(k) + seq![t] + s.skip(k)
                && (forall|i: int| 0 <= i < k ==> time_of(#[trigger] s[i]) <= time_of(t))
                && (forall|i: int| k <= i < s.len() ==> time_of(#[trigger] s[i]) > time_of(t)),
    decreases s.len(),
{
    let r = insert_in_time_order(s, t);
    if s.len() == 0 {
        assert(r =~= s.take(0) + seq![t] + s.skip(0));
    } else if time_of(s.last()) <= time_of(t) {
        let k = s.len() as int;
        assert(r =~= s.take(k) + seq![t] + s.skip(k));
        assert forall|i: int| 0 <= i < k implies time_of(#[trigger] s[i]) <= time_of(t) by {
            assert(time_of(s[i]) <= time_of(s[k - 1]));
        }
        assert forall|i: int, j: int| 0 <= i <= j < r.len() implies time_of(r[i]) <= time_of(
            r[j],
        ) by {
            if j == k {
                if i < k {
                    assert(r[i] == s[i]);
                }
            } else {
                assert(r[i] == s[i] && r[j] == s[j]);
            }
        }
    } else {
        let d = s.drop_last();
        assert forall|i: int, j: int| 0 <= i <= j < d.len() implies time_of(d[i]) <= time_of(
            d[j],
        ) by {
            assert(d[i] == s[i] && d[j] == s[j]);
        }
        law_insert_in_time_order(d, t);
        let rd = insert_in_time_order(d, t);
        let k = choose|k: int|
            0 <= k <= d.len() && rd == d.take(k) + seq![t] + d.skip(k) && (forall|i: int|
                0 <= i < k ==> time_of(#[trigger] d[i]) <= time_of(t)) && (forall|i: int|
                k <= i < d.len() ==> time_of(#[trigger] d[i]) > time_of(t));
        assert(r == rd.push(s.last()));
        assert(r =~= s.take(k) + seq![t] + s.skip(k));
        assert forall|i: int| 0 <= i < k implies time_of(#[trigger] s[i]) <= time_of(t) by {
            assert(s[i] == d[i]);
        }
        assert forall|i: int| k <= i < s.len() implies time_of(#[trigger] s[i]) > time_of(t) by {
            if i < d.len() {
                assert(s[i] == d[i]);
            }
        }
        assert forall|i: int, j: int| 0 <= i <= j < r.len() implies time_of(r[i]) <= time_of(
            r[j],
        ) by {
            if j == r.len() - 1 {
                assert(r[j] == s.last());
                if i < j {
                    assert(r[i] == rd[i]);
                    if i == k {
                        assert(rd[i] == t);
                    } else if i < k {
                        assert(rd[i] == d[i]);
                        assert(time_of(s[i]) <= time_of(s[s.len() - 1]));
                    } else {
                        assert(rd[i] == d[i - 1]);
                        assert(time_of(s[i - 1]) <= time_of(s[s.len() - 1]));
                    }
                }
            } else {
                assert(r[i] == rd[i] && r[j] == rd[j]);
            }
        }
    }
}

/// Every transition of `insert_in_time_order(s, t)` is one of `s` or `t`
/// itself, so a bound on their times bounds the result.
pub proof fn lemma_insert_in_time_order_bounded(
    s: Seq<RtResourceTransition>,
    t: RtResourceTransition,
    bound: u64,
)
    requires
        forall|i: int| 0 <= i < s.len() ==> time_of(#[trigger] s[i]) <= bound,
        time_of(t) <= bound,
    ensures
        insert_in_time_order(s, t).len() == s.len() + 1,
        forall|i: int|
            0 <= i < s.len() + 1 ==> time_of(#[trigger] insert_in_time_order(s, t)[i]) <= bound,
    decreases s.len(),
{
    if s.len() > 0 && time_of(s.last()) > time_of(t) {
        lemma_insert_in_time_order_bounded(s.drop_last(), t, bound);
    }
}

/// Adding a transition keeps the transitions in time order.
pub proof fn lemma_insert_keeps_time_order(s: Seq<RtResourceTransition>, t: RtResourceTransition)
    requires
        in_time_order(s),
    ensures
        in_time_order(insert_in_time_order(s, t)),
    decreases s.len(),
{
    if s.len() > 0 && time_of(s.last()) > time_of(t) {
        let d = s.drop_last();
        lemma_insert_keeps_time_order(d, t);
        lemma_insert_in_time_order_bounded(d, t, time_of(s.last()));
    }
}

/// Adding a transition adds exactly that transition: nothing is lost or
/// duplicated.
pub proof fn lemma_insert_adds_one(s: Seq<RtResourceTransition>, t: RtResourceTransition)
    ensures
        insert_in_time_order(s, t).to_multiset() == s.to_multiset().insert(t),
    decreases s.len(),
{
    broadcast use vstd::seq_lib::to_multiset_build;

    if s.len() == 0 {
        assert(s.push(t) =~= seq![t]);
    } else if time_of(s.last()) > time_of(t) {
        let d = s.drop_last();
        lemma_insert_adds_one(d, t);
        assert(s =~= d.push(s.last()));
        assert(d.to_multiset().insert(t).insert(s.last()) =~= d.to_multiset().insert(
            s.last(),
        ).insert(t));
    }
}

impl RtResourceTransition {
    /// The time of this transition.
    pub fn timestamp(&self) -> (ts: u64)
        ensures
            ts == time_of(*self),
    {
        match self {
            RtResourceTransition::Init(ts) => *ts,
            RtResourceTransition::Operating(ts, _) => *ts,
            RtResourceTransition::Resizing(ts) => *ts,
            RtResourceTransition::Finalizing(ts) => *ts,
            RtResourceTransition::Exit(ts) => *ts,
        }
    }

    /// The name of the state this transition leads to.
    pub fn name(&self) -> (n: &'static str)
        ensures
            n@ == state_name_of(*self),
    {
        match self {
            RtResourceTransition::Init(_) => "init",
            RtResourceTransition::Operating(_, _) => "operating",
            RtResourceTransition::Resizing(_) => "resizing",
            RtResourceTransition::Finalizing(_) => "finalizing",
            RtResourceTransition::Exit(_) => "exit",
        }
    }
}

/// Collects the events of a resource and builds an [`RtResource`].
pub struct RtResourceBuilder {
    id: u128,
    instance_name: Option<String>,
    type_label: Option<String>,
    parent_group_id: Option<u128>,
    transitions: Vec<RtResourceTransition>,
}

/// A resource.
#[derive(Debug, Clone, PartialEq, Eq)]
pub struct RtResource {
    /// The id of this resource.
    pub id: u128,
    /// The name of this resource.
    pub instance_name: String,
    /// The unique type name of this resource.
    pub type_label: String,
    /// The id of the parent resource group.
    pub parent_group_id: u128,
    /// The state transitions this resource went through.
    pub transitions: Vec<RtResourceTransition>,
}

/// A state of a resource's FSM: the span between two consecutive transitions,
/// named after the first of them.
#[derive(Debug, Clone, Copy, PartialEq, Eq)]
pub struct FsmStateRef {
    index: usize,
    name: &'static str,
    start: u64,
    end: u64,
}

impl FsmStateRef {
    /// The position of this state among the FSM's states.
    pub closed spec fn index(&self) -> usize {
        self.index
    }

    /// The name of this state.
    pub closed spec fn name_spec(&self) -> Seq<char> {
        self.name@
    }

    /// When this state was entered.
    pub closed spec fn start(&self) -> u64 {
        self.start
    }

    /// When this state was left.
    pub closed spec fn end(&self) -> u64 {
        self.end
    }

    /// The name of this state.
    pub fn name(&self) -> (n: &'static str)
        ensures
            n@ == self.name_spec(),
    {
        self.name
    }

    /// The span of time this state lasted, as its start and end.
    pub fn span(&self) -> (s: (u64, u64))
        requires
            self.start() <= self.end(),
        ensures
            s == (self.start(), self.end()),
    {
        (self.start, self.end)
    }
}

/// The number of states of an FSM with these transitions: one less than the
/// number of transitions, and none without transitions.
pub open spec fn state_count(s: Seq<RtResourceTransition>) -> nat {
    if s.len() == 0 {
        0
    } else {
        (s.len() - 1) as nat
    }
}

/// The state at `index` of an FSM with the transitions `s`.
pub open spec fn is_state_of(st: FsmStateRef, s: Seq<RtResourceTransition>, index: int) -> bool {
    &&& 0 <= index < state_count(s)
    &&& st.index() == index
    &&& st.name_spec() == state_name_of(s[index])
    &&& st.start() == time_of(s[index])
    &&& st.end() == time_of(s[index + 1])
}

impl RtResource {
    /// The number of states: one less than the number of transitions.
    pub fn len(&self) -> (n: usize)
        ensures
            n == state_count(self.transitions@),
    {
        if self.transitions.len() == 0 {
            0
        } else {
            self.transitions.len() - 1
        }
    }

    /// Whether the resource has no states (its model is incomplete).
    pub fn is_empty(&self) -> (r: bool)
        ensures
            r == (state_count(self.transitions@) == 0),
    {
        self.len() == 0
    }

    /// The transition at `index`, if there is one.
    pub fn transition(&self, index: usize) -> (r: Option<&RtResourceTransition>)
        ensures
            match r {
                Some(t) => index < self.transitions@.len() && *t == self.transitions@[index as int],
                None => index >= self.transitions@.len(),
            },
    {
        if index < self.transitions.len() {
            Some(&self.transitions[index])
        } else {
            None
        }
    }

    /// The most recent transition, if there is one.
    pub fn last_transition(&self) -> (r: Option<&RtResourceTransition>)
        ensures
            match r {
                Some(t) => self.transitions@.len() > 0 && *t == self.transitions@.last(),
                None => self.transitions@.len() == 0,
            },
    {
        if self.transitions.len() == 0 {
            None
        } else {
            Some(&self.transitions[self.transitions.len() - 1])
        }
    }

    /// The state at `index`: it spans from transition `index` to transition
    /// `index + 1`.
    pub fn state(&self, index: usize) -> (r: Option<FsmStateRef>)
        ensures
            match r {
                Some(st) => {
                    &&& is_state_of(st, self.transitions@, index as int)
                    &&& in_time_order(self.transitions@) ==> st.start() <= st.end()
                },
                None => index >= state_count(self.transitions@),
            },
    {
        if index < self.len() {
            let from = &self.transitions[index];
            let to = &self.transitions[index + 1];
            Some(
                FsmStateRef {
                    index,
                    name: from.name(),
                    start: from.timestamp(),
                    end: to.timestamp(),
                },
            )
        } else {
            None
        }
    }

    /// All states, in order.
    pub fn states(&self) -> (r: Vec<FsmStateRef>)
        ensures
            r@.len() == state_count(self.transitions@),
            forall|i: int| 0 <= i < r@.len() ==> is_state_of(#[trigger] r@[i], self.transitions@, i),
    {
        let n = self.len();
        let mut r: Vec<FsmStateRef> = Vec::new();
        let mut i: usize = 0;
        while i < n
            invariant
                n == state_count(self.transitions@),
                i <= n,
                r@.len() == i,
                forall|k: int| 0 <= k < i ==> is_state_of(#[trigger] r@[k], self.transitions@, k),
            decreases n - i,
        {
            match self.state(i) {
                Some(st) => r.push(st),
                None => {},
            }
            i += 1;
        }
        r
    }

    /// The first state, if there is one.
    pub fn first(&self) -> (r: Option<FsmStateRef>)
        ensures
            match r {
                Some(st) => is_state_of(st, self.transitions@, 0),
                None => state_count(self.transitions@) == 0,
            },
    {
        self.state(0)
    }

    /// The last state, if there is one.
    pub fn last(&self) -> (r: Option<FsmStateRef>)
        ensures
            match r {
                Some(st) => is_state_of(st, self.transitions@, state_count(self.transitions@) - 1),
                None => state_count(self.transitions@) == 0,
            },
    {
        let n = self.len();
        if n == 0 {
            None
        } else {
            self.state(n - 1)
        }
    }
}

/// A group of resources.
#[derive(Debug, Clone, PartialEq, Eq, Default)]
pub struct RtResourceGroup {
    /// The id of this resource group.
    pub id: u128,
    /// The name of the type of resource group.
    pub type_label: String,
    /// The name of the instance of this resource group.
    pub instance_name: String,
    /// The parent of this resource group; `None` for the root of the
    /// application's resource tree.
    pub parent_group_id: Option<u128>,
}

impl RtResourceGroup {
    /// A resource group; the nil id is refused.
    pub fn try_new(
        id: u128,
        type_label: String,
        instance_name: String,
        parent_group_id: Option<u128>,
    ) -> (r: Result<Self, AnalyzerError>)
        ensures
            match r {
                Ok(g) => {
                    &&& id != 0
                    &&& g.id == id
                    &&& g.type_label@ == type_label@
                    &&& g.instance_name@ == instance_name@
                    &&& g.parent_group_id == parent_group_id
                },
                Err(e) => id == 0 && e == AnalyzerError::InvalidId(id),
            },
    {
        if id == 0 {
            Err(AnalyzerError::InvalidId(id))
        } else {
            Ok(RtResourceGroup { id, type_label, instance_name, parent_group_id })
        }
    }
}

impl RtResourceBuilder {
    /// The transitions are always kept in time order.
    #[verifier::type_invariant]
    spec fn inv(self) -> bool {
        in_time_order(self.transitions@)
    }

    /// The id of the resource being built.
    pub closed spec fn id(&self) -> u128 {
        self.id
    }

    /// The instance name set so far.
    pub closed spec fn instance_name(&self) -> Option<Seq<char>> {
        match self.instance_name {
            Some(n) => Some(n@),
            None => None,
        }
    }

    /// The type name set so far.
    pub closed spec fn type_label(&self) -> Option<Seq<char>> {
        match self.type_label {
            Some(n) => Some(n@),
            None => None,
        }
    }

    /// The parent resource group set so far.
    pub closed spec fn parent_group_id(&self) -> Option<u128> {
        self.parent_group_id
    }

    /// The transitions pushed so far, in time order.
    pub closed spec fn transitions(&self) -> Seq<RtResourceTransition> {
        self.transitions@
    }

    /// Why the resource cannot be built, if it cannot: checked in this order,
    /// it has no transitions, its first transition is not `init`, or it lacks
    /// an instance name, a type name or a parent resource group.
    pub open spec fn build_error(&self) -> Option<AnalyzerError> {
        if self.transitions().len() == 0 {
            Some(AnalyzerError::Validation(ValidationError::NoTransitions { resource_id: self.id() }))
        } else if !(self.transitions()[0] is Init) {
            Some(
                AnalyzerError::Validation(
                    ValidationError::FirstStateNotInit { resource_id: self.id() },
                ),
            )
        } else if self.instance_name() is None {
            Some(
                AnalyzerError::IncompleteEntity(
                    IncompleteEntity::MissingInstanceName { resource_id: self.id() },
                ),
            )
        } else if self.type_label() is None {
            Some(
                AnalyzerError::IncompleteEntity(
                    IncompleteEntity::MissingTypeName { resource_id: self.id() },
                ),
            )
        } else if self.parent_group_id() is None {
            Some(
                AnalyzerError::IncompleteEntity(
                    IncompleteEntity::MissingParentGroup { resource_id: self.id() },
                ),
            )
        } else {
            None
        }
    }

    /// Starts building the resource `id`; the nil id is refused.
    pub fn try_new(id: u128) -> (r: Result<Self, AnalyzerError>)
        ensures
            match r {
                Ok(b) => {
                    &&& id != 0
                    &&& b.id() == id
                    &&& b.instance_name() is None
                    &&& b.type_label() is None
                    &&& b.parent_group_id() is None
                    &&& b.transitions() == Seq::<RtResourceTransition>::empty()
                },
                Err(e) => id == 0 && e == AnalyzerError::InvalidId(id),
            },
    {
        if id == 0 {
            Err(AnalyzerError::InvalidId(id))
        } else {
            Ok(
                RtResourceBuilder {
                    id,
                    instance_name: None,
                    type_label: None,
                    parent_group_id: None,
                    transitions: Vec::new(),
                },
            )
        }
    }

    /// Sets the type name.
    pub fn set_type_label(&mut self, type_label: &str)
        ensures
            final(self).type_label() == Some(type_label@),
            final(self).id() == old(self).id(),
            final(self).instance_name() == old(self).instance_name(),
            final(self).parent_group_id() == old(self).parent_group_id(),
            final(self).transitions() == old(self).transitions(),
    {
        proof {
            use_type_invariant(&*self);
        }
        self.type_label = Some(type_label.to_owned());
    }

    /// Sets (or clears) the instance name.
    pub fn set_instance_name(&mut self, instance_name: Option<String>)
        ensures
            final(self).instance_name() == (match instance_name {
                Some(n) => Some(n@),
                None => None::<Seq<char>>,
            }),
            final(self).id() == old(self).id(),
            final(self).type_label() == old(self).type_label(),
            final(self).parent_group_id() == old(self).parent_group_id(),
            final(self).transitions() == old(self).transitions(),
    {
        proof {
            use_type_invariant(&*self);
        }
        self.instance_name = instance_name;
    }

    /// Sets the parent resource group.
    pub fn set_parent_group_id(&mut self, parent: u128)
        ensures
            final(self).parent_group_id() == Some(parent),
            final(self).id() == old(self).id(),
            final(self).instance_name() == old(self).instance_name(),
            final(self).type_label() == old(self).type_label(),
            final(self).transitions() == old(self).transitions(),
    {
        proof {
            use_type_invariant(&*self);
        }
        self.parent_group_id = Some(parent);
    }

    /// Adds a transition, keeping the transitions in time order.
    pub fn push(&mut self, transition: RtResourceTransition)
        ensures
            final(self).transitions() == insert_in_time_order(old(self).transitions(), transition),
            in_time_order(final(self).transitions()),
            exists|k: int|
                0 <= k <= old(self).transitions().len() && final(self).transitions() == old(
                    self,
                ).transitions().take(k) + seq![transition] + old(self).transitions().skip(k) && (
                forall|i: int|
                    0 <= i < k ==> time_of(#[trigger] old(self).transitions()[i]) <= time_of(
                        transition,
                    )) && (forall|i: int|
                    k <= i < old(self).transitions().len() ==> time_of(
                        #[trigger] old(self).transitions()[i],
                    ) > time_of(transition)),
            final(self).id() == old(self).id(),
            final(self).instance_name() == old(self).instance_name(),
            final(self).type_label() == old(self).type_label(),
            final(self).parent_group_id() == old(self).parent_group_id(),
    {
        proof {
            use_type_invariant(&*self);
        }
        let ghost before = self.transitions@;
        let mut transitions: Vec<RtResourceTransition> = Vec::new();
        core::mem::swap(&mut transitions, &mut self.transitions);
        let ts = transition.timestamp();
        let mut tail: Vec<RtResourceTransition> = Vec::new();
        // Move the transitions later than the new one aside, newest first.
        while transitions.len() > 0 && transitions[transitions.len() - 1].timestamp() > ts
            invariant
                insert_in_time_order(before, transition) == insert_in_time_order(
                    transitions@,
                    transition,
                ) + tail@.reverse(),
                ts == time_of(transition),
            decreases transitions@.len(),
        {
            let ghost s = transitions@;
            let last = transitions.pop();
            match last {
                Some(t) => {
                    let ghost old_tail = tail@;
                    tail.push(t);
                    proof {
                        assert(s.drop_last() == transitions@);
                        assert(tail@.reverse() =~= seq![t] + old_tail.reverse());
                        assert(insert_in_time_order(s, transition) == insert_in_time_order(
                            transitions@,
                            transition,
                        ).push(t));
                        assert(insert_in_time_order(transitions@, transition).push(t)
                            + old_tail.reverse() =~= insert_in_time_order(
                            transitions@,
                            transition,
                        ) + tail@.reverse());
                    }
                },
                None => {},
            }
        }
        proof {
            if transitions@.len() > 0 {
                assert(insert_in_time_order(transitions@, transition) == transitions@.push(
                    transition,
                ));
            } else {
                assert(insert_in_time_order(transitions@, transition) =~= seq![transition]);
                assert(transitions@.push(transition) =~= seq![transition]);
            }
        }
        transitions.push(transition);
        while tail.len() > 0
            invariant
                insert_in_time_order(before, transition) == transitions@ + tail@.reverse(),
            decreases tail@.len(),
        {
            let ghost old_tail = tail@;
            let ghost s = transitions@;
            let next = tail.pop();
            match next {
                Some(t) => {
                    transitions.push(t);
                    proof {
                        assert(old_tail.reverse() =~= seq![t] + tail@.reverse());
                        assert(s + old_tail.reverse() =~= transitions@ + tail@.reverse());
                    }
                },
                None => {},
            }
        }
        proof {
            assert(transitions@ + tail@.reverse() =~= transitions@);
            lemma_insert_keeps_time_order(before, transition);
            law_insert_in_time_order(before, transition);
        }
        self.transitions = transitions;
    }

    /// Builds the resource, with its transitions in time order.
    pub fn try_build(self) -> (r: Result<RtResource, AnalyzerError>)
        ensures
            match r {
                Ok(res) => {
                    &&& self.build_error() is None
                    &&& res.id == self.id()
                    &&& self.instance_name() == Some(res.instance_name@)
                    &&& self.type_label() == Some(res.type_label@)
                    &&& self.parent_group_id() == Some(res.parent_group_id)
                    &&& res.transitions@ == self.transitions()
                    &&& in_time_order(res.transitions@)
                },
                Err(e) => self.build_error() == Some(e),
            },
    {
        proof {
            use_type_invariant(&self);
        }
        let RtResourceBuilder { id, instance_name, type_label, parent_group_id, transitions } = self;
        if transitions.len() == 0 {
            return Err(
                AnalyzerError::Validation(ValidationError::NoTransitions { resource_id: id }),
            );
        }
        match &transitions[0] {
            RtResourceTransition::Init(_) => {},
            _ => {
                return Err(
                    AnalyzerError::Validation(ValidationError::FirstStateNotInit { resource_id: id }),
                );
            },
        }
        let instance_name = match instance_name {
            Some(n) => n,
            None => {
                return Err(
                    AnalyzerError::IncompleteEntity(
                        IncompleteEntity::MissingInstanceName { resource_id: id },
                    ),
                );
            },
        };
        let type_label = match type_label {
            Some(n) => n,
            None => {
                return Err(
                    AnalyzerError::IncompleteEntity(
                        IncompleteEntity::MissingTypeName { resource_id: id },
                    ),
                );
            },
        };
        let parent_group_id = match parent_group_id {
            Some(p) => p,
            None => {
                return Err(
                    AnalyzerError::IncompleteEntity(
                        IncompleteEntity::MissingParentGroup { resource_id: id },
                    ),
                );
            },
        };
        Ok(RtResource { id, instance_name, type_label, parent_group_id, transitions })
    }
}

} // verus!
