//! Indexing of runtime contexts by the entities that contribute telemetry.
use vstd::prelude::*;

verus! {

broadcast use vstd::seq_lib::group_seq_properties;

/// Identifies a runtime context rather than an instrumented entity.
#[derive(Clone, Copy, Debug, PartialEq, Eq, Hash, PartialOrd, Ord)]
pub struct ContextId(pub u128);

impl ContextId {
    /// The underlying id, for storage or transport.
    pub fn into_uuid(self) -> (id: u128)
        ensures
            id == self.0,
    {
        self.0
    }
}

impl From<u128> for ContextId {
    fn from(id: u128) -> (c: Self)
        ensures
            c == ContextId(id),
    {
        ContextId(id)
    }
}

impl vstd::std_specs::convert::FromSpecImpl<u128> for ContextId {
    open spec fn obeys_from_spec() -> bool {
        true
    }

    open spec fn from_spec(id: u128) -> ContextId {
        ContextId(id)
    }
}

/// Entities in one context whose telemetry contributes to the same analysis
/// target.
///
/// For a distributed application, the entry for the driver's context holds
/// the driver as both target and entity; the entry for a worker's context
/// holds the driver as target and the worker as entity.
#[derive(Debug, Clone, PartialEq, Eq)]
pub struct ContextAnalysisTarget {
    /// The entity being analyzed, such as the driver of a distributed application.
    pub analysis_target_id: u128,
    /// The contributing entities found in this context, such as a driver or worker.
    pub entity_ids: Vec<u128>,
}

/// Entities discovered by cheaply scanning one runtime context.
#[derive(Debug, Clone, PartialEq, Eq, Default)]
pub struct ContextInventory {
    /// The analysis targets represented in this context.
    pub analysis_targets: Vec<ContextAnalysisTarget>,
}

/// Finds the contexts needed to analyze an entity.
///
/// Analysis of a distributed application's driver uses the driver's context
/// and every worker context; independent targets may use the same or
/// different contexts.
#[derive(Debug, Clone, PartialEq, Eq)]
pub struct ContextIndex {
    /// Every (target, context) association seen.
    contexts: Vec<(u128, u128)>,
    /// Every (target, context, entity) association seen.
    entities: Vec<(u128, u128, u128)>,
}

/// The ids of contexts.
pub open spec fn context_values(s: Seq<ContextId>) -> Seq<u128> {
    s.map_values(|x: ContextId| x.0)
}

/// The context ids of (context, entities) pairs.
pub open spec fn pair_contexts(s: Seq<(ContextId, Vec<u128>)>) -> Seq<u128> {
    s.map_values(|p: (ContextId, Vec<u128>)| p.0.0)
}

/// Strictly increasing: sorted, without repetitions.
pub open spec fn strictly_increasing(s: Seq<u128>) -> bool {
    forall|i: int, j: int| 0 <= i < j < s.len() ==> s[i] < s[j]
}

/// `s` lists the set `set` in increasing order.
pub open spec fn lists_in_order(s: Seq<u128>, set: Set<u128>) -> bool {
    strictly_increasing(s) && s.to_set() == set
}

/// The (target, context) associations that one inventory adds.
pub open spec fn inventory_contexts(context: u128, inv: Seq<ContextAnalysisTarget>) -> Set<
    (u128, u128),
> {
    Set::new(
        |p: (u128, u128)|
            p.1 == context && exists|i: int|
                0 <= i < inv.len() && inv[i].analysis_target_id == p.0,
    )
}

/// The (target, context, entity) associations that one inventory adds.
pub open spec fn inventory_entities(context: u128, inv: Seq<ContextAnalysisTarget>) -> Set<
    (u128, u128, u128),
> {
    Set::new(
        |p: (u128, u128, u128)|
            p.1 == context && exists|i: int|
                0 <= i < inv.len() && inv[i].analysis_target_id == p.0 && inv[i].entity_ids@.contains(
                    p.2,
                ),
    )
}

impl Default for ContextIndex {
    fn default() -> (index: Self)
        ensures
            index.context_pairs() == Set::<(u128, u128)>::empty(),
            index.entity_triples() == Set::<(u128, u128, u128)>::empty(),
    {
        let index = ContextIndex { contexts: Vec::new(), entities: Vec::new() };
        assert(index.context_pairs() =~= Set::<(u128, u128)>::empty());
        assert(index.entity_triples() =~= Set::<(u128, u128, u128)>::empty());
        index
    }
}

/// Inserts `x` into the strictly increasing `v`, unless it is there already.
fn insert_in_order(v: &mut Vec<u128>, x: u128)
    requires
        strictly_increasing(old(v)@),
    ensures
        strictly_increasing(final(v)@),
        final(v)@.to_set() == old(v)@.to_set().insert(x),
{
    let ghost s = v@;
    let mut p: usize = 0;
    while p < v.len() && v[p] < x
        invariant
            p <= v@.len(),
            v@ == s,
            forall|k: int| 0 <= k < p ==> s[k] < x,
        decreases v@.len() - p,
    {
        p += 1;
    }
    if p < v.len() && v[p] == x {
        assert(s.to_set().insert(x) =~= s.to_set());
        return;
    }
    v.insert(p, x);
    assert(v@ =~= s.take(p as int).push(x) + s.skip(p as int));
    assert forall|i: int, j: int| 0 <= i < j < v@.len() implies v@[i] < v@[j] by {
        if i < p && j > p {
            assert(v@[j] == s[j - 1]);
        }
        if i > p {
            assert(v@[i] == s[i - 1] && v@[j] == s[j - 1]);
        }
        if i == p && j > p {
            assert(v@[j] == s[j - 1]);
        }
    }
    assert forall|y: u128| v@.to_set().contains(y) == s.to_set().insert(x).contains(y) by {
        if v@.contains(y) {
            let i = v@.index_of(y);
            if i < p {
                assert(s[i] == y);
            } else if i > p {
                assert(s[i - 1] == y);
            }
        }
        if s.contains(y) {
            let i = s.index_of(y);
            if i < p {
                assert(v@[i] == y);
            } else {
                assert(v@[i + 1] == y);
            }
        }
        if y == x {
            assert(v@[p as int] == x);
        }
    }
    assert(v@.to_set() =~= s.to_set().insert(x));
}

impl ContextIndex {
    /// The (target, context) associations known to the index.
    pub closed spec fn context_pairs(&self) -> Set<(u128, u128)> {
        self.contexts@.to_set()
    }

    /// The (target, context, entity) associations known to the index.
    pub closed spec fn entity_triples(&self) -> Set<(u128, u128, u128)> {
        self.entities@.to_set()
    }

    /// Adds the associations discovered in one runtime context.
    pub fn add_inventory(&mut self, context_id: ContextId, inventory: ContextInventory)
        ensures
            final(self).context_pairs() == old(self).context_pairs().union(
                inventory_contexts(context_id.0, inventory.analysis_targets@),
            ),
            final(self).entity_triples() == old(self).entity_triples().union(
                inventory_entities(context_id.0, inventory.analysis_targets@),
            ),
    {
        let c = context_id.0;
        let targets = &inventory.analysis_targets;
        let ghost inv = targets@;
        let ghost pairs0 = self.contexts@.to_set();
        let ghost triples0 = self.entities@.to_set();
        let mut i: usize = 0;
        while i < targets.len()
            invariant
                i <= inv.len(),
                inv == targets@,
                self.contexts@.to_set() == pairs0.union(inventory_contexts(c, inv.take(i as int))),
                self.entities@.to_set() == triples0.union(inventory_entities(c, inv.take(i as int))),
            decreases inv.len() - i,
        {
            let target = &targets[i];
            let t = target.analysis_target_id;
            let ghost before = self.contexts@;
            self.contexts.push((t, c));
            proof {
                assert(self.contexts@.to_set() =~= before.to_set().insert((t, c)));
            }
            let ghost mid = self.entities@.to_set();
            let ghost ctxs = self.contexts@;
            let mut k: usize = 0;
            while k < target.entity_ids.len()
                invariant
                    k <= target.entity_ids@.len(),
                    self.contexts@ == ctxs,
                    self.entities@.to_set() == mid.union(
                        Set::new(
                            |p: (u128, u128, u128)|
                                p.0 == t && p.1 == c && target.entity_ids@.take(k as int).contains(
                                    p.2,
                                ),
                        ),
                    ),
                decreases target.entity_ids@.len() - k,
            {
                let ghost prev = self.entities@;
                let e = target.entity_ids[k];
                self.entities.push((t, c, e));
                proof {
                    assert(target.entity_ids@.take(k as int + 1) =~= target.entity_ids@.take(
                        k as int,
                    ).push(e));
                    assert(self.entities@.to_set() =~= prev.to_set().insert((t, c, e)));
                    assert(self.entities@.to_set() =~= mid.union(
                        Set::new(
                            |p: (u128, u128, u128)|
                                p.0 == t && p.1 == c && target.entity_ids@.take(
                                    k as int + 1,
                                ).contains(p.2),
                        ),
                    ));
                }
                k += 1;
            }
            proof {
                assert(target.entity_ids@.take(target.entity_ids@.len() as int)
                    =~= target.entity_ids@);
                assert(inv.take(i as int + 1) =~= inv.take(i as int).push(inv[i as int]));
                assert forall|p: (u128, u128)|
                    inventory_contexts(c, inv.take(i as int + 1)).contains(p) == (
                    inventory_contexts(c, inv.take(i as int)).contains(p) || p == (t, c)) by {
                    if inventory_contexts(c, inv.take(i as int + 1)).contains(p) && p != (t, c) {
                        let w = choose|w: int|
                            0 <= w < i + 1 && (#[trigger] inv.take(i as int + 1)[w]).analysis_target_id == p.0;
                        assert(w < i);
                        assert(inv.take(i as int)[w] == inv[w]);
                    }
                    if inventory_contexts(c, inv.take(i as int)).contains(p) {
                        let w = choose|w: int|
                            0 <= w < i && (#[trigger] inv.take(i as int)[w]).analysis_target_id == p.0;
                        assert(inv.take(i as int + 1)[w] == inv[w]);
                    }
                    if p == (t, c) {
                        assert(inv.take(i as int + 1)[i as int] == inv[i as int]);
                    }
                }
                assert(self.contexts@.to_set() =~= pairs0.union(
                    inventory_contexts(c, inv.take(i as int + 1)),
                ));
                assert forall|p: (u128, u128, u128)|
                    inventory_entities(c, inv.take(i as int + 1)).contains(p) == (
                    inventory_entities(c, inv.take(i as int)).contains(p) || (p.0 == t && p.1 == c
                        && target.entity_ids@.contains(p.2))) by {
                    if inventory_entities(c, inv.take(i as int + 1)).contains(p) {
                        let w = choose|w: int|
                            0 <= w < i + 1 && (#[trigger] inv.take(i as int + 1)[w]).analysis_target_id == p.0
                                && inv.take(i as int + 1)[w].entity_ids@.contains(p.2);
                        if w < i {
                            assert(inv.take(i as int)[w] == inv[w]);
                        }
                    }
                    if inventory_entities(c, inv.take(i as int)).contains(p) {
                        let w = choose|w: int|
                            0 <= w < i && (#[trigger] inv.take(i as int)[w]).analysis_target_id == p.0
                                && inv.take(i as int)[w].entity_ids@.contains(p.2);
                        assert(inv.take(i as int + 1)[w] == inv[w]);
                    }
                    if p.0 == t && p.1 == c && target.entity_ids@.contains(p.2) {
                        assert(inv.take(i as int + 1)[i as int] == inv[i as int]);
                    }
                }
                assert(self.entities@.to_set() =~= triples0.union(
                    inventory_entities(c, inv.take(i as int + 1)),
                ));
            }
            i += 1;
        }
        proof {
            assert(inv.take(inv.len() as int) =~= inv);
        }
    }

    /// The entities for which aggregate analysis can be requested, in
    /// increasing order.
    pub fn analysis_target_ids(&self) -> (ids: Vec<u128>)
        ensures
            lists_in_order(ids@, Set::new(|t: u128| exists|c: u128| self.context_pairs().contains((t, c)))),
    {
        let mut ids: Vec<u128> = Vec::new();
        let mut i: usize = 0;
        while i < self.contexts.len()
            invariant
                i <= self.contexts@.len(),
                strictly_increasing(ids@),
                ids@.to_set() == Set::new(
                    |t: u128| exists|j: int| 0 <= j < i && self.contexts@[j].0 == t,
                ),
            decreases self.contexts@.len() - i,
        {
            let ghost before = ids@.to_set();
            insert_in_order(&mut ids, self.contexts[i].0);
            proof {
                assert(ids@.to_set() =~= Set::new(
                    |t: u128| exists|j: int| 0 <= j < i + 1 && self.contexts@[j].0 == t,
                ));
            }
            i += 1;
        }
        proof {
            let ghost seen = Set::new(
                |t: u128| exists|j: int| 0 <= j < self.contexts@.len() && self.contexts@[j].0 == t,
            );
            let ghost want = Set::new(
                |t: u128| exists|c: u128| self.context_pairs().contains((t, c)),
            );
            assert forall|t: u128| #[trigger] seen.contains(t) == want.contains(t) by {
                if want.contains(t) {
                    let c = choose|c: u128| self.context_pairs().contains((t, c));
                    let j = self.contexts@.index_of((t, c));
                    assert(self.contexts@[j].0 == t);
                }
                if seen.contains(t) {
                    let j = choose|j: int| 0 <= j < self.contexts@.len() && self.contexts@[j].0 == t;
                    assert(self.context_pairs().contains((t, self.contexts@[j].1)));
                }
            }
            assert(seen =~= want);
        }
        ids
    }

    /// The ids of the contexts whose telemetry contributes to
    /// `analysis_target_id`, in increasing order.
    fn context_ids_of(&self, analysis_target_id: u128) -> (ids: Vec<u128>)
        ensures
            lists_in_order(
                ids@,
                Set::new(|c: u128| self.context_pairs().contains((analysis_target_id, c))),
            ),
    {
        let mut ids: Vec<u128> = Vec::new();
        let mut i: usize = 0;
        while i < self.contexts.len()
            invariant
                i <= self.contexts@.len(),
                strictly_increasing(ids@),
                ids@.to_set() == Set::new(
                    |c: u128| exists|j: int| 0 <= j < i && self.contexts@[j] == (analysis_target_id, c),
                ),
            decreases self.contexts@.len() - i,
        {
            let (t, c) = self.contexts[i];
            if t == analysis_target_id {
                insert_in_order(&mut ids, c);
            }
            proof {
                assert(ids@.to_set() =~= Set::new(
                    |x: u128|
                        exists|j: int|
                            0 <= j < i + 1 && self.contexts@[j] == (analysis_target_id, x),
                ));
            }
            i += 1;
        }
        proof {
            assert forall|c: u128|
                (exists|j: int|
                    0 <= j < self.contexts@.len() && self.contexts@[j] == (analysis_target_id, c))
                    == self.context_pairs().contains((analysis_target_id, c)) by {
                if self.context_pairs().contains((analysis_target_id, c)) {
                    let j = self.contexts@.index_of((analysis_target_id, c));
                    assert(self.contexts@[j] == (analysis_target_id, c));
                }
            }
            assert(ids@.to_set() =~= Set::new(
                |c: u128| self.context_pairs().contains((analysis_target_id, c)),
            ));
        }
        ids
    }

    /// All contexts whose telemetry contributes to `analysis_target_id`, in
    /// increasing order.
    pub fn contexts_of_analysis_target(&self, analysis_target_id: u128) -> (contexts: Vec<
        ContextId,
    >)
        ensures
            lists_in_order(
                context_values(contexts@),
                Set::new(|c: u128| self.context_pairs().contains((analysis_target_id, c))),
            ),
    {
        let ids = self.context_ids_of(analysis_target_id);
        let mut contexts: Vec<ContextId> = Vec::new();
        let mut i: usize = 0;
        while i < ids.len()
            invariant
                i <= ids@.len(),
                context_values(contexts@) == ids@.take(i as int),
            decreases ids@.len() - i,
        {
            let ghost before = contexts@;
            contexts.push(ContextId(ids[i]));
            assert(context_values(contexts@) =~= context_values(before).push(ids@[i as int]));
            assert(ids@.take(i as int + 1) =~= ids@.take(i as int).push(ids@[i as int]));
            i += 1;
        }
        assert(ids@.take(ids@.len() as int) =~= ids@);
        contexts
    }

    /// The entities of `analysis_target_id` seen in the context `context`,
    /// in increasing order.
    fn entity_ids_of(&self, analysis_target_id: u128, context: u128) -> (ids: Vec<u128>)
        ensures
            lists_in_order(
                ids@,
                Set::new(|e: u128| self.entity_triples().contains((analysis_target_id, context, e))),
            ),
    {
        let mut ids: Vec<u128> = Vec::new();
        let mut i: usize = 0;
        while i < self.entities.len()
            invariant
                i <= self.entities@.len(),
                strictly_increasing(ids@),
                ids@.to_set() == Set::new(
                    |e: u128|
                        exists|j: int|
                            0 <= j < i && self.entities@[j] == (analysis_target_id, context, e),
                ),
            decreases self.entities@.len() - i,
        {
            let (t, c, e) = self.entities[i];
            if t == analysis_target_id && c == context {
                insert_in_order(&mut ids, e);
            }
            proof {
                assert(ids@.to_set() =~= Set::new(
                    |x: u128|
                        exists|j: int|
                            0 <= j < i + 1 && self.entities@[j] == (analysis_target_id, context, x),
                ));
            }
            i += 1;
        }
        proof {
            assert forall|e: u128|
                (exists|j: int|
                    0 <= j < self.entities@.len() && self.entities@[j] == (
                        analysis_target_id,
                        context,
                        e,
                    )) == self.entity_triples().contains((analysis_target_id, context, e)) by {
                if self.entity_triples().contains((analysis_target_id, context, e)) {
                    let j = self.entities@.index_of((analysis_target_id, context, e));
                    assert(self.entities@[j] == (analysis_target_id, context, e));
                }
            }
            assert(ids@.to_set() =~= Set::new(
                |e: u128| self.entity_triples().contains((analysis_target_id, context, e)),
            ));
        }
        ids
    }

    /// Each contributing context of `analysis_target_id`, in increasing order,
    /// with its entities in increasing order (none for a context that listed
    /// the target without entities).
    pub fn entities_by_context_of_analysis_target(&self, analysis_target_id: u128) -> (r: Vec<
        (ContextId, Vec<u128>),
    >)
        ensures
            lists_in_order(
                pair_contexts(r@),
                Set::new(|c: u128| self.context_pairs().contains((analysis_target_id, c))),
            ),
            forall|i: int|
                0 <= i < r@.len() ==> lists_in_order(
                    (#[trigger] r@[i]).1@,
                    Set::new(
                        |e: u128|
                            self.entity_triples().contains((analysis_target_id, r@[i].0.0, e)),
                    ),
                ),
    {
        let ids = self.context_ids_of(analysis_target_id);
        let mut r: Vec<(ContextId, Vec<u128>)> = Vec::new();
        let mut i: usize = 0;
        while i < ids.len()
            invariant
                i <= ids@.len(),
                pair_contexts(r@) == ids@.take(i as int),
                forall|k: int|
                    0 <= k < r@.len() ==> lists_in_order(
                        (#[trigger] r@[k]).1@,
                        Set::new(
                            |e: u128|
                                self.entity_triples().contains((analysis_target_id, r@[k].0.0, e)),
                        ),
                    ),
            decreases ids@.len() - i,
        {
            let c = ids[i];
            let entities = self.entity_ids_of(analysis_target_id, c);
            let ghost before = r@;
            r.push((ContextId(c), entities));
            assert(pair_contexts(r@) =~= pair_contexts(before).push(c));
            assert(ids@.take(i as int + 1) =~= ids@.take(i as int).push(ids@[i as int]));
            i += 1;
        }
        assert(ids@.take(ids@.len() as int) =~= ids@);
        r
    }
}

} // verus!
