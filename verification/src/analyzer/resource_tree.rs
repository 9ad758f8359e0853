//! The resource hierarchy: a tree of entities, some of them marked as
//! resources.
use vstd::prelude::*;

verus! {

/// An entity in a resource hierarchy, optionally marked as a resource.
#[derive(Debug)]
pub struct ResourceTreeNode {
    pub entity_id: u128,
    pub is_resource: bool,
    pub children: Vec<ResourceTreeNode>,
}

/// The resource ids of a hierarchy in depth-first pre-order: the node itself
/// if it is a resource, then each child's hierarchy in order.
pub open spec fn resource_ids(n: ResourceTreeNode) -> Seq<u128>
    decreases n,
{
    let own = if n.is_resource {
        seq![n.entity_id]
    } else {
        Seq::empty()
    };
    own + forest_resource_ids(n.children@)
}

/// The resource ids of several hierarchies, one after the other.
pub open spec fn forest_resource_ids(cs: Seq<ResourceTreeNode>) -> Seq<u128>
    decreases cs,
{
    if cs.len() == 0 {
        Seq::empty()
    } else {
        forest_resource_ids(cs.drop_last()) + resource_ids(cs.last())
    }
}

/// The number of nodes of a hierarchy.
pub open spec fn tree_size(n: ResourceTreeNode) -> nat
    decreases n,
{
    1 + forest_size(n.children@)
}

/// The number of nodes of several hierarchies.
pub open spec fn forest_size(cs: Seq<ResourceTreeNode>) -> nat
    decreases cs,
{
    if cs.len() == 0 {
        0
    } else {
        forest_size(cs.drop_last()) + tree_size(cs.last())
    }
}

/// The children of the nodes of one level, level by level: the next level of
/// a breadth-first walk.
pub open spec fn next_level(level: Seq<ResourceTreeNode>) -> Seq<ResourceTreeNode>
    decreases level.len(),
{
    if level.len() == 0 {
        Seq::empty()
    } else {
        next_level(level.drop_last()) + level.last().children@
    }
}

/// The number of nodes of two groups of hierarchies together.
pub proof fn lemma_forest_size_add(a: Seq<ResourceTreeNode>, b: Seq<ResourceTreeNode>)
    ensures
        forest_size(a + b) == forest_size(a) + forest_size(b),
    decreases b.len(),
{
    if b.len() > 0 {
        lemma_forest_size_add(a, b.drop_last());
        assert((a + b).drop_last() =~= a + b.drop_last());
        assert((a + b).last() == b.last());
    } else {
        assert(a + b =~= a);
    }
}

/// The next level holds every node of a level's hierarchies but the level's
/// own nodes.
pub proof fn lemma_next_level_size(level: Seq<ResourceTreeNode>)
    ensures
        forest_size(next_level(level)) + level.len() == forest_size(level),
    decreases level.len(),
{
    if level.len() > 0 {
        lemma_next_level_size(level.drop_last());
        lemma_forest_size_add(next_level(level.drop_last()), level.last().children@);
        assert(tree_size(level.last()) == 1 + forest_size(level.last().children@));
        assert(forest_size(level) == forest_size(level.drop_last()) + tree_size(level.last()));
    }
}

/// Where some node of a level has the id `target`, a first one has.
pub proof fn lemma_first_with_id(level: Seq<ResourceTreeNode>, target: u128, i0: int)
    requires
        0 <= i0 < level.len(),
        level[i0].entity_id == target,
    ensures
        exists|i: int|
            0 <= i < level.len() && level[i].entity_id == target && forall|k: int|
                0 <= k < i ==> level[k].entity_id != target,
    decreases i0,
{
    if exists|k: int| 0 <= k < i0 && level[k].entity_id == target {
        let k = choose|k: int| 0 <= k < i0 && level[k].entity_id == target;
        lemma_first_with_id(level, target, k);
    } else {
        assert(forall|k: int| 0 <= k < i0 ==> level[k].entity_id != target);
    }
}

/// The first node with the id `target` in a breadth-first walk that starts
/// at the nodes of `level`.
pub open spec fn bfs_find(level: Seq<ResourceTreeNode>, target: u128) -> Option<ResourceTreeNode>
    decreases forest_size(level),
{
    if level.len() == 0 {
        None
    } else if exists|i: int| 0 <= i < level.len() && level[i].entity_id == target {
        Some(
            level[choose|i: int|
                0 <= i < level.len() && level[i].entity_id == target && forall|k: int|
                    0 <= k < i ==> level[k].entity_id != target],
        )
    } else {
        proof {
            lemma_next_level_size(level);
        }
        bfs_find(next_level(level), target)
    }
}

/// Law: a breadth-first search only ever finds a node with the id it looks
/// for.
pub proof fn law_bfs_find_has_target(level: Seq<ResourceTreeNode>, target: u128)
    ensures
        bfs_find(level, target) matches Some(n) ==> n.entity_id == target,
    decreases forest_size(level),
{
    if level.len() > 0 {
        if exists|i: int| 0 <= i < level.len() && level[i].entity_id == target {
            let i0 = choose|i: int| 0 <= i < level.len() && level[i].entity_id == target;
            lemma_first_with_id(level, target, i0);
        } else {
            lemma_next_level_size(level);
            law_bfs_find_has_target(next_level(level), target);
        }
    }
}

/// Whether some node of the hierarchy under `n`, `n` itself included, at
/// any depth, has the id `target`.
pub open spec fn tree_has(n: ResourceTreeNode, target: u128) -> bool
    decreases n,
{
    n.entity_id == target || forest_has(n.children@, target)
}

/// Whether some node of the hierarchies `cs`, at any depth, has the id
/// `target`.
pub open spec fn forest_has(cs: Seq<ResourceTreeNode>, target: u128) -> bool
    decreases cs,
{
    if cs.len() == 0 {
        false
    } else {
        forest_has(cs.drop_last(), target) || tree_has(cs.last(), target)
    }
}

/// Two groups of hierarchies together hold an id exactly when one of them
/// does.
proof fn lemma_forest_has_add(a: Seq<ResourceTreeNode>, b: Seq<ResourceTreeNode>, target: u128)
    ensures
        forest_has(a + b, target) == (forest_has(a, target) || forest_has(b, target)),
    decreases b.len(),
{
    if b.len() > 0 {
        lemma_forest_has_add(a, b.drop_last(), target);
        assert((a + b).drop_last() =~= a + b.drop_last());
        assert((a + b).last() == b.last());
    } else {
        assert(a + b =~= a);
    }
}

/// The hierarchies of a level hold an id exactly when a node of the level
/// has it or the hierarchies of the next level hold it.
proof fn lemma_forest_has_level(level: Seq<ResourceTreeNode>, target: u128)
    ensures
        forest_has(level, target) == ((exists|i: int|
            0 <= i < level.len() && level[i].entity_id == target) || forest_has(
            next_level(level),
            target,
        )),
    decreases level.len(),
{
    if level.len() > 0 {
        let init = level.drop_last();
        let last = level.last();
        lemma_forest_has_level(init, target);
        lemma_forest_has_add(next_level(init), last.children@, target);
        assert(tree_has(last, target) == (last.entity_id == target || forest_has(
            last.children@,
            target,
        )));
        if exists|i: int| 0 <= i < init.len() && init[i].entity_id == target {
            let i = choose|i: int| 0 <= i < init.len() && init[i].entity_id == target;
            assert(level[i] == init[i]);
        }
        if exists|i: int| 0 <= i < level.len() && level[i].entity_id == target {
            let i = choose|i: int| 0 <= i < level.len() && level[i].entity_id == target;
            if i < init.len() {
                assert(init[i] == level[i]);
            }
        }
        assert(level[level.len() - 1] == last);
    } else {
        assert(next_level(level) =~= Seq::<ResourceTreeNode>::empty());
    }
}

/// Law: a breadth-first search from a level finds a node exactly when some
/// node of the level's hierarchies, at any depth, has the id it looks for;
/// and what it finds has that id.
pub proof fn law_bfs_find_complete(level: Seq<ResourceTreeNode>, target: u128)
    ensures
        bfs_find(level, target) is Some <==> forest_has(level, target),
        bfs_find(level, target) matches Some(n) ==> n.entity_id == target,
    decreases forest_size(level),
{
    law_bfs_find_has_target(level, target);
    lemma_forest_has_level(level, target);
    if level.len() > 0 {
        if !(exists|i: int| 0 <= i < level.len() && level[i].entity_id == target) {
            lemma_next_level_size(level);
            law_bfs_find_complete(next_level(level), target);
        }
    }
}

/// Law: searching a hierarchy for an id finds a node exactly when some node
/// of it, at any depth, has that id.
pub proof fn law_find_complete(root: ResourceTreeNode, target: u128)
    ensures
        bfs_find(seq![root], target) is Some <==> tree_has(root, target),
        bfs_find(seq![root], target) matches Some(n) ==> n.entity_id == target,
{
    law_bfs_find_complete(seq![root], target);
    assert(seq![root].drop_last() =~= Seq::<ResourceTreeNode>::empty());
    assert(seq![root].last() == root);
    assert(!forest_has(Seq::<ResourceTreeNode>::empty(), target));
    assert(forest_has(seq![root], target) == tree_has(root, target));
}

/// Whether some node of the hierarchy under `n`, `n` itself included, is a
/// resource with the id `id`.
pub open spec fn tree_has_resource(n: ResourceTreeNode, id: u128) -> bool
    decreases n,
{
    (n.is_resource && n.entity_id == id) || forest_has_resource(n.children@, id)
}

/// Whether some node of the hierarchies `cs` is a resource with the id `id`.
pub open spec fn forest_has_resource(cs: Seq<ResourceTreeNode>, id: u128) -> bool
    decreases cs,
{
    if cs.len() == 0 {
        false
    } else {
        forest_has_resource(cs.drop_last(), id) || tree_has_resource(cs.last(), id)
    }
}

/// An element of a concatenation is one of either part.
proof fn lemma_ids_contains_add(a: Seq<u128>, b: Seq<u128>, x: u128)
    ensures
        (a + b).contains(x) == (a.contains(x) || b.contains(x)),
{
    if (a + b).contains(x) {
        let i = choose|i: int| 0 <= i < (a + b).len() && (a + b)[i] == x;
        if i < a.len() {
            assert(a[i] == x);
        } else {
            assert(b[i - a.len()] == x);
        }
    }
    if a.contains(x) {
        let i = choose|i: int| 0 <= i < a.len() && a[i] == x;
        assert((a + b)[i] == x);
    }
    if b.contains(x) {
        let i = choose|i: int| 0 <= i < b.len() && b[i] == x;
        assert((a + b)[a.len() + i] == x);
    }
}

/// Law: the resource ids of a hierarchy are exactly the ids of its nodes,
/// at any depth, that are resources.
pub proof fn law_resource_ids(n: ResourceTreeNode, id: u128)
    ensures
        resource_ids(n).contains(id) == tree_has_resource(n, id),
    decreases n,
{
    let own = if n.is_resource {
        seq![n.entity_id]
    } else {
        Seq::<u128>::empty()
    };
    lemma_forest_resource_ids(n.children@, id);
    lemma_ids_contains_add(own, forest_resource_ids(n.children@), id);
    if own.contains(id) {
        assert(own[0] == id);
    }
    if n.is_resource && n.entity_id == id {
        assert(own[0] == id);
    }
}

/// The resource ids of several hierarchies are those of their resources.
proof fn lemma_forest_resource_ids(cs: Seq<ResourceTreeNode>, id: u128)
    ensures
        forest_resource_ids(cs).contains(id) == forest_has_resource(cs, id),
    decreases cs,
{
    if cs.len() > 0 {
        lemma_forest_resource_ids(cs.drop_last(), id);
        law_resource_ids(cs.last(), id);
        lemma_ids_contains_add(forest_resource_ids(cs.drop_last()), resource_ids(cs.last()), id);
    } else {
        assert(!Seq::<u128>::empty().contains(id));
    }
}

/// The nodes behind a level of references.
pub open spec fn deref_level(level: Seq<&ResourceTreeNode>) -> Seq<ResourceTreeNode> {
    level.map_values(|r: &ResourceTreeNode| *r)
}

/// Appends the resource ids of `node`'s hierarchy to `out`.
fn collect_resource_ids(node: &ResourceTreeNode, out: &mut Vec<u128>)
    ensures
        final(out)@ == old(out)@ + resource_ids(*node),
    decreases node,
{
    let ghost start = out@;
    if node.is_resource {
        out.push(node.entity_id);
    }
    let ghost own = out@;
    let mut i: usize = 0;
    while i < node.children.len()
        invariant
            i <= node.children@.len(),
            out@ == own + forest_resource_ids(node.children@.take(i as int)),
        decreases node.children@.len() - i,
    {
        proof {
            assert(node.children@.take(i as int + 1).drop_last() =~= node.children@.take(i as int));
            assert(node.children@.take(i as int + 1).last() == node.children@[i as int]);
        }
        collect_resource_ids(&node.children[i], out);
        proof {
            assert(own + forest_resource_ids(node.children@.take(i as int)) + resource_ids(
                node.children@[i as int],
            ) =~= own + forest_resource_ids(node.children@.take(i as int + 1)));
        }
        i += 1;
    }
    proof {
        assert(node.children@.take(node.children@.len() as int) =~= node.children@);
        if node.is_resource {
            assert(own == start.push(node.entity_id));
        } else {
            assert(own == start);
        }
        assert(out@ =~= start + resource_ids(*node));
    }
}

impl ResourceTreeNode {
    /// The ids of all resources in this hierarchy, in depth-first pre-order.
    pub fn iter_resource_ids(&self) -> (ids: Vec<u128>)
        ensures
            ids@ == resource_ids(*self),
            forall|id: u128| #[trigger] ids@.contains(id) == tree_has_resource(*self, id),
    {
        let mut ids: Vec<u128> = Vec::new();
        collect_resource_ids(self, &mut ids);
        assert(ids@ =~= resource_ids(*self));
        assert forall|id: u128| #[trigger] ids@.contains(id) == tree_has_resource(*self, id) by {
            law_resource_ids(*self, id);
        }
        ids
    }

    /// Breadth-first search for a specific entity id.
    pub fn find(&self, target_id: u128) -> (r: Option<&ResourceTreeNode>)
        ensures
            r is Some <==> tree_has(*self, target_id),
            r matches Some(n) ==> n.entity_id == target_id,
            match r {
                Some(n) => bfs_find(seq![*self], target_id) == Some(*n),
                None => bfs_find(seq![*self], target_id) is None,
            },
    {
        let mut level: Vec<&ResourceTreeNode> = Vec::new();
        level.push(self);
        assert(deref_level(level@) =~= seq![*self]);
        loop
            invariant
                bfs_find(seq![*self], target_id) == bfs_find(deref_level(level@), target_id),
            decreases forest_size(deref_level(level@)),
        {
            let ghost lv = deref_level(level@);
            if level.len() == 0 {
                proof {
                    law_find_complete(*self, target_id);
                }
                return None;
            }
            let mut i: usize = 0;
            while i < level.len()
                invariant
                    i <= level@.len(),
                    lv == deref_level(level@),
                    lv.len() > 0,
                    bfs_find(seq![*self], target_id) == bfs_find(lv, target_id),
                    forall|k: int| 0 <= k < i ==> lv[k].entity_id != target_id,
                decreases level@.len() - i,
            {
                if level[i].entity_id == target_id {
                    proof {
                        let c = choose|j: int|
                            0 <= j < lv.len() && lv[j].entity_id == target_id && forall|k: int|
                                0 <= k < j ==> lv[k].entity_id != target_id;
                        assert(lv[i as int].entity_id == target_id);
                        if c < i {
                        } else if c > i {
                            assert(lv[i as int].entity_id != target_id);
                        }
                        assert(c == i);
                        assert(*level@[i as int] == lv[i as int]);
                        law_find_complete(*self, target_id);
                    }
                    return Some(level[i]);
                }
                i += 1;
            }
            let mut next: Vec<&ResourceTreeNode> = Vec::new();
            let mut j: usize = 0;
            while j < level.len()
                invariant
                    j <= level@.len(),
                    lv == deref_level(level@),
                    deref_level(next@) == next_level(lv.take(j as int)),
                decreases level@.len() - j,
            {
                proof {
                    assert(lv.take(j as int + 1).drop_last() =~= lv.take(j as int));
                    assert(lv.take(j as int + 1).last() == lv[j as int]);
                }
                let node = level[j];
                let ghost base = next@;
                let mut c: usize = 0;
                while c < node.children.len()
                    invariant
                        c <= node.children@.len(),
                        deref_level(next@) == deref_level(base) + node.children@.take(c as int),
                    decreases node.children@.len() - c,
                {
                    let ghost before = next@;
                    next.push(&node.children[c]);
                    assert(deref_level(next@) =~= deref_level(before).push(node.children@[c as int]));
                    assert(node.children@.take(c as int + 1) =~= node.children@.take(c as int).push(
                        node.children@[c as int],
                    ));
                    c += 1;
                }
                assert(node.children@.take(node.children@.len() as int) =~= node.children@);
                j += 1;
            }
            proof {
                assert(lv.take(lv.len() as int) =~= lv);
                assert(!(exists|k: int| 0 <= k < lv.len() && lv[k].entity_id == target_id));
                lemma_next_level_size(lv);
            }
            level = next;
        }
    }
}

} // verus!
