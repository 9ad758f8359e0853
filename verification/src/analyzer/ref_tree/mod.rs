//! The runtime Reference Tree: every entity names its parent, and exactly one
//! entity, the root, names none.
//!
//! The entities form a valid Reference Tree when their ids are distinct, there
//! is exactly one root, every named parent is among the entities, and
//! following parents from any entity never comes back to it.
use vstd::prelude::*;

pub mod lemmas;
pub mod tree;

verus! {

/// An entity participating in the Reference Tree: its id, and the id of its
/// parent (`None` for the root).
#[derive(Debug, Clone, Copy, PartialEq, Eq)]
pub struct RefTreeEntity {
    pub id: u128,
    pub parent_id: Option<u128>,
}

/// A node in a validated runtime Reference Tree.
#[derive(Debug)]
pub struct RefTreeNode {
    pub entity_id: u128,
    pub children: Vec<RefTreeNode>,
}

/// The parent of every entity, keyed by its id (a later entity with the same
/// id overriding an earlier one).
pub open spec fn parent_map(s: Seq<RefTreeEntity>) -> Map<u128, Option<u128>>
    decreases s.len(),
{
    if s.len() == 0 {
        Map::empty()
    } else {
        parent_map(s.drop_last()).insert(s.last().id, s.last().parent_id)
    }
}

/// No two entities share an id.
pub open spec fn ids_distinct(s: Seq<RefTreeEntity>) -> bool {
    forall|i: int, j: int| 0 <= i < j < s.len() ==> s[i].id != s[j].id
}

/// The entity at `j` repeats the id of an earlier entity.
pub open spec fn repeats_earlier_id(s: Seq<RefTreeEntity>, j: int) -> bool {
    exists|i: int| 0 <= i < j && s[i].id == s[j].id
}

/// The entity at `j` is the first one whose id repeats an earlier id.
pub open spec fn is_first_duplicate(s: Seq<RefTreeEntity>, j: int) -> bool {
    &&& 0 <= j < s.len()
    &&& ids_distinct(s.take(j))
    &&& repeats_earlier_id(s, j)
}

/// The ids of the entities without a parent, in input order.
pub open spec fn root_ids(s: Seq<RefTreeEntity>) -> Seq<u128>
    decreases s.len(),
{
    if s.len() == 0 {
        Seq::empty()
    } else if s.last().parent_id is None {
        root_ids(s.drop_last()).push(s.last().id)
    } else {
        root_ids(s.drop_last())
    }
}

/// The ids of the entities whose parent is `x`, in input order.
pub open spec fn child_ids(s: Seq<RefTreeEntity>, x: u128) -> Seq<u128>
    decreases s.len(),
{
    if s.len() == 0 {
        Seq::empty()
    } else if s.last().parent_id == Some(x) {
        child_ids(s.drop_last(), x).push(s.last().id)
    } else {
        child_ids(s.drop_last(), x)
    }
}

/// The entity at `j` names a parent that is not among the entities.
pub open spec fn parent_missing(s: Seq<RefTreeEntity>, j: int) -> bool {
    match s[j].parent_id {
        Some(p) => !parent_map(s).contains_key(p),
        None => false,
    }
}

/// The entity at `j` is the first one whose parent is missing.
pub open spec fn is_first_missing(s: Seq<RefTreeEntity>, j: int) -> bool {
    &&& 0 <= j < s.len()
    &&& parent_missing(s, j)
    &&& forall|k: int| 0 <= k < j ==> !parent_missing(s, k)
}

/// Every named parent is among the entities.
pub open spec fn parents_present(s: Seq<RefTreeEntity>) -> bool {
    forall|j: int| 0 <= j < s.len() ==> !parent_missing(s, j)
}

/// The `k`-th ancestor of `x` under the parent map `m`: `x` itself for `k`
/// zero, `None` once the walk leaves the map or passes a root.
pub open spec fn ancestor(m: Map<u128, Option<u128>>, x: u128, k: nat) -> Option<u128>
    decreases k,
{
    if k == 0 {
        Some(x)
    } else if m.contains_key(x) {
        match m[x] {
            Some(p) => ancestor(m, p, (k - 1) as nat),
            None => None,
        }
    } else {
        None
    }
}

/// Following parents from `x` comes back to `x`.
pub open spec fn on_cycle(m: Map<u128, Option<u128>>, x: u128) -> bool {
    exists|k: nat| k >= 1 && #[trigger] ancestor(m, x, k) == Some(x)
}

/// No entity lies on a cycle of parents.
pub open spec fn acyclic(m: Map<u128, Option<u128>>) -> bool {
    forall|x: u128| m.contains_key(x) ==> !on_cycle(m, x)
}

/// The `k`-th ancestor of `x` is an entity without a parent.
pub open spec fn root_at(m: Map<u128, Option<u128>>, x: u128, k: nat) -> bool {
    match ancestor(m, x, k) {
        Some(r) => m.contains_key(r) && m[r] is None,
        None => false,
    }
}

/// Following parents from `x` reaches a root.
pub open spec fn grounded(m: Map<u128, Option<u128>>, x: u128) -> bool {
    exists|k: nat| #[trigger] root_at(m, x, k)
}

/// `node` is the Reference Tree of the entities `s` below `node.entity_id`:
/// its children are the entities whose parent it is, in input order, each
/// with its own subtree.
pub open spec fn is_ref_tree(s: Seq<RefTreeEntity>, node: RefTreeNode) -> bool
    decreases node,
{
    let kids = child_ids(s, node.entity_id);
    &&& node.children.len() == kids.len()
    &&& forall|i: int|
        0 <= i < node.children.len() ==> {
            &&& (#[trigger] node.children@[i]).entity_id == kids[i]
            &&& is_ref_tree(s, node.children@[i])
        }
}

/// The subtree reached from `node` by following the child positions in
/// `path`, if they all exist.
pub open spec fn subtree_at(node: RefTreeNode, path: Seq<int>) -> Option<RefTreeNode>
    decreases path.len(),
{
    if path.len() == 0 {
        Some(node)
    } else if 0 <= path[0] < node.children.len() {
        subtree_at(node.children@[path[0]], path.drop_first())
    } else {
        None
    }
}

/// Some node of the tree below `node` (or `node` itself) has the id `x`.
pub open spec fn in_tree(node: RefTreeNode, x: u128) -> bool {
    exists|path: Seq<int>| #[trigger] subtree_at(node, path) matches Some(n) && n.entity_id == x
}

/// The entities form a valid Reference Tree.
pub open spec fn valid_ref_tree(s: Seq<RefTreeEntity>) -> bool {
    &&& ids_distinct(s)
    &&& root_ids(s).len() == 1
    &&& parents_present(s)
    &&& acyclic(parent_map(s))
}

} // verus!
