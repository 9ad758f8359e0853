//! Facts about parent maps and ancestors.
use vstd::prelude::*;
use vstd::set_lib::lemma_len_subset;

use super::{
    acyclic, ancestor, child_ids, ids_distinct, in_tree, is_ref_tree, on_cycle, parent_map,
    parents_present, root_at, root_ids, subtree_at, valid_ref_tree, RefTreeEntity, RefTreeNode,
};

verus! {

/// Walking `a + b` steps is walking `a` steps and then `b` more.
pub proof fn lemma_ancestor_add(m: Map<u128, Option<u128>>, x: u128, a: nat, b: nat)
    ensures
        ancestor(m, x, a + b) == (match ancestor(m, x, a) {
            Some(y) => ancestor(m, y, b),
            None => None,
        }),
    decreases a,
{
    if a > 0 && m.contains_key(x) {
        if let Some(p) = m[x] {
            lemma_ancestor_add(m, p, (a - 1) as nat, b);
            assert((a + b - 1) as nat == (a - 1) as nat + b);
        }
    }
}

/// Past a root the walk has ended.
pub proof fn lemma_root_at_then_none(m: Map<u128, Option<u128>>, x: u128, k: nat, b: nat)
    requires
        root_at(m, x, k),
        b >= 1,
    ensures
        ancestor(m, x, k + b) is None,
{
    let r = ancestor(m, x, k)->0;
    lemma_ancestor_add(m, x, k, b);
    lemma_ancestor_add(m, r, 1, (b - 1) as nat);
    assert(1 + (b - 1) as nat == b);
}

/// A walk that reaches a root never comes back to where it started.
pub proof fn lemma_root_at_not_on_cycle(m: Map<u128, Option<u128>>, x: u128, k: nat)
    requires
        root_at(m, x, k),
    ensures
        !on_cycle(m, x),
{
    if on_cycle(m, x) {
        let p = choose|p: nat| p >= 1 && #[trigger] ancestor(m, x, p) == Some(x);
        lemma_ancestor_add(m, x, p, k);
        assert(ancestor(m, x, p + k) == ancestor(m, x, k));
        lemma_root_at_then_none(m, x, k, p);
        assert(k + p == p + k);
    }
}

/// The root is one step further from a child than from its parent.
pub proof fn lemma_root_at_child(m: Map<u128, Option<u128>>, x: u128, p: u128, k: nat)
    requires
        m.contains_key(x),
        m[x] == Some(p),
        root_at(m, p, k),
    ensures
        root_at(m, x, k + 1),
{
    assert(ancestor(m, x, k + 1) == ancestor(m, p, k));
}

/// The walk from `x` to a root visits distinct entities, so it is shorter than
/// the number of entities.
pub proof fn lemma_root_at_bound(m: Map<u128, Option<u128>>, x: u128, k: nat)
    requires
        m.dom().finite(),
        root_at(m, x, k),
    ensures
        k < m.dom().len(),
{
    let walk = Seq::new(k + 1, |i: int| ancestor(m, x, i as nat)->0);
    assert forall|i: int| 0 <= i <= k implies #[trigger] ancestor(m, x, i as nat) is Some by {
        if ancestor(m, x, i as nat) is None {
            lemma_ancestor_add(m, x, i as nat, (k - i) as nat);
            assert(i as nat + (k - i) as nat == k);
        }
    }
    assert forall|i: int| 0 <= i <= k implies m.contains_key(#[trigger] walk[i]) by {
        if i < k {
            lemma_ancestor_add(m, x, i as nat, 1);
            assert(ancestor(m, x, i as nat + 1) is Some);
        }
    }
    assert forall|i: int, j: int| 0 <= i < j < walk.len() implies walk[i] != walk[j] by {
        if walk[i] == walk[j] {
            let y = walk[i];
            lemma_ancestor_add(m, x, i as nat, (j - i) as nat);
            assert(i as nat + (j - i) as nat == j as nat);
            assert(ancestor(m, y, (j - i) as nat) == Some(y));
            assert(on_cycle(m, y));
            lemma_ancestor_add(m, x, i as nat, (k - i) as nat);
            assert(i as nat + (k - i) as nat == k);
            assert(root_at(m, y, (k - i) as nat));
            lemma_root_at_not_on_cycle(m, y, (k - i) as nat);
        }
    }
    assert(walk.no_duplicates());
    walk.unique_seq_to_set();
    assert(walk.to_set().subset_of(m.dom())) by {
        assert forall|y: u128| walk.to_set().contains(y) implies m.dom().contains(y) by {
            let i = walk.index_of(y);
            assert(walk.contains(y));
        }
    }
    lemma_len_subset(walk.to_set(), m.dom());
}

/// The keys of the parent map are the ids of the entities.
pub proof fn lemma_parent_map_keys(s: Seq<RefTreeEntity>, x: u128)
    ensures
        parent_map(s).contains_key(x) <==> exists|i: int| 0 <= i < s.len() && s[i].id == x,
    decreases s.len(),
{
    if s.len() > 0 {
        lemma_parent_map_keys(s.drop_last(), x);
        if exists|i: int| 0 <= i < s.drop_last().len() && s.drop_last()[i].id == x {
            let i = choose|i: int| 0 <= i < s.drop_last().len() && s.drop_last()[i].id == x;
            assert(s[i].id == x);
        }
        if exists|i: int| 0 <= i < s.len() && s[i].id == x {
            let i = choose|i: int| 0 <= i < s.len() && s[i].id == x;
            if i < s.len() - 1 {
                assert(s.drop_last()[i].id == x);
            }
        }
    }
}

/// With distinct ids, the parent map gives each entity's own parent.
pub proof fn lemma_parent_map_value(s: Seq<RefTreeEntity>, i: int)
    requires
        ids_distinct(s),
        0 <= i < s.len(),
    ensures
        parent_map(s).contains_key(s[i].id),
        parent_map(s)[s[i].id] == s[i].parent_id,
    decreases s.len(),
{
    if i < s.len() - 1 {
        assert(ids_distinct(s.drop_last()));
        lemma_parent_map_value(s.drop_last(), i);
        assert(s.drop_last()[i] == s[i]);
    }
}

/// With distinct ids, the parent map has one key per entity.
pub proof fn lemma_parent_map_len(s: Seq<RefTreeEntity>)
    requires
        ids_distinct(s),
    ensures
        parent_map(s).dom().finite(),
        parent_map(s).dom().len() == s.len(),
    decreases s.len(),
{
    if s.len() > 0 {
        let t = s.drop_last();
        assert(ids_distinct(t));
        lemma_parent_map_len(t);
        lemma_parent_map_keys(t, s.last().id);
        if parent_map(t).contains_key(s.last().id) {
            let i = choose|i: int| 0 <= i < t.len() && t[i].id == s.last().id;
            assert(s[i].id == s[s.len() - 1].id);
        }
        assert(parent_map(s).dom() == parent_map(t).dom().insert(s.last().id));
    }
}

/// Every child id is the id of an entity naming that parent.
pub proof fn lemma_child_ids_member(s: Seq<RefTreeEntity>, x: u128, t: int)
    requires
        0 <= t < child_ids(s, x).len(),
    ensures
        exists|i: int|
            0 <= i < s.len() && s[i].id == child_ids(s, x)[t] && s[i].parent_id == Some(x),
    decreases s.len(),
{
    let d = s.drop_last();
    if t < child_ids(d, x).len() {
        lemma_child_ids_member(d, x, t);
        let i = choose|i: int| 0 <= i < d.len() && d[i].id == child_ids(d, x)[t] && d[i].parent_id == Some(x);
        assert(s[i] == d[i]);
    } else {
        assert(s[s.len() - 1].id == child_ids(s, x)[t]);
    }
}

/// Every root id is the id of an entity without a parent.
pub proof fn lemma_root_ids_member(s: Seq<RefTreeEntity>, t: int)
    requires
        0 <= t < root_ids(s).len(),
    ensures
        exists|i: int| 0 <= i < s.len() && s[i].id == root_ids(s)[t] && s[i].parent_id is None,
    decreases s.len(),
{
    let d = s.drop_last();
    if t < root_ids(d).len() {
        lemma_root_ids_member(d, t);
        let i = choose|i: int| 0 <= i < d.len() && d[i].id == root_ids(d)[t] && d[i].parent_id is None;
        assert(s[i] == d[i]);
    } else {
        assert(s[s.len() - 1].id == root_ids(s)[t]);
    }
}

/// Following `p` and then `q` is following `p + q`.
pub proof fn lemma_subtree_at_add(node: RefTreeNode, p: Seq<int>, q: Seq<int>)
    ensures
        subtree_at(node, p + q) == (match subtree_at(node, p) {
            Some(n) => subtree_at(n, q),
            None => None,
        }),
    decreases p.len(),
{
    if p.len() == 0 {
        assert(p + q =~= q);
    } else {
        assert((p + q)[0] == p[0]);
        assert((p + q).drop_first() =~= p.drop_first() + q);
        if 0 <= p[0] < node.children.len() {
            lemma_subtree_at_add(node.children@[p[0]], p.drop_first(), q);
        }
    }
}

/// Every subtree of a Reference Tree is a Reference Tree.
pub proof fn lemma_subtree_is_ref_tree(s: Seq<RefTreeEntity>, node: RefTreeNode, path: Seq<int>)
    requires
        is_ref_tree(s, node),
        subtree_at(node, path) is Some,
    ensures
        is_ref_tree(s, subtree_at(node, path)->0),
    decreases path.len(),
{
    if path.len() > 0 {
        let c = node.children@[path[0]];
        assert(is_ref_tree(s, c));
        lemma_subtree_is_ref_tree(s, c, path.drop_first());
    }
}

/// An entity naming `x` as its parent is among the children of `x`.
pub proof fn lemma_child_ids_contains(s: Seq<RefTreeEntity>, x: u128, i: int)
    requires
        0 <= i < s.len(),
        s[i].parent_id == Some(x),
    ensures
        child_ids(s, x).contains(s[i].id),
    decreases s.len(),
{
    if i < s.len() - 1 {
        lemma_child_ids_contains(s.drop_last(), x, i);
        let d = s.drop_last();
        let k = child_ids(d, x).index_of(s[i].id);
        assert(child_ids(s, x)[k] == s[i].id);
    } else {
        assert(child_ids(s, x).last() == s[i].id);
    }
}

/// An entity without a parent is among the roots.
pub proof fn lemma_root_ids_contains(s: Seq<RefTreeEntity>, i: int)
    requires
        0 <= i < s.len(),
        s[i].parent_id is None,
    ensures
        root_ids(s).contains(s[i].id),
    decreases s.len(),
{
    if i < s.len() - 1 {
        lemma_root_ids_contains(s.drop_last(), i);
        let d = s.drop_last();
        let k = root_ids(d).index_of(s[i].id);
        assert(root_ids(s)[k] == s[i].id);
    } else {
        assert(root_ids(s).last() == s[i].id);
    }
}

/// Without cycles, the walk from an entity reaches a root: a longer walk
/// would visit some entity twice.
pub proof fn lemma_acyclic_grounded(m: Map<u128, Option<u128>>, x: u128)
    requires
        m.dom().finite(),
        m.contains_key(x),
        acyclic(m),
        forall|y: u128| #[trigger] m.contains_key(y) && m[y] is Some ==> m.contains_key(m[y]->0),
    ensures
        exists|k: nat| #[trigger] root_at(m, x, k),
{
    let n = m.dom().len();
    if !(exists|k: nat| #[trigger] root_at(m, x, k)) {
        // Every step of the walk stays among the entities.
        assert forall|i: nat| i <= n implies #[trigger] ancestor(m, x, i) is Some && m.contains_key(
            ancestor(m, x, i)->0,
        ) by {
            lemma_walk_continues(m, x, i);
        }
        let walk = Seq::new(n + 1, |i: int| ancestor(m, x, i as nat)->0);
        assert(walk.to_set().subset_of(m.dom())) by {
            assert forall|y: u128| walk.to_set().contains(y) implies m.dom().contains(y) by {
                let i = walk.index_of(y);
                assert(walk.contains(y));
                assert(ancestor(m, x, i as nat) is Some);
            }
        }
        lemma_len_subset(walk.to_set(), m.dom());
        if walk.no_duplicates() {
            walk.unique_seq_to_set();
        }
        assert(!walk.no_duplicates());
        let (i, j) = choose|i: int, j: int| 0 <= i < walk.len() && 0 <= j < walk.len() && i != j
            && walk[i] == walk[j];
        let (a, b) = if i < j {
            (i, j)
        } else {
            (j, i)
        };
        let y = walk[a];
        assert(ancestor(m, x, a as nat) is Some);
        lemma_ancestor_add(m, x, a as nat, (b - a) as nat);
        assert(a as nat + (b - a) as nat == b as nat);
        assert(ancestor(m, y, (b - a) as nat) == Some(y));
        assert(on_cycle(m, y));
    }
}

/// A walk that never meets a root goes on: each of its first `i` steps
/// stays among the entities.
proof fn lemma_walk_continues(m: Map<u128, Option<u128>>, x: u128, i: nat)
    requires
        m.contains_key(x),
        forall|y: u128| #[trigger] m.contains_key(y) && m[y] is Some ==> m.contains_key(m[y]->0),
        !(exists|k: nat| #[trigger] root_at(m, x, k)),
    ensures
        ancestor(m, x, i) is Some,
        m.contains_key(ancestor(m, x, i)->0),
    decreases i,
{
    if i > 0 {
        lemma_walk_continues(m, x, (i - 1) as nat);
        let y = ancestor(m, x, (i - 1) as nat)->0;
        assert(!root_at(m, x, (i - 1) as nat));
        lemma_ancestor_add(m, x, (i - 1) as nat, 1);
        assert((i - 1) as nat + 1 == i);
        assert(m[y] is Some);
        assert(ancestor(m, m[y]->0, 0) == Some(m[y]->0));
    }
}

/// The entity `x`, `k` steps below the root, lies in the tree.
proof fn lemma_in_tree_at_depth(s: Seq<RefTreeEntity>, t: RefTreeNode, x: u128, k: nat)
    requires
        valid_ref_tree(s),
        is_ref_tree(s, t),
        t.entity_id == root_ids(s)[0],
        root_at(parent_map(s), x, k),
    ensures
        exists|path: Seq<int>|
            #[trigger] subtree_at(t, path) matches Some(n) && n.entity_id == x,
    decreases k,
{
    let m = parent_map(s);
    lemma_parent_map_keys(s, x);
    if k == 0 {
        let i = choose|i: int| 0 <= i < s.len() && s[i].id == x;
        lemma_parent_map_value(s, i);
        lemma_root_ids_contains(s, i);
        let r = root_ids(s).index_of(x);
        assert(root_ids(s)[r] == x);
        assert(subtree_at(t, Seq::<int>::empty()) == Some(t));
    } else {
        let i = choose|i: int| 0 <= i < s.len() && s[i].id == x;
        lemma_parent_map_value(s, i);
        let p = m[x]->0;
        assert(ancestor(m, x, k) == ancestor(m, p, (k - 1) as nat));
        lemma_in_tree_at_depth(s, t, p, (k - 1) as nat);
        let path = choose|path: Seq<int>| #[trigger] subtree_at(t, path) matches Some(n) && n.entity_id == p;
        let n = subtree_at(t, path)->0;
        lemma_subtree_is_ref_tree(s, t, path);
        lemma_child_ids_contains(s, p, i);
        let c = child_ids(s, p).index_of(x);
        assert(n.children@[c].entity_id == x);
        lemma_subtree_at_add(t, path, seq![c]);
        assert(seq![c].drop_first() =~= Seq::<int>::empty());
        assert(0 <= c < child_ids(s, p).len());
        assert(n.children.len() == child_ids(s, n.entity_id).len());
        assert(subtree_at(n.children@[c], Seq::<int>::empty()) == Some(n.children@[c]));
        assert(subtree_at(n, seq![c]) == Some(n.children@[c]));
        assert(subtree_at(t, path + seq![c]) == Some(n.children@[c]));
    }
}

/// The walk from an entity reaches a root after one number of steps only.
pub proof fn lemma_root_at_unique(m: Map<u128, Option<u128>>, x: u128, k1: nat, k2: nat)
    requires
        root_at(m, x, k1),
        root_at(m, x, k2),
    ensures
        k1 == k2,
{
    if k1 < k2 {
        lemma_root_at_then_none(m, x, k1, (k2 - k1) as nat);
        assert(k1 + (k2 - k1) as nat == k2);
    } else if k2 < k1 {
        lemma_root_at_then_none(m, x, k2, (k1 - k2) as nat);
        assert(k2 + (k1 - k2) as nat == k1);
    }
}

/// With distinct ids, the children of an entity are distinct.
pub proof fn lemma_child_ids_distinct(s: Seq<RefTreeEntity>, x: u128)
    requires
        ids_distinct(s),
    ensures
        child_ids(s, x).no_duplicates(),
    decreases s.len(),
{
    if s.len() > 0 {
        let d = s.drop_last();
        assert(ids_distinct(d));
        lemma_child_ids_distinct(d, x);
        if s.last().parent_id == Some(x) {
            assert forall|t: int| 0 <= t < child_ids(d, x).len() implies child_ids(d, x)[t]
                != s.last().id by {
                lemma_child_ids_member(d, x, t);
                let i = choose|i: int|
                    0 <= i < d.len() && d[i].id == child_ids(d, x)[t] && d[i].parent_id == Some(x);
                assert(s[i].id != s[s.len() - 1].id);
            }
        }
    }
}

/// The node at position `c` below the node at `path` is the node at
/// `path.push(c)`, and it is a child of its parent in the entities.
proof fn lemma_step_down(s: Seq<RefTreeEntity>, t: RefTreeNode, path: Seq<int>, c: int)
    requires
        ids_distinct(s),
        is_ref_tree(s, t),
        subtree_at(t, path.push(c)) is Some,
    ensures
        subtree_at(t, path) is Some,
        ({
            let q = subtree_at(t, path)->0;
            let n = subtree_at(t, path.push(c))->0;
            &&& is_ref_tree(s, q)
            &&& 0 <= c < q.children.len()
            &&& n == q.children@[c]
            &&& n.entity_id == child_ids(s, q.entity_id)[c]
            &&& parent_map(s).contains_key(n.entity_id)
            &&& parent_map(s)[n.entity_id] == Some(q.entity_id)
        }),
{
    lemma_subtree_at_add(t, path, seq![c]);
    assert(path + seq![c] =~= path.push(c));
    let q = subtree_at(t, path)->0;
    lemma_subtree_is_ref_tree(s, t, path);
    assert(seq![c].drop_first() =~= Seq::<int>::empty());
    assert(0 <= c < q.children.len());
    let n = q.children@[c];
    assert(subtree_at(n, Seq::<int>::empty()) == Some(n));
    assert(n.entity_id == child_ids(s, q.entity_id)[c]);
    lemma_child_ids_member(s, q.entity_id, c);
    let i = choose|i: int|
        0 <= i < s.len() && s[i].id == child_ids(s, q.entity_id)[c] && s[i].parent_id == Some(
            q.entity_id,
        );
    lemma_parent_map_value(s, i);
}

/// The node at `path` is `path.len()` steps below the root.
proof fn lemma_depth_of_path(s: Seq<RefTreeEntity>, t: RefTreeNode, path: Seq<int>)
    requires
        valid_ref_tree(s),
        is_ref_tree(s, t),
        t.entity_id == root_ids(s)[0],
        subtree_at(t, path) is Some,
    ensures
        root_at(parent_map(s), subtree_at(t, path)->0.entity_id, path.len()),
    decreases path.len(),
{
    let m = parent_map(s);
    if path.len() == 0 {
        lemma_root_ids_member(s, 0);
        let i = choose|i: int| 0 <= i < s.len() && s[i].id == root_ids(s)[0] && s[i].parent_id is None;
        lemma_parent_map_value(s, i);
        assert(root_at(m, t.entity_id, 0));
    } else {
        let q = path.drop_last();
        let c = path.last();
        assert(q.push(c) =~= path);
        lemma_step_down(s, t, q, c);
        lemma_depth_of_path(s, t, q);
        let qn = subtree_at(t, q)->0;
        lemma_root_at_child(m, subtree_at(t, path)->0.entity_id, qn.entity_id, q.len());
    }
}

/// Law: the Reference Tree of valid entities holds each entity at one
/// position only: two positions holding the same id are the same position.
pub proof fn law_ref_tree_holds_each_entity_once(
    s: Seq<RefTreeEntity>,
    t: RefTreeNode,
    p1: Seq<int>,
    p2: Seq<int>,
)
    requires
        valid_ref_tree(s),
        is_ref_tree(s, t),
        t.entity_id == root_ids(s)[0],
        subtree_at(t, p1) is Some,
        subtree_at(t, p2) is Some,
        subtree_at(t, p1)->0.entity_id == subtree_at(t, p2)->0.entity_id,
    ensures
        p1 == p2,
    decreases p1.len(),
{
    let m = parent_map(s);
    let x = subtree_at(t, p1)->0.entity_id;
    lemma_depth_of_path(s, t, p1);
    lemma_depth_of_path(s, t, p2);
    lemma_root_at_unique(m, x, p1.len(), p2.len());
    if p1.len() == 0 {
        assert(p1 =~= p2);
    } else {
        let q1 = p1.drop_last();
        let q2 = p2.drop_last();
        let c1 = p1.last();
        let c2 = p2.last();
        assert(q1.push(c1) =~= p1);
        assert(q2.push(c2) =~= p2);
        lemma_step_down(s, t, q1, c1);
        lemma_step_down(s, t, q2, c2);
        law_ref_tree_holds_each_entity_once(s, t, q1, q2);
        let q = subtree_at(t, q1)->0;
        lemma_child_ids_distinct(s, q.entity_id);
        assert(child_ids(s, q.entity_id)[c1] == child_ids(s, q.entity_id)[c2]);
        assert(c1 == c2);
    }
}

/// Law: the Reference Tree of valid entities holds every one of them.
pub proof fn law_ref_tree_holds_every_entity(s: Seq<RefTreeEntity>, t: RefTreeNode, j: int)
    requires
        valid_ref_tree(s),
        is_ref_tree(s, t),
        t.entity_id == root_ids(s)[0],
        0 <= j < s.len(),
    ensures
        in_tree(t, s[j].id),
{
    let m = parent_map(s);
    lemma_parent_map_len(s);
    assert forall|y: u128| #[trigger] m.contains_key(y) && m[y] is Some implies m.contains_key(
        m[y]->0,
    ) by {
        lemma_parent_map_keys(s, y);
        let i = choose|i: int| 0 <= i < s.len() && s[i].id == y;
        lemma_parent_map_value(s, i);
        assert(!super::parent_missing(s, i));
    }
    lemma_parent_map_keys(s, s[j].id);
    lemma_acyclic_grounded(m, s[j].id);
    let k = choose|k: nat| #[trigger] root_at(m, s[j].id, k);
    lemma_in_tree_at_depth(s, t, s[j].id, k);
}

} // verus!
