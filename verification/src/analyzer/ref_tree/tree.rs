//! Construction and validation of the Reference Tree.
use std::collections::HashMap;

use vstd::prelude::*;
use vstd::set_lib::lemma_len_subset;

use super::lemmas::{
    lemma_ancestor_add, lemma_child_ids_member, lemma_parent_map_keys, lemma_parent_map_len,
    lemma_parent_map_value, lemma_root_at_bound, lemma_root_at_child, lemma_root_at_not_on_cycle,
    lemma_root_ids_member,
};
use super::{
    acyclic, ancestor, child_ids, grounded, ids_distinct, is_first_duplicate, is_first_missing,
    is_ref_tree, on_cycle, parent_map, parent_missing, parents_present, root_at, root_ids,
    valid_ref_tree, RefTreeEntity, RefTreeNode,
};
use crate::analyzer::error::{AnalyzerError, ValidationError};

verus! {

broadcast use vstd::std_specs::hash::group_hash_axioms;

/// The lists in `c` are the children of their keys, and every id that is not
/// a key has no children.
pub open spec fn children_agree(c: Map<u128, Vec<u128>>, s: Seq<RefTreeEntity>) -> bool {
    forall|x: u128|
        #![trigger child_ids(s, x)]
        if c.contains_key(x) {
            c[x]@ == child_ids(s, x)
        } else {
            child_ids(s, x) == Seq::<u128>::empty()
        }
}

/// The parent map, the children lists and the roots of entities with distinct
/// ids; or the id of the first entity that repeats an earlier id.
fn index_entities(entities: &[RefTreeEntity]) -> (r: Result<
    (HashMap<u128, Option<u128>>, HashMap<u128, Vec<u128>>, Vec<u128>),
    u128,
>)
    ensures
        match r {
            Ok((parents, children, roots)) => {
                &&& ids_distinct(entities@)
                &&& parents@ == parent_map(entities@)
                &&& children_agree(children@, entities@)
                &&& roots@ == root_ids(entities@)
            },
            Err(id) => exists|j: int| is_first_duplicate(entities@, j) && entities@[j].id == id,
        },
{
    let ghost s = entities@;
    let mut parents: HashMap<u128, Option<u128>> = HashMap::new();
    let mut children: HashMap<u128, Vec<u128>> = HashMap::new();
    let mut roots: Vec<u128> = Vec::new();
    let mut j: usize = 0;
    proof {
        assert(s.take(0) =~= Seq::<RefTreeEntity>::empty());
        assert forall|x: u128| #[trigger] child_ids(s.take(0), x) == Seq::<u128>::empty() by {}
    }
    while j < entities.len()
        invariant
            s == entities@,
            j <= s.len(),
            ids_distinct(s.take(j as int)),
            parents@ == parent_map(s.take(j as int)),
            children_agree(children@, s.take(j as int)),
            roots@ == root_ids(s.take(j as int)),
        decreases s.len() - j,
    {
        let e = entities[j];
        let ghost t = s.take(j as int);
        let ghost t1 = s.take(j as int + 1);
        proof {
            assert(t1.drop_last() =~= t);
            assert(t1.last() == e);
            lemma_parent_map_keys(t, e.id);
        }
        if parents.contains_key(&e.id) {
            proof {
                let i = choose|i: int| 0 <= i < t.len() && t[i].id == e.id;
                assert(s[i].id == s[j as int].id);
                assert(is_first_duplicate(s, j as int));
            }
            return Err(e.id);
        }
        parents.insert(e.id, e.parent_id);
        match e.parent_id {
            Some(p) => {
                let removed = children.remove(&p);
                let mut kids = match removed {
                    Some(v) => v,
                    None => Vec::new(),
                };
                kids.push(e.id);
                children.insert(p, kids);
                proof {
                    assert forall|x: u128| #![trigger child_ids(t1, x)]
                        (if children@.contains_key(x) {
                            children@[x]@ == child_ids(t1, x)
                        } else {
                            child_ids(t1, x) == Seq::<u128>::empty()
                        }) by {
                        assert(child_ids(t, x) == child_ids(t, x));
                    }
                }
            },
            None => {
                roots.push(e.id);
                proof {
                    assert forall|x: u128| #![trigger child_ids(t1, x)]
                        (if children@.contains_key(x) {
                            children@[x]@ == child_ids(t1, x)
                        } else {
                            child_ids(t1, x) == Seq::<u128>::empty()
                        }) by {
                        assert(child_ids(t, x) == child_ids(t, x));
                    }
                }
            },
        }
        proof {
            assert forall|a: int, b: int| 0 <= a < b < t1.len() implies t1[a].id != t1[b].id by {
                if b == j {
                    assert(t1[a] == t[a]);
                } else {
                    assert(t1[a] == t[a] && t1[b] == t[b]);
                }
            }
        }
        j += 1;
    }
    proof {
        assert(s.take(s.len() as int) =~= s);
    }
    Ok((parents, children, roots))
}

/// The position of the first entity whose parent is not among the entities.
fn first_missing_parent(entities: &[RefTreeEntity], parents: &HashMap<u128, Option<u128>>) -> (r:
    Option<usize>)
    requires
        parents@ == parent_map(entities@),
    ensures
        match r {
            Some(j) => is_first_missing(entities@, j as int),
            None => parents_present(entities@),
        },
{
    let ghost s = entities@;
    let mut j: usize = 0;
    while j < entities.len()
        invariant
            s == entities@,
            parents@ == parent_map(s),
            j <= s.len(),
            forall|k: int| 0 <= k < j ==> !parent_missing(s, k),
        decreases s.len() - j,
    {
        if let Some(p) = entities[j].parent_id {
            if !parents.contains_key(&p) {
                return Some(j);
            }
        }
        j += 1;
    }
    None
}

/// An entity on a cycle of parents, if there is one.
///
/// Each entity is walked towards the root. Entities on the current walk are
/// marked `false`, entities known to reach a root `true`; meeting a `false`
/// mark closes a cycle, meeting a `true` mark or a root ends the walk.
fn find_cycle(entities: &[RefTreeEntity], parents: &HashMap<u128, Option<u128>>) -> (r: Option<
    u128,
>)
    requires
        parents@ == parent_map(entities@),
        ids_distinct(entities@),
        parents_present(entities@),
    ensures
        match r {
            Some(id) => parents@.contains_key(id) && on_cycle(parents@, id),
            None => acyclic(parents@),
        },
{
    let ghost s = entities@;
    let ghost m = parents@;
    proof {
        lemma_parent_map_len(s);
    }
    let mut visits: HashMap<u128, bool> = HashMap::new();
    let mut j: usize = 0;
    while j < entities.len()
        invariant
            s == entities@,
            m == parents@,
            m == parent_map(s),
            m.dom().finite(),
            ids_distinct(s),
            parents_present(s),
            j <= s.len(),
            forall|x: u128|
                #[trigger] visits@.contains_key(x) ==> m.contains_key(x) && visits@[x] && grounded(
                    m,
                    x,
                ),
            forall|i: int| 0 <= i < j ==> visits@.contains_key(#[trigger] s[i].id),
        decreases s.len() - j,
    {
        let start = entities[j].id;
        proof {
            lemma_parent_map_keys(s, start);
        }
        let mut cur = start;
        let mut chain: Vec<u128> = Vec::new();
        loop
            invariant
                s == entities@,
                m == parents@,
                m == parent_map(s),
                m.dom().finite(),
                ids_distinct(s),
                parents_present(s),
                j < s.len(),
                start == s[j as int].id,
                m.contains_key(cur),
                forall|x: u128|
                    #[trigger] visits@.contains_key(x) ==> m.contains_key(x) && (visits@[x]
                        ==> grounded(m, x)) && (!visits@[x] ==> chain@.contains(x)),
                forall|i: int|
                    0 <= i < chain.len() ==> visits@.contains_key(#[trigger] chain@[i])
                        && !visits@[chain@[i]],
                forall|i: int|
                    0 <= i < chain.len() ==> ancestor(m, #[trigger] chain@[i], (chain.len() - i) as nat)
                        == Some(cur),
                chain.len() == 0 ==> cur == start,
                chain.len() > 0 ==> chain@[0] == start,
                forall|i: int| 0 <= i < j ==> visits@.contains_key(#[trigger] s[i].id),
            ensures
                visits@.contains_key(cur),
                grounded(m, cur),
            decreases m.dom().len() - visits@.dom().len(),
        {
            proof {
                assert(visits@.dom().subset_of(m.dom()));
                lemma_len_subset(visits@.dom(), m.dom());
                if !visits@.contains_key(cur) {
                    lemma_len_subset(visits@.dom().insert(cur), m.dom());
                }
            }
            match visits.get(&cur) {
                Some(done) => {
                    if *done {
                        break ;
                    } else {
                        proof {
                            let i = chain@.index_of(cur);
                            assert(ancestor(m, cur, (chain.len() - i) as nat) == Some(cur));
                        }
                        return Some(cur);
                    }
                },
                None => {
                    let parent = parents.get(&cur);
                    match parent {
                        Some(Some(p)) => {
                            let p = *p;
                            proof {
                                // The parent of an entity is an entity.
                                lemma_parent_map_keys(s, cur);
                                let i = choose|i: int| 0 <= i < s.len() && s[i].id == cur;
                                lemma_parent_map_value(s, i);
                                assert(!parent_missing(s, i));
                                assert(ancestor(m, p, 0) == Some(p));
                                assert(ancestor(m, cur, 1) == Some(p));
                                assert forall|i: int| 0 <= i < chain.len() implies ancestor(
                                    m,
                                    #[trigger] chain@[i],
                                    (chain.len() + 1 - i) as nat,
                                ) == Some(p) by {
                                    lemma_ancestor_add(m, chain@[i], (chain.len() - i) as nat, 1);
                                    assert((chain.len() - i) as nat + 1 == (chain.len() + 1
                                        - i) as nat);
                                }
                            }
                            let ghost old_visits = visits@;
                            let ghost old_chain = chain@;
                            let ghost old_cur = cur;
                            visits.insert(cur, false);
                            chain.push(cur);
                            cur = p;
                            proof {
                                lemma_parent_map_keys(s, cur);
                                assert(chain@.drop_last() =~= old_chain);
                                assert(visits@.dom() =~= old_visits.dom().insert(old_cur));
                                assert(old_visits.dom().len() < m.dom().len());
                                assert(visits@.dom().len() == old_visits.dom().len() + 1);
                                assert forall|x: u128| #[trigger]
                                    visits@.contains_key(x) implies m.contains_key(x) && (
                                    visits@[x] ==> grounded(m, x)) && (!visits@[x]
                                    ==> chain@.contains(x)) by {
                                    if x == old_cur {
                                        assert(chain@[chain.len() - 1] == x);
                                    } else {
                                        assert(old_visits.contains_key(x));
                                        if !visits@[x] {
                                            let i = old_chain.index_of(x);
                                            assert(chain@[i] == x);
                                        }
                                    }
                                }
                            }
                        },
                        _ => {
                            visits.insert(cur, true);
                            proof {
                                assert(root_at(m, cur, 0));
                            }
                            break ;
                        },
                    }
                },
            }
        }
        proof {
            let k = choose|k: nat| #[trigger] root_at(m, cur, k);
            assert forall|i: int| 0 <= i < chain.len() implies grounded(m, #[trigger] chain@[i]) by {
                lemma_ancestor_add(m, chain@[i], (chain.len() - i) as nat, k);
                assert(root_at(m, chain@[i], (chain.len() - i) as nat + k));
            }
        }
        let mut t: usize = 0;
        while t < chain.len()
            invariant
                s == entities@,
                m == parents@,
                m == parent_map(s),
                j < s.len(),
                start == s[j as int].id,
                t <= chain.len(),
                visits@.contains_key(cur),
                chain.len() == 0 ==> cur == start,
                chain.len() > 0 ==> chain@[0] == start,
                forall|i: int| 0 <= i < chain.len() ==> grounded(m, #[trigger] chain@[i]),
                forall|i: int| 0 <= i < chain.len() ==> visits@.contains_key(#[trigger] chain@[i]),
                forall|x: u128|
                    #[trigger] visits@.contains_key(x) ==> m.contains_key(x) && (visits@[x]
                        ==> grounded(m, x)) && (!visits@[x] ==> exists|i: int|
                        t <= i < chain.len() && chain@[i] == x),
                forall|i: int| 0 <= i < j ==> visits@.contains_key(#[trigger] s[i].id),
            decreases chain.len() - t,
        {
            visits.insert(chain[t], true);
            t += 1;
        }
        proof {
            if chain.len() > 0 {
                assert(visits@.contains_key(chain@[0]));
            }
            assert forall|i: int| 0 <= i < j + 1 implies visits@.contains_key(#[trigger] s[i].id) by {
                if i == j {
                    assert(s[i].id == start);
                }
            }
        }
        j += 1;
    }
    proof {
        assert forall|x: u128| m.contains_key(x) implies !on_cycle(m, x) by {
            lemma_parent_map_keys(s, x);
            let i = choose|i: int| 0 <= i < s.len() && s[i].id == x;
            assert(visits@.contains_key(s[i].id));
            let k = choose|k: nat| #[trigger] root_at(m, x, k);
            lemma_root_at_not_on_cycle(m, x, k);
        }
    }
    None
}

/// The subtree of the Reference Tree below `id`.
///
/// `fuel` bounds the depth of the recursion: the walk from `id` to the root
/// plus `fuel` is at least the number of entities, and no walk to the root is
/// that long.
fn build_tree(
    id: u128,
    children: &HashMap<u128, Vec<u128>>,
    fuel: usize,
    Ghost(s): Ghost<Seq<RefTreeEntity>>,
) -> (node: RefTreeNode)
    requires
        ids_distinct(s),
        children_agree(children@, s),
        exists|k: nat| root_at(parent_map(s), id, k) && k + fuel >= s.len(),
    ensures
        node.entity_id == id,
        is_ref_tree(s, node),
    decreases fuel,
{
    let ghost m = parent_map(s);
    let mut nodes: Vec<RefTreeNode> = Vec::new();
    assert(child_ids(s, id) == child_ids(s, id));
    match children.get(&id) {
        Some(kids) => {
            let ghost k = choose|k: nat| root_at(m, id, k) && k + fuel >= s.len();
            proof {
                lemma_parent_map_len(s);
            }
            let mut t: usize = 0;
            while t < kids.len()
                invariant
                    ids_distinct(s),
                    children_agree(children@, s),
                    m == parent_map(s),
                    m.dom().finite(),
                    m.dom().len() == s.len(),
                    root_at(m, id, k),
                    k + fuel >= s.len(),
                    kids@ == child_ids(s, id),
                    t <= kids.len(),
                    nodes.len() == t,
                    forall|i: int|
                        0 <= i < t ==> (#[trigger] nodes@[i]).entity_id == kids@[i] && is_ref_tree(
                            s,
                            nodes@[i],
                        ),
                decreases kids.len() - t,
            {
                let c = kids[t];
                proof {
                    lemma_child_ids_member(s, id, t as int);
                    let i = choose|i: int|
                        0 <= i < s.len() && s[i].id == child_ids(s, id)[t as int] && s[i].parent_id
                            == Some(id);
                    lemma_parent_map_value(s, i);
                    lemma_root_at_child(m, c, id, k);
                    lemma_root_at_bound(m, c, k + 1);
                }
                let child = build_tree(c, children, fuel - 1, Ghost(s));
                nodes.push(child);
                t += 1;
            }
        },
        None => {},
    }
    RefTreeNode { entity_id: id, children: nodes }
}

impl RefTreeNode {
    /// Construct and validate the Reference Tree of `entities`.
    ///
    /// Construction takes `O(n)` time and storage for `n` entities. The checks
    /// come in this order: distinct ids (the first entity repeating an earlier
    /// id is reported), exactly one root, every named parent present (the first
    /// entity naming a missing parent is reported), no cycle of parents (an
    /// entity on a cycle is reported).
    pub fn try_new(entities: &[RefTreeEntity]) -> (r: Result<RefTreeNode, AnalyzerError>)
        ensures
            r is Ok <==> valid_ref_tree(entities@),
            match r {
                Ok(tree) => {
                    &&& valid_ref_tree(entities@)
                    &&& tree.entity_id == root_ids(entities@)[0]
                    &&& is_ref_tree(entities@, tree)
                },
                Err(AnalyzerError::Validation(ValidationError::DuplicateRefTreeId { id })) => exists|
                    j: int,
                | is_first_duplicate(entities@, j) && entities@[j].id == id,
                Err(AnalyzerError::Validation(ValidationError::RefTreeRootCount { found })) => {
                    &&& ids_distinct(entities@)
                    &&& found == root_ids(entities@).len()
                    &&& found != 1
                },
                Err(
                    AnalyzerError::Validation(ValidationError::MissingParent { id, parent_id }),
                ) => {
                    &&& ids_distinct(entities@)
                    &&& root_ids(entities@).len() == 1
                    &&& exists|j: int|
                        is_first_missing(entities@, j) && entities@[j].id == id
                            && entities@[j].parent_id == Some(parent_id)
                },
                Err(AnalyzerError::Validation(ValidationError::RefTreeCycle { id })) => {
                    &&& ids_distinct(entities@)
                    &&& root_ids(entities@).len() == 1
                    &&& parents_present(entities@)
                    &&& parent_map(entities@).contains_key(id)
                    &&& on_cycle(parent_map(entities@), id)
                },
                Err(_) => false,
            },
    {
        let ghost s = entities@;
        let (parents, children, roots) = match index_entities(entities) {
            Ok(index) => index,
            Err(id) => {
                return Err(AnalyzerError::Validation(ValidationError::DuplicateRefTreeId { id }));
            },
        };
        if roots.len() != 1 {
            return Err(
                AnalyzerError::Validation(ValidationError::RefTreeRootCount { found: roots.len() }),
            );
        }
        if let Some(j) = first_missing_parent(entities, &parents) {
            let id = entities[j].id;
            let parent_id = match entities[j].parent_id {
                Some(p) => p,
                None => id,
            };
            return Err(AnalyzerError::Validation(ValidationError::MissingParent { id, parent_id }));
        }
        if let Some(id) = find_cycle(entities, &parents) {
            return Err(AnalyzerError::Validation(ValidationError::RefTreeCycle { id }));
        }
        let root = roots[0];
        proof {
            lemma_root_ids_member(s, 0);
            let i = choose|i: int| 0 <= i < s.len() && s[i].id == root_ids(s)[0] && s[i].parent_id is None;
            lemma_parent_map_value(s, i);
            assert(root_at(parent_map(s), root, 0));
        }
        Ok(build_tree(root, &children, entities.len(), Ghost(s)))
    }
}

/// The direct children of `entity_id`: the ids of the entities naming it as
/// their parent, in input order.
pub fn children(entities: &[RefTreeEntity], entity_id: u128) -> (r: Vec<u128>)
    ensures
        r@ == child_ids(entities@, entity_id),
{
    let ghost s = entities@;
    let mut r: Vec<u128> = Vec::new();
    let mut j: usize = 0;
    while j < entities.len()
        invariant
            s == entities@,
            j <= s.len(),
            r@ == child_ids(s.take(j as int), entity_id),
        decreases s.len() - j,
    {
        proof {
            assert(s.take(j as int + 1).drop_last() =~= s.take(j as int));
        }
        if entities[j].parent_id == Some(entity_id) {
            r.push(entities[j].id);
        }
        j += 1;
    }
    proof {
        assert(s.take(s.len() as int) =~= s);
    }
    r
}

/// The first entity with the id `entity_id`.
pub fn ref_tree_entity(entities: &[RefTreeEntity], entity_id: u128) -> (r: Result<
    RefTreeEntity,
    AnalyzerError,
>)
    ensures
        match r {
            Ok(e) => exists|j: int|
                0 <= j < entities@.len() && entities@[j] == e && e.id == entity_id && forall|k: int|
                    0 <= k < j ==> entities@[k].id != entity_id,
            Err(e) => e == AnalyzerError::InvalidId(entity_id) && forall|k: int|
                0 <= k < entities@.len() ==> entities@[k].id != entity_id,
        },
{
    let mut j: usize = 0;
    while j < entities.len()
        invariant
            j <= entities@.len(),
            forall|k: int| 0 <= k < j ==> entities@[k].id != entity_id,
        decreases entities@.len() - j,
    {
        if entities[j].id == entity_id {
            return Ok(entities[j]);
        }
        j += 1;
    }
    Err(AnalyzerError::InvalidId(entity_id))
}

} // verus!
