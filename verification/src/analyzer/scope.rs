//! Entities arranged in a scope tree: every scoped entity names the entity
//! whose scope it lies in.
use vstd::prelude::*;

use crate::analyzer::error::AnalyzerError;

verus! {

/// An entity participating in the scope tree: its id, and the id of the
/// entity whose scope it lies in (`None` at the top).
#[derive(Debug, Clone, Copy, PartialEq, Eq)]
pub struct ScopedEntity {
    pub id: u128,
    pub scope_id: Option<u128>,
}

/// The ids of the entities directly in the scope of `x`, in input order.
pub open spec fn scope_child_ids(s: Seq<ScopedEntity>, x: u128) -> Seq<u128>
    decreases s.len(),
{
    if s.len() == 0 {
        Seq::empty()
    } else if s.last().scope_id == Some(x) {
        scope_child_ids(s.drop_last(), x).push(s.last().id)
    } else {
        scope_child_ids(s.drop_last(), x)
    }
}

/// The direct children of `entity_id` in the scope tree: the ids of the
/// entities in its scope, in input order.
pub fn scope_children(entities: &[ScopedEntity], entity_id: u128) -> (r: Vec<u128>)
    ensures
        r@ == scope_child_ids(entities@, entity_id),
{
    let ghost s = entities@;
    let mut r: Vec<u128> = Vec::new();
    let mut j: usize = 0;
    while j < entities.len()
        invariant
            s == entities@,
            j <= s.len(),
            r@ == scope_child_ids(s.take(j as int), entity_id),
        decreases s.len() - j,
    {
        proof {
            assert(s.take(j as int + 1).drop_last() =~= s.take(j as int));
        }
        if entities[j].scope_id == Some(entity_id) {
            r.push(entities[j].id);
        }
        j += 1;
    }
    proof {
        assert(s.take(s.len() as int) =~= s);
    }
    r
}

/// The first scoped entity with the id `entity_id`.
pub fn scoped_entity(entities: &[ScopedEntity], entity_id: u128) -> (r: Result<
    ScopedEntity,
    AnalyzerError,
>)
    ensures
        match r {
            Ok(e) => exists|j: int|
                0 <= j < entities@.len() && entities@[j] == e && e.id == entity_id && forall|k: int|
                    0 <= k < j ==> entities@[k].id != entity_id,
            Err(e) => e == AnalyzerError::InvalidId(entity_id) && forall|k: int|
                0 <= k < entities@.len() ==> entities@[k].id != entity_id,
        },
{
    let mut j: usize = 0;
    while j < entities.len()
        invariant
            j <= entities@.len(),
            forall|k: int| 0 <= k < j ==> entities@[k].id != entity_id,
        decreases entities@.len() - j,
    {
        if entities[j].id == entity_id {
            return Ok(entities[j]);
        }
        j += 1;
    }
    Err(AnalyzerError::InvalidId(entity_id))
}

} // verus!
