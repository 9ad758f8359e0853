//! Errors of the analysis functions.
use vstd::prelude::*;

verus! {

/// A structural rule of the analyzed telemetry that the input violates.
#[derive(Debug, Clone, Copy, PartialEq, Eq)]
pub enum ValidationError {
    /// Two Reference Tree entities share the id.
    DuplicateRefTreeId { id: u128 },
    /// The Reference Tree does not have exactly one root; `found` roots were seen.
    RefTreeRootCount { found: usize },
    /// The entity `id` names a parent that is not among the entities.
    MissingParent { id: u128, parent_id: u128 },
    /// Following parents from some entity returns to the entity `id`.
    RefTreeCycle { id: u128 },
    /// The resource `resource_id` has no state transitions.
    NoTransitions { resource_id: u128 },
    /// The first state transition of the resource `resource_id` is not `init`.
    FirstStateNotInit { resource_id: u128 },
}

/// A part of an entity model that its events never supplied.
#[derive(Debug, Clone, Copy, PartialEq, Eq)]
pub enum IncompleteEntity {
    /// The resource `resource_id` has no instance name.
    MissingInstanceName { resource_id: u128 },
    /// The resource `resource_id` has no type name.
    MissingTypeName { resource_id: u128 },
    /// The resource `resource_id` has no parent resource group.
    MissingParentGroup { resource_id: u128 },
}

/// The error of the analysis functions.
#[derive(Debug, Clone, Copy, PartialEq, Eq)]
pub enum AnalyzerError {
    /// The id does not identify a usable entity (the nil id, or one that is unknown).
    InvalidId(u128),
    /// The telemetry violates a structural rule.
    Validation(ValidationError),
    /// The telemetry does not describe a complete entity.
    IncompleteEntity(IncompleteEntity),
}

} // verus!
