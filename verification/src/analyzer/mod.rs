//! Analysis of the runtime structure that telemetry describes: the
//! Reference Tree of entities, resources and their hierarchy, and the
//! contexts that contribute to an analysis.
use vstd::prelude::*;

pub mod context;
pub mod error;
pub mod ref_tree;
pub mod resource;
pub mod resource_tree;
pub mod scope;

verus! {

/// A type-safety wrapper around an entity id, telling resources and resource
/// groups apart.
pub trait EntityId {
    /// Whether the id identifies a resource.
    fn is_resource(&self) -> bool;

    /// Whether the id identifies a resource group.
    fn is_resource_group(&self) -> bool;
}

} // verus!
