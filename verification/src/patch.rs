//! The data that describes instance patches: what should change, and what did.

use vstd::prelude::*;
use rbx_dom_weak::{RbxId, RbxValue};
use crate::snapshot::{InstanceMetadata, InstanceSnapshot};

verus! {

/// A set of changes meant for a live tree: instances to remove, to add and to
/// update.
///
/// A patch set carries nothing that would show whether the tree has changed
/// since it was computed, so it is not meant to be kept and applied later.
#[derive(Debug, Clone, PartialEq)]
pub struct PatchSet {
    pub removed_instances: Vec<RbxId>,
    pub added_instances: Vec<PatchAdd>,
    pub updated_instances: Vec<PatchUpdate>,
}

impl PatchSet {
    /// A patch set that asks for nothing.
    pub fn new() -> (patch: PatchSet)
        ensures
            patch.removed_instances@.len() == 0,
            patch.added_instances@.len() == 0,
            patch.updated_instances@.len() == 0,
    {
        PatchSet {
            removed_instances: Vec::new(),
            added_instances: Vec::new(),
            updated_instances: Vec::new(),
        }
    }
}

impl Default for PatchSet {
    fn default() -> (patch: PatchSet)
        ensures
            patch.removed_instances@.len() == 0,
            patch.added_instances@.len() == 0,
            patch.updated_instances@.len() == 0,
    {
        PatchSet::new()
    }
}

/// An instance to add to the tree, as a new child of `parent_id`.
#[derive(Debug, Clone, PartialEq)]
pub struct PatchAdd {
    pub parent_id: RbxId,
    pub instance: InstanceSnapshot,
}

/// What should happen to one property: `Some` sets it, `None` clears it. A
/// property without a change is left as it is.
#[derive(Debug, Clone, PartialEq)]
pub struct PropertyChange {
    pub name: String,
    pub value: Option<RbxValue>,
}

/// Changes to one instance of the tree. A field left at `None` asks for no
/// change.
#[derive(Debug, Clone, PartialEq)]
pub struct PatchUpdate {
    pub id: RbxId,
    pub changed_name: Option<String>,
    pub changed_class_name: Option<String>,
    /// Carried out in order, so the last change to a property decides.
    pub changed_properties: Vec<PropertyChange>,
    pub changed_metadata: Option<InstanceMetadata>,
}

/// What applying a patch set did to the tree. It has the shape of a
/// [`PatchSet`], but reports what happened instead of asking for it.
#[derive(Debug, Clone)]
pub struct AppliedPatchSet {
    pub removed: Vec<RbxId>,
    pub added: Vec<AppliedPatchAdd>,
    pub updated: Vec<AppliedPatchUpdate>,
}

impl AppliedPatchSet {
    /// A record of nothing having happened.
    pub fn new() -> (applied: AppliedPatchSet)
        ensures
            applied.removed@.len() == 0,
            applied.added@.len() == 0,
            applied.updated@.len() == 0,
    {
        AppliedPatchSet { removed: Vec::new(), added: Vec::new(), updated: Vec::new() }
    }
}

impl Default for AppliedPatchSet {
    fn default() -> (applied: AppliedPatchSet)
        ensures
            applied.removed@.len() == 0,
            applied.added@.len() == 0,
            applied.updated@.len() == 0,
    {
        AppliedPatchSet::new()
    }
}

/// An instance that was added: the id that the tree gave to the root of the
/// new subtree.
#[derive(Debug, Clone)]
pub struct AppliedPatchAdd {
    pub instance_id: RbxId,
}

/// The changes that were made to one instance.
#[derive(Debug, Clone)]
pub struct AppliedPatchUpdate {
    pub id: RbxId,
    pub changed_name: Option<String>,
    pub changed_class_name: Option<String>,
    pub changed_properties: Vec<PropertyChange>,
    pub changed_metadata: Option<InstanceMetadata>,
}

} // verus!
