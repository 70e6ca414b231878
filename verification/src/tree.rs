//! The live tree: the instances of an `RbxTree` and the metadata kept beside
//! them.

use vstd::prelude::*;
use rbx_dom_weak::{RbxId, RbxTree};
use crate::dom::{
    has_instance, id_eq, new_tree, subtree_of, tree_children, tree_nodes, tree_root, NodeView,
};
use crate::snapshot::InstanceMetadata;

verus! {

/// One record of the metadata journal: the metadata given to an instance.
#[derive(Debug, Clone, Copy, PartialEq)]
pub struct MetadataEntry {
    pub id: RbxId,
    pub metadata: InstanceMetadata,
}

/// The mutable tree that patches are applied to.
///
/// `metadata` is a journal: setting an instance's metadata appends a record,
/// and the latest record for an id is the one that counts.
#[derive(Debug)]
pub struct LiveTree {
    pub instances: RbxTree,
    pub metadata: Vec<MetadataEntry>,
}

/// The metadata that the journal's latest record for `id` gives, if it has one.
pub open spec fn latest_metadata(journal: Seq<MetadataEntry>, id: RbxId) -> Option<InstanceMetadata>
    decreases journal.len(),
{
    if journal.len() == 0 {
        None
    } else if journal.last().id == id {
        Some(journal.last().metadata)
    } else {
        latest_metadata(journal.drop_last(), id)
    }
}

impl LiveTree {
    /// The instances of the tree, by id.
    pub open spec fn nodes(&self) -> Map<RbxId, NodeView> {
        tree_nodes(self.instances)
    }

    /// The id of the root instance.
    pub open spec fn root(&self) -> RbxId {
        tree_root(self.instances)
    }

    /// Whether the tree holds an instance with this id.
    pub open spec fn contains(&self, id: RbxId) -> bool {
        self.nodes().dom().contains(id)
    }

    /// The child list of each instance, in the tree's order.
    pub open spec fn children(&self) -> Map<RbxId, Seq<RbxId>> {
        tree_children(self.instances)
    }

    /// The instance `id` and all its descendants.
    pub open spec fn subtree(&self, id: RbxId) -> Set<RbxId> {
        subtree_of(self.nodes(), self.children(), id)
    }

    /// Whether parents and child lists agree: every instance but the root
    /// has its parent in the tree and is named in that parent's child list,
    /// and every id that a child list names is an instance of the tree with
    /// that parent. A tree made by [`LiveTree::with_root`] is so, and
    /// applying patches keeps it so.
    pub open spec fn well_formed(&self) -> bool {
        &&& forall|id: RbxId| #[trigger]
            self.contains(id) && id != self.root() ==> {
                &&& self.nodes()[id].parent is Some
                &&& self.contains(self.nodes()[id].parent->Some_0)
                &&& self.children()[self.nodes()[id].parent->Some_0].contains(id)
            }
        &&& forall|id: RbxId, child: RbxId|
            self.contains(id) && #[trigger] self.children()[id].contains(child) ==> {
                &&& self.contains(child)
                &&& self.nodes()[child].parent == Some(id)
            }
    }

    /// Whether the instance can be taken out of the tree: it is there, it is
    /// not the root, and the parent recorded for it is there too.
    pub open spec fn removable(&self, id: RbxId) -> bool {
        &&& self.contains(id)
        &&& id != self.root()
        &&& self.nodes()[id].parent is Some
        &&& self.contains(self.nodes()[id].parent->Some_0)
    }

    /// The metadata of an instance of the tree.
    pub open spec fn metadata_of(&self, id: RbxId) -> Option<InstanceMetadata> {
        if self.contains(id) {
            latest_metadata(self.metadata@, id)
        } else {
            None
        }
    }

    /// A live tree that holds only a root instance with the given name and
    /// class.
    pub fn with_root(name: String, class_name: String) -> (tree: LiveTree)
        ensures
            tree.well_formed(),
            tree.nodes() == Map::<RbxId, NodeView>::empty().insert(
                tree.root(),
                NodeView {
                    name: name@,
                    class_name: class_name@,
                    properties: Map::empty(),
                    parent: None,
                },
            ),
            tree.children() == Map::<RbxId, Seq<RbxId>>::empty().insert(tree.root(), Seq::empty()),
            tree.metadata@ == Seq::<MetadataEntry>::empty(),
    {
        LiveTree { instances: new_tree(name, class_name), metadata: Vec::new() }
    }

    /// A live tree over the given instances, with no metadata recorded yet.
    pub fn new(instances: RbxTree) -> (tree: LiveTree)
        ensures
            tree.instances == instances,
            tree.metadata@ == Seq::<MetadataEntry>::empty(),
    {
        LiveTree { instances, metadata: Vec::new() }
    }

    /// Whether the tree holds an instance with this id.
    pub fn contains_instance(&self, id: RbxId) -> (found: bool)
        ensures
            found == self.contains(id),
    {
        has_instance(&self.instances, id)
    }

    /// The metadata of an instance of the tree: `None` for an id that the
    /// tree does not hold, or that never got any.
    pub fn get_metadata(&self, id: RbxId) -> (metadata: Option<InstanceMetadata>)
        ensures
            metadata == self.metadata_of(id),
    {
        if !has_instance(&self.instances, id) {
            return None;
        }
        let mut i: usize = self.metadata.len();
        proof {
            assert(self.metadata@.take(i as int) =~= self.metadata@);
        }
        while i > 0
            invariant
                self.contains(id),
                i <= self.metadata@.len(),
                latest_metadata(self.metadata@, id) == latest_metadata(self.metadata@.take(i as int), id),
            decreases i,
        {
            let entry = &self.metadata[i - 1];
            proof {
                assert(self.metadata@.take(i as int).last() == self.metadata@[i - 1]);
            }
            if id_eq(entry.id, id) {
                return Some(entry.metadata);
            }
            proof {
                assert(self.metadata@.take(i as int).drop_last() =~= self.metadata@.take(i - 1));
            }
            i -= 1;
        }
        None
    }

    /// Replaces the metadata of an instance of the tree.
    pub fn set_metadata(&mut self, id: RbxId, metadata: InstanceMetadata)
        ensures
            final(self).instances == old(self).instances,
            final(self).metadata@ == old(self).metadata@.push(MetadataEntry { id, metadata }),
            latest_metadata(final(self).metadata@, id) == Some(metadata),
            forall|other: RbxId|
                other != id ==> latest_metadata(final(self).metadata@, other) == latest_metadata(
                    old(self).metadata@,
                    other,
                ),
    {
        self.metadata.push(MetadataEntry { id, metadata });
        proof {
            assert(self.metadata@.drop_last() =~= old(self).metadata@);
        }
    }
}

} // verus!
