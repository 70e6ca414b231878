//! Descriptions of instances that are not part of a live tree yet.

use vstd::prelude::*;
use rbx_dom_weak::RbxValue;

verus! {

/// Bookkeeping kept beside an instance, apart from its properties.
#[derive(Clone, Copy, Debug, PartialEq, Eq, Structural)]
pub struct InstanceMetadata {
    /// Whether instances that the desired state does not mention are left
    /// alone under this one.
    pub ignore_unknown_instances: bool,
}

/// A property of a snapshot: its name and its value.
#[derive(Debug, Clone, PartialEq)]
pub struct SnapshotProperty {
    pub name: String,
    pub value: RbxValue,
}

/// A detached subtree: what an instance and its descendants should be once
/// they are part of a live tree.
#[derive(Debug, PartialEq)]
pub struct InstanceSnapshot {
    pub name: String,
    pub class_name: String,
    /// Set in order; where a name occurs twice the later value stays.
    pub properties: Vec<SnapshotProperty>,
    pub children: Vec<InstanceSnapshot>,
    pub metadata: InstanceMetadata,
}

/// Whether two snapshots describe the same subtree: the same root, and
/// children that describe the same subtrees, one for one.
pub open spec fn alike(left: InstanceSnapshot, right: InstanceSnapshot) -> bool
    decreases left,
{
    &&& left.name == right.name
    &&& left.class_name == right.class_name
    &&& left.properties@ == right.properties@
    &&& left.metadata == right.metadata
    &&& left.children@.len() == right.children@.len()
    &&& forall|k: int|
        0 <= k < left.children@.len() ==> alike(#[trigger] left.children@[k], right.children@[k])
}

impl InstanceSnapshot {
    /// A copy of the snapshot and of everything below it.
    pub fn duplicate(&self) -> (copy: InstanceSnapshot)
        ensures
            alike(copy, *self),
        decreases self,
    {
        let mut properties: Vec<SnapshotProperty> = Vec::new();
        let mut i: usize = 0;
        while i < self.properties.len()
            invariant
                i <= self.properties.len(),
                properties@ == self.properties@.take(i as int),
            decreases self.properties.len() - i,
        {
            let property = &self.properties[i];
            properties.push(
                SnapshotProperty { name: property.name.clone(), value: property.value.clone() },
            );
            proof {
                assert(properties@ =~= self.properties@.take(i + 1));
            }
            i += 1;
        }
        proof {
            assert(self.properties@.take(i as int) =~= self.properties@);
        }
        let mut children: Vec<InstanceSnapshot> = Vec::new();
        let mut k: usize = 0;
        while k < self.children.len()
            invariant
                k <= self.children.len(),
                children@.len() == k,
                forall|j: int| 0 <= j < k ==> alike(#[trigger] children@[j], self.children@[j]),
            decreases self.children.len() - k,
        {
            let child = self.children[k].duplicate();
            children.push(child);
            k += 1;
        }
        InstanceSnapshot {
            name: self.name.clone(),
            class_name: self.class_name.clone(),
            properties,
            children,
            metadata: self.metadata,
        }
    }
}

impl Clone for InstanceSnapshot {
    fn clone(&self) -> (copy: InstanceSnapshot)
        ensures
            alike(copy, *self),
    {
        self.duplicate()
    }
}

/// The property table that setting `properties` one after the other gives,
/// starting from an empty table.
pub open spec fn snapshot_properties(properties: Seq<SnapshotProperty>) -> Map<Seq<char>, RbxValue>
    decreases properties.len(),
{
    if properties.len() == 0 {
        Map::empty()
    } else {
        snapshot_properties(properties.drop_last()).insert(
            properties.last().name@,
            properties.last().value,
        )
    }
}

} // verus!
