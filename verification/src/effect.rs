//! What applying a patch does, stated over the tree's instances, child lists
//! and metadata: the effect of one removal, addition or update, and of the
//! passes made of them.

use vstd::prelude::*;
use rbx_dom_weak::{RbxId, RbxValue};
use crate::dom::{without, NodeView};
use crate::patch::{
    AppliedPatchAdd, AppliedPatchSet, AppliedPatchUpdate, PatchAdd, PatchSet, PatchUpdate,
    PropertyChange,
};
use crate::snapshot::{snapshot_properties, InstanceSnapshot};
use crate::tree::{latest_metadata, LiveTree, MetadataEntry};

verus! {

/// The property table after `changes` were carried out in order: a change
/// with a value sets the property, one without clears it.
pub open spec fn changed_properties(
    properties: Map<Seq<char>, RbxValue>,
    changes: Seq<PropertyChange>,
) -> Map<Seq<char>, RbxValue>
    decreases changes.len(),
{
    if changes.len() == 0 {
        properties
    } else {
        let earlier = changed_properties(properties, changes.drop_last());
        match changes.last().value {
            Some(value) => earlier.insert(changes.last().name@, value),
            None => earlier.remove(changes.last().name@),
        }
    }
}

/// What an instance is after `update`: each field that the update names is
/// replaced, the others and the parent stay.
pub open spec fn updated_node(node: NodeView, update: PatchUpdate) -> NodeView {
    NodeView {
        name: match update.changed_name {
            Some(name) => name@,
            None => node.name,
        },
        class_name: match update.changed_class_name {
            Some(class_name) => class_name@,
            None => node.class_name,
        },
        properties: changed_properties(node.properties, update.changed_properties@),
        parent: node.parent,
    }
}

/// The metadata journal after `update` was carried out on instance `id`.
pub open spec fn updated_journal(journal: Seq<MetadataEntry>, update: PatchUpdate) -> Seq<
    MetadataEntry,
> {
    match update.changed_metadata {
        Some(metadata) => journal.push(MetadataEntry { id: update.id, metadata }),
        None => journal,
    }
}

/// Whether `record` reports exactly the changes that `update` asked for.
pub open spec fn records(record: AppliedPatchUpdate, update: PatchUpdate) -> bool {
    &&& record.id == update.id
    &&& record.changed_name == update.changed_name
    &&& record.changed_class_name == update.changed_class_name
    &&& record.changed_properties@ == update.changed_properties@
    &&& record.changed_metadata == update.changed_metadata
}

/// The instances after `updates` were carried out in order, each one only if
/// its target is there.
pub open spec fn nodes_after_updates(
    nodes: Map<RbxId, NodeView>,
    updates: Seq<PatchUpdate>,
) -> Map<RbxId, NodeView>
    decreases updates.len(),
{
    if updates.len() == 0 {
        nodes
    } else {
        let earlier = nodes_after_updates(nodes, updates.drop_last());
        let update = updates.last();
        if earlier.dom().contains(update.id) {
            earlier.insert(update.id, updated_node(earlier[update.id], update))
        } else {
            earlier
        }
    }
}

/// The metadata journal after `updates` were carried out in order on a tree
/// that holds the instances `ids`.
pub open spec fn journal_after_updates(
    ids: Set<RbxId>,
    journal: Seq<MetadataEntry>,
    updates: Seq<PatchUpdate>,
) -> Seq<MetadataEntry>
    decreases updates.len(),
{
    if updates.len() == 0 {
        journal
    } else {
        let earlier = journal_after_updates(ids, journal, updates.drop_last());
        if ids.contains(updates.last().id) {
            updated_journal(earlier, updates.last())
        } else {
            earlier
        }
    }
}

/// Those of `updates` whose target is among `ids`, in their order.
pub open spec fn committed_updates(ids: Set<RbxId>, updates: Seq<PatchUpdate>) -> Seq<PatchUpdate>
    decreases updates.len(),
{
    if updates.len() == 0 {
        Seq::empty()
    } else {
        let earlier = committed_updates(ids, updates.drop_last());
        if ids.contains(updates.last().id) {
            earlier.push(updates.last())
        } else {
            earlier
        }
    }
}

/// What a snapshot's root becomes in the tree, under the given parent.
pub open spec fn snapshot_node(snapshot: InstanceSnapshot, parent_id: RbxId) -> NodeView {
    NodeView {
        name: snapshot.name@,
        class_name: snapshot.class_name@,
        properties: snapshot_properties(snapshot.properties@),
        parent: Some(parent_id),
    }
}

/// Where a snapshot went: the id of its root in the tree, and the same for
/// each of its child snapshots, in their order.
pub ghost struct Placement {
    pub id: RbxId,
    pub children: Seq<Placement>,
}

/// The tree holds `snapshot` as a subtree at `place`: its root is the
/// instance `place.id` under `parent_id`, with the snapshot's name, class,
/// properties and metadata, and each child snapshot is held in the same way
/// under that instance.
pub open spec fn holds_subtree(
    tree: LiveTree,
    place: Placement,
    parent_id: RbxId,
    snapshot: InstanceSnapshot,
) -> bool
    decreases snapshot,
{
    &&& tree.contains(place.id)
    &&& tree.nodes()[place.id] == snapshot_node(snapshot, parent_id)
    &&& latest_metadata(tree.metadata@, place.id) == Some(snapshot.metadata)
    &&& place.children.len() == snapshot.children@.len()
    &&& forall|k: int|
        0 <= k < place.children.len() ==> holds_subtree(
            tree,
            #[trigger] place.children[k],
            place.id,
            snapshot.children@[k],
        )
}

/// Whether `id` is one of the ids of the placement: its root's or one from
/// further down.
pub open spec fn covers(place: Placement, id: RbxId) -> bool
    decreases place,
{
    ||| id == place.id
    ||| exists|k: int|
        0 <= k < place.children.len() && covers(#[trigger] place.children[k], id)
}

/// The ids of the roots of the placements, in their order.
pub open spec fn root_ids(places: Seq<Placement>) -> Seq<RbxId> {
    places.map_values(|place: Placement| place.id)
}

/// The child lists of the tree are those of the placement: the root's names
/// the roots of the child placements, in their order, and so on down.
pub open spec fn listed(tree: LiveTree, place: Placement) -> bool
    decreases place,
{
    &&& tree.children()[place.id] == root_ids(place.children)
    &&& forall|k: int| 0 <= k < place.children.len() ==> listed(tree, #[trigger] place.children[k])
}

/// `after` is `before` with `snapshot` added under `parent_id` at `place`:
/// the tree holds the subtree there, with child lists in the snapshot's
/// order and its root last in the parent's list, every instance that was there
/// is otherwise unchanged, and the instances that were not there are exactly
/// those of the placement.
pub open spec fn grafted_at(
    before: LiveTree,
    after: LiveTree,
    parent_id: RbxId,
    snapshot: InstanceSnapshot,
    place: Placement,
) -> bool {
    &&& !before.contains(place.id)
    &&& holds_subtree(after, place, parent_id, snapshot)
    &&& grown(before, after)
    &&& forall|id: RbxId| #[trigger] after.contains(id) && !before.contains(id) ==> covers(place, id)
    &&& forall|id: RbxId| #[trigger] covers(place, id) ==> after.contains(id) && !before.contains(id)
    &&& listed(after, place)
    &&& after.children()[parent_id] == before.children()[parent_id].push(place.id)
    &&& forall|id: RbxId|
        before.contains(id) && id != parent_id ==> #[trigger] after.children()[id]
            == before.children()[id]
    &&& before.well_formed() ==> after.well_formed()
}

/// The tree holds `snapshot` as a subtree whose root is the instance `id`
/// under `parent_id`.
pub open spec fn placed(tree: LiveTree, id: RbxId, parent_id: RbxId, snapshot: InstanceSnapshot) -> bool {
    exists|place: Placement|
        place.id == id && #[trigger] holds_subtree(tree, place, parent_id, snapshot)
}

/// `after` is `before` with `snapshot` added under `parent_id`, its root
/// under the new id `id`: the subtree is as the snapshot says, nothing else
/// was added, and every instance that was there is unchanged, and so is its
/// metadata.
pub open spec fn grafted(
    before: LiveTree,
    after: LiveTree,
    parent_id: RbxId,
    snapshot: InstanceSnapshot,
    id: RbxId,
) -> bool {
    &&& !before.contains(id)
    &&& after.contains(id)
    &&& after.nodes()[id] == snapshot_node(snapshot, parent_id)
    &&& latest_metadata(after.metadata@, id) == Some(snapshot.metadata)
    &&& placed(after, id, parent_id, snapshot)
    &&& grown(before, after)
    &&& exists|place: Placement|
        place.id == id && #[trigger] grafted_at(before, after, parent_id, snapshot, place)
}

/// Every instance of `part` is an instance of `whole`, and the same there.
pub open spec fn within(part: Map<RbxId, NodeView>, whole: Map<RbxId, NodeView>) -> bool {
    forall|id: RbxId| #[trigger]
        part.dom().contains(id) ==> whole.dom().contains(id) && part[id] == whole[id]
}

/// `after` holds every instance of `before`, unchanged and with the metadata
/// it had, and has the same root.
pub open spec fn grown(before: LiveTree, after: LiveTree) -> bool {
    &&& within(before.nodes(), after.nodes())
    &&& after.root() == before.root()
    &&& forall|other: RbxId| #[trigger]
        before.contains(other) ==> latest_metadata(after.metadata@, other) == latest_metadata(
            before.metadata@,
            other,
        )
}

/// `after` holds no instance that `before` did not, those it holds are
/// unchanged, and the root id and the metadata journal are the same.
pub open spec fn pruned(before: LiveTree, after: LiveTree) -> bool {
    &&& within(after.nodes(), before.nodes())
    &&& after.root() == before.root()
    &&& after.metadata == before.metadata
}

/// `after` is `before` without the instance `id` and its descendants:
/// exactly those are gone, the parent's child list no longer names `id`, and
/// everything else is as it was.
pub open spec fn cut_out(before: LiveTree, after: LiveTree, id: RbxId) -> bool {
    &&& after.nodes() == before.nodes().remove_keys(before.subtree(id))
    &&& forall|other: RbxId|
        after.contains(other) ==> #[trigger] after.children()[other] == if Some(other)
            == before.nodes()[id].parent {
            without(before.children()[other], id)
        } else {
            before.children()[other]
        }
    &&& after.root() == before.root()
    &&& after.metadata == before.metadata
}

/// What the removal pass guarantees: `reported` are the instances it took
/// out of `before`, giving `after`.
pub open spec fn removals_applied(
    before: LiveTree,
    ids: Seq<RbxId>,
    after: LiveTree,
    reported: Seq<RbxId>,
) -> bool {
    &&& pruned(before, after)
    &&& reported.len() <= ids.len()
    &&& reported.len() == 0 ==> after == before
    &&& forall|k: int|
        0 <= k < reported.len() ==> {
            &&& ids.contains(#[trigger] reported[k])
            &&& before.removable(reported[k])
            &&& !after.contains(reported[k])
        }
    &&& forall|j: int, k: int| 0 <= j < k < reported.len() ==> reported[j] != reported[k]
    &&& forall|i: int| 0 <= i < ids.len() ==> !after.removable(#[trigger] ids[i])
    &&& ids.len() > 0 && before.removable(ids[0]) ==> reported.len() > 0 && reported[0] == ids[0]
    &&& before.well_formed() ==> {
        &&& after.well_formed()
        &&& forall|i: int|
            0 <= i < ids.len() && ids[i] != before.root() ==> !after.contains(#[trigger] ids[i])
    }
}

/// One step of the removal pass, from `before` with `earlier` reported so far
/// to `after` with `reported`: the instance is taken out and reported if
/// `before` can lose it, and passed over if not.
pub open spec fn removal_step(
    before: LiveTree,
    id: RbxId,
    after: LiveTree,
    earlier: Seq<RbxId>,
    reported: Seq<RbxId>,
) -> bool {
    if before.removable(id) {
        &&& reported == earlier.push(id)
        &&& cut_out(before, after, id)
    } else {
        &&& after == before
        &&& reported == earlier
    }
}

/// The removal pass as a run of steps: each id meets the tree as the removals
/// before it left it.
pub open spec fn removals_run(
    before: LiveTree,
    ids: Seq<RbxId>,
    after: LiveTree,
    reported: Seq<RbxId>,
) -> bool
    decreases ids.len(),
{
    if ids.len() == 0 {
        after == before && reported.len() == 0
    } else {
        exists|middle: LiveTree, earlier: Seq<RbxId>|
            {
                &&& removals_run(before, ids.drop_last(), middle, earlier)
                &&& #[trigger] removal_step(middle, ids.last(), after, earlier, reported)
            }
    }
}

/// What the addition pass guarantees: `reported` are the roots of the
/// subtrees it added to `before`, giving `after`.
pub open spec fn additions_applied(
    before: LiveTree,
    adds: Seq<PatchAdd>,
    after: LiveTree,
    reported: Seq<AppliedPatchAdd>,
) -> bool {
    &&& grown(before, after)
    &&& before.well_formed() ==> after.well_formed()
    &&& reported.len() <= adds.len()
    &&& forall|k: int|
        0 <= k < reported.len() ==> {
            &&& !before.contains(#[trigger] reported[k].instance_id)
            &&& after.contains(reported[k].instance_id)
            &&& after.nodes()[reported[k].instance_id].parent is Some
            &&& after.contains(after.nodes()[reported[k].instance_id].parent->Some_0)
        }
    &&& forall|j: int, k: int|
        0 <= j < k < reported.len() ==> reported[j].instance_id != reported[k].instance_id
    &&& (forall|i: int| 0 <= i < adds.len() ==> !before.contains(#[trigger] adds[i].parent_id)) ==> {
        &&& reported.len() == 0
        &&& after == before
    }
    &&& (forall|i: int| 0 <= i < adds.len() ==> before.contains(#[trigger] adds[i].parent_id)) ==> {
        &&& reported.len() == adds.len()
        &&& forall|i: int|
            0 <= i < adds.len() ==> placed(
                after,
                #[trigger] reported[i].instance_id,
                adds[i].parent_id,
                adds[i].instance,
            )
    }
}

/// One step of the addition pass, from `before` with `earlier` reported so
/// far to `after` with `reported`: the addition is carried out if `before`
/// holds its parent, and passed over if not.
pub open spec fn add_step(
    before: LiveTree,
    add: PatchAdd,
    after: LiveTree,
    earlier: Seq<AppliedPatchAdd>,
    reported: Seq<AppliedPatchAdd>,
) -> bool {
    if before.contains(add.parent_id) {
        &&& reported.len() == earlier.len() + 1
        &&& reported.drop_last() == earlier
        &&& grafted(before, after, add.parent_id, add.instance, reported.last().instance_id)
    } else {
        &&& after == before
        &&& reported == earlier
    }
}

/// The addition pass as a run of steps: each addition meets the tree as the
/// additions before it left it, so its parent may be an instance that one of
/// them added.
pub open spec fn additions_run(
    before: LiveTree,
    adds: Seq<PatchAdd>,
    after: LiveTree,
    reported: Seq<AppliedPatchAdd>,
) -> bool
    decreases adds.len(),
{
    if adds.len() == 0 {
        after == before && reported.len() == 0
    } else {
        exists|middle: LiveTree, earlier: Seq<AppliedPatchAdd>|
            {
                &&& additions_run(before, adds.drop_last(), middle, earlier)
                &&& #[trigger] add_step(middle, adds.last(), after, earlier, reported)
            }
    }
}

/// What the update pass guarantees: exactly the updates whose target is in
/// `before` were carried out, in order, and `reported` records them.
pub open spec fn updates_applied(
    before: LiveTree,
    updates: Seq<PatchUpdate>,
    after: LiveTree,
    reported: Seq<AppliedPatchUpdate>,
) -> bool {
    let committed = committed_updates(before.nodes().dom(), updates);
    &&& after.nodes() == nodes_after_updates(before.nodes(), updates)
    &&& after.nodes().dom() == before.nodes().dom()
    &&& after.children() == before.children()
    &&& after.root() == before.root()
    &&& before.well_formed() ==> after.well_formed()
    &&& after.metadata@ == journal_after_updates(before.nodes().dom(), before.metadata@, updates)
    &&& reported.len() == committed.len()
    &&& forall|k: int| 0 <= k < reported.len() ==> records(#[trigger] reported[k], committed[k])
    &&& committed.len() == 0 ==> after == before
}

/// What applying `patch` to `before` guarantees of the tree `after` and of
/// the record `applied`: the three passes ran one after the other.
pub open spec fn patch_applied(
    before: LiveTree,
    patch: PatchSet,
    after: LiveTree,
    applied: AppliedPatchSet,
) -> bool {
    exists|cut: LiveTree, filled: LiveTree|
        {
            &&& #[trigger] removals_applied(before, patch.removed_instances@, cut, applied.removed@)
            &&& removals_run(before, patch.removed_instances@, cut, applied.removed@)
            &&& #[trigger] additions_applied(cut, patch.added_instances@, filled, applied.added@)
            &&& additions_run(cut, patch.added_instances@, filled, applied.added@)
            &&& updates_applied(filled, patch.updated_instances@, after, applied.updated@)
        }
}

} // verus!
