//! What follows from the applier's contracts, stated and proved.

use vstd::prelude::*;
use rbx_dom_weak::{RbxId, RbxValue};
use crate::effect::{
    add_step, additions_applied, additions_run, changed_properties, committed_updates, cut_out,
    grafted, grown, patch_applied, placed, records, removals_applied, updates_applied,
};
use crate::dom::descends;
use crate::patch::{
    AppliedPatchAdd, AppliedPatchSet, PatchAdd, PatchSet, PatchUpdate, PropertyChange,
};
use crate::tree::LiveTree;

verus! {

/// Applying a patch set that asks for nothing reports nothing and leaves the
/// tree as it was.
pub proof fn law_empty_patch_changes_nothing(
    before: LiveTree,
    patch: PatchSet,
    after: LiveTree,
    applied: AppliedPatchSet,
)
    requires
        patch_applied(before, patch, after, applied),
        patch.removed_instances@.len() == 0,
        patch.added_instances@.len() == 0,
        patch.updated_instances@.len() == 0,
    ensures
        applied.removed@.len() == 0,
        applied.added@.len() == 0,
        applied.updated@.len() == 0,
        after == before,
{
}

/// An id that the tree does not hold is never reported as removed.
pub proof fn law_absent_removal_unreported(
    before: LiveTree,
    patch: PatchSet,
    after: LiveTree,
    applied: AppliedPatchSet,
    id: RbxId,
)
    requires
        patch_applied(before, patch, after, applied),
        !before.contains(id),
    ensures
        !applied.removed@.contains(id),
{
}

/// Only ids that the patch set lists for removal are reported as removed, and
/// none of them twice.
pub proof fn law_removed_were_requested(
    before: LiveTree,
    patch: PatchSet,
    after: LiveTree,
    applied: AppliedPatchSet,
)
    requires
        patch_applied(before, patch, after, applied),
    ensures
        forall|k: int|
            0 <= k < applied.removed@.len() ==> patch.removed_instances@.contains(
                #[trigger] applied.removed@[k],
            ),
        applied.removed@.no_duplicates(),
        applied.added@.len() <= patch.added_instances@.len(),
        applied.updated@.len() <= patch.updated_instances@.len(),
{
    let (cut, filled) = choose|cut: LiveTree, filled: LiveTree|
        {
            &&& #[trigger] removals_applied(before, patch.removed_instances@, cut, applied.removed@)
            &&& #[trigger] additions_applied(cut, patch.added_instances@, filled, applied.added@)
            &&& updates_applied(filled, patch.updated_instances@, after, applied.updated@)
        };
    lemma_committed_bounded(filled.nodes().dom(), patch.updated_instances@);
}

/// A patch set that only adds one snapshot, under a parent that the tree
/// holds, reports exactly one addition: its id is new to the tree, and the
/// tree now holds the snapshot as a subtree under that parent, with
/// everything else as it was.
pub proof fn law_add_under_present_parent(
    before: LiveTree,
    patch: PatchSet,
    after: LiveTree,
    applied: AppliedPatchSet,
)
    requires
        patch_applied(before, patch, after, applied),
        patch.removed_instances@.len() == 0,
        patch.added_instances@.len() == 1,
        patch.updated_instances@.len() == 0,
        before.contains(patch.added_instances@[0].parent_id),
    ensures
        applied.removed@.len() == 0,
        applied.updated@.len() == 0,
        applied.added@.len() == 1,
        grafted(
            before,
            after,
            patch.added_instances@[0].parent_id,
            patch.added_instances@[0].instance,
            applied.added@[0].instance_id,
        ),
{
    let adds = patch.added_instances@;
    let (cut, filled) = choose|cut: LiveTree, filled: LiveTree|
        {
            &&& #[trigger] removals_applied(before, patch.removed_instances@, cut, applied.removed@)
            &&& #[trigger] additions_applied(cut, adds, filled, applied.added@)
            &&& additions_run(cut, adds, filled, applied.added@)
            &&& updates_applied(filled, patch.updated_instances@, after, applied.updated@)
        };
    assert(cut == before);
    assert(after == filled);
    let (middle, earlier) = choose|middle: LiveTree, earlier: Seq<AppliedPatchAdd>|
        {
            &&& additions_run(cut, adds.drop_last(), middle, earlier)
            &&& #[trigger] add_step(middle, adds.last(), filled, earlier, applied.added@)
        };
    assert(middle == cut);
}

/// Additions whose parents the tree does not hold are all passed over:
/// nothing is reported as added and the tree gains no instance. If the patch
/// set asks for nothing else, the tree is left as it was.
pub proof fn law_dangling_adds_do_nothing(
    before: LiveTree,
    patch: PatchSet,
    after: LiveTree,
    applied: AppliedPatchSet,
)
    requires
        patch_applied(before, patch, after, applied),
        forall|i: int|
            0 <= i < patch.added_instances@.len() ==> !before.contains(
                #[trigger] patch.added_instances@[i].parent_id,
            ),
    ensures
        applied.added@.len() == 0,
        forall|id: RbxId| after.contains(id) ==> before.contains(id),
        patch.removed_instances@.len() == 0 && patch.updated_instances@.len() == 0 ==> after
            == before,
{
    let adds = patch.added_instances@;
    let (cut, filled) = choose|cut: LiveTree, filled: LiveTree|
        {
            &&& #[trigger] removals_applied(before, patch.removed_instances@, cut, applied.removed@)
            &&& #[trigger] additions_applied(cut, adds, filled, applied.added@)
            &&& updates_applied(filled, patch.updated_instances@, after, applied.updated@)
        };
    assert forall|i: int| 0 <= i < adds.len() implies !cut.contains(#[trigger] adds[i].parent_id) by {
        assert(!before.contains(adds[i].parent_id));
    }
    assert(filled == cut);
    assert forall|id: RbxId| after.contains(id) implies before.contains(id) by {
        assert(filled.nodes().dom().contains(id));
    }
}

/// The last change to a property decides: after a change with a value the
/// property has that value, after a change without one it is not set.
pub proof fn law_last_change_decides(properties: Map<Seq<char>, RbxValue>, changes: Seq<PropertyChange>)
    requires
        changes.len() > 0,
    ensures
        match changes.last().value {
            Some(value) => {
                &&& changed_properties(properties, changes).dom().contains(changes.last().name@)
                &&& changed_properties(properties, changes)[changes.last().name@] == value
            },
            None => !changed_properties(properties, changes).dom().contains(changes.last().name@),
        },
{
}

/// A property that no change names is left as it was.
pub proof fn law_unnamed_property_stays(
    properties: Map<Seq<char>, RbxValue>,
    changes: Seq<PropertyChange>,
    name: Seq<char>,
)
    requires
        forall|i: int| 0 <= i < changes.len() ==> (#[trigger] changes[i]).name@ != name,
    ensures
        changed_properties(properties, changes).dom().contains(name) == properties.dom().contains(
            name,
        ),
        properties.dom().contains(name) ==> changed_properties(properties, changes)[name]
            == properties[name],
    decreases changes.len(),
{
    if changes.len() > 0 {
        let earlier = changes.drop_last();
        assert forall|i: int| 0 <= i < earlier.len() implies (#[trigger] earlier[i]).name@ != name by {
            assert(earlier[i] == changes[i]);
        }
        law_unnamed_property_stays(properties, earlier, name);
        assert(changes.last() == changes[changes.len() - 1]);
    }
}

/// The updates that are carried out are no more than those asked for, each
/// of them is one of those, and each has its target among `ids`.
pub proof fn lemma_committed_bounded(ids: Set<RbxId>, updates: Seq<PatchUpdate>)
    ensures
        committed_updates(ids, updates).len() <= updates.len(),
        forall|k: int|
            0 <= k < committed_updates(ids, updates).len() ==> {
                &&& ids.contains((#[trigger] committed_updates(ids, updates)[k]).id)
                &&& updates.contains(committed_updates(ids, updates)[k])
            },
    decreases updates.len(),
{
    if updates.len() > 0 {
        let earlier = updates.drop_last();
        lemma_committed_bounded(ids, earlier);
        assert forall|k: int| 0 <= k < committed_updates(ids, updates).len() implies updates.contains(
            #[trigger] committed_updates(ids, updates)[k],
        ) by {
            if k < committed_updates(ids, earlier).len() {
                let update = committed_updates(ids, earlier)[k];
                assert(earlier.contains(update));
                let i = choose|i: int| 0 <= i < earlier.len() && earlier[i] == update;
                assert(updates[i] == update);
            } else {
                assert(updates[updates.len() - 1] == updates.last());
            }
        }
    }
}

/// Every update that is reported records one that the patch set asked for,
/// and its target is in the tree afterwards.
pub proof fn law_updated_were_requested(
    before: LiveTree,
    patch: PatchSet,
    after: LiveTree,
    applied: AppliedPatchSet,
)
    requires
        patch_applied(before, patch, after, applied),
    ensures
        forall|k: int|
            0 <= k < applied.updated@.len() ==> {
                &&& after.contains((#[trigger] applied.updated@[k]).id)
                &&& exists|i: int|
                    0 <= i < patch.updated_instances@.len() && records(
                        applied.updated@[k],
                        #[trigger] patch.updated_instances@[i],
                    )
            },
{
    let updates = patch.updated_instances@;
    let (cut, filled) = choose|cut: LiveTree, filled: LiveTree|
        {
            &&& #[trigger] removals_applied(before, patch.removed_instances@, cut, applied.removed@)
            &&& #[trigger] additions_applied(cut, patch.added_instances@, filled, applied.added@)
            &&& updates_applied(filled, updates, after, applied.updated@)
        };
    let committed = committed_updates(filled.nodes().dom(), updates);
    lemma_committed_bounded(filled.nodes().dom(), updates);
    assert forall|k: int| 0 <= k < applied.updated@.len() implies {
        &&& after.contains((#[trigger] applied.updated@[k]).id)
        &&& exists|i: int|
            0 <= i < updates.len() && records(applied.updated@[k], #[trigger] updates[i])
    } by {
        assert(records(applied.updated@[k], committed[k]));
        assert(filled.nodes().dom().contains(committed[k].id));
        assert(updates.contains(committed[k]));
        let i = choose|i: int| 0 <= i < updates.len() && updates[i] == committed[k];
        assert(records(applied.updated@[k], updates[i]));
    }
}

/// Every addition that a run reports is one that was asked for: at the end
/// the tree holds the snapshot of one of the additions under the reported id.
pub proof fn law_added_were_requested(
    before: LiveTree,
    adds: Seq<PatchAdd>,
    after: LiveTree,
    reported: Seq<AppliedPatchAdd>,
)
    requires
        additions_run(before, adds, after, reported),
    ensures
        reported.len() <= adds.len(),
        forall|k: int|
            0 <= k < reported.len() ==> exists|i: int|
                0 <= i < adds.len() && placed(
                    after,
                    (#[trigger] reported[k]).instance_id,
                    (#[trigger] adds[i]).parent_id,
                    adds[i].instance,
                ),
    decreases adds.len(),
{
    if adds.len() > 0 {
        let (middle, earlier) = choose|middle: LiveTree, earlier: Seq<AppliedPatchAdd>|
            {
                &&& additions_run(before, adds.drop_last(), middle, earlier)
                &&& #[trigger] add_step(middle, adds.last(), after, earlier, reported)
            };
        law_added_were_requested(before, adds.drop_last(), middle, earlier);
        if middle.contains(adds.last().parent_id) {
            assert forall|k: int| 0 <= k < reported.len() implies exists|i: int|
                0 <= i < adds.len() && placed(
                    after,
                    (#[trigger] reported[k]).instance_id,
                    (#[trigger] adds[i]).parent_id,
                    adds[i].instance,
                ) by {
                if k < earlier.len() {
                    assert(reported.drop_last()[k] == reported[k]);
                    let i = choose|i: int|
                        0 <= i < adds.drop_last().len() && placed(
                            middle,
                            earlier[k].instance_id,
                            (#[trigger] adds.drop_last()[i]).parent_id,
                            adds.drop_last()[i].instance,
                        );
                    assert(adds[i] == adds.drop_last()[i]);
                    crate::apply::lemma_placed_kept(
                        middle,
                        after,
                        earlier[k].instance_id,
                        adds[i].parent_id,
                        adds[i].instance,
                    );
                } else {
                    assert(adds[adds.len() - 1] == adds.last());
                }
            }
        } else {
            assert forall|k: int| 0 <= k < reported.len() implies exists|i: int|
                0 <= i < adds.len() && placed(
                    after,
                    (#[trigger] reported[k]).instance_id,
                    (#[trigger] adds[i]).parent_id,
                    adds[i].instance,
                ) by {
                let i = choose|i: int|
                    0 <= i < adds.drop_last().len() && placed(
                        middle,
                        earlier[k].instance_id,
                        (#[trigger] adds.drop_last()[i]).parent_id,
                        adds.drop_last()[i].instance,
                    );
                assert(adds[i] == adds.drop_last()[i]);
            }
        }
    }
}

/// Removal wins over update: an instance that is reported as removed is not
/// reported as updated, in a patch set without additions or, with them, as
/// long as the tree does not hold the id again at the end.
pub proof fn law_removed_is_not_updated(
    before: LiveTree,
    patch: PatchSet,
    after: LiveTree,
    applied: AppliedPatchSet,
    id: RbxId,
)
    requires
        patch_applied(before, patch, after, applied),
        applied.removed@.contains(id),
        patch.added_instances@.len() == 0 || !after.contains(id),
    ensures
        !after.contains(id),
        forall|k: int| 0 <= k < applied.updated@.len() ==> (#[trigger] applied.updated@[k]).id != id,
{
    let (cut, filled) = choose|cut: LiveTree, filled: LiveTree|
        {
            &&& #[trigger] removals_applied(before, patch.removed_instances@, cut, applied.removed@)
            &&& #[trigger] additions_applied(cut, patch.added_instances@, filled, applied.added@)
            &&& updates_applied(filled, patch.updated_instances@, after, applied.updated@)
        };
    if patch.added_instances@.len() == 0 {
        assert(filled == cut);
        assert(!cut.contains(id));
    }
    assert(!filled.nodes().dom().contains(id));
    let committed = committed_updates(filled.nodes().dom(), patch.updated_instances@);
    lemma_committed_bounded(filled.nodes().dom(), patch.updated_instances@);
    assert forall|k: int| 0 <= k < applied.updated@.len() implies (#[trigger] applied.updated@[k]).id
        != id by {
        assert(records(applied.updated@[k], committed[k]));
        assert(filled.nodes().dom().contains(committed[k].id));
    }
}

/// Removal takes the children along: an instance that the child list of a
/// removed instance names is gone with it, and so is what the child lists
/// lead to from there.
pub proof fn law_children_leave_with_parent(
    before: LiveTree,
    after: LiveTree,
    id: RbxId,
    child: RbxId,
)
    requires
        cut_out(before, after, id),
        before.contains(id),
        before.contains(child),
        before.children()[id].contains(child),
    ensures
        !after.contains(id),
        !after.contains(child),
        forall|below: RbxId| before.subtree(child).contains(below) ==> !after.contains(below),
{
    assert(descends(before.nodes(), before.children(), id, id, seq![id]));
    assert(descends(before.nodes(), before.children(), id, child, seq![id, child]));
    assert forall|below: RbxId| before.subtree(child).contains(below) implies !after.contains(
        below,
    ) by {
        let path = choose|path: Seq<RbxId>|
            descends(before.nodes(), before.children(), child, below, path);
        let longer = seq![id] + path;
        assert forall|i: int| 0 < i < longer.len() implies before.children()[longer[i - 1]].contains(
            #[trigger] longer[i],
        ) by {
            if i > 1 {
                assert(longer[i] == path[i - 1]);
                assert(longer[i - 1] == path[i - 2]);
            }
        }
        assert(descends(before.nodes(), before.children(), id, below, longer));
    }
}

/// Applying a patch set to a tree in which parents and child lists agree
/// leaves a tree in which they agree.
pub proof fn law_patch_keeps_form(
    before: LiveTree,
    patch: PatchSet,
    after: LiveTree,
    applied: AppliedPatchSet,
)
    requires
        patch_applied(before, patch, after, applied),
        before.well_formed(),
    ensures
        after.well_formed(),
{
}

/// Removal wins: in a tree in which parents and child lists agree, an
/// instance other than the root that is listed for removal is gone after the
/// removal pass, whether it was reported itself or left with an ancestor; it
/// is not reported as updated, in a patch set without additions or, with
/// them, as long as the tree does not hold the id again at the end.
pub proof fn law_removal_wins(
    before: LiveTree,
    patch: PatchSet,
    after: LiveTree,
    applied: AppliedPatchSet,
    id: RbxId,
)
    requires
        patch_applied(before, patch, after, applied),
        before.well_formed(),
        patch.removed_instances@.contains(id),
        id != before.root(),
        patch.added_instances@.len() == 0 || !after.contains(id),
    ensures
        !after.contains(id),
        forall|k: int| 0 <= k < applied.updated@.len() ==> (#[trigger] applied.updated@[k]).id != id,
{
    let (cut, filled) = choose|cut: LiveTree, filled: LiveTree|
        {
            &&& #[trigger] removals_applied(before, patch.removed_instances@, cut, applied.removed@)
            &&& #[trigger] additions_applied(cut, patch.added_instances@, filled, applied.added@)
            &&& updates_applied(filled, patch.updated_instances@, after, applied.updated@)
        };
    if patch.added_instances@.len() == 0 {
        assert(filled == cut);
        let i = choose|i: int|
            0 <= i < patch.removed_instances@.len() && patch.removed_instances@[i] == id;
        assert(!cut.contains(patch.removed_instances@[i]));
    }
    assert(!filled.nodes().dom().contains(id));
    let committed = committed_updates(filled.nodes().dom(), patch.updated_instances@);
    lemma_committed_bounded(filled.nodes().dom(), patch.updated_instances@);
    assert forall|k: int| 0 <= k < applied.updated@.len() implies (#[trigger] applied.updated@[k]).id
        != id by {
        assert(records(applied.updated@[k], committed[k]));
        assert(filled.nodes().dom().contains(committed[k].id));
    }
}

/// The first id listed for removal is reported as removed whenever the tree
/// can lose it.
pub proof fn law_first_removal_is_reported(
    before: LiveTree,
    patch: PatchSet,
    after: LiveTree,
    applied: AppliedPatchSet,
)
    requires
        patch_applied(before, patch, after, applied),
        patch.removed_instances@.len() > 0,
        before.removable(patch.removed_instances@[0]),
    ensures
        applied.removed@.len() > 0,
        applied.removed@[0] == patch.removed_instances@[0],
{
}

/// Every instance that a run of additions reports is in the tree at its end,
/// and the tree has only grown.
pub proof fn lemma_reported_adds_present(
    before: LiveTree,
    adds: Seq<PatchAdd>,
    after: LiveTree,
    reported: Seq<AppliedPatchAdd>,
)
    requires
        additions_run(before, adds, after, reported),
    ensures
        grown(before, after),
        forall|k: int| 0 <= k < reported.len() ==> after.contains((#[trigger] reported[k]).instance_id),
    decreases adds.len(),
{
    if adds.len() > 0 {
        let (middle, earlier) = choose|middle: LiveTree, earlier: Seq<AppliedPatchAdd>|
            {
                &&& additions_run(before, adds.drop_last(), middle, earlier)
                &&& #[trigger] add_step(middle, adds.last(), after, earlier, reported)
            };
        lemma_reported_adds_present(before, adds.drop_last(), middle, earlier);
        if middle.contains(adds.last().parent_id) {
            crate::apply::lemma_grown_twice(before, middle, after);
            assert forall|k: int| 0 <= k < reported.len() implies after.contains(
                (#[trigger] reported[k]).instance_id,
            ) by {
                if k < earlier.len() {
                    assert(reported.drop_last()[k] == reported[k]);
                    assert(middle.nodes().dom().contains(earlier[k].instance_id));
                }
            }
        }
    }
}

/// An addition whose parent is the root of a subtree that an earlier addition
/// of the same pass put in the tree is carried out: the tree holds its
/// snapshot under that parent, and its record is the last one.
pub proof fn law_parent_added_earlier_resolves(
    before: LiveTree,
    adds: Seq<PatchAdd>,
    after: LiveTree,
    reported: Seq<AppliedPatchAdd>,
    k: int,
)
    requires
        additions_run(before, adds, after, reported),
        adds.len() > 0,
        0 <= k < reported.len(),
        reported[k].instance_id == adds.last().parent_id,
    ensures
        placed(after, reported.last().instance_id, adds.last().parent_id, adds.last().instance),
        after.nodes()[reported.last().instance_id].parent == Some(reported[k].instance_id),
{
    let (middle, earlier) = choose|middle: LiveTree, earlier: Seq<AppliedPatchAdd>|
        {
            &&& additions_run(before, adds.drop_last(), middle, earlier)
            &&& #[trigger] add_step(middle, adds.last(), after, earlier, reported)
        };
    lemma_reported_adds_present(before, adds.drop_last(), middle, earlier);
    if !middle.contains(adds.last().parent_id) {
        assert(middle.contains(earlier[k].instance_id));
    }
}

} // verus!
