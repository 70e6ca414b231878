//! Applying a patch set to a live tree.
//!
//! Removals come first, then additions, then updates. An entry whose target
//! is missing is skipped: nothing is done for it and nothing is reported.

use vstd::prelude::*;
use rbx_dom_weak::RbxId;
use crate::dom::{
    clear_property, descends, has_instance, id_eq, insert_instance, parent_of, remove_instance,
    root_id, set_class_name, set_name, set_property, without, NodeView,
};
use crate::effect::{
    Placement, add_step, additions_applied, additions_run, changed_properties,
    committed_updates, covers, cut_out, grafted, grafted_at, grown, holds_subtree,
    journal_after_updates, listed, nodes_after_updates, patch_applied, placed, pruned, records,
    removal_step, removals_applied, removals_run, root_ids, updated_journal, updated_node,
    updates_applied,
};
use crate::patch::{
    AppliedPatchAdd, AppliedPatchSet, AppliedPatchUpdate, PatchAdd, PatchSet, PatchUpdate,
    PropertyChange,
};
use crate::snapshot::{snapshot_properties, InstanceSnapshot};
use crate::tree::{latest_metadata, LiveTree};

verus! {

/// An instance of the tree is part of its own subtree.
pub proof fn lemma_subtree_has_top(tree: LiveTree, id: RbxId)
    requires
        tree.contains(id),
    ensures
        tree.subtree(id).contains(id),
{
    assert(descends(tree.nodes(), tree.children(), id, id, seq![id]));
}

/// A child list without `gone` names what the list named, but for `gone`.
pub proof fn lemma_without(children: Seq<RbxId>, gone: RbxId, id: RbxId)
    ensures
        without(children, gone).contains(id) <==> children.contains(id) && id != gone,
    decreases children.len(),
{
    if children.len() > 0 {
        let earlier = children.drop_last();
        let kept = without(earlier, gone);
        lemma_without(earlier, gone, id);
        if children.contains(id) && id != gone {
            let i = choose|i: int| 0 <= i < children.len() && children[i] == id;
            if i < earlier.len() {
                assert(earlier[i] == id);
                let j = choose|j: int| 0 <= j < kept.len() && kept[j] == id;
                if children.last() != gone {
                    assert(kept.push(children.last())[j] == id);
                }
            } else {
                assert(kept.push(id).last() == id);
            }
        }
        if without(children, gone).contains(id) {
            let j = choose|j: int|
                0 <= j < without(children, gone).len() && without(children, gone)[j] == id;
            if children.last() != gone && j == kept.len() {
                assert(children[children.len() - 1] == id);
            } else {
                assert(kept[j] == id);
                let i = choose|i: int| 0 <= i < earlier.len() && earlier[i] == id;
                assert(children[i] == id);
            }
        }
    }
}

/// Taking an instance and its descendants out of a tree in which parents and
/// child lists agree leaves a tree in which they agree.
pub proof fn lemma_cut_out_keeps_form(before: LiveTree, after: LiveTree, id: RbxId)
    requires
        before.well_formed(),
        before.removable(id),
        cut_out(before, after, id),
    ensures
        after.well_formed(),
{
    let nodes = before.nodes();
    let lists = before.children();
    lemma_subtree_has_top(before, id);
    assert forall|other: RbxId| #[trigger] after.contains(other) && other != after.root() implies {
        &&& after.nodes()[other].parent is Some
        &&& after.contains(after.nodes()[other].parent->Some_0)
        &&& after.children()[after.nodes()[other].parent->Some_0].contains(other)
    } by {
        assert(before.contains(other));
        let parent = nodes[other].parent->Some_0;
        assert(before.contains(parent));
        if before.subtree(id).contains(parent) {
            let path = choose|path: Seq<RbxId>| descends(nodes, lists, id, parent, path);
            let longer = path.push(other);
            assert forall|i: int| 0 < i < longer.len() implies lists[longer[i - 1]].contains(
                #[trigger] longer[i],
            ) by {
                if i < path.len() {
                    assert(longer[i] == path[i]);
                }
            }
            assert(descends(nodes, lists, id, other, longer));
        }
        assert(after.contains(parent));
        lemma_without(lists[parent], id, other);
    }
    assert forall|other: RbxId, child: RbxId|
        after.contains(other) && #[trigger] after.children()[other].contains(child) implies {
        &&& after.contains(child)
        &&& after.nodes()[child].parent == Some(other)
    } by {
        assert(before.contains(other));
        lemma_without(lists[other], id, child);
        assert(lists[other].contains(child));
        assert(before.contains(child));
        if before.subtree(id).contains(child) {
            let path = choose|path: Seq<RbxId>| descends(nodes, lists, id, child, path);
            if path.len() > 1 {
                let above = path[path.len() - 2];
                assert(before.contains(above));
                assert(lists[above].contains(path[path.len() - 1]));
                assert(above == other);
                let shorter = path.drop_last();
                assert forall|i: int| 0 < i < shorter.len() implies lists[shorter[i - 1]].contains(
                    #[trigger] shorter[i],
                ) by {
                    assert(shorter[i] == path[i]);
                }
                assert(descends(nodes, lists, id, other, shorter));
            }
        }
    }
}

/// Adding one instance without children under an instance of a tree in which
/// parents and child lists agree leaves a tree in which they agree.
pub proof fn lemma_insert_keeps_form(before: LiveTree, after: LiveTree, parent_id: RbxId, id: RbxId)
    requires
        before.well_formed(),
        before.contains(parent_id),
        !before.contains(id),
        after.nodes().dom() =~= before.nodes().dom().insert(id),
        after.nodes()[id].parent == Some(parent_id),
        forall|other: RbxId| #[trigger]
            before.contains(other) ==> after.nodes()[other].parent == before.nodes()[other].parent,
        after.children() == before.children().insert(id, Seq::empty()).insert(
            parent_id,
            before.children()[parent_id].push(id),
        ),
        after.root() == before.root(),
    ensures
        after.well_formed(),
{
    assert forall|other: RbxId| #[trigger] after.contains(other) && other != after.root() implies {
        &&& after.nodes()[other].parent is Some
        &&& after.contains(after.nodes()[other].parent->Some_0)
        &&& after.children()[after.nodes()[other].parent->Some_0].contains(other)
    } by {
        if other == id {
            assert(before.children()[parent_id].push(id).last() == id);
        } else {
            assert(before.contains(other));
            let parent = before.nodes()[other].parent->Some_0;
            assert(before.contains(parent));
            let i = choose|i: int|
                0 <= i < before.children()[parent].len() && before.children()[parent][i] == other;
            if parent == parent_id {
                assert(before.children()[parent_id].push(id)[i] == other);
            }
        }
    }
    assert forall|other: RbxId, child: RbxId|
        after.contains(other) && #[trigger] after.children()[other].contains(child) implies {
        &&& after.contains(child)
        &&& after.nodes()[child].parent == Some(other)
    } by {
        if other == parent_id {
            if child != id {
                let i = choose|i: int|
                    0 <= i < after.children()[other].len() && after.children()[other][i] == child;
                assert(before.children()[parent_id][i] == child);
                assert(before.children()[parent_id].contains(child));
                assert(before.contains(child));
            }
        } else if other != id {
            assert(before.contains(other));
            assert(before.children()[other].contains(child));
            assert(before.contains(child));
        }
    }
}

/// A change that leaves the set of instances, their parents, the child lists
/// and the root alone keeps parents and child lists in agreement.
pub proof fn lemma_same_shape_keeps_form(before: LiveTree, after: LiveTree)
    requires
        before.well_formed(),
        after.nodes().dom() =~= before.nodes().dom(),
        forall|other: RbxId| #[trigger]
            before.contains(other) ==> after.nodes()[other].parent == before.nodes()[other].parent,
        after.children() == before.children(),
        after.root() == before.root(),
    ensures
        after.well_formed(),
{
    assert forall|other: RbxId| #[trigger] after.contains(other) && other != after.root() implies {
        &&& after.nodes()[other].parent is Some
        &&& after.contains(after.nodes()[other].parent->Some_0)
        &&& after.children()[after.nodes()[other].parent->Some_0].contains(other)
    } by {
        assert(before.contains(other));
        assert(before.contains(before.nodes()[other].parent->Some_0));
    }
    assert forall|other: RbxId, child: RbxId|
        after.contains(other) && #[trigger] after.children()[other].contains(child) implies {
        &&& after.contains(child)
        &&& after.nodes()[child].parent == Some(other)
    } by {
        assert(before.contains(other));
        assert(before.contains(child));
    }
}

/// Pruning twice is pruning: what the second step leaves, the first left too,
/// unchanged, and what could not be taken out before cannot be taken out
/// after.
pub proof fn lemma_pruned_twice(first: LiveTree, second: LiveTree, third: LiveTree)
    requires
        pruned(first, second),
        pruned(second, third),
    ensures
        pruned(first, third),
        forall|id: RbxId| !second.contains(id) ==> !#[trigger] third.contains(id),
        forall|id: RbxId| #[trigger] second.removable(id) ==> first.removable(id),
        forall|id: RbxId| !second.removable(id) ==> !#[trigger] third.removable(id),
{
    assert forall|id: RbxId| third.nodes().dom().contains(id) implies second.nodes().dom().contains(
        id,
    ) && first.nodes().dom().contains(id) && third.nodes()[id] == second.nodes()[id]
        && third.nodes()[id] == first.nodes()[id] by {
        assert(second.nodes().dom().contains(id));
    }
    assert forall|id: RbxId| second.nodes().dom().contains(id) implies first.nodes().dom().contains(
        id,
    ) && second.nodes()[id] == first.nodes()[id] by {}
    assert forall|id: RbxId| #[trigger] second.removable(id) implies first.removable(id) by {
        assert(second.nodes().dom().contains(id));
        assert(second.nodes().dom().contains(second.nodes()[id].parent->Some_0));
    }
    assert forall|id: RbxId| !second.removable(id) implies !#[trigger] third.removable(id) by {
        if third.removable(id) {
            assert(third.nodes().dom().contains(id));
            assert(third.nodes().dom().contains(third.nodes()[id].parent->Some_0));
        }
    }
}

/// Takes the instance `id` and everything below it out of the tree, if it can
/// be taken out: an id that the tree does not hold is passed over, and so is
/// the root, which a tree cannot lose, and an instance whose recorded parent
/// is not in the tree, which only a damaged tree has.
pub fn apply_removal(tree: &mut LiveTree, id: RbxId) -> (removed: bool)
    ensures
        removed == old(tree).removable(id),
        !removed ==> *final(tree) == *old(tree),
        removed ==> cut_out(*old(tree), *final(tree), id),
        removed ==> !final(tree).contains(id) && pruned(*old(tree), *final(tree)),
        old(tree).well_formed() ==> final(tree).well_formed(),
{
    let ghost before = *tree;
    if !has_instance(&tree.instances, id) {
        return false;
    }
    if id_eq(id, root_id(&tree.instances)) {
        return false;
    }
    match parent_of(&tree.instances, id) {
        None => false,
        Some(parent_id) => {
            if has_instance(&tree.instances, parent_id) {
                proof {
                    lemma_subtree_has_top(*tree, id);
                }
                remove_instance(&mut tree.instances, id);
                proof {
                    if before.well_formed() {
                        lemma_cut_out_keeps_form(before, *tree, id);
                    }
                }
                true
            } else {
                false
            }
        },
    }
}

/// The removal pass: goes through `ids` in order and returns those that it
/// took out of the tree.
pub fn apply_removals(tree: &mut LiveTree, ids: &Vec<RbxId>) -> (reported: Vec<RbxId>)
    ensures
        removals_applied(*old(tree), ids@, *final(tree), reported@),
        removals_run(*old(tree), ids@, *final(tree), reported@),
{
    let ghost before = *tree;
    let mut reported: Vec<RbxId> = Vec::new();
    let mut i: usize = 0;
    while i < ids.len()
        invariant
            i <= ids.len(),
            pruned(before, *tree),
            before.well_formed() ==> tree.well_formed(),
            before.well_formed() ==> forall|j: int|
                0 <= j < i && ids@[j] != before.root() ==> !tree.contains(#[trigger] ids@[j]),
            removals_run(before, ids@.take(i as int), *tree, reported@),
            reported@.len() <= i,
            reported@.len() == 0 ==> *tree == before,
            forall|k: int|
                0 <= k < reported@.len() ==> {
                    &&& ids@.contains(#[trigger] reported@[k])
                    &&& before.removable(reported@[k])
                    &&& !tree.contains(reported@[k])
                },
            forall|j: int, k: int| 0 <= j < k < reported@.len() ==> reported@[j] != reported@[k],
            forall|j: int| 0 <= j < i ==> !tree.removable(#[trigger] ids@[j]),
            i > 0 && before.removable(ids@[0]) ==> reported@.len() > 0 && reported@[0] == ids@[0],
        decreases ids.len() - i,
    {
        let id = ids[i];
        let ghost earlier = *tree;
        let ghost earlier_reported = reported@;
        if apply_removal(tree, id) {
            reported.push(id);
            proof {
                lemma_pruned_twice(before, earlier, *tree);
                assert(ids@[i as int] == id);
                assert(earlier.removable(id));
                assert forall|k: int| 0 <= k < reported@.len() implies {
                    &&& ids@.contains(#[trigger] reported@[k])
                    &&& before.removable(reported@[k])
                    &&& !tree.contains(reported@[k])
                } by {
                    if k < earlier_reported.len() {
                        assert(reported@[k] == earlier_reported[k]);
                        assert(!earlier.contains(earlier_reported[k]));
                    }
                }
                assert forall|j: int| 0 <= j < i + 1 implies !tree.removable(#[trigger] ids@[j]) by {
                    if j < i {
                        assert(!earlier.removable(ids@[j]));
                    }
                }
                assert(reported@ =~= earlier_reported.push(id));
            }
        }
        proof {
            if before.well_formed() {
                assert forall|j: int| 0 <= j < i + 1 && ids@[j] != before.root() implies !tree.contains(
                    #[trigger] ids@[j],
                ) by {
                    if j < i {
                        assert(!earlier.contains(ids@[j]));
                        if *tree != earlier {
                            lemma_pruned_twice(before, earlier, *tree);
                        }
                    } else if earlier.contains(id) {
                        assert(earlier.removable(id));
                    }
                }
            }
        }
        proof {
            let steps = ids@.take(i + 1);
            assert(steps.drop_last() =~= ids@.take(i as int));
            assert(steps.last() == id);
            assert(removals_run(before, steps.drop_last(), earlier, earlier_reported));
            assert(removal_step(earlier, steps.last(), *tree, earlier_reported, reported@));
            assert(removals_run(before, steps, *tree, reported@));
        }
        i += 1;
    }
    proof {
        assert(ids@.take(i as int) =~= ids@);
    }
    reported
}

/// Growing twice is growing.
pub proof fn lemma_grown_twice(first: LiveTree, second: LiveTree, third: LiveTree)
    requires
        grown(first, second),
        grown(second, third),
    ensures
        grown(first, third),
{
    assert forall|id: RbxId| #[trigger] first.nodes().dom().contains(id) implies third.nodes().dom().contains(
        id,
    ) && first.nodes()[id] == third.nodes()[id] by {
        assert(second.nodes().dom().contains(id));
    }
    assert forall|other: RbxId| #[trigger] first.contains(other) implies latest_metadata(
        third.metadata@,
        other,
    ) == latest_metadata(first.metadata@, other) by {
        assert(second.contains(other));
    }
}

/// Child lists that are those of a placement stay so as long as no child
/// list of an instance of the placement changes.
pub proof fn lemma_listed_kept(before: LiveTree, after: LiveTree, place: Placement)
    requires
        listed(before, place),
        forall|id: RbxId| #[trigger] covers(place, id) ==> after.children()[id] == before.children()[id],
    ensures
        listed(after, place),
    decreases place,
{
    assert(covers(place, place.id));
    assert forall|k: int| 0 <= k < place.children.len() implies listed(
        after,
        #[trigger] place.children[k],
    ) by {
        assert forall|id: RbxId| #[trigger] covers(place.children[k], id) implies after.children()[id]
            == before.children()[id] by {
            assert(covers(place, id));
        }
        lemma_listed_kept(before, after, place.children[k]);
    }
}

/// A subtree that a tree holds is still held, as it was, after the tree has
/// grown.
pub proof fn lemma_subtree_kept(
    before: LiveTree,
    after: LiveTree,
    place: Placement,
    parent_id: RbxId,
    snapshot: InstanceSnapshot,
)
    requires
        holds_subtree(before, place, parent_id, snapshot),
        grown(before, after),
    ensures
        holds_subtree(after, place, parent_id, snapshot),
    decreases snapshot,
{
    assert(before.contains(place.id));
    assert forall|k: int| 0 <= k < place.children.len() implies holds_subtree(
        after,
        #[trigger] place.children[k],
        place.id,
        snapshot.children@[k],
    ) by {
        lemma_subtree_kept(before, after, place.children[k], place.id, snapshot.children@[k]);
    }
}

/// Adds `snapshot` and everything below it to the tree, as a new child of
/// `parent_id`, and returns the id that the tree gave to its root.
pub fn insert_snapshot(tree: &mut LiveTree, parent_id: RbxId, snapshot: &InstanceSnapshot) -> (id:
    RbxId)
    requires
        old(tree).contains(parent_id),
    ensures
        grafted(*old(tree), *final(tree), parent_id, *snapshot, id),
    decreases snapshot,
{
    let ghost before = *tree;
    let id = insert_instance(
        &mut tree.instances,
        snapshot.name.clone(),
        snapshot.class_name.clone(),
        parent_id,
    );
    proof {
        if before.well_formed() {
            lemma_insert_keeps_form(before, *tree, parent_id, id);
        }
    }
    let mut i: usize = 0;
    while i < snapshot.properties.len()
        invariant
            i <= snapshot.properties.len(),
            !before.contains(id),
            tree.nodes() == before.nodes().insert(
                id,
                NodeView {
                    name: snapshot.name@,
                    class_name: snapshot.class_name@,
                    properties: snapshot_properties(snapshot.properties@.take(i as int)),
                    parent: Some(parent_id),
                },
            ),
            tree.children() == before.children().insert(id, Seq::empty()).insert(
                parent_id,
                before.children()[parent_id].push(id),
            ),
            tree.root() == before.root(),
            tree.metadata == before.metadata,
            before.well_formed() ==> tree.well_formed(),
        decreases snapshot.properties.len() - i,
    {
        let property = &snapshot.properties[i];
        let ghost earlier = *tree;
        set_property(&mut tree.instances, id, property.name.clone(), property.value.clone());
        proof {
            assert(snapshot.properties@.take(i + 1).drop_last() =~= snapshot.properties@.take(
                i as int,
            ));
            assert(snapshot.properties@.take(i + 1).last() == snapshot.properties@[i as int]);
            if earlier.well_formed() {
                lemma_same_shape_keeps_form(earlier, *tree);
            }
            assert(tree.nodes() =~= before.nodes().insert(
                id,
                NodeView {
                    name: snapshot.name@,
                    class_name: snapshot.class_name@,
                    properties: snapshot_properties(snapshot.properties@.take(i + 1)),
                    parent: Some(parent_id),
                },
            ));
        }
        i += 1;
    }
    proof {
        assert(snapshot.properties@.take(i as int) =~= snapshot.properties@);
    }
    let ghost bare = *tree;
    tree.set_metadata(id, snapshot.metadata);
    let ghost rooted = *tree;
    proof {
        if bare.well_formed() {
            lemma_same_shape_keeps_form(bare, rooted);
        }
    }
    let ghost mut children: Seq<Placement> = Seq::empty();
    proof {
        assert(grown(before, rooted));
        assert(root_ids(children) =~= Seq::<RbxId>::empty());
    }
    let mut k: usize = 0;
    while k < snapshot.children.len()
        invariant
            k <= snapshot.children.len(),
            rooted.contains(id),
            grown(rooted, *tree),
            rooted.well_formed() ==> tree.well_formed(),
            children.len() == k,
            forall|other: RbxId| #[trigger]
                tree.contains(other) && !rooted.contains(other) ==> exists|j: int|
                    0 <= j < k && covers(#[trigger] children[j], other),
            forall|j: int, other: RbxId|
                0 <= j < k && #[trigger] covers(children[j], other) ==> tree.contains(other)
                    && !rooted.contains(other),
            tree.children()[id] == root_ids(children),
            forall|other: RbxId|
                rooted.contains(other) && other != id ==> #[trigger] tree.children()[other]
                    == rooted.children()[other],
            forall|j: int| 0 <= j < k ==> listed(*tree, #[trigger] children[j]),
            forall|j: int|
                0 <= j < k ==> holds_subtree(
                    *tree,
                    #[trigger] children[j],
                    id,
                    snapshot.children@[j],
                ),
        decreases snapshot.children.len() - k,
    {
        let ghost earlier = *tree;
        let ghost earlier_children = children;
        let child = insert_snapshot(tree, id, &snapshot.children[k]);
        proof {
            let place = choose|place: Placement|
                place.id == child && #[trigger] grafted_at(
                    earlier,
                    *tree,
                    id,
                    snapshot.children@[k as int],
                    place,
                );
            children = children.push(place);
            assert forall|other: RbxId| #[trigger]
                tree.contains(other) && !rooted.contains(other) implies exists|j: int|
                0 <= j < k + 1 && covers(#[trigger] children[j], other) by {
                if earlier.contains(other) {
                    let j = choose|j: int|
                        0 <= j < k && covers(#[trigger] earlier_children[j], other);
                    assert(children[j] == earlier_children[j]);
                } else {
                    assert(covers(children[k as int], other));
                }
            }
            assert(root_ids(children) =~= root_ids(earlier_children).push(place.id));
            assert forall|other: RbxId| rooted.contains(other) && other != id implies #[trigger] tree.children()[other]
                == rooted.children()[other] by {
                assert(earlier.nodes().dom().contains(other));
            }
            assert forall|j: int| 0 <= j < k + 1 implies listed(*tree, #[trigger] children[j]) by {
                if j < k {
                    assert(children[j] == earlier_children[j]);
                    assert forall|other: RbxId| #[trigger]
                        covers(earlier_children[j], other) implies tree.children()[other]
                        == earlier.children()[other] by {
                        assert(earlier.contains(other) && !rooted.contains(other));
                    }
                    lemma_listed_kept(earlier, *tree, earlier_children[j]);
                }
            }
            assert forall|j: int, other: RbxId|
                0 <= j < k + 1 && #[trigger] covers(children[j], other) implies tree.contains(other)
                && !rooted.contains(other) by {
                if j < k {
                    assert(children[j] == earlier_children[j]);
                    assert(earlier.nodes().dom().contains(other));
                } else {
                    assert(!earlier.contains(other));
                    if rooted.contains(other) {
                        assert(rooted.nodes().dom().contains(other));
                    }
                }
            }
            lemma_grown_twice(rooted, earlier, *tree);
            assert forall|j: int| 0 <= j < k + 1 implies holds_subtree(
                *tree,
                #[trigger] children[j],
                id,
                snapshot.children@[j],
            ) by {
                if j < k {
                    assert(children[j] == earlier_children[j]);
                    lemma_subtree_kept(earlier, *tree, children[j], id, snapshot.children@[j]);
                }
            }
        }
        k += 1;
    }
    proof {
        lemma_grown_twice(before, rooted, *tree);
        let place = Placement { id, children };
        assert(holds_subtree(*tree, place, parent_id, *snapshot));
        assert forall|other: RbxId| #[trigger]
            tree.contains(other) && !before.contains(other) implies covers(place, other) by {
            if other != id {
                assert(!rooted.contains(other));
                let j = choose|j: int| 0 <= j < k && covers(#[trigger] children[j], other);
                assert(covers(place.children[j], other));
            }
        }
        assert forall|other: RbxId| #[trigger] covers(place, other) implies tree.contains(other)
            && !before.contains(other) by {
            if other != id {
                let j = choose|j: int|
                    0 <= j < place.children.len() && covers(#[trigger] place.children[j], other);
                assert(covers(children[j], other));
                if before.contains(other) {
                    assert(before.nodes().dom().contains(other));
                }
            } else {
                assert(rooted.nodes().dom().contains(id));
            }
        }
        assert(grafted_at(before, *tree, parent_id, *snapshot, place));
    }
    id
}

/// Carries out one addition. If the tree does not hold the parent, nothing is
/// added, not even a part of the snapshot, and nothing is reported. Otherwise
/// the whole snapshot is added under the parent and the record names the id
/// of its root.
pub fn apply_add(tree: &mut LiveTree, add: &PatchAdd) -> (record: Option<AppliedPatchAdd>)
    ensures
        record is Some <==> old(tree).contains(add.parent_id),
        record is None ==> *final(tree) == *old(tree),
        record is Some ==> grafted(
            *old(tree),
            *final(tree),
            add.parent_id,
            add.instance,
            record->Some_0.instance_id,
        ),
{
    if !has_instance(&tree.instances, add.parent_id) {
        return None;
    }
    let instance_id = insert_snapshot(tree, add.parent_id, &add.instance);
    Some(AppliedPatchAdd { instance_id })
}

/// A subtree that a tree holds under some id is still held under it after
/// the tree has grown.
pub proof fn lemma_placed_kept(
    before: LiveTree,
    after: LiveTree,
    id: RbxId,
    parent_id: RbxId,
    snapshot: InstanceSnapshot,
)
    requires
        placed(before, id, parent_id, snapshot),
        grown(before, after),
    ensures
        placed(after, id, parent_id, snapshot),
{
    let place = choose|place: Placement|
        place.id == id && #[trigger] holds_subtree(before, place, parent_id, snapshot);
    lemma_subtree_kept(before, after, place, parent_id, snapshot);
}

/// The addition pass: carries out `adds` in order and returns the records of
/// those whose parent the tree held when their turn came.
pub fn apply_additions(tree: &mut LiveTree, adds: &Vec<PatchAdd>) -> (reported: Vec<AppliedPatchAdd>)
    ensures
        additions_applied(*old(tree), adds@, *final(tree), reported@),
        additions_run(*old(tree), adds@, *final(tree), reported@),
{
    let ghost before = *tree;
    let mut reported: Vec<AppliedPatchAdd> = Vec::new();
    let mut i: usize = 0;
    while i < adds.len()
        invariant
            i <= adds.len(),
            grown(before, *tree),
            before.well_formed() ==> tree.well_formed(),
            reported@.len() <= i,
            additions_run(before, adds@.take(i as int), *tree, reported@),
            forall|k: int|
                0 <= k < reported@.len() ==> {
                    &&& !before.contains(#[trigger] reported@[k].instance_id)
                    &&& tree.contains(reported@[k].instance_id)
                    &&& tree.nodes()[reported@[k].instance_id].parent is Some
                    &&& tree.contains(tree.nodes()[reported@[k].instance_id].parent->Some_0)
                },
            forall|j: int, k: int|
                0 <= j < k < reported@.len() ==> reported@[j].instance_id
                    != reported@[k].instance_id,
            (forall|j: int| 0 <= j < i ==> !before.contains(#[trigger] adds@[j].parent_id)) ==> {
                &&& reported@.len() == 0
                &&& *tree == before
            },
            (forall|j: int| 0 <= j < i ==> before.contains(#[trigger] adds@[j].parent_id)) ==> {
                &&& reported@.len() == i
                &&& forall|j: int|
                    0 <= j < i ==> placed(
                        *tree,
                        #[trigger] reported@[j].instance_id,
                        adds@[j].parent_id,
                        adds@[j].instance,
                    )
            },
        decreases adds.len() - i,
    {
        let ghost earlier = *tree;
        let ghost earlier_reported = reported@;
        proof {
            assert(adds@.take(i + 1).drop_last() =~= adds@.take(i as int));
            assert(adds@.take(i + 1).last() == adds@[i as int]);
        }
        match apply_add(tree, &adds[i]) {
            Some(record) => {
                let ghost id = record.instance_id;
                reported.push(record);
                proof {
                    lemma_grown_twice(before, earlier, *tree);
                    assert(reported@.drop_last() =~= earlier_reported);
                    assert(add_step(earlier, adds@[i as int], *tree, earlier_reported, reported@));
                    assert(earlier.contains(adds@[i as int].parent_id));
                    assert(placed(*tree, id, adds@[i as int].parent_id, adds@[i as int].instance));
                    assert forall|k: int| 0 <= k < reported@.len() implies {
                        &&& !before.contains(#[trigger] reported@[k].instance_id)
                        &&& tree.contains(reported@[k].instance_id)
                        &&& tree.nodes()[reported@[k].instance_id].parent is Some
                        &&& tree.contains(tree.nodes()[reported@[k].instance_id].parent->Some_0)
                    } by {
                        if k < earlier_reported.len() {
                            assert(reported@[k] == earlier_reported[k]);
                            let known = earlier_reported[k].instance_id;
                            assert(earlier.contains(known));
                            assert(earlier.contains(earlier.nodes()[known].parent->Some_0));
                        }
                    }
                    assert forall|j: int, k: int| 0 <= j < k < reported@.len() implies reported@[j].instance_id
                        != reported@[k].instance_id by {
                        assert(reported@[j] == earlier_reported[j]);
                        if k < earlier_reported.len() {
                            assert(reported@[k] == earlier_reported[k]);
                        } else {
                            assert(earlier.contains(earlier_reported[j].instance_id));
                        }
                    }
                    if forall|j: int| 0 <= j < i + 1 ==> before.contains(#[trigger] adds@[j].parent_id) {
                        assert forall|j: int| 0 <= j < i + 1 implies placed(
                            *tree,
                            #[trigger] reported@[j].instance_id,
                            adds@[j].parent_id,
                            adds@[j].instance,
                        ) by {
                            if j < i {
                                assert(reported@[j] == earlier_reported[j]);
                                lemma_placed_kept(
                                    earlier,
                                    *tree,
                                    earlier_reported[j].instance_id,
                                    adds@[j].parent_id,
                                    adds@[j].instance,
                                );
                            }
                        }
                    }
                }
            },
            None => {},
        }
        proof {
            let steps = adds@.take(i + 1);
            assert(additions_run(before, steps.drop_last(), earlier, earlier_reported));
            assert(add_step(earlier, steps.last(), *tree, earlier_reported, reported@));
            assert(steps.len() > 0);
            assert(additions_run(before, steps, *tree, reported@));
        }
        i += 1;
    }
    proof {
        assert(adds@.take(i as int) =~= adds@);
    }
    reported
}

/// Carries out `changes` on the properties of instance `id`, in order, and
/// returns a copy of them as the record of what was done.
pub fn apply_property_changes(tree: &mut LiveTree, id: RbxId, changes: &Vec<PropertyChange>) -> (done:
    Vec<PropertyChange>)
    requires
        old(tree).contains(id),
    ensures
        done@ == changes@,
        final(tree).nodes() == old(tree).nodes().insert(
            id,
            NodeView {
                properties: changed_properties(old(tree).nodes()[id].properties, changes@),
                ..old(tree).nodes()[id]
            },
        ),
        final(tree).children() == old(tree).children(),
        final(tree).root() == old(tree).root(),
        final(tree).metadata == old(tree).metadata,
        old(tree).well_formed() ==> final(tree).well_formed(),
{
    let ghost before = *tree;
    let ghost node = tree.nodes()[id];
    let mut done: Vec<PropertyChange> = Vec::new();
    let mut i: usize = 0;
    proof {
        assert(tree.nodes() =~= before.nodes().insert(id, node));
    }
    while i < changes.len()
        invariant
            i <= changes.len(),
            node == before.nodes()[id],
            done@ == changes@.take(i as int),
            tree.nodes() == before.nodes().insert(
                id,
                NodeView {
                    properties: changed_properties(node.properties, changes@.take(i as int)),
                    ..node
                },
            ),
            tree.children() == before.children(),
            tree.root() == before.root(),
            tree.metadata == before.metadata,
            before.well_formed() ==> tree.well_formed(),
        decreases changes.len() - i,
    {
        let change = &changes[i];
        let ghost earlier = *tree;
        let value = match &change.value {
            Some(value) => {
                set_property(&mut tree.instances, id, change.name.clone(), value.clone());
                Some(value.clone())
            },
            None => {
                clear_property(&mut tree.instances, id, &change.name);
                None
            },
        };
        done.push(PropertyChange { name: change.name.clone(), value });
        proof {
            assert(changes@.take(i + 1).drop_last() =~= changes@.take(i as int));
            assert(changes@.take(i + 1).last() == changes@[i as int]);
            assert(done@ =~= changes@.take(i + 1));
            if earlier.well_formed() {
                lemma_same_shape_keeps_form(earlier, *tree);
            }
            assert(tree.nodes() =~= before.nodes().insert(
                id,
                NodeView {
                    properties: changed_properties(node.properties, changes@.take(i + 1)),
                    ..node
                },
            ));
        }
        i += 1;
    }
    proof {
        assert(changes@.take(i as int) =~= changes@);
    }
    done
}

/// Carries out one update. If the tree does not hold the target, nothing
/// happens and nothing is reported. Otherwise every change that the update
/// names is made, whether or not it alters the value that was there, and the
/// record names the same changes.
pub fn apply_update(tree: &mut LiveTree, update: &PatchUpdate) -> (record: Option<AppliedPatchUpdate>)
    ensures
        record is Some <==> old(tree).contains(update.id),
        record is None ==> *final(tree) == *old(tree),
        record is Some ==> {
            &&& records(record->Some_0, *update)
            &&& final(tree).nodes() == old(tree).nodes().insert(
                update.id,
                updated_node(old(tree).nodes()[update.id], *update),
            )
            &&& final(tree).children() == old(tree).children()
            &&& final(tree).root() == old(tree).root()
            &&& final(tree).metadata@ == updated_journal(old(tree).metadata@, *update)
        },
        old(tree).well_formed() ==> final(tree).well_formed(),
{
    let id = update.id;
    if !has_instance(&tree.instances, id) {
        return None;
    }
    let ghost before = *tree;
    let changed_name = match &update.changed_name {
        Some(name) => {
            set_name(&mut tree.instances, id, name.clone());
            Some(name.clone())
        },
        None => None,
    };
    let changed_class_name = match &update.changed_class_name {
        Some(class_name) => {
            set_class_name(&mut tree.instances, id, class_name.clone());
            Some(class_name.clone())
        },
        None => None,
    };
    let changed_properties = apply_property_changes(tree, id, &update.changed_properties);
    let changed_metadata = match update.changed_metadata {
        Some(metadata) => {
            tree.set_metadata(id, metadata);
            Some(metadata)
        },
        None => None,
    };
    proof {
        assert(tree.nodes() =~= before.nodes().insert(
            id,
            updated_node(before.nodes()[id], *update),
        ));
        if before.well_formed() {
            lemma_same_shape_keeps_form(before, *tree);
        }
    }
    Some(
        AppliedPatchUpdate {
            id,
            changed_name,
            changed_class_name,
            changed_properties,
            changed_metadata,
        },
    )
}

/// The update pass: carries out `updates` in order and returns the records of
/// those whose target the tree holds.
pub fn apply_updates(tree: &mut LiveTree, updates: &Vec<PatchUpdate>) -> (reported: Vec<
    AppliedPatchUpdate,
>)
    ensures
        updates_applied(*old(tree), updates@, *final(tree), reported@),
{
    let ghost before = *tree;
    let ghost ids = before.nodes().dom();
    let mut reported: Vec<AppliedPatchUpdate> = Vec::new();
    let mut i: usize = 0;
    while i < updates.len()
        invariant
            i <= updates.len(),
            ids == before.nodes().dom(),
            tree.nodes() == nodes_after_updates(before.nodes(), updates@.take(i as int)),
            tree.nodes().dom() == ids,
            tree.children() == before.children(),
            tree.root() == before.root(),
            before.well_formed() ==> tree.well_formed(),
            tree.metadata@ == journal_after_updates(ids, before.metadata@, updates@.take(i as int)),
            reported@.len() == committed_updates(ids, updates@.take(i as int)).len(),
            reported@.len() == 0 ==> *tree == before,
            forall|k: int|
                0 <= k < reported@.len() ==> records(
                    #[trigger] reported@[k],
                    committed_updates(ids, updates@.take(i as int))[k],
                ),
        decreases updates.len() - i,
    {
        let ghost earlier_reported = reported@;
        proof {
            assert(updates@.take(i + 1).drop_last() =~= updates@.take(i as int));
            assert(updates@.take(i + 1).last() == updates@[i as int]);
        }
        match apply_update(tree, &updates[i]) {
            Some(record) => {
                reported.push(record);
                proof {
                    assert(tree.nodes().dom() =~= ids);
                    assert forall|k: int| 0 <= k < reported@.len() implies records(
                        #[trigger] reported@[k],
                        committed_updates(ids, updates@.take(i + 1))[k],
                    ) by {
                        if k < earlier_reported.len() {
                            assert(reported@[k] == earlier_reported[k]);
                        }
                    }
                }
            },
            None => {},
        }
        i += 1;
    }
    proof {
        assert(updates@.take(i as int) =~= updates@);
    }
    reported
}

/// Applies `patch` to the tree and returns the record of what was done.
///
/// Removals are carried out first, then additions, then updates. An entry
/// whose target the tree does not hold when its turn comes is passed over and
/// left out of the record; nothing makes the call fail.
pub fn apply_patch_set(tree: &mut LiveTree, patch: &PatchSet) -> (applied: AppliedPatchSet)
    ensures
        patch_applied(*old(tree), *patch, *final(tree), applied),
{
    let ghost before = *tree;
    let removed = apply_removals(tree, &patch.removed_instances);
    let ghost cut = *tree;
    let added = apply_additions(tree, &patch.added_instances);
    let ghost filled = *tree;
    let updated = apply_updates(tree, &patch.updated_instances);
    let applied = AppliedPatchSet { removed, added, updated };
    proof {
        assert(removals_applied(before, patch.removed_instances@, cut, applied.removed@));
        assert(additions_applied(cut, patch.added_instances@, filled, applied.added@));
        assert(updates_applied(filled, patch.updated_instances@, *tree, applied.updated@));
    }
    applied
}

} // verus!
