use std::collections::HashMap;

use instance_patch::apply::{
    apply_add, apply_patch_set, apply_removal, apply_update, insert_snapshot,
};
use instance_patch::patch::{
    AppliedPatchSet, PatchAdd, PatchSet, PatchUpdate, PropertyChange,
};
use instance_patch::snapshot::{InstanceMetadata, InstanceSnapshot, SnapshotProperty};
use instance_patch::tree::LiveTree;
use rbx_dom_weak::{RbxId, RbxInstanceProperties, RbxTree, RbxValue};

fn new_tree() -> LiveTree {
    LiveTree::with_root("Place".to_owned(), "DataModel".to_owned())
}

fn folder(name: &str) -> InstanceSnapshot {
    InstanceSnapshot {
        name: name.to_owned(),
        class_name: "Folder".to_owned(),
        properties: Vec::new(),
        children: Vec::new(),
        metadata: InstanceMetadata { ignore_unknown_instances: false },
    }
}

fn text(value: &str) -> RbxValue {
    RbxValue::String { value: value.to_owned() }
}

fn update_of(id: RbxId) -> PatchUpdate {
    PatchUpdate {
        id,
        changed_name: None,
        changed_class_name: None,
        changed_properties: Vec::new(),
        changed_metadata: None,
    }
}

fn count(tree: &LiveTree) -> usize {
    tree.instances.iter_all_ids().count()
}

#[test]
fn new_patch_set_is_empty() {
    let patch = PatchSet::new();
    assert!(patch.removed_instances.is_empty());
    assert!(patch.added_instances.is_empty());
    assert!(patch.updated_instances.is_empty());
    assert_eq!(patch, PatchSet::default());
}

#[test]
fn new_applied_patch_set_is_empty() {
    let applied = AppliedPatchSet::new();
    assert!(applied.removed.is_empty());
    assert!(applied.added.is_empty());
    assert!(applied.updated.is_empty());
    let other = AppliedPatchSet::default();
    assert!(other.removed.is_empty() && other.added.is_empty() && other.updated.is_empty());
}

#[test]
fn patch_sets_compare_by_value_and_order() {
    let first = RbxId::new();
    let second = RbxId::new();
    let mut left = PatchSet::new();
    left.updated_instances.push(update_of(first));
    left.updated_instances.push(update_of(second));
    let mut same = PatchSet::new();
    same.updated_instances.push(update_of(first));
    same.updated_instances.push(update_of(second));
    let mut swapped = PatchSet::new();
    swapped.updated_instances.push(update_of(second));
    swapped.updated_instances.push(update_of(first));
    assert_eq!(left, same);
    assert_ne!(left, swapped);
    assert_ne!(left, PatchSet::new());
}

#[test]
fn empty_patch_changes_nothing() {
    let mut tree = new_tree();
    let root = tree.instances.get_root_id();
    insert_snapshot(&mut tree, root, &folder("A"));
    let before = tree.instances.clone();
    let journal = tree.metadata.clone();
    let applied = apply_patch_set(&mut tree, &PatchSet::new());
    assert!(applied.removed.is_empty());
    assert!(applied.added.is_empty());
    assert!(applied.updated.is_empty());
    assert_eq!(tree.instances, before);
    assert_eq!(tree.metadata, journal);
}

#[test]
fn removing_an_absent_id_reports_nothing() {
    let mut tree = new_tree();
    let before = tree.instances.clone();
    let mut patch = PatchSet::new();
    patch.removed_instances.push(RbxId::new());
    let applied = apply_patch_set(&mut tree, &patch);
    assert!(applied.removed.is_empty());
    assert_eq!(tree.instances, before);
}

#[test]
fn removal_is_reported_once() {
    let mut tree = new_tree();
    let root = tree.instances.get_root_id();
    let a = insert_snapshot(&mut tree, root, &folder("A"));
    let mut patch = PatchSet::new();
    patch.removed_instances.push(a);
    patch.removed_instances.push(a);
    let applied = apply_patch_set(&mut tree, &patch);
    assert_eq!(applied.removed, vec![a]);
    assert!(tree.instances.get_instance(a).is_none());
    assert!(!tree.contains_instance(a));
    assert_eq!(count(&tree), 1);
}

#[test]
fn removal_takes_the_subtree_along() {
    let mut tree = new_tree();
    let root = tree.instances.get_root_id();
    let mut parent = folder("Parent");
    parent.children.push(folder("Child"));
    let parent_id = insert_snapshot(&mut tree, root, &parent);
    let child_id = tree.instances.get_instance(parent_id).unwrap().get_children_ids()[0];
    let other = insert_snapshot(&mut tree, root, &folder("Other"));
    let mut patch = PatchSet::new();
    patch.removed_instances.push(parent_id);
    patch.removed_instances.push(child_id);
    let applied = apply_patch_set(&mut tree, &patch);
    assert_eq!(applied.removed, vec![parent_id]);
    assert!(tree.instances.get_instance(child_id).is_none());
    assert!(tree.instances.get_instance(other).is_some());
    assert_eq!(tree.instances.get_instance(root).unwrap().get_children_ids(), &[other]);
}

#[test]
fn removals_keep_their_order() {
    let mut tree = new_tree();
    let root = tree.instances.get_root_id();
    let a = insert_snapshot(&mut tree, root, &folder("A"));
    let b = insert_snapshot(&mut tree, root, &folder("B"));
    let mut patch = PatchSet::new();
    patch.removed_instances.push(b);
    patch.removed_instances.push(RbxId::new());
    patch.removed_instances.push(a);
    let applied = apply_patch_set(&mut tree, &patch);
    assert_eq!(applied.removed, vec![b, a]);
    assert_eq!(count(&tree), 1);
}

#[test]
fn the_root_is_never_removed() {
    let mut tree = new_tree();
    let root = tree.instances.get_root_id();
    assert!(!apply_removal(&mut tree, root));
    let mut patch = PatchSet::new();
    patch.removed_instances.push(root);
    let applied = apply_patch_set(&mut tree, &patch);
    assert!(applied.removed.is_empty());
    assert!(tree.instances.get_instance(root).is_some());
}

#[test]
fn add_under_existing_parent() {
    let mut tree = new_tree();
    let root = tree.instances.get_root_id();
    let mut snapshot = folder("Models");
    snapshot.properties.push(SnapshotProperty { name: "Tag".to_owned(), value: text("first") });
    snapshot.properties.push(SnapshotProperty { name: "Tag".to_owned(), value: text("second") });
    snapshot.properties.push(SnapshotProperty {
        name: "Archivable".to_owned(),
        value: RbxValue::Bool { value: true },
    });
    snapshot.metadata = InstanceMetadata { ignore_unknown_instances: true };
    let mut child = folder("Inner");
    child.class_name = "Model".to_owned();
    child.children.push(folder("Leaf"));
    snapshot.children.push(child);
    snapshot.children.push(folder("Sibling"));
    let mut patch = PatchSet::new();
    patch.added_instances.push(PatchAdd { parent_id: root, instance: snapshot });

    let applied = apply_patch_set(&mut tree, &patch);

    assert_eq!(applied.added.len(), 1);
    let id = applied.added[0].instance_id;
    assert_ne!(id, root);
    let instance = tree.instances.get_instance(id).unwrap();
    assert_eq!(instance.get_parent_id(), Some(root));
    assert_eq!(instance.name, "Models");
    assert_eq!(instance.class_name, "Folder");
    assert_eq!(instance.properties.len(), 2);
    assert_eq!(instance.properties.get("Tag"), Some(&text("second")));
    assert_eq!(instance.properties.get("Archivable"), Some(&RbxValue::Bool { value: true }));
    assert_eq!(tree.instances.get_instance(root).unwrap().get_children_ids(), &[id]);
    assert_eq!(tree.get_metadata(id), Some(InstanceMetadata { ignore_unknown_instances: true }));

    let children = instance.get_children_ids();
    assert_eq!(children.len(), 2);
    let inner = tree.instances.get_instance(children[0]).unwrap();
    assert_eq!(inner.name, "Inner");
    assert_eq!(inner.class_name, "Model");
    assert_eq!(inner.get_parent_id(), Some(id));
    assert_eq!(inner.get_children_ids().len(), 1);
    let leaf = tree.instances.get_instance(inner.get_children_ids()[0]).unwrap();
    assert_eq!(leaf.name, "Leaf");
    assert_eq!(leaf.get_parent_id(), Some(children[0]));
    assert_eq!(tree.instances.get_instance(children[1]).unwrap().name, "Sibling");
    assert_eq!(
        tree.get_metadata(children[1]),
        Some(InstanceMetadata { ignore_unknown_instances: false })
    );
    assert_eq!(count(&tree), 5);
}

#[test]
fn add_under_missing_parent_is_skipped() {
    let mut tree = new_tree();
    let before = tree.instances.clone();
    let mut snapshot = folder("Lost");
    snapshot.children.push(folder("Lost child"));
    let mut patch = PatchSet::new();
    patch.added_instances.push(PatchAdd { parent_id: RbxId::new(), instance: snapshot });
    let applied = apply_patch_set(&mut tree, &patch);
    assert!(applied.added.is_empty());
    assert_eq!(tree.instances, before);
    assert!(tree.metadata.is_empty());
}

#[test]
fn skipped_add_does_not_stop_the_others() {
    let mut tree = new_tree();
    let root = tree.instances.get_root_id();
    let mut patch = PatchSet::new();
    patch.added_instances.push(PatchAdd { parent_id: root, instance: folder("A") });
    patch.added_instances.push(PatchAdd { parent_id: RbxId::new(), instance: folder("B") });
    patch.added_instances.push(PatchAdd { parent_id: root, instance: folder("C") });
    let applied = apply_patch_set(&mut tree, &patch);
    assert_eq!(applied.added.len(), 2);
    let names: Vec<String> = applied
        .added
        .iter()
        .map(|add| tree.instances.get_instance(add.instance_id).unwrap().name.clone())
        .collect();
    assert_eq!(names, vec!["A".to_owned(), "C".to_owned()]);
    assert_eq!(count(&tree), 3);
}

#[test]
fn add_under_parent_removed_in_same_patch_is_skipped() {
    let mut tree = new_tree();
    let root = tree.instances.get_root_id();
    let a = insert_snapshot(&mut tree, root, &folder("A"));
    let mut patch = PatchSet::new();
    patch.removed_instances.push(a);
    patch.added_instances.push(PatchAdd { parent_id: a, instance: folder("B") });
    let applied = apply_patch_set(&mut tree, &patch);
    assert_eq!(applied.removed, vec![a]);
    assert!(applied.added.is_empty());
    assert_eq!(count(&tree), 1);
}

#[test]
fn add_resolves_against_what_earlier_adds_built() {
    let mut tree = new_tree();
    let root = tree.instances.get_root_id();
    let first = apply_add(&mut tree, &PatchAdd { parent_id: root, instance: folder("Outer") })
        .unwrap()
        .instance_id;
    let second = apply_add(&mut tree, &PatchAdd { parent_id: first, instance: folder("Inner") })
        .unwrap()
        .instance_id;
    assert_eq!(tree.instances.get_instance(second).unwrap().get_parent_id(), Some(first));
    assert_eq!(tree.instances.get_instance(first).unwrap().get_children_ids(), &[second]);
    assert_eq!(tree.instances.get_instance(first).unwrap().get_parent_id(), Some(root));
    assert_eq!(count(&tree), 3);
}

#[test]
fn single_add_without_parent_returns_none() {
    let mut tree = new_tree();
    let add = PatchAdd { parent_id: RbxId::new(), instance: folder("A") };
    assert!(apply_add(&mut tree, &add).is_none());
    assert_eq!(count(&tree), 1);
}

#[test]
fn property_is_set_then_cleared() {
    let mut tree = new_tree();
    let root = tree.instances.get_root_id();
    let id = insert_snapshot(&mut tree, root, &folder("Part"));

    let mut set = update_of(id);
    set.changed_properties.push(PropertyChange { name: "Color".to_owned(), value: Some(text("red")) });
    let mut patch = PatchSet::new();
    patch.updated_instances.push(set.clone());
    let applied = apply_patch_set(&mut tree, &patch);
    assert_eq!(applied.updated.len(), 1);
    assert_eq!(applied.updated[0].id, id);
    assert_eq!(applied.updated[0].changed_properties, set.changed_properties);
    assert_eq!(
        tree.instances.get_instance(id).unwrap().properties.get("Color"),
        Some(&text("red"))
    );

    let mut clear = update_of(id);
    clear.changed_properties.push(PropertyChange { name: "Color".to_owned(), value: None });
    let mut patch = PatchSet::new();
    patch.updated_instances.push(clear.clone());
    let applied = apply_patch_set(&mut tree, &patch);
    assert_eq!(applied.updated.len(), 1);
    assert_eq!(applied.updated[0].changed_properties, clear.changed_properties);
    assert!(tree.instances.get_instance(id).unwrap().properties.get("Color").is_none());
    assert!(tree.instances.get_instance(id).unwrap().properties.is_empty());
}

#[test]
fn untouched_properties_stay() {
    let mut tree = new_tree();
    let root = tree.instances.get_root_id();
    let mut snapshot = folder("Part");
    snapshot.properties.push(SnapshotProperty { name: "Size".to_owned(), value: text("big") });
    let id = insert_snapshot(&mut tree, root, &snapshot);
    let mut update = update_of(id);
    update.changed_properties.push(PropertyChange { name: "Color".to_owned(), value: Some(text("red")) });
    update.changed_properties.push(PropertyChange { name: "Color".to_owned(), value: Some(text("blue")) });
    update.changed_properties.push(PropertyChange { name: "Gone".to_owned(), value: Some(text("x")) });
    update.changed_properties.push(PropertyChange { name: "Gone".to_owned(), value: None });
    let record = apply_update(&mut tree, &update).unwrap();
    assert_eq!(record.changed_properties.len(), 4);
    let instance = tree.instances.get_instance(id).unwrap();
    assert_eq!(instance.properties.len(), 2);
    assert_eq!(instance.properties.get("Size"), Some(&text("big")));
    assert_eq!(instance.properties.get("Color"), Some(&text("blue")));
    assert_eq!(instance.name, "Part");
    assert_eq!(instance.class_name, "Folder");
}

#[test]
fn update_renames_reclassifies_and_replaces_metadata() {
    let mut tree = new_tree();
    let root = tree.instances.get_root_id();
    let id = insert_snapshot(&mut tree, root, &folder("Old"));
    let other = insert_snapshot(&mut tree, root, &folder("Other"));
    let mut update = update_of(id);
    update.changed_name = Some("New".to_owned());
    update.changed_class_name = Some("Model".to_owned());
    update.changed_metadata = Some(InstanceMetadata { ignore_unknown_instances: true });
    let mut patch = PatchSet::new();
    patch.updated_instances.push(update);
    let applied = apply_patch_set(&mut tree, &patch);
    assert_eq!(applied.updated.len(), 1);
    let record = &applied.updated[0];
    assert_eq!(record.id, id);
    assert_eq!(record.changed_name, Some("New".to_owned()));
    assert_eq!(record.changed_class_name, Some("Model".to_owned()));
    assert!(record.changed_properties.is_empty());
    assert_eq!(record.changed_metadata, Some(InstanceMetadata { ignore_unknown_instances: true }));
    let instance = tree.instances.get_instance(id).unwrap();
    assert_eq!(instance.name, "New");
    assert_eq!(instance.class_name, "Model");
    assert_eq!(instance.get_parent_id(), Some(root));
    assert_eq!(tree.get_metadata(id), Some(InstanceMetadata { ignore_unknown_instances: true }));
    assert_eq!(tree.get_metadata(other), Some(InstanceMetadata { ignore_unknown_instances: false }));
    assert_eq!(tree.instances.get_instance(other).unwrap().name, "Other");
    assert_eq!(tree.instances.get_instance(root).unwrap().name, "Place");
}

#[test]
fn update_with_same_value_is_still_reported() {
    let mut tree = new_tree();
    let root = tree.instances.get_root_id();
    let mut update = update_of(root);
    update.changed_name = Some("Place".to_owned());
    let record = apply_update(&mut tree, &update).unwrap();
    assert_eq!(record.changed_name, Some("Place".to_owned()));
    assert_eq!(record.changed_class_name, None);
    assert_eq!(record.changed_metadata, None);
    assert_eq!(tree.instances.get_instance(root).unwrap().name, "Place");
}

#[test]
fn update_of_missing_target_is_skipped() {
    let mut tree = new_tree();
    let root = tree.instances.get_root_id();
    let before = tree.instances.clone();
    let mut missing = update_of(RbxId::new());
    missing.changed_name = Some("Nobody".to_owned());
    missing.changed_metadata = Some(InstanceMetadata { ignore_unknown_instances: true });
    assert!(apply_update(&mut tree, &missing).is_none());
    let mut present = update_of(root);
    present.changed_class_name = Some("Workspace".to_owned());
    let mut patch = PatchSet::new();
    patch.updated_instances.push(missing);
    patch.updated_instances.push(present);
    let applied = apply_patch_set(&mut tree, &patch);
    assert_eq!(applied.updated.len(), 1);
    assert_eq!(applied.updated[0].id, root);
    assert_ne!(tree.instances, before);
    assert_eq!(tree.instances.get_instance(root).unwrap().class_name, "Workspace");
    assert!(tree.metadata.is_empty());
}

#[test]
fn updates_are_applied_in_order() {
    let mut tree = new_tree();
    let root = tree.instances.get_root_id();
    let mut first = update_of(root);
    first.changed_name = Some("One".to_owned());
    let mut second = update_of(root);
    second.changed_name = Some("Two".to_owned());
    let mut patch = PatchSet::new();
    patch.updated_instances.push(first);
    patch.updated_instances.push(second);
    let applied = apply_patch_set(&mut tree, &patch);
    assert_eq!(applied.updated.len(), 2);
    assert_eq!(applied.updated[0].changed_name, Some("One".to_owned()));
    assert_eq!(applied.updated[1].changed_name, Some("Two".to_owned()));
    assert_eq!(tree.instances.get_instance(root).unwrap().name, "Two");
}

#[test]
fn removal_wins_over_update() {
    let mut tree = new_tree();
    let root = tree.instances.get_root_id();
    let id = insert_snapshot(&mut tree, root, &folder("Doomed"));
    let mut update = update_of(id);
    update.changed_name = Some("Renamed".to_owned());
    let mut patch = PatchSet::new();
    patch.removed_instances.push(id);
    patch.updated_instances.push(update);
    let applied = apply_patch_set(&mut tree, &patch);
    assert_eq!(applied.removed, vec![id]);
    assert!(applied.updated.is_empty());
    assert!(tree.instances.get_instance(id).is_none());
    assert_eq!(tree.get_metadata(id), None);
}

#[test]
fn metadata_of_unknown_instance_is_none() {
    let mut tree = new_tree();
    let root = tree.instances.get_root_id();
    assert_eq!(tree.get_metadata(root), None);
    assert_eq!(tree.get_metadata(RbxId::new()), None);
    tree.set_metadata(root, InstanceMetadata { ignore_unknown_instances: true });
    tree.set_metadata(root, InstanceMetadata { ignore_unknown_instances: false });
    assert_eq!(tree.get_metadata(root), Some(InstanceMetadata { ignore_unknown_instances: false }));
    assert!(tree.contains_instance(root));
    assert!(!tree.contains_instance(RbxId::new()));
}

#[test]
fn snapshot_clone_copies_the_whole_subtree() {
    let mut snapshot = folder("Outer");
    snapshot.properties.push(SnapshotProperty { name: "Tag".to_owned(), value: text("t") });
    snapshot.metadata = InstanceMetadata { ignore_unknown_instances: true };
    let mut inner = folder("Inner");
    inner.children.push(folder("Leaf"));
    snapshot.children.push(inner);
    let copy = snapshot.clone();
    assert_eq!(copy, snapshot);
    assert_eq!(copy.duplicate(), snapshot);
    assert_eq!(copy.children[0].children[0].name, "Leaf");
    let mut changed = snapshot.clone();
    changed.children[0].children[0].name = "Other".to_owned();
    assert_ne!(changed, snapshot);
}

#[test]
fn patch_set_clone_is_equal() {
    let mut patch = PatchSet::new();
    patch.removed_instances.push(RbxId::new());
    patch.added_instances.push(PatchAdd { parent_id: RbxId::new(), instance: folder("A") });
    let mut update = update_of(RbxId::new());
    update.changed_properties.push(PropertyChange { name: "Color".to_owned(), value: None });
    patch.updated_instances.push(update);
    let copy = patch.clone();
    assert_eq!(copy, patch);
}

#[test]
fn full_patch_runs_removals_then_additions_then_updates() {
    let mut tree = new_tree();
    let root = tree.instances.get_root_id();
    let old = insert_snapshot(&mut tree, root, &folder("Old"));
    let kept = insert_snapshot(&mut tree, root, &folder("Kept"));
    let mut patch = PatchSet::new();
    patch.removed_instances.push(old);
    patch.added_instances.push(PatchAdd { parent_id: kept, instance: folder("New") });
    let mut rename = update_of(kept);
    rename.changed_name = Some("Renamed".to_owned());
    patch.updated_instances.push(rename);
    let mut lost = update_of(old);
    lost.changed_name = Some("Lost".to_owned());
    patch.updated_instances.push(lost);
    let applied = apply_patch_set(&mut tree, &patch);
    assert_eq!(applied.removed, vec![old]);
    assert_eq!(applied.added.len(), 1);
    assert_eq!(applied.updated.len(), 1);
    assert_eq!(applied.updated[0].id, kept);
    let new_id = applied.added[0].instance_id;
    assert_eq!(tree.instances.get_instance(new_id).unwrap().get_parent_id(), Some(kept));
    assert_eq!(tree.instances.get_instance(kept).unwrap().name, "Renamed");
    assert_eq!(tree.instances.get_instance(kept).unwrap().get_children_ids(), &[new_id]);
    assert_eq!(count(&tree), 3);
}

#[test]
fn tree_with_root_holds_only_the_root() {
    let tree = LiveTree::with_root("Place".to_owned(), "DataModel".to_owned());
    let root = tree.instances.get_root_id();
    assert_eq!(count(&tree), 1);
    let instance = tree.instances.get_instance(root).unwrap();
    assert_eq!(instance.name, "Place");
    assert_eq!(instance.class_name, "DataModel");
    assert!(instance.properties.is_empty());
    assert_eq!(instance.get_parent_id(), None);
    assert!(instance.get_children_ids().is_empty());
    assert!(tree.metadata.is_empty());
}

#[test]
fn tree_over_existing_instances_keeps_them() {
    let mut properties = HashMap::new();
    properties.insert("Tag".to_owned(), text("kept"));
    let mut instances = RbxTree::new(RbxInstanceProperties {
        name: "Game".to_owned(),
        class_name: "DataModel".to_owned(),
        properties,
    });
    let root = instances.get_root_id();
    let child = instances.insert_instance(
        RbxInstanceProperties {
            name: "Workspace".to_owned(),
            class_name: "Workspace".to_owned(),
            properties: HashMap::new(),
        },
        root,
    );
    let mut tree = LiveTree::new(instances);
    assert!(tree.contains_instance(child));
    let mut update = update_of(root);
    update.changed_properties.push(PropertyChange { name: "Tag".to_owned(), value: None });
    let mut patch = PatchSet::new();
    patch.removed_instances.push(child);
    patch.updated_instances.push(update);
    let applied = apply_patch_set(&mut tree, &patch);
    assert_eq!(applied.removed, vec![child]);
    assert_eq!(applied.updated.len(), 1);
    assert!(tree.instances.get_instance(root).unwrap().properties.is_empty());
    assert!(tree.instances.get_instance(root).unwrap().get_children_ids().is_empty());
}

#[test]
fn listed_descendant_is_gone_and_not_updated() {
    let mut tree = new_tree();
    let root = tree.instances.get_root_id();
    let mut parent = folder("Parent");
    parent.children.push(folder("Child"));
    let parent_id = insert_snapshot(&mut tree, root, &parent);
    let child_id = tree.instances.get_instance(parent_id).unwrap().get_children_ids()[0];
    let mut rename = update_of(child_id);
    rename.changed_name = Some("Renamed".to_owned());
    let mut patch = PatchSet::new();
    patch.removed_instances.push(parent_id);
    patch.removed_instances.push(child_id);
    patch.updated_instances.push(rename);
    let applied = apply_patch_set(&mut tree, &patch);
    assert_eq!(applied.removed, vec![parent_id]);
    assert!(applied.updated.is_empty());
    assert!(!tree.contains_instance(child_id));
    assert_eq!(count(&tree), 1);
}
