//! The instance tree of `rbx_dom_weak`, as the verified code sees it.
//!
//! Nothing in this file is proved. The tree, its ids and its property values
//! are opaque; what a tree holds is named by [`tree_nodes`], [`tree_children`]
//! and [`tree_root`], and each function below states, over those names, what
//! the method it calls does according to the crate's source.

use vstd::prelude::*;
use rbx_dom_weak::{RbxId, RbxInstanceProperties, RbxTree, RbxValue};
use std::collections::HashMap;

verus! {

/// `rbx_dom_weak::RbxId`, the id of an instance: carried and compared, never
/// looked into.
#[verifier::external_type_specification]
#[verifier::external_body]
pub struct ExRbxId(RbxId);

/// `rbx_dom_weak::RbxValue`, the value of a property: carried and copied,
/// never looked into.
#[verifier::external_type_specification]
#[verifier::external_body]
pub struct ExRbxValue(RbxValue);

/// `rbx_dom_weak::RbxTree`, the table of instances with its root id.
#[verifier::external_type_specification]
#[verifier::external_body]
pub struct ExRbxTree(RbxTree);

/// What the tree records of one instance, children aside.
pub ghost struct NodeView {
    pub name: Seq<char>,
    pub class_name: Seq<char>,
    pub properties: Map<Seq<char>, RbxValue>,
    pub parent: Option<RbxId>,
}

/// The instances that a tree holds, by id.
pub uninterp spec fn tree_nodes(tree: RbxTree) -> Map<RbxId, NodeView>;

/// The id that the tree was made with as its root.
pub uninterp spec fn tree_root(tree: RbxTree) -> RbxId;

/// The child list of each instance that a tree holds, in the tree's order.
pub uninterp spec fn tree_children(tree: RbxTree) -> Map<RbxId, Seq<RbxId>>;

/// Whether `path` leads from `top` down to `id`: it starts at `top`, ends at
/// `id`, holds only instances of `nodes`, and each step goes from an instance
/// to one that its child list names.
pub open spec fn descends(
    nodes: Map<RbxId, NodeView>,
    children: Map<RbxId, Seq<RbxId>>,
    top: RbxId,
    id: RbxId,
    path: Seq<RbxId>,
) -> bool {
    &&& path.len() > 0
    &&& path[0] == top
    &&& path.last() == id
    &&& forall|i: int| 0 <= i < path.len() ==> nodes.dom().contains(#[trigger] path[i])
    &&& forall|i: int| 0 < i < path.len() ==> children[path[i - 1]].contains(#[trigger] path[i])
}

/// The instance `top` and its descendants: what the child lists lead to from
/// it.
pub open spec fn subtree_of(
    nodes: Map<RbxId, NodeView>,
    children: Map<RbxId, Seq<RbxId>>,
    top: RbxId,
) -> Set<RbxId> {
    Set::new(|id: RbxId| exists|path: Seq<RbxId>| descends(nodes, children, top, id, path))
}

/// A child list without the id `gone`, the others in their order.
pub open spec fn without(children: Seq<RbxId>, gone: RbxId) -> Seq<RbxId>
    decreases children.len(),
{
    if children.len() == 0 {
        children
    } else if children.last() == gone {
        without(children.drop_last(), gone)
    } else {
        without(children.drop_last(), gone).push(children.last())
    }
}

/// `==` on `RbxId`, which `rbx_dom_weak` derives over the UUID inside: two
/// ids compare equal exactly when they are the same id.
#[verifier::external_body]
pub(crate) fn id_eq(a: RbxId, b: RbxId) -> (r: bool)
    ensures
        r == (a == b),
{
    a == b
}

/// `RbxValue::clone`, which `rbx_dom_weak` derives: the copy is the same
/// value.
pub assume_specification[ <RbxValue as Clone>::clone ](value: &RbxValue) -> (r: RbxValue)
    ensures
        r == *value,
;

/// `RbxId::clone`, which `rbx_dom_weak` derives for its `Copy` id: the copy is
/// the same id.
pub assume_specification[ <RbxId as Clone>::clone ](id: &RbxId) -> (r: RbxId)
    ensures
        r == *id,
;

/// `RbxTree::new`: makes a tree that holds one instance, the root, with the
/// given name and class, no properties, no parent and no children, under a
/// new id.
#[verifier::external_body]
pub(crate) fn new_tree(name: String, class_name: String) -> (tree: RbxTree)
    ensures
        tree_nodes(tree) == Map::<RbxId, NodeView>::empty().insert(
            tree_root(tree),
            NodeView { name: name@, class_name: class_name@, properties: Map::empty(), parent: None },
        ),
        tree_children(tree) == Map::<RbxId, Seq<RbxId>>::empty().insert(
            tree_root(tree),
            Seq::empty(),
        ),
{
    RbxTree::new(RbxInstanceProperties { name, class_name, properties: HashMap::new() })
}

/// `RbxTree::get_root_id`: returns the tree's root id field.
#[verifier::external_body]
pub(crate) fn root_id(tree: &RbxTree) -> (r: RbxId)
    ensures
        r == tree_root(*tree),
{
    tree.get_root_id()
}

/// `RbxTree::get_instance`, asked only whether it finds anything: a lookup of
/// the id in the tree's instance table.
#[verifier::external_body]
pub(crate) fn has_instance(tree: &RbxTree, id: RbxId) -> (r: bool)
    ensures
        r == tree_nodes(*tree).dom().contains(id),
{
    tree.get_instance(id).is_some()
}

/// `RbxInstance::get_parent_id` on the instance that `RbxTree::get_instance`
/// finds: the parent recorded for it. The id must be in the tree.
#[verifier::external_body]
pub(crate) fn parent_of(tree: &RbxTree, id: RbxId) -> (r: Option<RbxId>)
    requires
        tree_nodes(*tree).dom().contains(id),
    ensures
        r == tree_nodes(*tree)[id].parent,
{
    tree.get_instance(id).unwrap().get_parent_id()
}

/// `RbxTree::remove_instance`: moves the instance and all its descendants
/// out of the tree. The method panics on the root, on an id that is not in
/// the tree and on an instance whose recorded parent is missing, so those are
/// required away. Claimed: the instances that leave are the instance and
/// those that child lists lead to from it; what stays is as it was, but that
/// the parent's child list no longer names the instance; the root id field
/// is untouched.
#[verifier::external_body]
pub(crate) fn remove_instance(tree: &mut RbxTree, id: RbxId)
    requires
        tree_nodes(*old(tree)).dom().contains(id),
        id != tree_root(*old(tree)),
        tree_nodes(*old(tree))[id].parent is Some,
        tree_nodes(*old(tree)).dom().contains(tree_nodes(*old(tree))[id].parent->Some_0),
    ensures
        tree_nodes(*final(tree)) == tree_nodes(*old(tree)).remove_keys(
            subtree_of(tree_nodes(*old(tree)), tree_children(*old(tree)), id),
        ),
        forall|other: RbxId|
            tree_nodes(*final(tree)).dom().contains(other) ==> #[trigger] tree_children(
                *final(tree),
            )[other] == if Some(other) == tree_nodes(*old(tree))[id].parent {
                without(tree_children(*old(tree))[other], id)
            } else {
                tree_children(*old(tree))[other]
            },
        tree_root(*final(tree)) == tree_root(*old(tree)),
{
    tree.remove_instance(id);
}

/// `RbxTree::insert_instance` with an empty property table: makes an instance
/// with the given name and class and no children under a new id, records the
/// parent in it, puts it in the instance table and appends the id to the
/// parent's child list. The method panics when the parent is not in
/// the tree. That the new id is not one the tree already holds rests on the
/// crate's ids being random UUIDs, which it documents as unique; making one
/// needs the system's random source.
#[verifier::external_body]
pub(crate) fn insert_instance(
    tree: &mut RbxTree,
    name: String,
    class_name: String,
    parent_id: RbxId,
) -> (id: RbxId)
    requires
        tree_nodes(*old(tree)).dom().contains(parent_id),
    ensures
        !tree_nodes(*old(tree)).dom().contains(id),
        tree_nodes(*final(tree)) == tree_nodes(*old(tree)).insert(
            id,
            NodeView {
                name: name@,
                class_name: class_name@,
                properties: Map::empty(),
                parent: Some(parent_id),
            },
        ),
        tree_children(*final(tree)) == tree_children(*old(tree)).insert(id, Seq::empty()).insert(
            parent_id,
            tree_children(*old(tree))[parent_id].push(id),
        ),
        tree_root(*final(tree)) == tree_root(*old(tree)),
{
    let properties = RbxInstanceProperties { name, class_name, properties: HashMap::new() };
    tree.insert_instance(properties, parent_id)
}

/// Assignment to the `name` field of the instance that
/// `RbxTree::get_instance_mut` finds; nothing else changes. The id must be in
/// the tree.
#[verifier::external_body]
pub(crate) fn set_name(tree: &mut RbxTree, id: RbxId, name: String)
    requires
        tree_nodes(*old(tree)).dom().contains(id),
    ensures
        tree_nodes(*final(tree)) == tree_nodes(*old(tree)).insert(
            id,
            NodeView { name: name@, ..tree_nodes(*old(tree))[id] },
        ),
        tree_children(*final(tree)) == tree_children(*old(tree)),
        tree_root(*final(tree)) == tree_root(*old(tree)),
{
    tree.get_instance_mut(id).unwrap().name = name;
}

/// Assignment to the `class_name` field of the instance that
/// `RbxTree::get_instance_mut` finds; nothing else changes. The id must be in
/// the tree.
#[verifier::external_body]
pub(crate) fn set_class_name(tree: &mut RbxTree, id: RbxId, class_name: String)
    requires
        tree_nodes(*old(tree)).dom().contains(id),
    ensures
        tree_nodes(*final(tree)) == tree_nodes(*old(tree)).insert(
            id,
            NodeView { class_name: class_name@, ..tree_nodes(*old(tree))[id] },
        ),
        tree_children(*final(tree)) == tree_children(*old(tree)),
        tree_root(*final(tree)) == tree_root(*old(tree)),
{
    tree.get_instance_mut(id).unwrap().class_name = class_name;
}

/// `HashMap::insert` on the `properties` table of the instance that
/// `RbxTree::get_instance_mut` finds: the key now maps to the value, whether
/// or not it was there. The id must be in the tree.
#[verifier::external_body]
pub(crate) fn set_property(tree: &mut RbxTree, id: RbxId, key: String, value: RbxValue)
    requires
        tree_nodes(*old(tree)).dom().contains(id),
    ensures
        tree_nodes(*final(tree)) == tree_nodes(*old(tree)).insert(
            id,
            NodeView {
                properties: tree_nodes(*old(tree))[id].properties.insert(key@, value),
                ..tree_nodes(*old(tree))[id]
            },
        ),
        tree_children(*final(tree)) == tree_children(*old(tree)),
        tree_root(*final(tree)) == tree_root(*old(tree)),
{
    tree.get_instance_mut(id).unwrap().properties.insert(key, value);
}

/// `HashMap::remove` on the `properties` table of the instance that
/// `RbxTree::get_instance_mut` finds: the key maps to nothing afterwards. The
/// id must be in the tree.
#[verifier::external_body]
pub(crate) fn clear_property(tree: &mut RbxTree, id: RbxId, key: &String)
    requires
        tree_nodes(*old(tree)).dom().contains(id),
    ensures
        tree_nodes(*final(tree)) == tree_nodes(*old(tree)).insert(
            id,
            NodeView {
                properties: tree_nodes(*old(tree))[id].properties.remove(key@),
                ..tree_nodes(*old(tree))[id]
            },
        ),
        tree_children(*final(tree)) == tree_children(*old(tree)),
        tree_root(*final(tree)) == tree_root(*old(tree)),
{
    tree.get_instance_mut(id).unwrap().properties.remove(key);
}

} // verus!
