use vstd::prelude::*;

use ego_tree::Tree;

verus! {

/// `ego_tree::Tree`: a vec-backed tree whose nodes are kept in the order they were made, the
/// root first.
#[verifier::external_type_specification]
#[verifier::external_body]
#[verifier::reject_recursive_types(T)]
pub struct ExTree<T>(Tree<T>);

/// What a tree holds: the value of each node, in the order the nodes were made.
pub uninterp spec fn tree_values(t: Tree<usize>) -> Seq<usize>;

/// How a tree is shaped: for each node, in the order the nodes were made, the values of its
/// children, first child first.
pub uninterp spec fn tree_children(t: Tree<usize>) -> Seq<Seq<usize>>;

/// `Tree::new` makes a tree of one node, the root, which holds `root` and has no children.
#[verifier::external_body]
pub(crate) fn tree_new(root: usize) -> (t: Tree<usize>)
    ensures
        tree_values(t) == seq![root],
        tree_children(t) == seq![Seq::<usize>::empty()],
{
    Tree::new(root)
}

/// `NodeMut::append` on the node made `parent`-th: a new node holding `value` is pushed at the
/// end of the tree's nodes and becomes that node's last child; no other node's children change.
/// The node is reached by its place in `Tree::nodes`, which walks the nodes in the order they
/// were made.
#[verifier::external_body]
pub(crate) fn tree_append(t: &mut Tree<usize>, parent: usize, value: usize)
    requires
        parent < tree_values(*old(t)).len(),
        tree_values(*old(t)).len() < usize::MAX,
    ensures
        tree_values(*final(t)) == tree_values(*old(t)).push(value),
        tree_children(*final(t)) == tree_children(*old(t)).update(
            parent as int,
            tree_children(*old(t))[parent as int].push(value),
        ).push(Seq::<usize>::empty()),
{
    let id = t.nodes().nth(parent).unwrap().id();
    t.get_mut(id).unwrap().append(value);
}

/// `NodeRef::children` of the node made `node`-th, each child given by the value it holds.
#[verifier::external_body]
pub(crate) fn tree_children_of(t: &Tree<usize>, node: usize) -> (r: Vec<usize>)
    requires
        node < tree_values(*t).len(),
    ensures
        r@ == tree_children(*t)[node as int],
{
    t.nodes().nth(node).unwrap().children().map(|c| *c.value()).collect()
}

} // verus!
