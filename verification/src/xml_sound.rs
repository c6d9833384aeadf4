//! Trees that are written so that they read back as they are: their
//! names can name, and no element of them has both a value and children.
//! What is made of such trees by adding such trees, by putting children
//! in order and by taking elements out is such a tree.

use vstd::prelude::*;
use crate::xml_node::{Node, node_has_rank, nodes_by_rank, ordered_nodes, retain_nodes};
use crate::xml_prune::{lemma_pruned_members, pruned, pruned_all};
use crate::xml_round_trip::{attributes_valid, canonical, is_tag_name, node_valid};

verus! {

/// Whether a tree reads back as it is: no element of it has both a value
/// and children.
pub open spec fn is_settled(node: Node) -> bool
    decreases node,
{
    &&& node.value is Some ==> node.children.len() == 0
    &&& forall|i: int| 0 <= i < node.children.len() ==> is_settled(#[trigger] node.children[i])
}

/// A tree in which no element has both a value and children reads back as
/// it is.
pub proof fn lemma_settled_is_canonical(node: Node)
    requires
        is_settled(node),
    ensures
        canonical(node) == node,
    decreases node,
{
    if node.value is Some {
        assert(node.children =~= Seq::<Node>::empty());
    } else {
        assert forall|i: int| 0 <= i < node.children.len() implies canonical(node.children[i])
            == node.children[i] by {
            lemma_settled_is_canonical(node.children[i]);
        }
        assert(canonical(node).children =~= node.children);
    }
}

/// A member of what `retain_nodes` keeps is a member of what it was given.
pub proof fn lemma_retained_members(nodes: Seq<Node>, keep: spec_fn(Node) -> bool, i: int)
    requires
        0 <= i < retain_nodes(nodes, keep).len(),
    ensures
        nodes.contains(retain_nodes(nodes, keep)[i]),
    decreases nodes.len(),
{
    let front = nodes.drop_last();
    let last = nodes.last();
    if keep(last) && i == retain_nodes(front, keep).len() {
        assert(nodes[nodes.len() - 1] == last);
    } else {
        lemma_retained_members(front, keep, i);
        let j = choose|j: int| 0 <= j < front.len() && front[j] == retain_nodes(front, keep)[i];
        assert(nodes[j] == front[j]);
    }
}

/// A member of nodes that have been put in order by rank is a member of
/// the nodes as they were.
pub proof fn lemma_ranked_members(nodes: Seq<Node>, order: Seq<Seq<char>>, bound: nat, i: int)
    requires
        0 <= i < nodes_by_rank(nodes, order, bound).len(),
    ensures
        nodes.contains(nodes_by_rank(nodes, order, bound)[i]),
    decreases bound,
{
    let front = nodes_by_rank(nodes, order, (bound - 1) as nat);
    if i < front.len() {
        lemma_ranked_members(nodes, order, (bound - 1) as nat, i);
    } else {
        lemma_retained_members(
            nodes,
            node_has_rank(order, (bound - 1) as nat),
            i - front.len(),
        );
    }
}

/// An element whose children are all written so that they read back, and
/// which has names that can name and no value, is written so that it
/// reads back as it is.
pub open spec fn all_sound(nodes: Seq<Node>) -> bool {
    forall|i: int| 0 <= i < nodes.len() ==> node_valid(#[trigger] nodes[i]) && is_settled(nodes[i])
}

/// Nodes that are put in the order of a schema are written so that they
/// read back where they were.
pub proof fn lemma_ordered_sound(nodes: Seq<Node>, order: Seq<Seq<char>>)
    requires
        all_sound(nodes),
    ensures
        all_sound(ordered_nodes(nodes, order)),
{
    let ordered = ordered_nodes(nodes, order);
    assert forall|i: int| 0 <= i < ordered.len() implies node_valid(#[trigger] ordered[i])
        && is_settled(ordered[i]) by {
        lemma_ranked_members(nodes, order, order.len() + 1, i);
        let j = choose|j: int| 0 <= j < nodes.len() && nodes[j] == ordered[i];
        assert(node_valid(nodes[j]));
    }
}

/// A root that is written so that it reads back is so written with other
/// children that are, where it holds no text.
pub proof fn lemma_with_children_sound(root: Node, children: Seq<Node>)
    requires
        node_valid(root),
        root.value is None,
        all_sound(children),
    ensures
        node_valid(Node { children, ..root }),
        is_settled(Node { children, ..root }),
        canonical(Node { children, ..root }) == (Node { children, ..root }),
{
    let written = Node { children, ..root };
    assert(is_tag_name(written.tag));
    assert(attributes_valid(written.attributes));
    assert forall|i: int| 0 <= i < written.children.len() implies node_valid(
        #[trigger] written.children[i],
    ) && is_settled(written.children[i]) by {
        assert(written.children[i] == children[i]);
    }
    lemma_settled_is_canonical(written);
}

/// Two lists of nodes that are written so that they read back are so
/// written one behind the other.
pub proof fn lemma_both_sound(first: Seq<Node>, second: Seq<Node>)
    requires
        all_sound(first),
        all_sound(second),
    ensures
        all_sound(first + second),
{
    assert forall|i: int| 0 <= i < (first + second).len() implies node_valid(
        #[trigger] (first + second)[i],
    ) && is_settled((first + second)[i]) by {
        if i < first.len() {
            assert((first + second)[i] == first[i]);
        } else {
            assert((first + second)[i] == second[i - first.len()]);
        }
    }
}

/// The children of a root that is written so that it reads back are so
/// written.
pub proof fn lemma_children_sound(root: Node)
    requires
        node_valid(root),
        is_settled(root),
    ensures
        all_sound(root.children),
{
}

/// A tree that is written so that it reads back as it is stays so when
/// the elements of one name are taken out of it.
pub proof fn lemma_pruned_sound(node: Node, tag: Seq<char>)
    requires
        node_valid(node),
        is_settled(node),
    ensures
        node_valid(pruned(node, tag)),
        is_settled(pruned(node, tag)),
    decreases node,
{
    let left = pruned(node, tag);
    assert forall|i: int| 0 <= i < left.children.len() implies node_valid(
        #[trigger] left.children[i],
    ) && is_settled(left.children[i]) by {
        lemma_pruned_members(node.children, tag, i);
        let j = choose|j: int|
            0 <= j < node.children.len() && (#[trigger] node.children[j]).tag != tag
                && left.children[i] == pruned(node.children[j], tag);
        lemma_pruned_sound(node.children[j], tag);
    }
    if node.value is Some {
        assert(node.children =~= Seq::<Node>::empty());
    }
}

/// Where something is left of nodes from which elements have been taken,
/// there were nodes.
pub proof fn lemma_pruned_of_some(nodes: Seq<Node>, tag: Seq<char>)
    requires
        pruned_all(nodes, tag).len() > 0,
    ensures
        nodes.len() > 0,
{
}

} // verus!
