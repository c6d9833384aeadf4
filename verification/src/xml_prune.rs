//! Taking every element of one name out of a document, as it shows in the
//! subtrees that remain.

use vstd::prelude::*;
use crate::xml_document::{DocumentModel, lemma_retain, outside, retain};
use crate::xml_node::Node;

verus! {

/// The subtree `node` without the elements named `tag` below its top, and
/// without what stands under them.
pub open spec fn pruned(node: Node, tag: Seq<char>) -> Node
    decreases node,
{
    Node { children: pruned_all(node.children, tag), ..node }
}

/// Those of `nodes` that are not named `tag`, each without the elements
/// named `tag` below it.
pub open spec fn pruned_all(nodes: Seq<Node>, tag: Seq<char>) -> Seq<Node>
    decreases nodes,
{
    if nodes.len() == 0 {
        Seq::empty()
    } else if nodes.last().tag == tag {
        pruned_all(nodes.drop_last(), tag)
    } else {
        pruned_all(nodes.drop_last(), tag).push(pruned(nodes.last(), tag))
    }
}

/// The root's subtree `root` of a document after every element named
/// `tag` has been taken out: nothing where the root itself is so named.
pub open spec fn pruned_root(root: Option<Node>, tag: Seq<char>) -> Option<Node> {
    match root {
        Some(node) => if node.tag == tag {
            None
        } else {
            Some(pruned(node, tag))
        },
        None => None,
    }
}

/// Whether none of `nodes` is named `tag`.
pub open spec fn none_named(nodes: Seq<Node>, tag: Seq<char>) -> bool {
    forall|i: int| 0 <= i < nodes.len() ==> (#[trigger] nodes[i]).tag != tag
}

/// What is left of nodes from which the elements named `tag` have been
/// taken: each is one of the nodes, not so named, without the elements of
/// that name below it.
pub proof fn lemma_pruned_members(nodes: Seq<Node>, tag: Seq<char>, i: int)
    requires
        0 <= i < pruned_all(nodes, tag).len(),
    ensures
        exists|j: int|
            0 <= j < nodes.len() && (#[trigger] nodes[j]).tag != tag && pruned_all(nodes, tag)[i]
                == pruned(nodes[j], tag),
    decreases nodes.len(),
{
    let front = nodes.drop_last();
    let last = nodes.last();
    if last.tag != tag && i == pruned_all(front, tag).len() {
        assert(nodes[nodes.len() - 1] == last);
    } else {
        lemma_pruned_members(front, tag, i);
        let j = choose|j: int|
            0 <= j < front.len() && (#[trigger] front[j]).tag != tag && pruned_all(front, tag)[i]
                == pruned(front[j], tag);
        assert(nodes[j] == front[j]);
    }
}

/// Among nodes from which the elements named `tag` have been taken, none
/// is so named.
pub proof fn lemma_pruned_none_named(nodes: Seq<Node>, tag: Seq<char>)
    ensures
        none_named(pruned_all(nodes, tag), tag),
{
    assert forall|i: int| 0 <= i < pruned_all(nodes, tag).len() implies (#[trigger] pruned_all(
        nodes,
        tag,
    )[i]).tag != tag by {
        lemma_pruned_members(nodes, tag, i);
    }
}

/// Nodes of which none is named `tag`, and below which no element is so
/// named, are left as they are when the elements of that name are taken.
pub proof fn lemma_pruned_all_fixed(nodes: Seq<Node>, tag: Seq<char>)
    requires
        none_named(nodes, tag),
        forall|i: int| 0 <= i < nodes.len() ==> pruned(#[trigger] nodes[i], tag) == nodes[i],
    ensures
        pruned_all(nodes, tag) == nodes,
    decreases nodes.len(),
{
    if nodes.len() > 0 {
        let front = nodes.drop_last();
        assert(nodes.last() == nodes[nodes.len() - 1]);
        assert forall|i: int| 0 <= i < front.len() implies (#[trigger] front[i]).tag != tag
            && pruned(front[i], tag) == front[i] by {
            assert(front[i] == nodes[i]);
        }
        lemma_pruned_all_fixed(front, tag);
        assert(front.push(nodes.last()) =~= nodes);
    } else {
        assert(nodes =~= Seq::<Node>::empty());
    }
}

/// Taking the elements named `tag` a second time takes nothing more.
pub proof fn lemma_pruned_twice(node: Node, tag: Seq<char>)
    ensures
        pruned(pruned(node, tag), tag) == pruned(node, tag),
    decreases node,
{
    let once = pruned_all(node.children, tag);
    lemma_pruned_none_named(node.children, tag);
    assert forall|i: int| 0 <= i < once.len() implies pruned(#[trigger] once[i], tag)
        == once[i] by {
        lemma_pruned_members(node.children, tag, i);
        let j = choose|j: int|
            0 <= j < node.children.len() && (#[trigger] node.children[j]).tag != tag && once[i]
                == pruned(node.children[j], tag);
        lemma_pruned_twice(node.children[j], tag);
    }
    lemma_pruned_all_fixed(once, tag);
}

/// Taking the elements named `tag` out of two lists of nodes takes them
/// out of each.
pub proof fn lemma_pruned_all_both(first: Seq<Node>, second: Seq<Node>, tag: Seq<char>)
    ensures
        pruned_all(first + second, tag) == pruned_all(first, tag) + pruned_all(second, tag),
    decreases second.len(),
{
    if second.len() == 0 {
        assert(first + second =~= first);
        assert(pruned_all(first, tag) + pruned_all(second, tag) =~= pruned_all(first, tag));
    } else {
        lemma_pruned_all_both(first, second.drop_last(), tag);
        assert((first + second).drop_last() =~= first + second.drop_last());
        assert((first + second).last() == second.last());
        if second.last().tag != tag {
            assert((pruned_all(first, tag) + pruned_all(second.drop_last(), tag)).push(
                pruned(second.last(), tag),
            ) =~= pruned_all(first, tag) + pruned_all(second, tag));
        }
    }
}

/// Taking the elements named `tag` out of nodes that are all so named
/// leaves none.
pub proof fn lemma_pruned_all_gone(nodes: Seq<Node>, tag: Seq<char>)
    requires
        forall|i: int| 0 <= i < nodes.len() ==> (#[trigger] nodes[i]).tag == tag,
    ensures
        pruned_all(nodes, tag) == Seq::<Node>::empty(),
    decreases nodes.len(),
{
    if nodes.len() > 0 {
        lemma_pruned_all_gone(nodes.drop_last(), tag);
        assert(nodes.last() == nodes[nodes.len() - 1]);
    }
}

/// Taking the elements named `tag` out of nodes without children of which
/// none is so named leaves them as they are.
pub proof fn lemma_pruned_all_kept(nodes: Seq<Node>, tag: Seq<char>)
    requires
        forall|i: int|
            0 <= i < nodes.len() ==> (#[trigger] nodes[i]).tag != tag && nodes[i].children.len()
                == 0,
    ensures
        pruned_all(nodes, tag) == nodes,
{
    assert forall|i: int| 0 <= i < nodes.len() implies pruned(#[trigger] nodes[i], tag)
        == nodes[i] by {
        assert(pruned(nodes[i], tag).children =~= nodes[i].children);
    }
    lemma_pruned_all_fixed(nodes, tag);
}

/// The elements of two names can be taken out of a tree in either
/// order.
pub proof fn lemma_pruned_commute(node: Node, first: Seq<char>, second: Seq<char>)
    ensures
        pruned(pruned(node, first), second) == pruned(pruned(node, second), first),
    decreases node,
{
    lemma_pruned_all_commute(node.children, first, second);
}

/// The elements of two names can be taken out of nodes in either order.
pub proof fn lemma_pruned_all_commute(nodes: Seq<Node>, first: Seq<char>, second: Seq<char>)
    ensures
        pruned_all(pruned_all(nodes, first), second) == pruned_all(
            pruned_all(nodes, second),
            first,
        ),
    decreases nodes,
{
    if nodes.len() > 0 {
        let front = nodes.drop_last();
        let last = nodes.last();
        lemma_pruned_all_commute(front, first, second);
        lemma_pruned_commute(last, first, second);
        let a = pruned_all(front, first);
        let b = pruned_all(front, second);
        if last.tag != first {
            assert(a.push(pruned(last, first)).drop_last() =~= a);
            assert(a.push(pruned(last, first)).last() == pruned(last, first));
        }
        if last.tag != second {
            assert(b.push(pruned(last, second)).drop_last() =~= b);
            assert(b.push(pruned(last, second)).last() == pruned(last, second));
        }
    }
}

/// Taking the elements named `tag` out of nodes a second time takes
/// nothing more.
pub proof fn lemma_pruned_all_twice(nodes: Seq<Node>, tag: Seq<char>)
    ensures
        pruned_all(pruned_all(nodes, tag), tag) == pruned_all(nodes, tag),
{
    let once = pruned_all(nodes, tag);
    lemma_pruned_none_named(nodes, tag);
    assert forall|i: int| 0 <= i < once.len() implies pruned(#[trigger] once[i], tag)
        == once[i] by {
        lemma_pruned_members(nodes, tag, i);
        let j = choose|j: int|
            0 <= j < nodes.len() && (#[trigger] nodes[j]).tag != tag && once[i] == pruned(
                nodes[j],
                tag,
            );
        lemma_pruned_twice(nodes[j], tag);
    }
    lemma_pruned_all_fixed(once, tag);
}

/// Whether each of `nodes` has one of the names `names`.
pub open spec fn all_named(nodes: Seq<Node>, names: Set<Seq<char>>) -> bool {
    forall|i: int| 0 <= i < nodes.len() ==> names.contains((#[trigger] nodes[i]).tag)
}

/// What is left of nodes with the names `names` when the elements named
/// `tag` have been taken has the other names.
pub proof fn lemma_pruned_names(nodes: Seq<Node>, names: Set<Seq<char>>, tag: Seq<char>)
    requires
        all_named(nodes, names),
    ensures
        all_named(pruned_all(nodes, tag), names.remove(tag)),
{
    let left = pruned_all(nodes, tag);
    assert forall|i: int| 0 <= i < left.len() implies names.remove(tag).contains(
        (#[trigger] left[i]).tag,
    ) by {
        lemma_pruned_members(nodes, tag, i);
        let j = choose|j: int|
            0 <= j < nodes.len() && (#[trigger] nodes[j]).tag != tag && left[i] == pruned(
                nodes[j],
                tag,
            );
        assert(names.contains(nodes[j].tag));
    }
}

impl DocumentModel {
    /// The subtree of the root, where the document has a root.
    pub open spec fn root_tree(self) -> Option<Node> {
        match self.parent_or_root(None) {
            Some(root) => Some(self.tree(root)),
            None => None,
        }
    }

    /// Among children of an element that stays, those that stay have the
    /// subtrees that pruning leaves of the children's subtrees.
    proof fn lemma_pruned_children(self, tag: Seq<char>, id: usize, ids: Seq<usize>)
        requires
            self.wf(),
            self.has(id),
            !self.under(id, self.tagged(tag)),
            forall|k: int| 0 <= k < ids.len() ==> self.child_ok(id, #[trigger] ids[k]),
        ensures
            self.without_subtrees(self.tagged(tag)).trees_of(
                retain(ids, outside(self.tagged(tag))),
            ) == pruned_all(self.trees_of(ids), tag),
        decreases self.next_id - id, ids.len(),
    {
        let tops = self.tagged(tag);
        let after = self.without_subtrees(tops);
        let keep = outside(tops);
        if ids.len() == 0 {
            assert(self.trees_of(ids) =~= Seq::<Node>::empty());
            assert(after.trees_of(retain(ids, keep)) =~= Seq::<Node>::empty());
        } else {
            let front = ids.drop_last();
            let c = ids.last();
            assert forall|k: int| 0 <= k < front.len() implies self.child_ok(
                id,
                #[trigger] front[k],
            ) by {
                assert(front[k] == ids[k]);
            }
            self.lemma_pruned_children(tag, id, front);
            assert(self.child_ok(id, ids[ids.len() - 1]));
            assert(self.elements.dom().contains(c));
            assert(self.element_ok(c));
            assert(self.trees_of(ids).drop_last() =~= self.trees_of(front));
            assert(self.trees_of(ids).last() == self.tree(c));
            assert(self.tree(c).tag == self.elements[c].tag);
            assert(keep(c) == (self.elements[c].tag != tag));
            if keep(c) {
                assert(!self.under(c, tops));
                self.lemma_tree_pruned(tag, c);
                assert(after.trees_of(retain(front, keep).push(c)) =~= after.trees_of(
                    retain(front, keep),
                ).push(after.tree(c)));
            }
        }
    }

    /// After every element named `tag` has been taken out of a document,
    /// the subtree of an element that stays is its subtree as it was,
    /// without the elements of that name.
    pub proof fn lemma_tree_pruned(self, tag: Seq<char>, id: usize)
        requires
            self.wf(),
            self.has(id),
            !self.under(id, self.tagged(tag)),
        ensures
            self.without_subtrees(self.tagged(tag)).tree(id) == pruned(self.tree(id), tag),
        decreases self.next_id - id, self.elements[id].children.len() + 1,
    {
        let tops = self.tagged(tag);
        let after = self.without_subtrees(tops);
        let e = self.elements[id];
        let kept = retain(e.children, outside(tops));
        assert(self.elements.dom().contains(id));
        assert(self.element_ok(id));
        assert(after.elements.dom().contains(id));
        assert(after.elements[id].children == kept);
        self.lemma_pruned_children(tag, id, e.children);
        lemma_retain(e.children, outside(tops));
        assert(self.tree(id).children =~= self.trees_of(e.children)) by {
            assert forall|k: int| 0 <= k < e.children.len() implies self.tree(id).children[k]
                == self.trees_of(e.children)[k] by {
                assert(self.child_ok(id, e.children[k]));
                assert(self.elements.dom().contains(e.children[k]));
                assert(self.element_ok(e.children[k]));
            }
        }
        assert(after.tree(id).children =~= after.trees_of(kept)) by {
            assert forall|k: int| 0 <= k < kept.len() implies after.tree(id).children[k]
                == after.trees_of(kept)[k] by {
                let c = kept[k];
                assert(kept.contains(c));
                assert(e.children.contains(c));
                let j = choose|j: int| 0 <= j < e.children.len() && e.children[j] == c;
                assert(self.child_ok(id, e.children[j]));
                assert(self.elements.dom().contains(c));
                assert(self.element_ok(c));
            }
        }
    }

    /// After every element named `tag` has been taken out of a document,
    /// the subtree of its root is that subtree as it was, without the
    /// elements of that name; a root of that name is gone.
    pub proof fn lemma_root_pruned(self, tag: Seq<char>)
        requires
            self.wf(),
        ensures
            self.without_subtrees(self.tagged(tag)).root_tree() == pruned_root(
                self.root_tree(),
                tag,
            ),
    {
        match self.root_id {
            Some(root) => {
                assert(self.elements.dom().contains(root));
                assert(self.element_ok(root));
                assert(self.tree(root).tag == self.elements[root].tag);
                if self.elements[root].tag != tag {
                    assert(!self.under(root, self.tagged(tag))) by {
                        assert(!self.has(0)) by {
                            if self.elements.dom().contains(0) {
                                assert(self.element_ok(0));
                            }
                        }
                        assert(!self.under(0, self.tagged(tag)));
                    }
                    self.lemma_tree_pruned(tag, root);
                }
            },
            None => {},
        }
    }
}

} // verus!
