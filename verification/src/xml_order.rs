//! Laws of putting nodes in the order of a schema: the order is kept
//! when it is asked for again, and it does not matter whether elements
//! of one name are taken out before or after.

use vstd::prelude::*;
use crate::xml_node::{Node, node_has_rank, nodes_by_rank, ordered_nodes, retain_nodes};
use crate::xml_prune::{lemma_pruned_all_both, pruned, pruned_all};

verus! {

/// What is kept of two lists of nodes is what is kept of each.
pub proof fn lemma_retain_both(first: Seq<Node>, second: Seq<Node>, keep: spec_fn(Node) -> bool)
    ensures
        retain_nodes(first + second, keep) == retain_nodes(first, keep) + retain_nodes(
            second,
            keep,
        ),
    decreases second.len(),
{
    if second.len() == 0 {
        assert(first + second =~= first);
        assert(retain_nodes(first, keep) + retain_nodes(second, keep) =~= retain_nodes(
            first,
            keep,
        ));
    } else {
        lemma_retain_both(first, second.drop_last(), keep);
        assert((first + second).drop_last() =~= first + second.drop_last());
        assert((first + second).last() == second.last());
        if keep(second.last()) {
            assert((retain_nodes(first, keep) + retain_nodes(second.drop_last(), keep)).push(
                second.last(),
            ) =~= retain_nodes(first, keep) + retain_nodes(second, keep));
        }
    }
}

/// Of what is kept by one rank, everything is kept by that rank and
/// nothing by another.
pub proof fn lemma_retain_by_rank_again(nodes: Seq<Node>, order: Seq<Seq<char>>, r: nat, q: nat)
    ensures
        retain_nodes(retain_nodes(nodes, node_has_rank(order, r)), node_has_rank(order, q)) == (
        if r == q {
            retain_nodes(nodes, node_has_rank(order, r))
        } else {
            Seq::<Node>::empty()
        }),
    decreases nodes.len(),
{
    let by_r = node_has_rank(order, r);
    let by_q = node_has_rank(order, q);
    if nodes.len() == 0 {
        assert(retain_nodes(nodes, by_r) =~= Seq::<Node>::empty());
    } else {
        lemma_retain_by_rank_again(nodes.drop_last(), order, r, q);
        let front = retain_nodes(nodes.drop_last(), by_r);
        if by_r(nodes.last()) {
            assert(front.push(nodes.last()).drop_last() =~= front);
            assert(front.push(nodes.last()).last() == nodes.last());
        }
    }
}

/// Of nodes in order by rank, those of one rank are those of that rank
/// as they stood, where the rank is among the ranks put in order.
pub proof fn lemma_retain_of_ranked(nodes: Seq<Node>, order: Seq<Seq<char>>, bound: nat, q: nat)
    ensures
        retain_nodes(nodes_by_rank(nodes, order, bound), node_has_rank(order, q)) == (if q
            < bound {
            retain_nodes(nodes, node_has_rank(order, q))
        } else {
            Seq::<Node>::empty()
        }),
    decreases bound,
{
    let by_q = node_has_rank(order, q);
    if bound == 0 {
        assert(nodes_by_rank(nodes, order, bound) =~= Seq::<Node>::empty());
    } else {
        let r = (bound - 1) as nat;
        lemma_retain_of_ranked(nodes, order, r, q);
        lemma_retain_both(
            nodes_by_rank(nodes, order, r),
            retain_nodes(nodes, node_has_rank(order, r)),
            by_q,
        );
        lemma_retain_by_rank_again(nodes, order, r, q);
        let a = retain_nodes(nodes_by_rank(nodes, order, r), by_q);
        let b = retain_nodes(retain_nodes(nodes, node_has_rank(order, r)), by_q);
        if q < r {
            assert(a + b =~= a);
        } else if q == r {
            assert(a + b =~= b);
        } else {
            assert(a + b =~= Seq::<Node>::empty());
        }
    }
}

/// Nodes that stand behind nodes in order are put in order as they would
/// be behind those nodes as they stood.
pub proof fn lemma_ranked_again(
    first: Seq<Node>,
    second: Seq<Node>,
    order: Seq<Seq<char>>,
    bound: nat,
)
    requires
        bound <= order.len() + 1,
    ensures
        nodes_by_rank(ordered_nodes(first, order) + second, order, bound) == nodes_by_rank(
            first + second,
            order,
            bound,
        ),
    decreases bound,
{
    if bound > 0 {
        let r = (bound - 1) as nat;
        let by_r = node_has_rank(order, r);
        lemma_ranked_again(first, second, order, r);
        lemma_retain_both(ordered_nodes(first, order), second, by_r);
        lemma_retain_both(first, second, by_r);
        lemma_retain_of_ranked(first, order, order.len() + 1, r);
    }
}

/// Putting in order a second time: nodes that stand behind nodes in order
/// come into the order that they would have behind those nodes as they
/// stood.
pub proof fn lemma_ordered_again(first: Seq<Node>, second: Seq<Node>, order: Seq<Seq<char>>)
    ensures
        ordered_nodes(ordered_nodes(first, order) + second, order) == ordered_nodes(
            first + second,
            order,
        ),
{
    lemma_ranked_again(first, second, order, order.len() + 1);
}

/// Taking the elements named `tag` out of the nodes of one rank gives the
/// nodes of that rank of what is left.
pub proof fn lemma_pruned_retained(nodes: Seq<Node>, order: Seq<Seq<char>>, r: nat, tag: Seq<char>)
    ensures
        pruned_all(retain_nodes(nodes, node_has_rank(order, r)), tag) == retain_nodes(
            pruned_all(nodes, tag),
            node_has_rank(order, r),
        ),
    decreases nodes.len(),
{
    let by_r = node_has_rank(order, r);
    if nodes.len() == 0 {
        assert(retain_nodes(nodes, by_r) =~= Seq::<Node>::empty());
        assert(pruned_all(nodes, tag) =~= Seq::<Node>::empty());
    } else {
        let front = nodes.drop_last();
        let last = nodes.last();
        lemma_pruned_retained(front, order, r, tag);
        assert(by_r(pruned(last, tag)) == by_r(last));
        if by_r(last) {
            let kept = retain_nodes(front, by_r);
            assert(kept.push(last).drop_last() =~= kept);
            assert(kept.push(last).last() == last);
        }
        if last.tag != tag {
            let left = pruned_all(front, tag);
            assert(left.push(pruned(last, tag)).drop_last() =~= left);
            assert(left.push(pruned(last, tag)).last() == pruned(last, tag));
        }
    }
}

/// Taking the elements named `tag` out of nodes in order by rank gives
/// what is left of the nodes, in order by rank.
pub proof fn lemma_pruned_ranked(nodes: Seq<Node>, order: Seq<Seq<char>>, bound: nat, tag: Seq<char>)
    ensures
        pruned_all(nodes_by_rank(nodes, order, bound), tag) == nodes_by_rank(
            pruned_all(nodes, tag),
            order,
            bound,
        ),
    decreases bound,
{
    if bound == 0 {
        assert(nodes_by_rank(nodes, order, bound) =~= Seq::<Node>::empty());
    } else {
        let r = (bound - 1) as nat;
        lemma_pruned_ranked(nodes, order, r, tag);
        lemma_pruned_retained(nodes, order, r, tag);
        lemma_pruned_all_both(
            nodes_by_rank(nodes, order, r),
            retain_nodes(nodes, node_has_rank(order, r)),
            tag,
        );
    }
}

/// It does not matter whether the elements named `tag` are taken out of
/// nodes before or after the nodes are put in order.
pub proof fn lemma_pruned_ordered(nodes: Seq<Node>, order: Seq<Seq<char>>, tag: Seq<char>)
    ensures
        pruned_all(ordered_nodes(nodes, order), tag) == ordered_nodes(
            pruned_all(nodes, tag),
            order,
        ),
{
    lemma_pruned_ranked(nodes, order, order.len() + 1, tag);
}

} // verus!
