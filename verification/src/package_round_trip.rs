//! Writing and reading relationships and content types agree: the
//! elements that are written of them read back as what was written.

use vstd::prelude::*;
use crate::content_types::{default_node, override_node, pair_step, read_pairs, types_node};
use crate::relations::{
    RelationshipModel, read_relationship, read_relationships, relationship_node,
    relationship_nodes, relationship_step,
};
use crate::style_read::fold_all;
use crate::style_round_trip::{
    entry_names, lemma_fold_both, lemma_fold_push, lemma_listed_all, lemma_listed_push, listed_all,
};
use crate::xml_node::Node;
use crate::xml_tree::attribute_in;

verus! {

/// The attributes of a relationship, each name with the value that it has,
/// if any.
pub open spec fn relationship_entries(relationship: RelationshipModel) -> Seq<
    (Seq<char>, Option<Seq<char>>),
> {
    seq![
        ("Id"@, Some(relationship.id)),
        ("Target"@, Some(relationship.target)),
        ("Type"@, Some(relationship.kind)),
        ("TargetMode"@, relationship.target_mode),
    ]
}

/// A relationship's element reads back as the relationship.
pub proof fn lemma_read_relationship(relationship: RelationshipModel)
    ensures
        read_relationship(relationship_node(relationship)) == Some(relationship),
        relationship_node(relationship).tag == "Relationship"@,
{
    reveal_strlit("Id");
    reveal_strlit("Target");
    reveal_strlit("Type");
    reveal_strlit("TargetMode");
    assert("Id"@.len() == 2 && "Target"@.len() == 6 && "Type"@.len() == 4 && "TargetMode"@.len()
        == 10);
    let entries = relationship_entries(relationship);
    let names = entry_names(entries);
    assert(names[0] == "Id"@ && names[1] == "Target"@ && names[2] == "Type"@ && names[3]
        == "TargetMode"@);
    let none = Seq::<(Seq<char>, Option<Seq<char>>)>::empty();
    let c1 = none + seq![entries[0]];
    let c2 = c1 + seq![entries[1]];
    let c3 = c2 + seq![entries[2]];
    let c4 = c3 + seq![entries[3]];
    assert(listed_all(none) =~= Seq::<(Seq<char>, Seq<char>)>::empty());
    lemma_listed_push(none, entries[0]);
    lemma_listed_push(c1, entries[1]);
    lemma_listed_push(c2, entries[2]);
    lemma_listed_push(c3, entries[3]);
    assert(c4 =~= entries);
    assert(listed_all(entries) =~= relationship_node(relationship).attributes);
    lemma_listed_all(entries, "Id"@);
    lemma_listed_all(entries, "Target"@);
    lemma_listed_all(entries, "Type"@);
    lemma_listed_all(entries, "TargetMode"@);
    assert(entries[0].0 == "Id"@ && entries[1].0 == "Target"@ && entries[2].0 == "Type"@
        && entries[3].0 == "TargetMode"@);
}

/// Nodes of which none is named `Relationship` hold no relationship.
pub proof fn lemma_no_relationships(nodes: Seq<Node>)
    requires
        forall|i: int| 0 <= i < nodes.len() ==> (#[trigger] nodes[i]).tag != "Relationship"@,
    ensures
        read_relationships(nodes) == Some(Seq::<RelationshipModel>::empty()),
    decreases nodes.len(),
{
    if nodes.len() > 0 {
        lemma_no_relationships(nodes.drop_last());
        assert(nodes.last() == nodes[nodes.len() - 1]);
    }
}

/// Round trip of relationships: the elements that are written of
/// relationships behind the children of the root of a relationships file
/// read back as the relationships, in their order, where the root held no
/// element named `Relationship` before. So a relationships file that is
/// saved and opened again has the relationships that were saved.
pub proof fn lemma_saved_relationships_read_back(prior: Seq<Node>, list: Seq<RelationshipModel>)
    requires
        forall|i: int| 0 <= i < prior.len() ==> (#[trigger] prior[i]).tag != "Relationship"@,
    ensures
        read_relationships(prior + relationship_nodes(list)) == Some(list),
    decreases list.len(),
{
    let step = |l: Seq<RelationshipModel>, child: Node| relationship_step(l, child);
    let nodes = relationship_nodes(list);
    if list.len() == 0 {
        lemma_no_relationships(prior);
        assert(prior + nodes =~= prior);
        assert(list =~= Seq::<RelationshipModel>::empty());
    } else {
        let front = list.drop_last();
        let last = list.last();
        lemma_saved_relationships_read_back(prior, front);
        lemma_read_relationship(last);
        assert(prior + nodes =~= (prior + relationship_nodes(front)) + seq![
            relationship_node(last),
        ]);
        lemma_fold_push(
            prior + relationship_nodes(front),
            relationship_node(last),
            Seq::<RelationshipModel>::empty(),
            step,
        );
        assert(front.push(last) =~= list);
    }
}

/// Taking in the elements of pairs, each of which is named `tag` and has
/// the pair's values as its attributes `first` and `second`, puts the
/// pairs behind what there was.
pub proof fn lemma_read_pairs_written(
    nodes: Seq<Node>,
    pairs: Seq<(Seq<char>, Seq<char>)>,
    init: Seq<(Seq<char>, Seq<char>)>,
    tag: Seq<char>,
    first: Seq<char>,
    second: Seq<char>,
)
    requires
        nodes.len() == pairs.len(),
        forall|i: int|
            0 <= i < nodes.len() ==> (#[trigger] nodes[i]).tag == tag && nodes[i].attribute(first)
                == Some(pairs[i].0) && nodes[i].attribute(second) == Some(pairs[i].1),
    ensures
        fold_all(
            nodes,
            init,
            |list: Seq<(Seq<char>, Seq<char>)>, child: Node|
                pair_step(list, child, tag, first, second),
        ) == Some(init + pairs),
    decreases nodes.len(),
{
    if nodes.len() == 0 {
        assert(init + pairs =~= init);
    } else {
        lemma_read_pairs_written(nodes.drop_last(), pairs.drop_last(), init, tag, first, second);
        assert(nodes.last() == nodes[nodes.len() - 1]);
        assert((init + pairs.drop_last()).push(pairs.last()) =~= init + pairs);
    }
}

/// Taking in nodes of which none is named `tag` leaves what there was.
pub proof fn lemma_read_pairs_skipped(
    nodes: Seq<Node>,
    init: Seq<(Seq<char>, Seq<char>)>,
    tag: Seq<char>,
    first: Seq<char>,
    second: Seq<char>,
)
    requires
        forall|i: int| 0 <= i < nodes.len() ==> (#[trigger] nodes[i]).tag != tag,
    ensures
        fold_all(
            nodes,
            init,
            |list: Seq<(Seq<char>, Seq<char>)>, child: Node|
                pair_step(list, child, tag, first, second),
        ) == Some(init),
    decreases nodes.len(),
{
    if nodes.len() > 0 {
        lemma_read_pairs_skipped(nodes.drop_last(), init, tag, first, second);
        assert(nodes.last() == nodes[nodes.len() - 1]);
    }
}

/// Round trip of content types: the manifest that is written of
/// extensions and parts reads back as those extensions and those parts,
/// in their order. So a manifest that is saved and opened again names
/// what was saved.
pub proof fn lemma_saved_content_types_read_back(
    extensions: Seq<(Seq<char>, Seq<char>)>,
    overrides: Seq<(Seq<char>, Seq<char>)>,
)
    ensures
        read_pairs(
            types_node(extensions, overrides).children,
            "Default"@,
            "Extension"@,
            "ContentType"@,
        ) == Some(extensions),
        read_pairs(
            types_node(extensions, overrides).children,
            "Override"@,
            "PartName"@,
            "ContentType"@,
        ) == Some(overrides),
{
    reveal_strlit("Default");
    reveal_strlit("Override");
    reveal_strlit("Extension");
    reveal_strlit("PartName");
    reveal_strlit("ContentType");
    assert("Default"@.len() == 7 && "Override"@.len() == 8 && "Extension"@.len() == 9
        && "PartName"@.len() == 8 && "ContentType"@.len() == 11);
    let defaults = Seq::new(extensions.len(), |i: int| default_node(extensions[i]));
    let parts = Seq::new(overrides.len(), |i: int| override_node(overrides[i]));
    let none = Seq::<(Seq<char>, Seq<char>)>::empty();
    assert(types_node(extensions, overrides).children == defaults + parts);
    assert forall|i: int| 0 <= i < defaults.len() implies (#[trigger] defaults[i]).tag
        == "Default"@ && defaults[i].attribute("Extension"@) == Some(extensions[i].0)
        && defaults[i].attribute("ContentType"@) == Some(extensions[i].1) by {
        let a = defaults[i].attributes;
        assert(a[0] == ("Extension"@, extensions[i].0));
        assert(a.drop_first()[0] == ("ContentType"@, extensions[i].1));
        assert(attribute_in(a.drop_first(), "ContentType"@) == Some(extensions[i].1));
    }
    assert forall|i: int| 0 <= i < parts.len() implies (#[trigger] parts[i]).tag == "Override"@
        && parts[i].attribute("PartName"@) == Some(overrides[i].0) && parts[i].attribute(
        "ContentType"@,
    ) == Some(overrides[i].1) by {
        let a = parts[i].attributes;
        assert(a[0] == ("PartName"@, overrides[i].0));
        assert(a.drop_first()[0] == ("ContentType"@, overrides[i].1));
        assert(attribute_in(a.drop_first(), "ContentType"@) == Some(overrides[i].1));
    }
    let default_step = |list: Seq<(Seq<char>, Seq<char>)>, child: Node|
        pair_step(list, child, "Default"@, "Extension"@, "ContentType"@);
    let override_step = |list: Seq<(Seq<char>, Seq<char>)>, child: Node|
        pair_step(list, child, "Override"@, "PartName"@, "ContentType"@);
    lemma_fold_both(defaults, parts, none, default_step);
    lemma_read_pairs_written(defaults, extensions, none, "Default"@, "Extension"@, "ContentType"@);
    lemma_read_pairs_skipped(parts, none + extensions, "Default"@, "Extension"@, "ContentType"@);
    assert(none + extensions =~= extensions);
    lemma_fold_both(defaults, parts, none, override_step);
    lemma_read_pairs_skipped(defaults, none, "Override"@, "PartName"@, "ContentType"@);
    lemma_read_pairs_written(parts, overrides, none, "Override"@, "PartName"@, "ContentType"@);
    assert(none + overrides =~= overrides);
}

} // verus!
