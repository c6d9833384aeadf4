//! What holds of every tree that is read from XML text: its names can
//! name, and no element of it has both a value and children. So what is
//! read can be written and read again.

use vstd::prelude::*;
use crate::office_document::{parsed, text_bytes};
use crate::xml_deserialize::{node_text, prolog_text};
use crate::xml_grammar::{
    is_name_char, name_end, parse_attributes, parse_content, parse_element, skip_spaces,
};
use crate::xml_node::Node;
use crate::xml_round_trip::{
    attributes_valid, is_attribute_name, is_name, lemma_parse_written, node_valid,
};
use crate::xml_sound::{is_settled, lemma_settled_is_canonical};

verus! {

/// The attributes that are read from `pos` on.
pub open spec fn attributes_at(s: Seq<char>, pos: nat) -> Seq<(Seq<char>, Seq<char>)> {
    match parse_attributes(s, pos) {
        Some((attributes, _)) => attributes,
        None => Seq::empty(),
    }
}

/// The place behind the attributes that are read from `pos` on.
pub open spec fn attributes_end(s: Seq<char>, pos: nat) -> nat {
    match parse_attributes(s, pos) {
        Some((_, after)) => after,
        None => pos,
    }
}

/// The element that is read at `pos`.
pub open spec fn element_at(s: Seq<char>, pos: nat) -> Node {
    match parse_element(s, pos) {
        Some((node, _)) => node,
        None => Node::leaf(Seq::empty()),
    }
}

/// The place behind the element that is read at `pos`.
pub open spec fn element_end(s: Seq<char>, pos: nat) -> nat {
    match parse_element(s, pos) {
        Some((_, after)) => after,
        None => pos,
    }
}

/// Where a name ends: not before its first place, and every place up to
/// there holds a character of a name.
pub proof fn lemma_name_end_chars(s: Seq<char>, pos: nat)
    ensures
        pos <= name_end(s, pos),
        name_end(s, pos) > pos ==> name_end(s, pos) <= s.len(),
        forall|i: int| pos <= i < name_end(s, pos) ==> is_name_char(#[trigger] s[i]),
    decreases s.len() - pos,
{
    if pos < s.len() && is_name_char(s[pos as int]) {
        lemma_name_end_chars(s, pos + 1);
    }
}

/// What stands where a name was found is a name.
pub proof fn lemma_name_found(s: Seq<char>, pos: nat)
    requires
        name_end(s, pos) > pos,
    ensures
        is_name(s.subrange(pos as int, name_end(s, pos) as int)),
        s.subrange(pos as int, name_end(s, pos) as int)[0] == s[pos as int],
{
    lemma_name_end_chars(s, pos);
    let name = s.subrange(pos as int, name_end(s, pos) as int);
    assert forall|i: int| 0 <= i < name.len() implies is_name_char(#[trigger] name[i]) by {
        assert(name[i] == s[pos + i]);
    }
}

/// White space is passed over forwards.
pub proof fn lemma_skip_spaces_forward(s: Seq<char>, pos: nat)
    ensures
        pos <= skip_spaces(s, pos),
    decreases s.len() - pos,
{
    if pos < s.len() && crate::xml_grammar::is_space(s[pos as int]) {
        lemma_skip_spaces_forward(s, pos + 1);
    }
}

/// The attributes that are read have names that can name attributes.
pub proof fn lemma_parsed_attributes_valid(s: Seq<char>, pos: nat)
    requires
        parse_attributes(s, pos) is Some,
    ensures
        attributes_valid(attributes_at(s, pos)),
    decreases s.len() - pos,
{
    let start = skip_spaces(s, pos);
    if s[start as int] == '>' || s[start as int] == '/' || s[start as int] == '?' {
    } else {
        let end = name_end(s, start);
        let equals = skip_spaces(s, end);
        let quote = skip_spaces(s, equals + 1);
        let close = crate::xml_grammar::find_char(s, quote + 1, s[quote as int]);
        lemma_name_end_chars(s, start);
        lemma_name_found(s, start);
        lemma_parsed_attributes_valid(s, close + 1);
        let name = s.subrange(start as int, end as int);
        let rest = attributes_at(s, close + 1);
        let all = attributes_at(s, pos);
        assert(is_attribute_name(name));
        assert forall|i: int| 0 <= i < all.len() implies is_attribute_name(
            (#[trigger] all[i]).0,
        ) by {
            if i > 0 {
                assert(all[i] == rest[i - 1]);
            }
        }
    }
}

/// The element that is read has names that can name, and no element of it
/// has both a value and children.
pub proof fn lemma_parsed_element_valid(s: Seq<char>, pos: nat)
    requires
        parse_element(s, pos) is Some,
    ensures
        node_valid(element_at(s, pos)),
        is_settled(element_at(s, pos)),
    decreases s.len() - pos, 0nat,
{
    let name_to = name_end(s, pos + 1);
    lemma_name_end_chars(s, pos + 1);
    lemma_name_found(s, pos + 1);
    lemma_parsed_attributes_valid(s, name_to);
    let after = attributes_end(s, name_to);
    let node = element_at(s, pos);
    if s[after as int] == '/' {
        assert(node.children =~= Seq::<Node>::empty());
    } else {
        lemma_parsed_content_valid(s, after + 1);
    }
}

/// The children that are read between the tags of an element have names
/// that can name, and no element of them has both a value and children.
pub proof fn lemma_parsed_content_valid(s: Seq<char>, pos: nat)
    requires
        parse_content(s, pos) is Some,
    ensures
        forall|i: int|
            0 <= i < parse_content(s, pos)->0.children.len() ==> node_valid(
                #[trigger] parse_content(s, pos)->0.children[i],
            ) && is_settled(parse_content(s, pos)->0.children[i]),
    decreases s.len() - pos, 1nat,
{
    let open = crate::xml_grammar::find_char(s, pos, '<');
    let content = parse_content(s, pos)->0;
    if crate::xml_grammar::starts_at(s, open, "</"@) {
    } else if crate::xml_grammar::starts_at(s, open, "<!--"@) {
        let close = crate::text::first_occurrence_from(s, "-->"@, open + 4)->0;
        lemma_parsed_content_valid(s, close + 3);
    } else if crate::xml_grammar::starts_at(s, open, "<?"@) {
        let close = crate::text::first_occurrence_from(s, "?>"@, open + 2)->0;
        lemma_parsed_content_valid(s, close + 2);
    } else {
        lemma_parsed_element_valid(s, open);
        let child = element_at(s, open);
        let after = element_end(s, open);
        lemma_parsed_content_valid(s, after);
        let rest = parse_content(s, after)->0;
        assert forall|i: int| 0 <= i < content.children.len() implies node_valid(
            #[trigger] content.children[i],
        ) && is_settled(content.children[i]) by {
            if i > 0 {
                assert(content.children[i] == rest.children[i - 1]);
            }
        }
    }
}

/// Every document that is read can be written and read again: the names
/// in its tree can name, and no element of it has both a value and
/// children.
pub proof fn lemma_parsed_is_valid(bytes: Seq<u8>)
    requires
        parsed(bytes) is Some,
    ensures
        node_valid(parsed(bytes)->0),
        is_settled(parsed(bytes)->0),
{
    let s = vstd::utf8::decode_utf8(bytes);
    let start = crate::xml_grammar::skip_misc(s, 0)->0;
    lemma_parsed_element_valid(s, start);
}

/// What is read of a document is written and read again as it is: the
/// text that is written of the tree gives the tree, children in their
/// order.
pub proof fn lemma_read_document_writes_back(bytes: Seq<u8>)
    requires
        parsed(bytes) is Some,
    ensures
        parsed(text_bytes(parsed(bytes))) == parsed(bytes),
{
    let root = parsed(bytes)->0;
    let text = prolog_text() + node_text(root);
    lemma_parsed_is_valid(bytes);
    lemma_settled_is_canonical(root);
    lemma_parse_written(root);
    vstd::utf8::encode_utf8_valid_utf8(text);
    vstd::utf8::encode_utf8_decode_utf8(text);
}

} // verus!
