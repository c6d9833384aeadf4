//! Writing a document as XML text: the prolog, then the root element with
//! its attributes in the order of writing and its children in document
//! order.

use vstd::prelude::*;
use vstd::string::*;
use vstd::utf8::encode_utf8;
use crate::error::OfficeError;
use crate::text::chars_of;
use crate::xml_document::{DocumentModel, XmlDocument};
use crate::xml_node::Node;
use crate::xml_tree::XmlElement;

verus! {

/// What stands for the character `c` in attribute values and text: itself,
/// or an entity for the four characters that markup uses.
pub open spec fn escaped_char(c: char) -> Seq<char> {
    if c == '&' {
        "&amp;"@
    } else if c == '<' {
        "&lt;"@
    } else if c == '>' {
        "&gt;"@
    } else if c == '"' {
        "&quot;"@
    } else {
        seq![c]
    }
}

/// The text `s` with every character of markup replaced by its entity.
pub open spec fn escaped(s: Seq<char>) -> Seq<char>
    decreases s.len(),
{
    if s.len() == 0 {
        Seq::empty()
    } else {
        escaped(s.drop_last()) + escaped_char(s.last())
    }
}

/// One attribute as it is written: a space, the name, and the value in
/// double quotes.
pub open spec fn attribute_text(name: Seq<char>, value: Seq<char>) -> Seq<char> {
    seq![' '] + name + seq!['=', '"'] + escaped(value) + seq!['"']
}

/// The attributes as they are written, in their order.
pub open spec fn attributes_text(attributes: Seq<(Seq<char>, Seq<char>)>) -> Seq<char>
    decreases attributes.len(),
{
    if attributes.len() == 0 {
        Seq::empty()
    } else {
        attributes_text(attributes.drop_last()) + attribute_text(
            attributes.last().0,
            attributes.last().1,
        )
    }
}

/// The tag that opens an element, or that stands for the whole element
/// where `close` is set.
pub open spec fn open_tag_text(
    tag: Seq<char>,
    attributes: Seq<(Seq<char>, Seq<char>)>,
    close: bool,
) -> Seq<char> {
    seq!['<'] + tag + attributes_text(attributes) + if close {
        seq!['/', '>']
    } else {
        seq!['>']
    }
}

/// What follows an element's opening tag where it has text: the text and
/// the closing tag.
pub open spec fn value_close_text(value: Seq<char>, tag: Seq<char>) -> Seq<char> {
    escaped(value) + seq!['<', '/'] + tag + seq!['>']
}

/// A subtree as XML text. An element with a value is written with that
/// value between its tags; one with neither value nor children as a
/// self-closing tag; any other with its children between its tags.
pub open spec fn node_text(node: Node) -> Seq<char>
    decreases node,
{
    if node.value is Some {
        open_tag_text(node.tag, node.attributes, false) + value_close_text(
            node.value->0,
            node.tag,
        )
    } else if node.children.len() == 0 {
        open_tag_text(node.tag, node.attributes, true)
    } else {
        open_tag_text(node.tag, node.attributes, false) + nodes_text(node.children)
            + value_close_text(Seq::empty(), node.tag)
    }
}

/// The subtrees of `nodes` as XML text, one behind the other.
pub open spec fn nodes_text(nodes: Seq<Node>) -> Seq<char>
    decreases nodes,
{
    if nodes.len() == 0 {
        Seq::empty()
    } else {
        nodes_text(nodes.drop_last()) + node_text(nodes.last())
    }
}

/// The prolog that every written document starts with.
pub open spec fn prolog_text() -> Seq<char> {
    "<?xml version=\"1.0\" encoding=\"UTF-8\" standalone=\"yes\"?>"@
}

/// A document as XML text: the prolog, and behind it the root's subtree
/// where the document has a root.
pub open spec fn document_text(document: DocumentModel) -> Seq<char> {
    match document.parent_or_root(None) {
        Some(root) => prolog_text() + node_text(document.tree(root)),
        None => prolog_text(),
    }
}

/// Appends the text `s` to `out`, its characters of markup as entities.
pub fn push_escaped(s: &str, out: &mut String)
    ensures
        final(out)@ == old(out)@ + escaped(s@),
{
    let v = chars_of(s);
    let mut i: usize = 0;
    assert(old(out)@ + escaped(v@.take(0)) == old(out)@);
    while i < v.len()
        invariant
            i <= v.len(),
            v@ == s@,
            out@ == old(out)@ + escaped(v@.take(i as int)),
        decreases v.len() - i,
    {
        let c = v[i];
        let ghost before = out@;
        proof {
            let t = v@.take(i + 1);
            assert(t.drop_last() == v@.take(i as int));
            assert(t.last() == c);
        }
        if c == '&' {
            out.append("&amp;");
        } else if c == '<' {
            out.append("&lt;");
        } else if c == '>' {
            out.append("&gt;");
        } else if c == '"' {
            out.append("&quot;");
        } else {
            out.push(c);
            assert(before.push(c) == before + seq![c]);
        }
        assert(out@ == before + escaped_char(c));
        assert(out@ == old(out)@ + (escaped(v@.take(i as int)) + escaped_char(c)));
        i += 1;
    }
    assert(v@.take(i as int) == v@);
}

/// Writes documents as XML text.
pub struct XmlDeSerializer {}

impl XmlDeSerializer {
    /// The document as the bytes of its XML text, in UTF-8.
    pub fn xml_tree_to_vec(xml_document: &XmlDocument) -> (res: Result<Vec<u8>, OfficeError>)
        requires
            xml_document.wf(),
        ensures
            res matches Ok(bytes) && bytes@ == encode_utf8(document_text(xml_document@)),
    {
        let mut xml_content = String::new();
        xml_content.append("<?xml version=\"1.0\" encoding=\"UTF-8\" standalone=\"yes\"?>");
        assert(xml_content@ == prolog_text());
        match xml_document.get_root_id() {
            Some(root) => {
                if xml_document.get_element(root).is_some() {
                    Self::build_xml_tree(xml_document, root, &mut xml_content);
                }
            },
            None => {},
        }
        Ok(xml_content.as_str().as_bytes_vec())
    }

    /// Appends the text of the subtree of the element `id` to
    /// `master_string`.
    fn build_xml_tree(xml_document: &XmlDocument, id: usize, master_string: &mut String)
        requires
            xml_document.wf(),
            xml_document@.has(id),
        ensures
            final(master_string)@ == old(master_string)@ + node_text(xml_document@.tree(id)),
        decreases xml_document@.next_id - id,
    {
        let ghost model = xml_document@;
        let ghost node = model.tree(id);
        let element = match xml_document.get_element(id) {
            Some(e) => e,
            None => {
                return ;
            },
        };
        proof {
            assert(model.elements.dom().contains(id));
            assert(model.element_ok(id));
        }
        if element.is_empty_tag() {
            let text = Self::generate_xml_element(element, true);
            master_string.append(text.as_str());
            assert(node.children.len() == 0);
            return ;
        }
        let text = Self::generate_xml_element(element, false);
        master_string.append(text.as_str());
        match element.get_value() {
            Some(value) => {
                let close = Self::generate_xml_value_close(value.as_str(), element);
                master_string.append(close.as_str());
                assert(final(master_string)@ == old(master_string)@ + (open_tag_text(
                    node.tag,
                    node.attributes,
                    false,
                ) + value_close_text(node.value->0, node.tag)));
            },
            None => {
                let ghost opened = master_string@;
                let children = element.get_children();
                let mut k: usize = 0;
                assert(node.children.take(0) == Seq::<Node>::empty());
                assert(opened + nodes_text(node.children.take(0)) == opened);
                while k < children.len()
                    invariant
                        k <= children.len(),
                        xml_document.wf(),
                        model == xml_document@,
                        model.has(id),
                        model.element_ok(id),
                        node == model.tree(id),
                        children@ == model.elements[id].children,
                        master_string@ == opened + nodes_text(node.children.take(k as int)),
                    decreases children.len() - k,
                {
                    let c = children[k];
                    proof {
                        assert(model.child_ok(id, children@[k as int]));
                        let t = node.children.take(k + 1);
                        assert(t.drop_last() == node.children.take(k as int));
                        assert(t.last() == model.tree(c));
                    }
                    let ghost before = master_string@;
                    Self::build_xml_tree(xml_document, c, master_string);
                    assert(master_string@ == opened + (nodes_text(node.children.take(k as int))
                        + node_text(model.tree(c))));
                    k += 1;
                }
                assert(node.children.take(k as int) == node.children);
                let close = Self::generate_xml_value_close("", element);
                master_string.append(close.as_str());
                proof {
                    assert(""@ =~= Seq::<char>::empty()) by {
                        reveal_strlit("");
                    }
                    assert(final(master_string)@ == old(master_string)@ + (open_tag_text(
                        node.tag,
                        node.attributes,
                        false,
                    ) + nodes_text(node.children) + value_close_text(Seq::empty(), node.tag)));
                }
            },
        }
    }

    /// The tag that opens `xml_element`, or that stands for the whole
    /// element where `close` is set.
    fn generate_xml_element(xml_element: &XmlElement, close: bool) -> (text: String)
        ensures
            text@ == open_tag_text(xml_element@.tag, xml_element@.attributes, close),
    {
        let mut element_tag = String::new();
        element_tag.push('<');
        element_tag.append(xml_element.get_tag());
        let attributes = xml_element.attribute_list();
        let ghost head = element_tag@;
        let ghost all = xml_element@.attributes;
        assert(head == seq!['<'] + xml_element@.tag);
        assert(head + attributes_text(all.take(0)) == head);
        let mut i: usize = 0;
        while i < attributes.len()
            invariant
                i <= attributes.len(),
                all == xml_element@.attributes,
                all == crate::xml_tree::pairs_view(attributes@),
                element_tag@ == head + attributes_text(all.take(i as int)),
            decreases attributes.len() - i,
        {
            let ghost before = element_tag@;
            proof {
                let t = all.take(i + 1);
                assert(t.drop_last() == all.take(i as int));
                assert(t.last() == (attributes@[i as int].0@, attributes@[i as int].1@));
            }
            element_tag.push(' ');
            element_tag.append(attributes[i].0.as_str());
            element_tag.push('=');
            element_tag.push('"');
            push_escaped(attributes[i].1.as_str(), &mut element_tag);
            element_tag.push('"');
            assert(element_tag@ == before + attribute_text(
                attributes@[i as int].0@,
                attributes@[i as int].1@,
            ));
            assert(element_tag@ == head + (attributes_text(all.take(i as int)) + attribute_text(
                attributes@[i as int].0@,
                attributes@[i as int].1@,
            )));
            i += 1;
        }
        assert(all.take(i as int) == all);
        let ghost listed = element_tag@;
        if close {
            element_tag.push('/');
            element_tag.push('>');
            assert(element_tag@ == listed + seq!['/', '>']);
        } else {
            element_tag.push('>');
            assert(element_tag@ == listed + seq!['>']);
        }
        element_tag
    }

    /// The text `value` and the tag that closes `xml_element`.
    fn generate_xml_value_close(value: &str, xml_element: &XmlElement) -> (text: String)
        ensures
            text@ == value_close_text(value@, xml_element@.tag),
    {
        let mut text = String::new();
        push_escaped(value, &mut text);
        let ghost body = text@;
        text.push('<');
        text.push('/');
        text.append(xml_element.get_tag());
        text.push('>');
        assert(text@ == body + seq!['<', '/'] + xml_element@.tag + seq!['>']);
        assert(body == escaped(value@));
        text
    }
}

} // verus!
