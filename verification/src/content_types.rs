//! The content-types manifest of a package: which content type goes with
//! which extension (`Default`) and with which part (`Override`).

use vstd::prelude::*;
use vstd::utf8::encode_utf8;
use crate::element_dictionary::content_types_content;
use crate::error::OfficeError;
use crate::style_read::{fold_all, lemma_fold_none, root_children};
use crate::text::{concat, str_eq};
use crate::xml_deserialize::{XmlDeSerializer, node_text, prolog_text};
use crate::xml_document::{DocumentModel, XmlDocument};
use crate::xml_node::{Node, XmlNode};
use crate::xml_serialize::XmlSerializer;
use crate::xml_tree::{attribute_in, find_attribute, opt_text_ref, pairs_view};

verus! {

/// The pairs after one child of a manifest's root has been read: a child
/// named `tag` must have the attributes `first` and `second`, whose values
/// are put behind the other pairs; any other child says nothing.
pub open spec fn pair_step(
    list: Seq<(Seq<char>, Seq<char>)>,
    child: Node,
    tag: Seq<char>,
    first: Seq<char>,
    second: Seq<char>,
) -> Option<Seq<(Seq<char>, Seq<char>)>> {
    if child.tag == tag {
        match (child.attribute(first), child.attribute(second)) {
            (Some(a), Some(b)) => Some(list.push((a, b))),
            _ => None,
        }
    } else {
        Some(list)
    }
}

/// The pairs that the nodes named `tag` among `nodes` stand for, by their
/// attributes `first` and `second`, in their order.
pub open spec fn read_pairs(
    nodes: Seq<Node>,
    tag: Seq<char>,
    first: Seq<char>,
    second: Seq<char>,
) -> Option<Seq<(Seq<char>, Seq<char>)>> {
    fold_all(
        nodes,
        Seq::empty(),
        |list: Seq<(Seq<char>, Seq<char>)>, child: Node| pair_step(list, child, tag, first, second),
    )
}

/// The pairs that the children named `tag` of a document's root stand for,
/// by their attributes `first` and `second`, in document order.
pub open spec fn pairs_named(
    document: DocumentModel,
    tag: Seq<char>,
    first: Seq<char>,
    second: Seq<char>,
) -> Option<Seq<(Seq<char>, Seq<char>)>> {
    read_pairs(root_children(document), tag, first, second)
}

/// The extensions of a manifest with their content types: what the
/// children named `Default` of its root say, in document order.
pub open spec fn default_extensions(document: DocumentModel) -> Option<Seq<(Seq<char>, Seq<char>)>> {
    pairs_named(document, "Default"@, "Extension"@, "ContentType"@)
}

/// The pairs with `name` given the value `value`: in the place of the
/// first pair of that name, or behind the last pair where there is none.
pub open spec fn with_pair(
    pairs: Seq<(Seq<char>, Seq<char>)>,
    name: Seq<char>,
    value: Seq<char>,
) -> Seq<(Seq<char>, Seq<char>)>
    decreases pairs.len(),
{
    if pairs.len() == 0 {
        seq![(name, value)]
    } else if pairs[0].0 == name {
        seq![(name, value)] + pairs.drop_first()
    } else {
        seq![pairs[0]] + with_pair(pairs.drop_first(), name, value)
    }
}

/// The pairs without those named `name`.
pub open spec fn without_pair(pairs: Seq<(Seq<char>, Seq<char>)>, name: Seq<char>) -> Seq<
    (Seq<char>, Seq<char>),
>
    decreases pairs.len(),
{
    if pairs.len() == 0 {
        pairs
    } else if pairs[0].0 == name {
        without_pair(pairs.drop_first(), name)
    } else {
        seq![pairs[0]] + without_pair(pairs.drop_first(), name)
    }
}

/// What is given to a name is what is found under it afterwards, and what
/// is found under any other name is what was found before.
pub proof fn lemma_with_pair(
    pairs: Seq<(Seq<char>, Seq<char>)>,
    name: Seq<char>,
    value: Seq<char>,
    other: Seq<char>,
)
    ensures
        attribute_in(with_pair(pairs, name, value), name) == Some(value),
        other != name ==> attribute_in(with_pair(pairs, name, value), other) == attribute_in(
            pairs,
            other,
        ),
    decreases pairs.len(),
{
    let out = with_pair(pairs, name, value);
    if pairs.len() == 0 {
        assert(out[0] == (name, value));
        assert(out.drop_first() =~= Seq::<(Seq<char>, Seq<char>)>::empty());
        assert(attribute_in(out.drop_first(), other) is None);
    } else if pairs[0].0 == name {
        assert(out[0] == (name, value));
        assert(out.drop_first() =~= pairs.drop_first());
    } else {
        lemma_with_pair(pairs.drop_first(), name, value, other);
        assert(out[0] == pairs[0]);
        assert(out.drop_first() =~= with_pair(pairs.drop_first(), name, value));
    }
}

/// What is taken out under a name is not found under it afterwards, and
/// what is found under any other name is what was found before.
pub proof fn lemma_without_pair(pairs: Seq<(Seq<char>, Seq<char>)>, name: Seq<char>, other: Seq<char>)
    ensures
        attribute_in(without_pair(pairs, name), name) is None,
        other != name ==> attribute_in(without_pair(pairs, name), other) == attribute_in(
            pairs,
            other,
        ),
    decreases pairs.len(),
{
    let out = without_pair(pairs, name);
    if pairs.len() > 0 {
        lemma_without_pair(pairs.drop_first(), name, other);
        if pairs[0].0 != name {
            assert(out[0] == pairs[0]);
            assert(out.drop_first() =~= without_pair(pairs.drop_first(), name));
        }
    }
}

/// The name under which a manifest speaks of the part `path`.
pub open spec fn part_name(path: Seq<char>) -> Seq<char> {
    seq!['/'] + path
}

/// The content types of a package, in memory: which content type goes
/// with which extension, and which with which part.
#[derive(Debug)]
pub struct ContentTypeTable {
    pub extensions: Vec<(String, String)>,
    pub overrides: Vec<(String, String)>,
}

impl ContentTypeTable {
    /// The table that names nothing.
    pub fn new() -> (table: Self)
        ensures
            pairs_view(table.extensions@) == Seq::<(Seq<char>, Seq<char>)>::empty(),
            pairs_view(table.overrides@) == Seq::<(Seq<char>, Seq<char>)>::empty(),
    {
        let table = ContentTypeTable { extensions: Vec::new(), overrides: Vec::new() };
        assert(pairs_view(table.extensions@) =~= Seq::<(Seq<char>, Seq<char>)>::empty());
        assert(pairs_view(table.overrides@) =~= Seq::<(Seq<char>, Seq<char>)>::empty());
        table
    }

    /// The content type that the table gives to the part `path`.
    pub fn get_override(&self, path: &str) -> (content_type: Option<&String>)
        ensures
            opt_text_ref(content_type) == attribute_in(
                pairs_view(self.overrides@),
                part_name(path@),
            ),
    {
        let name = rooted_name(path);
        find_attribute(&self.overrides, name.as_str())
    }

    /// Gives the part `path` the content type `content_type`, in the place
    /// of the content type that it had, or behind the last part where it
    /// had none. The extensions are left as they were.
    pub fn add_override(&mut self, path: &str, content_type: &str)
        ensures
            pairs_view(final(self).overrides@) == with_pair(
                pairs_view(old(self).overrides@),
                part_name(path@),
                content_type@,
            ),
            final(self).extensions == old(self).extensions,
    {
        let name = rooted_name(path);
        put_pair(&mut self.overrides, name.as_str(), content_type);
    }

    /// Gives the extension `extension` the content type `content_type`
    /// where it has none; an extension that has one keeps it. The parts are
    /// left as they were.
    pub fn ensure_default(&mut self, extension: &str, content_type: &str)
        ensures
            pairs_view(final(self).extensions@) == (if attribute_in(
                pairs_view(old(self).extensions@),
                extension@,
            ) is Some {
                pairs_view(old(self).extensions@)
            } else {
                pairs_view(old(self).extensions@).push((extension@, content_type@))
            }),
            final(self).overrides == old(self).overrides,
    {
        if find_attribute(&self.extensions, extension).is_none() {
            let ghost before = pairs_view(self.extensions@);
            self.extensions.push((extension.to_owned(), content_type.to_owned()));
            assert(pairs_view(self.extensions@) =~= before.push((extension@, content_type@)));
        }
    }

    /// Takes the part `path` out of the table. The extensions are left as
    /// they were.
    pub fn remove_override(&mut self, path: &str)
        ensures
            pairs_view(final(self).overrides@) == without_pair(
                pairs_view(old(self).overrides@),
                part_name(path@),
            ),
            final(self).extensions == old(self).extensions,
    {
        let name = rooted_name(path);
        let ghost all = pairs_view(self.overrides@);
        let mut kept: Vec<(String, String)> = Vec::new();
        let mut i: usize = 0;
        assert(all.skip(0) == all);
        assert(forall|rest: Seq<(Seq<char>, Seq<char>)>| pairs_view(kept@) + rest =~= rest);
        while i < self.overrides.len()
            invariant
                i <= self.overrides.len(),
                *self == *old(self),
                all == pairs_view(self.overrides@),
                name@ == part_name(path@),
                without_pair(all, name@) == pairs_view(kept@) + without_pair(
                    all.skip(i as int),
                    name@,
                ),
            decreases self.overrides.len() - i,
        {
            let ghost before = pairs_view(kept@);
            proof {
                let rest = all.skip(i as int);
                assert(rest[0] == (self.overrides@[i as int].0@, self.overrides@[i as int].1@));
                assert(rest.drop_first() == all.skip(i + 1));
            }
            if !str_eq(self.overrides[i].0.as_str(), name.as_str()) {
                kept.push((self.overrides[i].0.clone(), self.overrides[i].1.clone()));
                proof {
                    let pair = (self.overrides@[i as int].0@, self.overrides@[i as int].1@);
                    assert(pairs_view(kept@) =~= before.push(pair));
                    assert(forall|rest: Seq<(Seq<char>, Seq<char>)>|
                        before.push(pair) + rest =~= before + (seq![pair] + rest));
                }
            }
            i += 1;
        }
        assert(pairs_view(kept@) + Seq::<(Seq<char>, Seq<char>)>::empty() =~= pairs_view(kept@));
        self.overrides = kept;
    }
}

/// The name under which a manifest speaks of the part `path`.
fn rooted_name(path: &str) -> (name: String)
    ensures
        name@ == part_name(path@),
{
    let mut name = String::new();
    name.push('/');
    name.append(path);
    assert(name@ =~= part_name(path@));
    name
}

/// Gives `name` the value `value` in `pairs`.
fn put_pair(pairs: &mut Vec<(String, String)>, name: &str, value: &str)
    ensures
        pairs_view(final(pairs)@) == with_pair(pairs_view(old(pairs)@), name@, value@),
{
    let ghost all = pairs_view(pairs@);
    let mut out: Vec<(String, String)> = Vec::new();
    let mut i: usize = 0;
    let mut placed = false;
    assert(all.skip(0) == all);
    assert(forall|rest: Seq<(Seq<char>, Seq<char>)>| pairs_view(out@) + rest =~= rest);
    while i < pairs.len()
        invariant
            i <= pairs.len(),
            *pairs == *old(pairs),
            all == pairs_view(pairs@),
            with_pair(all, name@, value@) == pairs_view(out@) + (if placed {
                all.skip(i as int)
            } else {
                with_pair(all.skip(i as int), name@, value@)
            }),
        decreases pairs.len() - i,
    {
        let ghost before = pairs_view(out@);
        proof {
            let rest = all.skip(i as int);
            assert(rest[0] == (pairs@[i as int].0@, pairs@[i as int].1@));
            assert(rest.drop_first() == all.skip(i + 1));
            assert(rest =~= seq![rest[0]] + rest.drop_first());
        }
        if !placed && str_eq(pairs[i].0.as_str(), name) {
            out.push((name.to_owned(), value.to_owned()));
            placed = true;
            proof {
                let pair = (name@, value@);
                assert(pairs_view(out@) =~= before.push(pair));
                assert(forall|rest: Seq<(Seq<char>, Seq<char>)>|
                    before.push(pair) + rest =~= before + (seq![pair] + rest));
            }
        } else {
            out.push((pairs[i].0.clone(), pairs[i].1.clone()));
            proof {
                let pair = (pairs@[i as int].0@, pairs@[i as int].1@);
                assert(pairs_view(out@) =~= before.push(pair));
                assert(forall|rest: Seq<(Seq<char>, Seq<char>)>|
                    before.push(pair) + rest =~= before + (seq![pair] + rest));
            }
        }
        i += 1;
    }
    if !placed {
        let ghost before = pairs_view(out@);
        out.push((name.to_owned(), value.to_owned()));
        assert(pairs_view(out@) =~= before + seq![(name@, value@)]);
    } else {
        assert(pairs_view(out@) + all.skip(i as int) =~= pairs_view(out@));
    }
    *pairs = out;
}

/// The elements of a manifest that speak of the part `file_name`.
pub open spec fn override_ids(document: DocumentModel, file_name: Seq<char>) -> Seq<usize> {
    document.ids_in(
        document.with_attribute_value("PartName"@, seq!['/'] + file_name),
        document.next_id,
    )
}

/// An extension with its content type as an element.
pub open spec fn default_node(entry: (Seq<char>, Seq<char>)) -> Node {
    Node {
        tag: "Default"@,
        attributes: seq![("Extension"@, entry.0), ("ContentType"@, entry.1)],
        value: None,
        children: Seq::empty(),
    }
}

/// A part with its content type as an element.
pub open spec fn override_node(entry: (Seq<char>, Seq<char>)) -> Node {
    Node {
        tag: "Override"@,
        attributes: seq![("PartName"@, entry.0), ("ContentType"@, entry.1)],
        value: None,
        children: Seq::empty(),
    }
}

/// A manifest as a tree: the root with its namespace, then the extensions,
/// then the parts.
pub open spec fn types_node(
    extensions: Seq<(Seq<char>, Seq<char>)>,
    overrides: Seq<(Seq<char>, Seq<char>)>,
) -> Node {
    Node {
        tag: "Types"@,
        attributes: seq![
            ("xmlns"@, "http://schemas.openxmlformats.org/package/2006/content-types"@),
        ],
        value: None,
        children: Seq::new(extensions.len(), |i: int| default_node(extensions[i])) + Seq::new(
            overrides.len(),
            |i: int| override_node(overrides[i]),
        ),
    }
}

/// The manifest of content types as a part: its document, out of which
/// the extensions and the parts are read.
#[derive(Debug)]
pub struct ContentTypesPart {
    xml_document: XmlDocument,
}

impl ContentTypesPart {
    /// The manifest's document.
    pub closed spec fn document(&self) -> XmlDocument {
        self.xml_document
    }

    /// The invariant of the part: that of its document.
    pub open spec fn wf(&self) -> bool {
        self.document().wf()
    }

    /// The part over the manifest `xml_document`.
    pub fn from_document(xml_document: XmlDocument) -> (part: Self)
        ensures
            part.document() == xml_document,
    {
        Self { xml_document }
    }

    /// The part over the manifest whose XML text the bytes
    /// `xml_file_content` are. Bytes that are not the text of a document
    /// are refused.
    pub fn new(xml_file_content: Vec<u8>) -> (res: Result<Self, OfficeError>)
        ensures
            match crate::office_document::parsed(xml_file_content@) {
                Some(root) => res matches Ok(part) && part.wf() && part.document()@.parent_or_root(
                    None,
                ) == Some(1usize) && part.document()@.tree(1) == root,
                None => res matches Err(e) && e == OfficeError::Codec,
            },
    {
        match XmlSerializer::vec_to_xml_doc_tree(xml_file_content) {
            Ok(xml_document) => Ok(Self { xml_document }),
            Err(e) => Err(e),
        }
    }

    /// The pairs that the children named `tag` of the manifest's root stand
    /// for, by their attributes `first` and `second`, in document order.
    /// Every element named `tag` is taken out of the manifest. A manifest
    /// in which one of those children lacks an attribute is refused and
    /// left as it was.
    fn take_pairs(&mut self, tag: &str, first: &str, second: &str) -> (res: Result<
        Vec<(String, String)>,
        OfficeError,
    >)
        requires
            old(self).wf(),
        ensures
            final(self).wf(),
            match pairs_named(old(self).document()@, tag@, first@, second@) {
                Some(list) => final(self).document()@ == old(self).document()@.without_subtrees(
                    old(self).document()@.tagged(tag@),
                ) && (res matches Ok(elements) && pairs_view(elements@) == list),
                None => (res matches Err(e) && e == OfficeError::Schema) && final(self).document()@
                    == old(self).document()@,
            },
    {
        let root = match self.xml_document.get_root_id() {
            Some(r) => self.xml_document.get_tree(r),
            None => None,
        };
        let root = match root {
            Some(node) => node,
            None => XmlNode::new(""),
        };
        assert(root@.children == root_children(self.xml_document@));
        let ghost all = root@.children;
        let ghost step = |list: Seq<(Seq<char>, Seq<char>)>, child: Node|
            pair_step(list, child, tag@, first@, second@);
        let mut elements: Vec<(String, String)> = Vec::new();
        let mut i: usize = 0;
        assert(pairs_view(elements@) =~= Seq::<(Seq<char>, Seq<char>)>::empty());
        while i < root.children.len()
            invariant
                i <= root.children.len(),
                self.wf(),
                *self == *old(self),
                all == root@.children,
                all == root_children(self.xml_document@),
                step == (|list: Seq<(Seq<char>, Seq<char>)>, child: Node|
                    pair_step(list, child, tag@, first@, second@)),
                fold_all(all.take(i as int), Seq::empty(), step) == Some(pairs_view(elements@)),
            decreases root.children.len() - i,
        {
            let ghost front = pairs_view(elements@);
            proof {
                let t = all.take(i + 1);
                assert(t.drop_last() == all.take(i as int));
                assert(t.last() == root.children[i as int]@);
                if fold_all(t, Seq::empty(), step) is None {
                    lemma_fold_none(all, (i + 1) as int, Seq::empty(), step);
                }
            }
            let element = &root.children[i];
            if element.is_named(tag) {
                match (element.attribute_value(first), element.attribute_value(second)) {
                    (Some(a), Some(b)) => {
                        elements.push((a.clone(), b.clone()));
                        assert(pairs_view(elements@) =~= front.push((a@, b@)));
                    },
                    _ => {
                        return Err(OfficeError::Schema);
                    },
                }
            }
            i += 1;
        }
        assert(all.take(i as int) == all);
        let _ = self.xml_document.pop_elements_by_tag_mut(tag);
        Ok(elements)
    }

    /// The extensions of the manifest with their content types, in
    /// document order; nothing where it names none. The elements read are
    /// taken out of the manifest. A manifest in which an extension lacks
    /// its name or its content type is refused and left as it was.
    pub fn get_extensions(&mut self) -> (res: Result<Option<Vec<(String, String)>>, OfficeError>)
        requires
            old(self).wf(),
        ensures
            final(self).wf(),
            match default_extensions(old(self).document()@) {
                Some(list) => final(self).document()@ == old(self).document()@.without_subtrees(
                    old(self).document()@.tagged("Default"@),
                ) && if list.len() > 0 {
                    res matches Ok(Some(elements)) && pairs_view(elements@) == list
                } else {
                    res matches Ok(None)
                },
                None => (res matches Err(e) && e == OfficeError::Schema) && final(self).document()@
                    == old(self).document()@,
            },
    {
        match self.take_pairs("Default", "Extension", "ContentType") {
            Ok(elements) => if elements.len() > 0 {
                Ok(Some(elements))
            } else {
                Ok(None)
            },
            Err(e) => Err(e),
        }
    }

    /// The parts of the manifest with their content types, in document
    /// order. The elements read are taken out of the manifest. A manifest
    /// in which a part lacks its name or its content type is refused and
    /// left as it was.
    pub fn get_overrides(&mut self) -> (res: Result<Vec<(String, String)>, OfficeError>)
        requires
            old(self).wf(),
        ensures
            final(self).wf(),
            match pairs_named(old(self).document()@, "Override"@, "PartName"@, "ContentType"@) {
                Some(list) => final(self).document()@ == old(self).document()@.without_subtrees(
                    old(self).document()@.tagged("Override"@),
                ) && (res matches Ok(elements) && pairs_view(elements@) == list),
                None => (res matches Err(e) && e == OfficeError::Schema) && final(self).document()@
                    == old(self).document()@,
            },
    {
        self.take_pairs("Override", "PartName", "ContentType")
    }

    /// The content type that the manifest gives to the part `file_name`;
    /// nothing where it does not speak of the part. Of several elements
    /// that speak of it the last counts; it is taken out of the manifest.
    /// Where that element has no content type, the manifest is refused
    /// and left as it was.
    pub fn get_override_content_type(&mut self, file_name: &str) -> (res: Result<
        Option<String>,
        OfficeError,
    >)
        requires
            old(self).wf(),
        ensures
            final(self).wf(),
            ({
                let ids = override_ids(old(self).document()@, file_name@);
                if ids.len() == 0 {
                    res matches Ok(None) && final(self).document()@ == old(self).document()@
                } else {
                    match old(self).document()@.elements[ids.last()].attribute("ContentType"@) {
                        Some(content_type) => (res matches Ok(Some(found)) && found@
                            == content_type) && final(self).document()@ == old(self).document()@.without_subtrees(set![ids.last()]),
                        None => (res matches Err(e) && e == OfficeError::Schema) && final(self).document()@ == old(self).document()@,
                    }
                }
            }),
    {
        let part_name = concat("/", file_name);
        proof {
            reveal_strlit("/");
            assert("/"@ =~= seq!['/']);
        }
        let ids = match self.xml_document.get_element_ids_by_attribute(
            "PartName",
            part_name.as_str(),
        ) {
            Some(ids) => ids,
            None => {
                return Ok(None);
            },
        };
        let id = ids[ids.len() - 1];
        proof {
            let model = self.xml_document@;
            model.lemma_ids_in(
                model.with_attribute_value("PartName"@, part_name@),
                model.next_id,
            );
            assert(ids@.contains(id));
        }
        let content_type = match self.xml_document.get_element(id) {
            Some(element) => match element.get_attribute_value("ContentType") {
                Some(content_type) => content_type.clone(),
                None => {
                    return Err(OfficeError::Schema);
                },
            },
            None => {
                return Err(OfficeError::Schema);
            },
        };
        let _ = self.xml_document.pop_element_mut(id);
        Ok(Some(content_type))
    }

    /// The manifest that names the given extensions and parts, as the
    /// bytes of its XML text.
    pub fn create_xml_file(extensions: Vec<(String, String)>, overrides: Vec<(String, String)>) -> (res:
        Result<Vec<u8>, OfficeError>)
        ensures
            res matches Ok(bytes) && bytes@ == encode_utf8(
                prolog_text() + node_text(types_node(pairs_view(extensions@), pairs_view(overrides@))),
            ),
    {
        let document = Self::create_xml_document(&extensions, &overrides);
        XmlDeSerializer::xml_tree_to_vec(&document)
    }

    /// The manifest that names the given extensions and parts, as a
    /// document.
    pub fn create_xml_document(
        extensions: &Vec<(String, String)>,
        overrides: &Vec<(String, String)>,
    ) -> (document: XmlDocument)
        ensures
            document.wf(),
            document@.parent_or_root(None) == Some(1usize),
            document@.tree(1) == types_node(pairs_view(extensions@), pairs_view(overrides@)),
    {
        let ghost exts = pairs_view(extensions@);
        let ghost overs = pairs_view(overrides@);
        let mut root = XmlNode::new("Types");
        root.push_attribute("xmlns", content_types_content().schemas_namespace.to_owned());
        let mut i: usize = 0;
        while i < extensions.len()
            invariant
                i <= extensions.len(),
                exts == pairs_view(extensions@),
                root@.tag == "Types"@,
                root@.attributes == types_node(exts, overs).attributes,
                root@.value is None,
                root@.children == Seq::new(i as nat, |k: int| default_node(exts[k])),
            decreases extensions.len() - i,
        {
            let mut element = XmlNode::new("Default");
            element.push_attribute("Extension", extensions[i].0.clone());
            element.push_attribute("ContentType", extensions[i].1.clone());
            assert(element@.attributes =~= default_node(exts[i as int]).attributes);
            root.push_child(element);
            i += 1;
            assert(root@.children =~= Seq::new(i as nat, |k: int| default_node(exts[k])));
        }
        let ghost defaults = root@.children;
        let mut j: usize = 0;
        assert(defaults + Seq::new(0nat, |k: int| override_node(overs[k])) =~= defaults);
        while j < overrides.len()
            invariant
                j <= overrides.len(),
                overs == pairs_view(overrides@),
                root@.tag == "Types"@,
                root@.attributes == types_node(exts, overs).attributes,
                root@.value is None,
                root@.children == defaults + Seq::new(j as nat, |k: int| override_node(overs[k])),
            decreases overrides.len() - j,
        {
            let mut element = XmlNode::new("Override");
            element.push_attribute("PartName", overrides[j].0.clone());
            element.push_attribute("ContentType", overrides[j].1.clone());
            assert(element@.attributes =~= override_node(overs[j as int]).attributes);
            root.push_child(element);
            j += 1;
            assert(root@.children =~= defaults + Seq::new(
                j as nat,
                |k: int| override_node(overs[k]),
            ));
        }
        assert(root@ == types_node(exts, overs));
        XmlDocument::from_tree(&root)
    }
}

} // verus!
