//! The table of shared strings: every text that cells share is kept once,
//! and cells name it by its place.

use vstd::prelude::*;
use crate::error::OfficeError;
use crate::numbering::names_view;
use crate::part::CloseAction;
use crate::style_tables::{first_index, lemma_first_index, lemma_with_item, with_item};
use crate::text::str_eq;
use crate::xml_document::XmlDocument;
use crate::xml_node::{Node, XmlNode};

verus! {

/// One shared string as an element.
pub open spec fn shared_string_node(text: Seq<char>) -> Node {
    Node {
        tag: "si"@,
        attributes: Seq::empty(),
        value: None,
        children: seq![
            Node { tag: "t"@, attributes: Seq::empty(), value: Some(text), children: Seq::empty() },
        ],
    }
}

/// The elements of a list of shared strings.
pub open spec fn shared_string_nodes(list: Seq<Seq<char>>) -> Seq<Node> {
    Seq::new(list.len(), |i: int| shared_string_node(list[i]))
}

/// The table of shared strings of a workbook.
#[derive(Debug)]
pub struct ShareStringPart {
    file_path: String,
    strings: Vec<String>,
}

impl View for ShareStringPart {
    type V = Seq<Seq<char>>;

    closed spec fn view(&self) -> Seq<Seq<char>> {
        names_view(self.strings@)
    }
}

impl ShareStringPart {
    /// The invariant of the table: no text is kept twice.
    pub open spec fn wf(&self) -> bool {
        self@.no_duplicates()
    }

    /// The empty table, whose file in the package is `file_path`.
    pub fn new(file_path: String) -> (part: Self)
        ensures
            part.wf(),
            part@ == Seq::<Seq<char>>::empty(),
            part.path() == file_path@,
    {
        let part = ShareStringPart { file_path, strings: Vec::new() };
        assert(part@ =~= Seq::<Seq<char>>::empty());
        part
    }

    /// The path of the table's file in the package.
    pub closed spec fn path(&self) -> Seq<char> {
        self.file_path@
    }

    /// The path of the table's file in the package.
    pub fn get_file_path(&self) -> (path: &str)
        ensures
            path@ == self.path(),
    {
        self.file_path.as_str()
    }

    /// The place of `text` in the table. A text that the table does not
    /// hold yet is put behind its last entry.
    pub fn get_string_id_mut(&mut self, text: &str) -> (id: usize)
        requires
            old(self).wf(),
        ensures
            final(self).wf(),
            id == first_index(old(self)@, text@),
            final(self)@ == with_item(old(self)@, text@),
    {
        let ghost all = self@;
        assert(all.skip(0) == all);
        let mut i: usize = 0;
        proof {
            lemma_with_item(all, text@);
            lemma_first_index(all, text@);
        }
        while i < self.strings.len()
            invariant
                i <= self.strings.len(),
                *self == *old(self),
                self.wf(),
                all == self@,
                first_index(all, text@) == i + first_index(all.skip(i as int), text@),
                all.no_duplicates() ==> with_item(all, text@).no_duplicates(),
                first_index(all, text@) < all.len() ==> with_item(all, text@) == all,
            decreases self.strings.len() - i,
        {
            proof {
                let rest = all.skip(i as int);
                assert(rest[0] == self.strings@[i as int]@);
                assert(rest.drop_first() == all.skip(i + 1));
            }
            if str_eq(self.strings[i].as_str(), text) {
                return i;
            }
            i += 1;
        }
        self.strings.push(text.to_owned());
        assert(self@ =~= all.push(text@));
        i
    }

    /// How many texts the table holds.
    pub fn len(&self) -> (count: usize)
        ensures
            count == self@.len(),
    {
        self.strings.len()
    }

    /// The text at place `id` of the table.
    pub fn get_string(&self, id: usize) -> (text: Option<&str>)
        ensures
            match text {
                Some(t) => id < self@.len() && t@ == self@[id as int],
                None => id >= self@.len(),
            },
    {
        if id < self.strings.len() {
            Some(self.strings[id].as_str())
        } else {
            None
        }
    }

    /// Writes the table into the document: one element for each text is
    /// hung behind the children of the root. Says what is to be done with
    /// the part's file: a table without text is of no use. A document
    /// without a root is refused and left as it was.
    pub fn close_document(&self, xml_document: &mut XmlDocument) -> (res: Result<
        CloseAction,
        OfficeError,
    >)
        requires
            old(xml_document).wf(),
        ensures
            final(xml_document).wf(),
            match old(xml_document)@.parent_or_root(None) {
                Some(root) => res == Ok::<CloseAction, OfficeError>(
                    if self@.len() == 0 {
                        CloseAction::Delete
                    } else {
                        CloseAction::WriteBack
                    },
                ) && final(xml_document)@.parent_or_root(None) == Some(root) && final(xml_document)@.tree(root) == (Node {
                    children: old(xml_document)@.tree(root).children + shared_string_nodes(
                        self@,
                    ),
                    ..old(xml_document)@.tree(root)
                }),
                None => res == Err::<CloseAction, OfficeError>(OfficeError::NotFound) && final(xml_document)@ == old(xml_document)@,
            },
    {
        let root = match xml_document.get_root_id() {
            Some(r) => r,
            None => {
                return Err(OfficeError::NotFound);
            },
        };
        if xml_document.get_element(root).is_none() {
            return Err(OfficeError::NotFound);
        }
        let ghost before = xml_document@.tree(root);
        let ghost all = self@;
        let mut i: usize = 0;
        assert(before.children + Seq::new(0nat, |k: int| shared_string_node(all[k]))
            =~= before.children);
        while i < self.strings.len()
            invariant
                i <= self.strings.len(),
                xml_document.wf(),
                all == self@,
                xml_document@.parent_or_root(None) == Some(root),
                xml_document@.tree(root) == (Node {
                    children: before.children + Seq::new(
                        i as nat,
                        |k: int| shared_string_node(all[k]),
                    ),
                    ..before
                }),
            decreases self.strings.len() - i,
        {
            let mut text = XmlNode::new("t");
            text.value = Some(self.strings[i].clone());
            assert(text@.children =~= Seq::<Node>::empty());
            assert(text@.attributes =~= Seq::<(Seq<char>, Seq<char>)>::empty());
            let mut item = XmlNode::new("si");
            item.push_child(text);
            assert(item@.children =~= shared_string_node(all[i as int]).children);
            let _ = xml_document.append_tree_mut(&item, Some(root));
            proof {
                assert(xml_document@.elements.dom().contains(root));
                assert(xml_document@.tree(root).children =~= before.children + Seq::new(
                    (i + 1) as nat,
                    |k: int| shared_string_node(all[k]),
                ));
            }
            i += 1;
        }
        assert(Seq::new(i as nat, |k: int| shared_string_node(all[k])) =~= shared_string_nodes(
            all,
        ));
        if self.strings.len() == 0 {
            Ok(CloseAction::Delete)
        } else {
            Ok(CloseAction::WriteBack)
        }
    }
}

} // verus!
