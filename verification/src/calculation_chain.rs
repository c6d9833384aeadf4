//! The calculation chain: the cells that hold formulas, each named once,
//! in the order in which they were named.

use vstd::prelude::*;
use crate::error::OfficeError;
use crate::part::CloseAction;
use crate::style_tables::{first_index, lemma_first_index, lemma_with_item, with_item};
use crate::text::{decimal, decimal_string, str_eq};
use crate::xml_document::XmlDocument;
use crate::xml_node::{Node, XmlNode};

verus! {

/// A list of cells as plain mathematical values: each cell's key and the
/// number of its sheet.
pub open spec fn cells_view(cells: Seq<(String, u32)>) -> Seq<(Seq<char>, u32)> {
    Seq::new(cells.len(), |i: int| (cells[i].0@, cells[i].1))
}

/// One cell of the chain as an element: its key and the number of its
/// sheet.
pub open spec fn chain_cell_node(cell: (Seq<char>, u32)) -> Node {
    Node {
        attributes: seq![("r"@, cell.0), ("i"@, decimal(cell.1 as nat))],
        ..Node::leaf("c"@)
    }
}

/// The elements of the cells of a chain, in their order.
pub open spec fn chain_nodes(cells: Seq<(Seq<char>, u32)>) -> Seq<Node> {
    Seq::new(cells.len(), |i: int| chain_cell_node(cells[i]))
}

/// The calculation chain: the cells with formulas, each named once, in the
/// order in which they are calculated.
#[derive(Debug)]
pub struct CalculationChainPart {
    file_path: String,
    cells: Vec<(String, u32)>,
}

impl View for CalculationChainPart {
    type V = Seq<(Seq<char>, u32)>;

    closed spec fn view(&self) -> Seq<(Seq<char>, u32)> {
        cells_view(self.cells@)
    }
}

impl CalculationChainPart {
    /// The invariant of the chain: no cell is named twice.
    pub open spec fn wf(&self) -> bool {
        self@.no_duplicates()
    }

    /// The empty chain, whose file in the package is `file_path`.
    pub fn new(file_path: String) -> (part: Self)
        ensures
            part.wf(),
            part@ == Seq::<(Seq<char>, u32)>::empty(),
            part.path() == file_path@,
    {
        let part = CalculationChainPart { file_path, cells: Vec::new() };
        assert(part@ =~= Seq::<(Seq<char>, u32)>::empty());
        part
    }

    /// The path of the chain's file in the package.
    pub closed spec fn path(&self) -> Seq<char> {
        self.file_path@
    }

    /// The path of the chain's file in the package.
    pub fn get_file_path(&self) -> (path: &str)
        ensures
            path@ == self.path(),
    {
        self.file_path.as_str()
    }

    /// Names the cell `cell_key` of the sheet `sheet_id` in the chain, behind
    /// the cells already named, where the chain does not name it yet. Gives
    /// the cell's place in the chain.
    pub fn add_cell_mut(&mut self, cell_key: &str, sheet_id: u32) -> (place: usize)
        requires
            old(self).wf(),
        ensures
            final(self).wf(),
            place == first_index(old(self)@, (cell_key@, sheet_id)),
            final(self)@ == with_item(old(self)@, (cell_key@, sheet_id)),
    {
        let ghost all = self@;
        let ghost item = (cell_key@, sheet_id);
        assert(all.skip(0) == all);
        let mut i: usize = 0;
        proof {
            lemma_with_item(all, item);
            lemma_first_index(all, item);
        }
        while i < self.cells.len()
            invariant
                i <= self.cells.len(),
                *self == *old(self),
                self.wf(),
                all == self@,
                item == (cell_key@, sheet_id),
                first_index(all, item) == i + first_index(all.skip(i as int), item),
                all.no_duplicates() ==> with_item(all, item).no_duplicates(),
                first_index(all, item) < all.len() ==> with_item(all, item) == all,
            decreases self.cells.len() - i,
        {
            proof {
                let rest = all.skip(i as int);
                assert(rest[0] == (self.cells@[i as int].0@, self.cells@[i as int].1));
                assert(rest.drop_first() == all.skip(i + 1));
            }
            if self.cells[i].1 == sheet_id && str_eq(self.cells[i].0.as_str(), cell_key) {
                return i;
            }
            i += 1;
        }
        self.cells.push((cell_key.to_owned(), sheet_id));
        assert(self@ =~= all.push(item));
        i
    }

    /// How many cells the chain names.
    pub fn len(&self) -> (count: usize)
        ensures
            count == self@.len(),
    {
        self.cells.len()
    }

    /// Writes the chain into the document: one element for each cell is
    /// hung behind the children of the root. Says what is to be done with
    /// the part's file: a chain without cells is of no use. A document
    /// without a root is refused and left as it was.
    pub fn close_document(&self, xml_document: &mut XmlDocument) -> (res: Result<
        CloseAction,
        OfficeError,
    >)
        requires
            old(xml_document).wf(),
        ensures
            final(xml_document).wf(),
            match old(xml_document)@.parent_or_root(None) {
                Some(root) => res == Ok::<CloseAction, OfficeError>(
                    if self@.len() == 0 {
                        CloseAction::Delete
                    } else {
                        CloseAction::WriteBack
                    },
                ) && final(xml_document)@.parent_or_root(None) == Some(root) && final(xml_document)@.tree(root) == (Node {
                    children: old(xml_document)@.tree(root).children + chain_nodes(self@),
                    ..old(xml_document)@.tree(root)
                }),
                None => res == Err::<CloseAction, OfficeError>(OfficeError::NotFound) && final(xml_document)@ == old(xml_document)@,
            },
    {
        let root = match xml_document.get_root_id() {
            Some(r) => r,
            None => {
                return Err(OfficeError::NotFound);
            },
        };
        if xml_document.get_element(root).is_none() {
            return Err(OfficeError::NotFound);
        }
        let ghost before = xml_document@.tree(root);
        let ghost all = self@;
        let mut i: usize = 0;
        assert(before.children + Seq::new(0nat, |k: int| chain_cell_node(all[k]))
            =~= before.children);
        while i < self.cells.len()
            invariant
                i <= self.cells.len(),
                xml_document.wf(),
                all == self@,
                xml_document@.parent_or_root(None) == Some(root),
                xml_document@.tree(root) == (Node {
                    children: before.children + Seq::new(
                        i as nat,
                        |k: int| chain_cell_node(all[k]),
                    ),
                    ..before
                }),
            decreases self.cells.len() - i,
        {
            let mut cell = XmlNode::new("c");
            cell.push_attribute("r", self.cells[i].0.clone());
            cell.push_attribute("i", decimal_string(self.cells[i].1 as u128));
            assert(cell@.attributes =~= chain_cell_node(all[i as int]).attributes);
            let _ = xml_document.append_tree_mut(&cell, Some(root));
            proof {
                assert(xml_document@.elements.dom().contains(root));
                assert(xml_document@.tree(root).children =~= before.children + Seq::new(
                    (i + 1) as nat,
                    |k: int| chain_cell_node(all[k]),
                ));
            }
            i += 1;
        }
        assert(Seq::new(i as nat, |k: int| chain_cell_node(all[k])) =~= chain_nodes(all));
        if self.cells.len() == 0 {
            Ok(CloseAction::Delete)
        } else {
            Ok(CloseAction::WriteBack)
        }
    }
}

} // verus!
