//! A worksheet's part, and the values by which cells are described.

use vstd::prelude::*;
use crate::element_dictionary::worksheet_content;
use crate::style_models::StyleId;
use crate::text::str_eq;
use crate::xml_document::XmlDocument;
use crate::xml_node::{Node, XmlNode};
use crate::xml_tree::opt_text;

verus! {

/// The kinds of value that a cell can hold.
#[derive(Debug, Clone, Copy, PartialEq, Eq, Structural)]
pub enum CellDataType {
    /// Use if you want the package to auto detect best fit
    Auto,
    Number,
    Boolean,
    String,
    ShareString,
    InlineString,
    Error,
}

/// The word that the schema has for each kind of cell data; `a` stands for
/// the kind that is yet to be detected.
pub open spec fn cell_data_type_text(value: CellDataType) -> Seq<char> {
    match value {
        CellDataType::Boolean => "b"@,
        CellDataType::String => "str"@,
        CellDataType::ShareString => "s"@,
        CellDataType::InlineString => "inlineStr"@,
        CellDataType::Error => "e"@,
        CellDataType::Number => "n"@,
        CellDataType::Auto => "a"@,
    }
}

/// The kind of cell data that a word stands for; a number for any word
/// that stands for no other kind.
pub open spec fn cell_data_type_of_text(text: Seq<char>) -> CellDataType {
    if text == "a"@ {
        CellDataType::Auto
    } else if text == "b"@ {
        CellDataType::Boolean
    } else if text == "str"@ {
        CellDataType::String
    } else if text == "s"@ {
        CellDataType::ShareString
    } else if text == "inlineStr"@ {
        CellDataType::InlineString
    } else if text == "e"@ {
        CellDataType::Error
    } else {
        CellDataType::Number
    }
}

/// Reading the word of a kind of cell data gives the kind back.
pub proof fn lemma_cell_data_type_round_trip(value: CellDataType)
    ensures
        cell_data_type_of_text(cell_data_type_text(value)) == value,
{
    reveal_strlit("a");
    reveal_strlit("b");
    reveal_strlit("str");
    reveal_strlit("s");
    reveal_strlit("inlineStr");
    reveal_strlit("e");
    reveal_strlit("n");
    assert("a"@.len() == 1 && "b"@.len() == 1 && "s"@.len() == 1 && "e"@.len() == 1 && "n"@.len()
        == 1);
    assert("str"@.len() == 3);
    assert("inlineStr"@.len() == 9);
    assert("a"@[0] == 'a');
    assert("b"@[0] == 'b');
    assert("s"@[0] == 's');
    assert("e"@[0] == 'e');
    assert("n"@[0] == 'n');
}

impl CellDataType {
    pub fn get_string(input_enum: CellDataType) -> (text: String)
        ensures
            text@ == cell_data_type_text(input_enum),
    {
        match input_enum {
            CellDataType::Boolean => "b".to_owned(),
            CellDataType::String => "str".to_owned(),
            CellDataType::ShareString => "s".to_owned(),
            CellDataType::InlineString => "inlineStr".to_owned(),
            CellDataType::Error => "e".to_owned(),
            CellDataType::Number => "n".to_owned(),
            CellDataType::Auto => "a".to_owned(),
        }
    }

    pub fn get_enum(input_string: &str) -> (value: CellDataType)
        ensures
            value == cell_data_type_of_text(input_string@),
    {
        if str_eq(input_string, "a") {
            CellDataType::Auto
        } else if str_eq(input_string, "b") {
            CellDataType::Boolean
        } else if str_eq(input_string, "str") {
            CellDataType::String
        } else if str_eq(input_string, "s") {
            CellDataType::ShareString
        } else if str_eq(input_string, "inlineStr") {
            CellDataType::InlineString
        } else if str_eq(input_string, "e") {
            CellDataType::Error
        } else {
            CellDataType::Number
        }
    }
}

/// Where a cell's link leads and what is shown of it.
#[derive(Debug)]
pub struct HyperlinkProperties {
    pub target: String,
    pub tooltip: Option<String>,
}

/// What is set of one cell: its value, its kind, its style and the link
/// that it carries.
#[derive(Debug)]
pub struct CellProperties {
    pub formula: Option<String>,
    pub value: Option<String>,
    pub data_type: CellDataType,
    pub hyperlink_properties: Option<HyperlinkProperties>,
    pub style_id: Option<StyleId>,
    pub metadata: Option<String>,
    pub comment_id: Option<usize>,
    pub place_holder: Option<bool>,
}

impl CellProperties {
    /// The cell that holds nothing, its kind of data yet to be detected.
    pub fn default_value() -> (cell: Self)
        ensures
            cell.formula is None,
            cell.value is None,
            cell.data_type == CellDataType::Auto,
            cell.hyperlink_properties is None,
            cell.style_id is None,
            cell.metadata is None,
            cell.comment_id is None,
            cell.place_holder is None,
    {
        Self {
            formula: None,
            value: None,
            data_type: CellDataType::Auto,
            hyperlink_properties: None,
            style_id: None,
            metadata: None,
            comment_id: None,
            place_holder: None,
        }
    }
}

/// A worksheet's part.
#[derive(Debug)]
pub struct WorkSheetPart {
    file_name: String,
}

/// The tree of a new worksheet: the root with its namespace, and the
/// element that holds the rows.
pub open spec fn new_worksheet_node() -> Node {
    Node {
        tag: "worksheet"@,
        attributes: seq![
            ("xmlns"@, "http://schemas.openxmlformats.org/spreadsheetml/2006/main"@),
        ],
        value: None,
        children: seq![Node::leaf("sheetData"@)],
    }
}

impl WorkSheetPart {
    /// The path of the worksheet's file in the package.
    pub closed spec fn path(&self) -> Seq<char> {
        self.file_name@
    }

    /// The part of the worksheet whose file is `sheet_name`, or the first
    /// worksheet's file where none is named.
    pub fn new(sheet_name: Option<String>) -> (part: Self)
        ensures
            part.path() == match opt_text(sheet_name) {
                Some(name) => name,
                None => "xl/worksheets/sheet1.xml"@,
            },
    {
        let file_name = match sheet_name {
            Some(name) => name,
            None => "xl/worksheets/sheet1.xml".to_owned(),
        };
        Self { file_name }
    }

    /// The path of the worksheet's file in the package.
    pub fn get_file_name(&self) -> (name: &str)
        ensures
            name@ == self.path(),
    {
        self.file_name.as_str()
    }

    /// Initialize xml content for this part from base template
    pub fn initialize_content_xml() -> (document: XmlDocument)
        ensures
            document.wf(),
            document@.parent_or_root(None) == Some(1usize),
            document@.tree(1) == new_worksheet_node(),
    {
        let mut root = XmlNode::new("worksheet");
        root.push_attribute("xmlns", worksheet_content().schemas_namespace.to_owned());
        root.push_child(XmlNode::new("sheetData"));
        assert(root@.attributes =~= new_worksheet_node().attributes);
        assert(root@.children =~= new_worksheet_node().children);
        XmlDocument::from_tree(&root)
    }
}

} // verus!
