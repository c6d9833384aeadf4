//! The workbook's part: the list of sheets, the view in which the workbook
//! opens, the relationships that lead to the workbook's own parts, and the
//! services that its sheets share.

use vstd::prelude::*;
use crate::common_service::CommonServices;
use crate::element_dictionary::{
    workbook_content, workbook_content_spec, worksheet_content, worksheet_content_spec,
};
use crate::error::OfficeError;
use crate::numbering::{names_view, next_free_name, next_name, numbered};
use crate::order_dictionary::{workbook_order, workbook_order_tags};
use crate::relations::{
    RelationsModel, RelationsPart, first_with_id, ids_of, new_part_path, new_relationship,
    next_relationship_id, paths_view, relative_base, resolved_target,
};
use crate::style_models::{StyleId, StyleSetting};
use crate::style_read::{fold_all, lemma_fold_none, root_children};
use crate::text::{concat, decimal_string, parse_decimal, str_eq};
use crate::theme::ThemePart;
use crate::workbook_model::{
    SheetModel, WorkbookModel, WorkbookView, WorkbookViewModel, book_views_node, flag_attribute,
    flag_text, opt_attribute, opt_view, read_book_views, read_sheets, read_view, read_workbook,
    sheet_names, sheet_node, sheet_step, sheets_node, sheets_view, view_step, workbook_nodes,
};
use crate::calculation_chain::CalculationChainPart;
use crate::element_dictionary::{
    calculation_chain_content, share_string_content, style_content, theme_content,
};
use crate::office_document::{FileModel, OfficeDocument, lemma_names_of_files};
use crate::part_store::{document_or, has_file, root_only};
use crate::share_string::ShareStringPart;
use crate::style::StylePart;
use crate::text::{chars_of, string_of_range};
use crate::workbook_store::{
    WorkbookState, closed_workbook, closed_workbook_relations, leading_to,
    lemma_without_style_tables, lemma_without_workbook_lists, opened_workbook,
};
use crate::worksheet::WorkSheetPart;
use crate::xml_document::{DocumentModel, XmlDocument};
use crate::xml_node::{Node, XmlNode, ordered_nodes};
use crate::xml_tree::opt_text;

verus! {

/// The sheets with the one named `name` active and every other not.
pub open spec fn activated(sheets: Seq<SheetModel>, name: Seq<char>) -> Seq<SheetModel> {
    Seq::new(sheets.len(), |i: int| SheetModel { is_active: sheets[i].name == name, ..sheets[i] })
}

/// The sheets with the one named `name` hidden and every other as it
/// was.
pub open spec fn hidden(sheets: Seq<SheetModel>, name: Seq<char>) -> Seq<SheetModel> {
    Seq::new(
        sheets.len(),
        |i: int| SheetModel { is_hidden: sheets[i].is_hidden || sheets[i].name == name, ..sheets[i] },
    )
}

/// The sheets with the one named `old_name` named `new_name`.
pub open spec fn renamed(sheets: Seq<SheetModel>, old_name: Seq<char>, new_name: Seq<char>) -> Seq<
    SheetModel,
> {
    Seq::new(
        sheets.len(),
        |i: int|
            if sheets[i].name == old_name {
                SheetModel { name: new_name, ..sheets[i] }
            } else {
                sheets[i]
            },
    )
}

/// The document without the subtrees of the workbook's views and sheets.
pub open spec fn without_workbook_lists(document: DocumentModel) -> DocumentModel {
    let d1 = document.without_subtrees(document.tagged("bookViews"@));
    d1.without_subtrees(d1.tagged("sheets"@))
}

/// The name of the file of the sheet with the number `number`.
pub open spec fn sheet_file_name(number: nat) -> Seq<char> {
    numbered("sheet"@, number)
}

/// The workbook's part: the sheets and the view, kept in memory while
/// the workbook is open, with the workbook's relationships, its theme
/// and the services of its sheets.
#[derive(Debug)]
pub struct WorkbookPart {
    file_path: String,
    common_service: CommonServices,
    workbook_relationship_part: RelationsPart,
    theme_part: ThemePart,
    /// This contain the sheet name, relationId, active sheet, hide sheet
    sheet_collection: Vec<(String, String, bool, bool)>,
    workbook_view: Option<WorkbookView>,
}

impl View for WorkbookPart {
    type V = WorkbookModel;

    closed spec fn view(&self) -> WorkbookModel {
        WorkbookModel {
            sheets: sheets_view(self.sheet_collection@),
            view: opt_view(self.workbook_view),
        }
    }
}

/// Whether a flag's attribute says that the flag is set, where the
/// element has the attribute.
fn flag_from(node: &XmlNode, name: &str) -> (flag: Option<bool>)
    ensures
        flag == flag_attribute(node@.attributes, name@),
{
    match node.attribute_value(name) {
        Some(text) => Some(str_eq(text.as_str(), "1") || str_eq(text.as_str(), "true")),
        None => None,
    }
}

/// The text of an optional string.
fn copy_of(text: Option<&String>) -> (copy: Option<String>)
    ensures
        opt_text(copy) == crate::xml_tree::opt_text_ref(text),
{
    match text {
        Some(t) => Some(t.clone()),
        None => None,
    }
}

/// The view that the attributes of `node` stand for.
fn view_from(node: &XmlNode) -> (res: Result<WorkbookView, OfficeError>)
    ensures
        match read_view(node@.attributes) {
            Some(view) => res matches Ok(v) && v@ == view,
            None => res matches Err(e) && e == OfficeError::Schema,
        },
{
    let ratio = match node.attribute_value("tabRatio") {
        Some(text) => match parse_decimal(text.as_str()) {
            Some(v) => if v <= 0xffff_ffff {
                Some(v as u32)
            } else {
                return Err(OfficeError::Schema);
            },
            None => {
                return Err(OfficeError::Schema);
            },
        },
        None => None,
    };
    Ok(
        WorkbookView {
            active_tab: copy_of(node.attribute_value("activeTab")),
            first_sheet: copy_of(node.attribute_value("firstSheet")),
            visibility: copy_of(node.attribute_value("visibility")),
            minimize: match flag_from(node, "minimized") {
                Some(on) => on,
                None => false,
            },
            hide_horizontal_scroll: match flag_from(node, "showHorizontalScroll") {
                Some(on) => !on,
                None => false,
            },
            hide_vertical_scroll: match flag_from(node, "showVerticalScroll") {
                Some(on) => !on,
                None => false,
            },
            hide_sheet_tab: match flag_from(node, "showSheetTabs") {
                Some(on) => !on,
                None => false,
            },
            sheet_tab_ratio: ratio,
            auto_filter_date_grouping: flag_from(node, "autoFilterDateGrouping"),
        },
    )
}

/// The text of a flag.
fn flag_string(on: bool) -> (text: String)
    ensures
        text@ == flag_text(on),
{
    if on {
        "1".to_owned()
    } else {
        "0".to_owned()
    }
}

/// Adds the attribute `name` to `node` where there is a value for it.
fn push_opt_attribute(node: &mut XmlNode, name: &str, value: Option<String>)
    ensures
        final(node)@ == (Node {
            attributes: old(node)@.attributes + opt_attribute(name@, opt_text(value)),
            ..old(node)@
        }),
{
    match value {
        Some(v) => {
            node.push_attribute(name, v);
            assert(node@.attributes =~= old(node)@.attributes + opt_attribute(
                name@,
                opt_text(value),
            ));
        },
        None => {
            assert(node@.attributes =~= old(node)@.attributes + opt_attribute(
                name@,
                opt_text(value),
            ));
        },
    }
}

/// The views of a workbook as an element.
fn book_views_element(view: &WorkbookView) -> (node: XmlNode)
    ensures
        node@ == book_views_node(view@),
{
    let mut element = XmlNode::new("workbookView");
    push_opt_attribute(&mut element, "activeTab", crate::xml_node::copy_text(&view.active_tab));
    push_opt_attribute(&mut element, "firstSheet", crate::xml_node::copy_text(&view.first_sheet));
    push_opt_attribute(
        &mut element,
        "tabRatio",
        match view.sheet_tab_ratio {
            Some(ratio) => Some(decimal_string(ratio as u128)),
            None => None,
        },
    );
    push_opt_attribute(
        &mut element,
        "autoFilterDateGrouping",
        match view.auto_filter_date_grouping {
            Some(grouping) => Some(flag_string(grouping)),
            None => None,
        },
    );
    push_opt_attribute(&mut element, "minimized", Some(flag_string(view.minimize)));
    push_opt_attribute(&mut element, "visibility", crate::xml_node::copy_text(&view.visibility));
    push_opt_attribute(&mut element, "showSheetTabs", Some(flag_string(!view.hide_sheet_tab)));
    push_opt_attribute(
        &mut element,
        "showVerticalScroll",
        Some(flag_string(!view.hide_vertical_scroll)),
    );
    push_opt_attribute(
        &mut element,
        "showHorizontalScroll",
        Some(flag_string(!view.hide_horizontal_scroll)),
    );
    assert(Seq::<(Seq<char>, Seq<char>)>::empty() + opt_attribute(
        "activeTab"@,
        view@.active_tab,
    ) =~= opt_attribute("activeTab"@, view@.active_tab));
    let mut views = XmlNode::new("bookViews");
    views.push_child(element);
    assert(views@.children =~= book_views_node(view@).children);
    views
}

/// The sheets of a workbook as an element.
fn sheets_element(list: &Vec<(String, String, bool, bool)>) -> (node: XmlNode)
    ensures
        node@ == sheets_node(sheets_view(list@)),
{
    let ghost all = sheets_view(list@);
    let mut sheets = XmlNode::new("sheets");
    let mut i: usize = 0;
    while i < list.len()
        invariant
            i <= list.len(),
            all == sheets_view(list@),
            sheets@.tag == "sheets"@,
            sheets@.attributes == Seq::<(Seq<char>, Seq<char>)>::empty(),
            sheets@.value is None,
            sheets@.children == Seq::new(i as nat, |k: int| sheet_node(all[k], (k + 1) as nat)),
        decreases list.len() - i,
    {
        let mut sheet = XmlNode::new("sheet");
        sheet.push_attribute("name", list[i].0.clone());
        sheet.push_attribute("sheetId", decimal_string(i as u128 + 1));
        sheet.push_attribute("r:id", list[i].1.clone());
        if list[i].3 {
            sheet.push_attribute("state", "hidden".to_owned());
        }
        assert(sheet@.attributes =~= sheet_node(all[i as int], (i + 1) as nat).attributes);
        sheets.push_child(sheet);
        i += 1;
        assert(sheets@.children =~= Seq::new(
            i as nat,
            |k: int| sheet_node(all[k], (k + 1) as nat),
        ));
    }
    sheets
}

impl WorkbookPart {
    /// The relationships of the workbook.
    pub closed spec fn relations(&self) -> RelationsPart {
        self.workbook_relationship_part
    }

    /// The services that the workbook's sheets share.
    pub closed spec fn services(&self) -> CommonServices {
        self.common_service
    }

    /// The theme's part.
    pub closed spec fn theme(&self) -> ThemePart {
        self.theme_part
    }

    /// The path of the workbook's file in the package.
    pub closed spec fn path(&self) -> Seq<char> {
        self.file_path@
    }

    /// The invariant of the part: no two sheets have the same name, and
    /// the relationships and the services keep their own invariants.
    pub open spec fn wf(&self) -> bool {
        self@.wf() && self.relations().wf() && self.services().wf()
    }

    /// The part of the workbook whose XML is `xml_document` and whose file
    /// is `file_path`, over its relationships, its theme and the services
    /// of its sheets. The sheets and the view are read and taken out of
    /// the document as `load_sheet_names` does.
    pub fn from_parts(
        xml_document: &mut XmlDocument,
        file_path: String,
        common_service: CommonServices,
        workbook_relationship_part: RelationsPart,
        theme_part: ThemePart,
    ) -> (res: Result<Self, OfficeError>)
        requires
            old(xml_document).wf(),
            common_service.wf(),
            workbook_relationship_part.wf(),
        ensures
            final(xml_document).wf(),
            match read_workbook(root_children(old(xml_document)@)) {
                Some(workbook) => (res matches Ok(part) && part.wf() && part@ == workbook
                    && part.relations() == workbook_relationship_part && part.services()
                    == common_service && part.theme() == theme_part && part.path() == file_path@)
                    && final(xml_document)@ == without_workbook_lists(old(xml_document)@),
                None => (res matches Err(e) && e == OfficeError::Schema) && final(xml_document)@
                    == old(xml_document)@,
            },
    {
        match Self::load_sheet_names(xml_document) {
            Ok((sheet_collection, workbook_view)) => Ok(
                Self {
                    file_path,
                    common_service,
                    workbook_relationship_part,
                    theme_part,
                    sheet_collection,
                    workbook_view,
                },
            ),
            Err(e) => Err(e),
        }
    }

    /// Reads the sheets and the view out of the workbook's XML and takes
    /// their subtrees out of the document: from then on they are kept in
    /// memory. A workbook whose sheets or view cannot be read, or in which
    /// two sheets have the same name, is refused and left as it was.
    fn load_sheet_names(xml_document: &mut XmlDocument) -> (res: Result<
        (Vec<(String, String, bool, bool)>, Option<WorkbookView>),
        OfficeError,
    >)
        requires
            old(xml_document).wf(),
        ensures
            final(xml_document).wf(),
            match read_workbook(root_children(old(xml_document)@)) {
                Some(workbook) => (res matches Ok(loaded) && sheets_view(loaded.0@)
                    == workbook.sheets && opt_view(loaded.1) == workbook.view) && final(xml_document)@ == without_workbook_lists(old(xml_document)@),
                None => (res matches Err(e) && e == OfficeError::Schema) && final(xml_document)@
                    == old(xml_document)@,
            },
    {
        let root = match xml_document.get_root_id() {
            Some(r) => xml_document.get_tree(r),
            None => None,
        };
        let root = match root {
            Some(node) => node,
            None => XmlNode::new(""),
        };
        assert(root@.children == root_children(xml_document@));
        let mut workbook_view: Option<WorkbookView> = None;
        match root.last_child_named("bookViews") {
            Some(book_views) => {
                let ghost all = book_views@.children;
                let ghost step = |v: Option<WorkbookViewModel>, c: Node| view_step(v, c);
                let mut i: usize = 0;
                while i < book_views.children.len()
                    invariant
                        i <= book_views.children.len(),
                        xml_document.wf(),
                        *xml_document == *old(xml_document),
                        all == book_views@.children,
                        step == (|v: Option<WorkbookViewModel>, c: Node| view_step(v, c)),
                        read_book_views(root_children(xml_document@)) == fold_all(all, None, step),
                        fold_all(all.take(i as int), None, step) == Some(opt_view(workbook_view)),
                    decreases book_views.children.len() - i,
                {
                    proof {
                        let t = all.take(i + 1);
                        assert(t.drop_last() == all.take(i as int));
                        assert(t.last() == book_views.children[i as int]@);
                        if fold_all(t, None, step) is None {
                            lemma_fold_none(all, (i + 1) as int, None, step);
                        }
                    }
                    let child = &book_views.children[i];
                    if child.attributes.len() > 0 {
                        assert(child@.attributes.len() > 0);
                        match view_from(child) {
                            Ok(view) => {
                                workbook_view = Some(view);
                            },
                            Err(e) => {
                                return Err(e);
                            },
                        }
                    } else {
                        assert(child@.attributes.len() == 0);
                    }
                    i += 1;
                }
                assert(all.take(i as int) == all);
            },
            None => {},
        }
        let mut sheet_collection: Vec<(String, String, bool, bool)> = Vec::new();
        assert(sheets_view(sheet_collection@) =~= Seq::<SheetModel>::empty());
        match root.last_child_named("sheets") {
            Some(sheets) => {
                let ghost all = sheets@.children;
                let ghost step = |s: Seq<SheetModel>, c: Node| sheet_step(s, c);
                let mut i: usize = 0;
                while i < sheets.children.len()
                    invariant
                        i <= sheets.children.len(),
                        xml_document.wf(),
                        *xml_document == *old(xml_document),
                        all == sheets@.children,
                        step == (|s: Seq<SheetModel>, c: Node| sheet_step(s, c)),
                        read_book_views(root_children(xml_document@)) == Some(
                            opt_view(workbook_view),
                        ),
                        read_sheets(root_children(xml_document@)) == fold_all(
                            all,
                            Seq::empty(),
                            step,
                        ),
                        fold_all(all.take(i as int), Seq::empty(), step) == Some(
                            sheets_view(sheet_collection@),
                        ),
                    decreases sheets.children.len() - i,
                {
                    let ghost front = sheets_view(sheet_collection@);
                    proof {
                        let t = all.take(i + 1);
                        assert(t.drop_last() == all.take(i as int));
                        assert(t.last() == sheets.children[i as int]@);
                        if fold_all(t, Seq::empty(), step) is None {
                            lemma_fold_none(all, (i + 1) as int, Seq::empty(), step);
                        }
                    }
                    let child = &sheets.children[i];
                    if child.attributes.len() > 0 {
                        assert(child@.attributes.len() > 0);
                        match (child.attribute_value("name"), child.attribute_value("r:id")) {
                            (Some(name), Some(r_id)) => {
                                let is_hidden = match child.attribute_value("state") {
                                    Some(state) => str_eq(state.as_str(), "hidden"),
                                    None => false,
                                };
                                sheet_collection.push((name.clone(), r_id.clone(), false, is_hidden));
                                assert(sheets_view(sheet_collection@) =~= front.push(
                                    SheetModel {
                                        name: name@,
                                        relationship_id: r_id@,
                                        is_active: false,
                                        is_hidden,
                                    },
                                ));
                            },
                            _ => {
                                return Err(OfficeError::Schema);
                            },
                        }
                    } else {
                        assert(child@.attributes.len() == 0);
                    }
                    i += 1;
                }
                assert(all.take(i as int) == all);
            },
            None => {},
        }
        if !Self::names_differ(&sheet_collection) {
            return Err(OfficeError::Schema);
        }
        let _ = xml_document.pop_elements_by_tag_mut("bookViews");
        let _ = xml_document.pop_elements_by_tag_mut("sheets");
        Ok((sheet_collection, workbook_view))
    }

    /// Whether no two sheets have the same name.
    fn names_differ(list: &Vec<(String, String, bool, bool)>) -> (differ: bool)
        ensures
            differ == sheet_names(sheets_view(list@)).no_duplicates(),
    {
        let ghost names = sheet_names(sheets_view(list@));
        let mut i: usize = 0;
        while i < list.len()
            invariant
                i <= list.len(),
                names == sheet_names(sheets_view(list@)),
                forall|a: int, b: int| 0 <= a < b < i ==> names[a] != names[b],
            decreases list.len() - i,
        {
            let mut j: usize = 0;
            while j < i
                invariant
                    j <= i < list.len(),
                    names == sheet_names(sheets_view(list@)),
                    forall|a: int| 0 <= a < j ==> names[a] != names[i as int],
                decreases i - j,
            {
                if str_eq(list[j].0.as_str(), list[i].0.as_str()) {
                    assert(names[j as int] == names[i as int]);
                    return false;
                }
                j += 1;
            }
            i += 1;
        }
        true
    }

    /// The path of the file of the worksheet that the next new sheet
    /// gets.
    pub fn next_sheet_path(&self) -> (path: String)
        ensures
            path@ == new_part_path(
                worksheet_content_spec(),
                None,
                Some(sheet_file_name(self@.sheets.len() + 1)),
            ),
    {
        let content = worksheet_content();
        let number = self.sheet_collection.len() as u128 + 1;
        let file = Some(concat("sheet", decimal_string(number).as_str()));
        crate::relations::part_path(&content, &None, &file)
    }

    /// Whether the workbook has a sheet named `name`.
    pub fn has_sheet_named(&self, name: &str) -> (has: bool)
        ensures
            has == self@.has_sheet(name@),
    {
        let ghost names = sheet_names(self@.sheets);
        let mut i: usize = 0;
        while i < self.sheet_collection.len()
            invariant
                i <= self.sheet_collection.len(),
                names == sheet_names(self@.sheets),
                forall|j: int| 0 <= j < i ==> names[j] != name@,
            decreases self.sheet_collection.len() - i,
        {
            if str_eq(self.sheet_collection[i].0.as_str(), name) {
                assert(names[i as int] == name@);
                return true;
            }
            i += 1;
        }
        false
    }

    /// The names of the sheets, in the order of their tabs.
    pub fn list_sheet_names(&self) -> (res: Result<Vec<String>, OfficeError>)
        ensures
            res matches Ok(names) && names_view(names@) == sheet_names(self@.sheets),
    {
        let mut names: Vec<String> = Vec::new();
        let mut i: usize = 0;
        while i < self.sheet_collection.len()
            invariant
                i <= self.sheet_collection.len(),
                names.len() == i,
                forall|k: int|
                    0 <= k < i ==> (#[trigger] names@[k])@ == self.sheet_collection@[k].0@,
            decreases self.sheet_collection.len() - i,
        {
            names.push(self.sheet_collection[i].0.clone());
            i += 1;
        }
        assert(names_view(names@) =~= sheet_names(self@.sheets));
        Ok(names)
    }

    /// Adds a sheet to the workbook, named `sheet_name`, or `Sheet` with
    /// the least number that makes a new name where no name is given. The
    /// sheet gets a relationship of its own, which leads to the file of a
    /// new worksheet; the worksheet's part is given. A name that a sheet
    /// of the workbook has already is refused, and nothing is changed.
    pub fn add_sheet_mut(&mut self, sheet_name: Option<String>) -> (res: Result<
        WorkSheetPart,
        OfficeError,
    >)
        requires
            old(self).wf(),
        ensures
            final(self).wf(),
            final(self).services() == old(self).services(),
            final(self).theme() == old(self).theme(),
            final(self).path() == old(self).path(),
            ({
                let name = match opt_text(sheet_name) {
                    Some(n) => n,
                    None => next_name("Sheet"@, sheet_names(old(self)@.sheets)),
                };
                let file = Some(sheet_file_name(old(self)@.sheets.len() + 1));
                if old(self)@.has_sheet(name) {
                    (res matches Err(e) && e == OfficeError::Conflict) && final(self)@ == old(self)@
                        && final(self).relations() == old(self).relations()
                } else {
                    (res matches Ok(part) && part.path() == new_part_path(
                        worksheet_content_spec(),
                        None,
                        file,
                    )) && final(self)@ == (WorkbookModel {
                        sheets: old(self)@.sheets.push(
                            SheetModel {
                                name,
                                relationship_id: next_relationship_id(
                                    ids_of(old(self).relations()@.relationships),
                                ),
                                is_active: false,
                                is_hidden: false,
                            },
                        ),
                        ..old(self)@
                    }) && final(self).relations()@ == (RelationsModel {
                        relationships: old(self).relations()@.relationships.push(
                            new_relationship(
                                ids_of(old(self).relations()@.relationships),
                                worksheet_content_spec(),
                                None,
                                file,
                            ),
                        ),
                        ..old(self).relations()@
                    })
                }
            }),
    {
        let name = match sheet_name {
            Some(name) => name,
            None => {
                let names = match self.list_sheet_names() {
                    Ok(names) => names,
                    Err(_) => Vec::new(),
                };
                next_free_name("Sheet", &names)
            },
        };
        if self.has_sheet_named(name.as_str()) {
            return Err(OfficeError::Conflict);
        }
        let content = worksheet_content();
        let number = self.sheet_collection.len() as u128 + 1;
        let file_name = concat("sheet", decimal_string(number).as_str());
        let file = Some(file_name);
        let ghost before = self@.sheets;
        let ghost file_model = opt_text(file);
        let relationship_id = match self.workbook_relationship_part.set_new_relationship_mut(
            &content,
            None,
            crate::xml_node::copy_text(&file),
        ) {
            Ok(id) => id,
            Err(e) => {
                return Err(e);
            },
        };
        let path = crate::relations::part_path(&content, &None, &file);
        let ghost added = SheetModel {
            name: name@,
            relationship_id: relationship_id@,
            is_active: false,
            is_hidden: false,
        };
        self.sheet_collection.push((name, relationship_id, false, false));
        proof {
            let after = self@.sheets;
            assert(after =~= before.push(added));
            assert(sheet_names(after) =~= sheet_names(before).push(added.name));
            assert forall|i: int, j: int|
                0 <= i < sheet_names(after).len() && 0 <= j < sheet_names(after).len() && i
                    != j implies sheet_names(after)[i] != sheet_names(after)[j] by {
                if i < before.len() && j < before.len() {
                    assert(sheet_names(before)[i] != sheet_names(before)[j]);
                } else if i < before.len() {
                    assert(sheet_names(before).contains(sheet_names(before)[i]));
                } else {
                    assert(sheet_names(before).contains(sheet_names(before)[j]));
                }
            }
        }
        Ok(WorkSheetPart::new(Some(path)))
    }

    /// The part of the worksheet of the sheet named `sheet_name`: its file
    /// is where the sheet's relationship leads. A name that no sheet has,
    /// and a sheet whose relationship the workbook does not have, are not
    /// found.
    pub fn get_worksheet_mut(&mut self, sheet_name: &str) -> (res: Result<WorkSheetPart, OfficeError>)
        requires
            old(self).wf(),
        ensures
            final(self).wf(),
            *final(self) == *old(self),
            !old(self)@.has_sheet(sheet_name@) ==> (res matches Err(e) && e == OfficeError::NotFound),
            old(self)@.has_sheet(sheet_name@) ==> ({
                let place = sheet_names(old(self)@.sheets).index_of(sheet_name@);
                let relationship_id = old(self)@.sheets[place].relationship_id;
                match first_with_id(old(self).relations()@.relationships, relationship_id) {
                    Some(found) => match relative_base(old(self).relations()@.file_path) {
                        Some(base) => res matches Ok(part) && part.path() == resolved_target(
                            base,
                            found.target,
                        ),
                        None => res matches Err(e) && e == OfficeError::Programmer,
                    },
                    None => res matches Err(e) && e == OfficeError::NotFound,
                }
            }),
    {
        let ghost names = sheet_names(self@.sheets);
        let mut i: usize = 0;
        while i < self.sheet_collection.len()
            invariant
                i <= self.sheet_collection.len(),
                *self == *old(self),
                self.wf(),
                names == sheet_names(self@.sheets),
                forall|j: int| 0 <= j < i ==> names[j] != sheet_name@,
            decreases self.sheet_collection.len() - i,
        {
            if str_eq(self.sheet_collection[i].0.as_str(), sheet_name) {
                proof {
                    assert(names[i as int] == sheet_name@);
                    assert(names.contains(sheet_name@));
                    let place = names.index_of(sheet_name@);
                    assert(names[place] == names[i as int]);
                    assert(place == i);
                }
                return match self.workbook_relationship_part.get_target_by_id(
                    self.sheet_collection[i].1.as_str(),
                ) {
                    Ok(Some(path)) => Ok(WorkSheetPart::new(Some(path))),
                    Ok(None) => Err(OfficeError::NotFound),
                    Err(e) => Err(e),
                };
            }
            i += 1;
        }
        Err(OfficeError::NotFound)
    }

    /// Set Active sheet on opening the excel
    ///
    /// The sheet named `sheet_name` becomes the active one, and every
    /// other sheet is no longer active. A name that no sheet has is not
    /// found, and nothing is changed.
    pub fn set_active_sheet_mut(&mut self, sheet_name: &str) -> (res: Result<(), OfficeError>)
        requires
            old(self).wf(),
        ensures
            final(self).wf(),
            final(self).relations() == old(self).relations(),
            final(self).services() == old(self).services(),
            final(self).theme() == old(self).theme(),
            final(self).path() == old(self).path(),
            if old(self)@.has_sheet(sheet_name@) {
                res is Ok && final(self)@ == (WorkbookModel {
                    sheets: activated(old(self)@.sheets, sheet_name@),
                    ..old(self)@
                })
            } else {
                res == Err::<(), OfficeError>(OfficeError::NotFound) && final(self)@ == old(self)@
            },
    {
        if !self.has_sheet_named(sheet_name) {
            return Err(OfficeError::NotFound);
        }
        let ghost before = self@.sheets;
        let mut sheets: Vec<(String, String, bool, bool)> = Vec::new();
        let mut i: usize = 0;
        assert(sheets_view(sheets@) =~= Seq::<SheetModel>::empty());
        while i < self.sheet_collection.len()
            invariant
                i <= self.sheet_collection.len(),
                *self == *old(self),
                before == self@.sheets,
                sheets.len() == i,
                sheets_view(sheets@) == activated(before, sheet_name@).take(i as int),
            decreases self.sheet_collection.len() - i,
        {
            let entry = &self.sheet_collection[i];
            let active = str_eq(entry.0.as_str(), sheet_name);
            let ghost front = sheets_view(sheets@);
            sheets.push((entry.0.clone(), entry.1.clone(), active, entry.3));
            assert(sheets_view(sheets@) =~= front.push(activated(before, sheet_name@)[i as int]));
            assert(activated(before, sheet_name@).take(i + 1) =~= front.push(
                activated(before, sheet_name@)[i as int],
            ));
            i += 1;
        }
        self.sheet_collection = sheets;
        proof {
            assert(activated(before, sheet_name@).take(i as int) =~= activated(before, sheet_name@));
            assert(self@.sheets =~= activated(before, sheet_name@));
            assert(sheet_names(self@.sheets) =~= sheet_names(before));
        }
        Ok(())
    }

    /// Hide sheet on opening the excel
    ///
    /// The sheet named `sheet_name` is hidden, and every other sheet is
    /// left as it was. A name that no sheet has is not found, and nothing
    /// is changed.
    pub fn hide_sheet_mut(&mut self, sheet_name: &str) -> (res: Result<(), OfficeError>)
        requires
            old(self).wf(),
        ensures
            final(self).wf(),
            final(self).relations() == old(self).relations(),
            final(self).services() == old(self).services(),
            final(self).theme() == old(self).theme(),
            final(self).path() == old(self).path(),
            if old(self)@.has_sheet(sheet_name@) {
                res is Ok && final(self)@ == (WorkbookModel {
                    sheets: hidden(old(self)@.sheets, sheet_name@),
                    ..old(self)@
                })
            } else {
                res == Err::<(), OfficeError>(OfficeError::NotFound) && final(self)@ == old(self)@
            },
    {
        if !self.has_sheet_named(sheet_name) {
            return Err(OfficeError::NotFound);
        }
        let ghost before = self@.sheets;
        let mut sheets: Vec<(String, String, bool, bool)> = Vec::new();
        let mut i: usize = 0;
        assert(sheets_view(sheets@) =~= Seq::<SheetModel>::empty());
        while i < self.sheet_collection.len()
            invariant
                i <= self.sheet_collection.len(),
                *self == *old(self),
                before == self@.sheets,
                sheets.len() == i,
                sheets_view(sheets@) == hidden(before, sheet_name@).take(i as int),
            decreases self.sheet_collection.len() - i,
        {
            let entry = &self.sheet_collection[i];
            let hide = entry.3 || str_eq(entry.0.as_str(), sheet_name);
            let ghost front = sheets_view(sheets@);
            sheets.push((entry.0.clone(), entry.1.clone(), entry.2, hide));
            assert(sheets_view(sheets@) =~= front.push(hidden(before, sheet_name@)[i as int]));
            assert(hidden(before, sheet_name@).take(i + 1) =~= front.push(
                hidden(before, sheet_name@)[i as int],
            ));
            i += 1;
        }
        self.sheet_collection = sheets;
        proof {
            assert(hidden(before, sheet_name@).take(i as int) =~= hidden(before, sheet_name@));
            assert(self@.sheets =~= hidden(before, sheet_name@));
            assert(sheet_names(self@.sheets) =~= sheet_names(before));
        }
        Ok(())
    }

    /// Gives the sheet named `old_sheet_name` the name `new_sheet_name`. A
    /// new name that a sheet of the workbook has already is a conflict; an
    /// old name that no sheet has is not found. Either way nothing is
    /// changed.
    pub fn rename_sheet_name_mut(&mut self, old_sheet_name: &str, new_sheet_name: &str) -> (res:
        Result<(), OfficeError>)
        requires
            old(self).wf(),
        ensures
            final(self).wf(),
            final(self).relations() == old(self).relations(),
            final(self).services() == old(self).services(),
            final(self).theme() == old(self).theme(),
            final(self).path() == old(self).path(),
            if old(self)@.has_sheet(new_sheet_name@) {
                res == Err::<(), OfficeError>(OfficeError::Conflict) && final(self)@ == old(self)@
            } else if !old(self)@.has_sheet(old_sheet_name@) {
                res == Err::<(), OfficeError>(OfficeError::NotFound) && final(self)@ == old(self)@
            } else {
                res is Ok && final(self)@ == (WorkbookModel {
                    sheets: renamed(old(self)@.sheets, old_sheet_name@, new_sheet_name@),
                    ..old(self)@
                })
            },
    {
        // Check if sheet with same name exist
        if self.has_sheet_named(new_sheet_name) {
            return Err(OfficeError::Conflict);
        }
        if !self.has_sheet_named(old_sheet_name) {
            return Err(OfficeError::NotFound);
        }
        let ghost before = self@.sheets;
        let mut sheets: Vec<(String, String, bool, bool)> = Vec::new();
        let mut i: usize = 0;
        assert(sheets_view(sheets@) =~= Seq::<SheetModel>::empty());
        while i < self.sheet_collection.len()
            invariant
                i <= self.sheet_collection.len(),
                *self == *old(self),
                before == self@.sheets,
                sheets.len() == i,
                sheets_view(sheets@) == renamed(before, old_sheet_name@, new_sheet_name@).take(i as int),
            decreases self.sheet_collection.len() - i,
        {
            let entry = &self.sheet_collection[i];
            let name = if str_eq(entry.0.as_str(), old_sheet_name) {
                new_sheet_name.to_owned()
            } else {
                entry.0.clone()
            };
            let ghost front = sheets_view(sheets@);
            let ghost target = renamed(before, old_sheet_name@, new_sheet_name@);
            sheets.push((name, entry.1.clone(), entry.2, entry.3));
            assert(sheets_view(sheets@) =~= front.push(target[i as int]));
            assert(target.take(i + 1) =~= front.push(target[i as int]));
            i += 1;
        }
        self.sheet_collection = sheets;
        proof {
            let after = self@.sheets;
            assert(renamed(before, old_sheet_name@, new_sheet_name@).take(i as int) =~= renamed(
                before,
                old_sheet_name@,
                new_sheet_name@,
            ));
            assert(after =~= renamed(before, old_sheet_name@, new_sheet_name@));
            assert forall|i: int, j: int|
                0 <= i < sheet_names(after).len() && 0 <= j < sheet_names(after).len() && i
                    != j implies sheet_names(after)[i] != sheet_names(after)[j] by {
                assert(sheet_names(before)[i] != sheet_names(before)[j]);
                assert(sheet_names(before).contains(sheet_names(before)[i]));
                assert(sheet_names(before).contains(sheet_names(before)[j]));
            }
        }
        Ok(())
    }

    /// The view of the workbook, made first where the workbook has none.
    fn take_view(&mut self) -> (view: WorkbookView)
        ensures
            view@ == old(self)@.view_or_default(),
            final(self).relations() == old(self).relations(),
            final(self).services() == old(self).services(),
            final(self).theme() == old(self).theme(),
            final(self).path() == old(self).path(),
            final(self)@.sheets == old(self)@.sheets,
    {
        let mut view: Option<WorkbookView> = None;
        core::mem::swap(&mut self.workbook_view, &mut view);
        match view {
            Some(v) => v,
            None => WorkbookView::default_value(),
        }
    }

    /// Puts `view` in place as the view of the workbook.
    fn put_view(&mut self, view: WorkbookView)
        ensures
            final(self)@ == (WorkbookModel { view: Some(view@), ..old(self)@ }),
            final(self).relations() == old(self).relations(),
            final(self).services() == old(self).services(),
            final(self).theme() == old(self).theme(),
            final(self).path() == old(self).path(),
    {
        self.workbook_view = Some(view);
    }

    /// Set workbook visibility
    pub fn set_visibility_mut(&mut self, is_visible: bool) -> (res: Result<(), OfficeError>)
        requires
            old(self).wf(),
        ensures
            final(self).wf(),
            res is Ok,
            final(self).relations() == old(self).relations(),
            final(self).services() == old(self).services(),
            final(self).theme() == old(self).theme(),
            final(self).path() == old(self).path(),
            final(self)@ == (WorkbookModel {
                view: Some(
                    WorkbookViewModel {
                        visibility: Some(
                            if is_visible {
                                "visible"@
                            } else {
                                "hidden"@
                            },
                        ),
                        ..old(self)@.view_or_default()
                    },
                ),
                ..old(self)@
            }),
    {
        let mut view = self.take_view();
        view.visibility = if is_visible {
            Some("visible".to_owned())
        } else {
            Some("hidden".to_owned())
        };
        self.put_view(view);
        Ok(())
    }

    /// Set workbook minimized
    pub fn minimize_workbook_mut(&mut self, is_minimized: bool) -> (res: Result<(), OfficeError>)
        requires
            old(self).wf(),
        ensures
            final(self).wf(),
            res is Ok,
            final(self).relations() == old(self).relations(),
            final(self).services() == old(self).services(),
            final(self).theme() == old(self).theme(),
            final(self).path() == old(self).path(),
            final(self)@ == (WorkbookModel {
                view: Some(
                    WorkbookViewModel { minimize: is_minimized, ..old(self)@.view_or_default() },
                ),
                ..old(self)@
            }),
    {
        let mut view = self.take_view();
        view.minimize = is_minimized;
        self.put_view(view);
        Ok(())
    }

    /// Set visibility of sheet tabs in workbook
    pub fn hide_sheet_tabs_mut(&mut self, hide_sheet_tab: bool) -> (res: Result<(), OfficeError>)
        requires
            old(self).wf(),
        ensures
            final(self).wf(),
            res is Ok,
            final(self).relations() == old(self).relations(),
            final(self).services() == old(self).services(),
            final(self).theme() == old(self).theme(),
            final(self).path() == old(self).path(),
            final(self)@ == (WorkbookModel {
                view: Some(WorkbookViewModel { hide_sheet_tab, ..old(self)@.view_or_default() }),
                ..old(self)@
            }),
    {
        let mut view = self.take_view();
        view.hide_sheet_tab = hide_sheet_tab;
        self.put_view(view);
        Ok(())
    }

    /// Set workbook Vertical Scroll Visibility
    pub fn hide_vertical_scroll_mut(&mut self, hide_vertical_scroll: bool) -> (res: Result<
        (),
        OfficeError,
    >)
        requires
            old(self).wf(),
        ensures
            final(self).wf(),
            res is Ok,
            final(self).relations() == old(self).relations(),
            final(self).services() == old(self).services(),
            final(self).theme() == old(self).theme(),
            final(self).path() == old(self).path(),
            final(self)@ == (WorkbookModel {
                view: Some(
                    WorkbookViewModel { hide_vertical_scroll, ..old(self)@.view_or_default() },
                ),
                ..old(self)@
            }),
    {
        let mut view = self.take_view();
        view.hide_vertical_scroll = hide_vertical_scroll;
        self.put_view(view);
        Ok(())
    }

    /// Set workbook Horizontal Scroll Visibility
    pub fn hide_horizontal_scroll_mut(&mut self, hide_horizontal_scroll: bool) -> (res: Result<
        (),
        OfficeError,
    >)
        requires
            old(self).wf(),
        ensures
            final(self).wf(),
            res is Ok,
            final(self).relations() == old(self).relations(),
            final(self).services() == old(self).services(),
            final(self).theme() == old(self).theme(),
            final(self).path() == old(self).path(),
            final(self)@ == (WorkbookModel {
                view: Some(
                    WorkbookViewModel { hide_horizontal_scroll, ..old(self)@.view_or_default() },
                ),
                ..old(self)@
            }),
    {
        let mut view = self.take_view();
        view.hide_horizontal_scroll = hide_horizontal_scroll;
        self.put_view(view);
        Ok(())
    }

    /// Return Style Id for the said combination
    pub fn get_style_id_mut(&mut self, style_setting: StyleSetting) -> (res: Result<
        StyleId,
        OfficeError,
    >)
        requires
            old(self).wf(),
        ensures
            final(self).wf(),
            final(self)@ == old(self)@,
            final(self).relations() == old(self).relations(),
            final(self).path() == old(self).path(),
            final(self).theme() == old(self).theme(),
            final(self).services().strings() == old(self).services().strings(),
            final(self).services().chain() == old(self).services().chain(),
            final(self).services().styles().path() == old(self).services().styles().path(),
            match old(self).services().styles()@.style_outcome(style_setting@) {
                Ok((tables, id)) => res == Ok::<StyleId, OfficeError>(StyleId { id }) && final(self).services().styles()@ == tables,
                Err(e) => res == Err::<StyleId, OfficeError>(e) && final(self).services().styles()@ == old(self).services().styles()@,
            },
    {
        self.common_service.get_style_id_mut(style_setting)
    }

    /// Writes the view and the sheets into the workbook's XML: their
    /// elements are hung behind the children of the root, and the root's
    /// children are then put in the order of the schema. A document
    /// without a root is refused and left as it was.
    pub fn save_sheets_to_doc(&self, xml_document: &mut XmlDocument) -> (res: Result<
        (),
        OfficeError,
    >)
        requires
            old(xml_document).wf(),
        ensures
            final(xml_document).wf(),
            match old(xml_document)@.parent_or_root(None) {
                Some(root) => res is Ok && final(xml_document)@.parent_or_root(None) == Some(root)
                    && final(xml_document)@.tree(root) == (Node {
                    children: ordered_nodes(
                        old(xml_document)@.tree(root).children + workbook_nodes(self@),
                        workbook_order_tags(),
                    ),
                    ..old(xml_document)@.tree(root)
                }),
                None => res == Err::<(), OfficeError>(OfficeError::NotFound) && final(xml_document)@ == old(xml_document)@,
            },
    {
        let root = match xml_document.get_root_id() {
            Some(r) => r,
            None => {
                return Err(OfficeError::NotFound);
            },
        };
        if xml_document.get_element(root).is_none() {
            return Err(OfficeError::NotFound);
        }
        let ghost before = xml_document@.tree(root);
        match &self.workbook_view {
            Some(view) => {
                let views = book_views_element(view);
                let _ = xml_document.append_tree_mut(&views, Some(root));
                assert(xml_document@.elements.dom().contains(root));
            },
            None => {},
        }
        let sheets = sheets_element(&self.sheet_collection);
        let _ = xml_document.append_tree_mut(&sheets, Some(root));
        assert(xml_document@.elements.dom().contains(root));
        assert(xml_document@.tree(root).children =~= before.children + workbook_nodes(self@));
        let order = workbook_order();
        let ghost mid = xml_document@;
        let _ = xml_document.reorder_children(root, order.as_slice());
        proof {
            mid.lemma_tree_after_reorder(root, workbook_order_tags());
        }
        Ok(())
    }
}

/// The place of the last slash of `path`; nothing where it has none.
pub open spec fn last_slash(path: Seq<char>) -> Option<nat>
    decreases path.len(),
{
    if path.len() == 0 {
        None
    } else if path.last() == '/' {
        Some((path.len() - 1) as nat)
    } else {
        last_slash(path.drop_last())
    }
}

/// The path of the relationships file of the workbook whose file is
/// `path`: in the directory `_rels` beside the workbook's file.
pub open spec fn workbook_relationships_path(path: Seq<char>) -> Option<Seq<char>> {
    match last_slash(path) {
        Some(place) => Some(path.subrange(0, place as int) + "/_rels/workbook.xml.rels"@),
        None => None,
    }
}

/// The tree of the XML of a new workbook.
pub open spec fn new_workbook_node() -> Node {
    Node {
        tag: "workbook"@,
        attributes: seq![
            ("xmlns"@, "http://schemas.openxmlformats.org/spreadsheetml/2006/main"@),
            ("xmlns:r"@, "http://schemas.openxmlformats.org/officeDocument/2006/relationships"@),
        ],
        value: None,
        children: seq![
            Node {
                tag: "fileVersion"@,
                attributes: seq![
                    ("appName"@, "openxml-office"@),
                    ("lastEdited"@, "7"@),
                    ("lowestEdited"@, "7"@),
                ],
                value: None,
                children: Seq::empty(),
            },
        ],
    }
}

/// The path of the relationships file of the workbook whose file is
/// `file_name`.
fn relationships_path_of(file_name: &str) -> (res: Option<String>)
    ensures
        crate::xml_tree::opt_text(res) == workbook_relationships_path(file_name@),
{
    let path = chars_of(file_name);
    let mut i: usize = path.len();
    assert(path@.take(i as int) == path@);
    while i > 0
        invariant
            i <= path.len(),
            path@ == file_name@,
            last_slash(path@) == last_slash(path@.take(i as int)),
        decreases i,
    {
        proof {
            let front = path@.take(i as int);
            assert(front.last() == path@[i - 1]);
            assert(front.drop_last() == path@.take(i - 1));
        }
        if path[i - 1] == '/' {
            let mut rels = string_of_range(&path, 0, i - 1);
            rels.append("/_rels/workbook.xml.rels");
            return Some(rels);
        }
        i -= 1;
    }
    None
}

impl WorkbookPart {
    /// Initialize xml content for this part from base template
    ///
    /// The XML of a new workbook, which says by whom it was written. With
    /// it come the content type of workbooks, the extension of their
    /// files, and the way in which their content type is declared.
    pub fn initialize_content_xml() -> (res: (XmlDocument, Option<String>, String, String))
        ensures
            res.0.wf(),
            res.0@.parent_or_root(None) == Some(1usize),
            res.0@.tree(1) == new_workbook_node(),
            res.1 matches Some(content_type) && content_type@
                == "application/vnd.openxmlformats-officedocument.spreadsheetml.sheet.main+xml"@,
            res.2@ == "xml"@,
            res.3@ == "Override"@,
    {
        let content = workbook_content();
        let mut version = XmlNode::new("fileVersion");
        version.push_attribute("appName", "openxml-office".to_owned());
        version.push_attribute("lastEdited", "7".to_owned());
        version.push_attribute("lowestEdited", "7".to_owned());
        let mut root = XmlNode::new("workbook");
        root.push_attribute("xmlns", content.schemas_namespace.to_owned());
        root.push_attribute(
            "xmlns:r",
            crate::element_dictionary::relationship_namespace().to_owned(),
        );
        root.push_child(version);
        proof {
            assert(root@.attributes =~= new_workbook_node().attributes);
            assert(root@.children[0].attributes =~= new_workbook_node().children[0].attributes);
            assert(root@.children =~= new_workbook_node().children);
        }
        (
            XmlDocument::from_tree(&root),
            Some(content.content_type.to_owned()),
            content.extension.to_owned(),
            content.extension_type.to_owned(),
        )
    }

    /// The path of the workbook's file: where the first relationship of
    /// the type of workbooks leads, or the path of a new workbook, to
    /// which a relationship is then made.
    fn get_workbook_file_name(relations_part: &mut RelationsPart) -> (res: Result<
        String,
        OfficeError,
    >)
        requires
            old(relations_part).wf(),
        ensures
            final(relations_part).wf(),
            final(relations_part)@ == old(relations_part)@.with_target_by_type(
                workbook_content_spec().schemas_type@,
                workbook_content_spec(),
                None,
                None,
            ),
            paths_view(res) == old(relations_part)@.target_by_type(
                workbook_content_spec().schemas_type@,
                workbook_content_spec(),
                None,
                None,
            ),
    {
        let content = workbook_content();
        relations_part.get_relationship_target_by_type_mut(
            content.schemas_type,
            &content,
            None,
            None,
        )
    }

    /// What the part has in memory.
    pub open spec fn state(&self) -> WorkbookState {
        WorkbookState {
            path: self.path(),
            relations: self.relations()@,
            theme_path: self.theme().path(),
            strings_path: self.services().strings().path(),
            style_path: self.services().styles().path(),
            styles: self.services().styles()@,
            strings: self.services().strings()@,
            chain: self.services().chain()@,
            workbook: self@,
        }
    }

    /// Create workbook
    ///
    /// The part of the workbook of the package in `office_document`: of
    /// the workbook to which the package's relationships lead, or of a new
    /// workbook, to which a relationship is then made. The workbook's own
    /// relationships, its style sheet and its list of sheets are read from
    /// their files, or from what a new workbook has of them; the files go
    /// back into the store without what is in memory from then on. What
    /// the part then holds and what the store then keeps is what
    /// `opened_workbook` says, failures included.
    pub fn new(
        office_document: &mut OfficeDocument,
        parent_relationship_part: &mut RelationsPart,
    ) -> (res: Result<Self, OfficeError>)
        requires
            old(office_document).wf(),
            old(parent_relationship_part).wf(),
        ensures
            final(office_document).wf(),
            final(parent_relationship_part).wf(),
            final(parent_relationship_part)@.file_path == old(parent_relationship_part)@.file_path,
            match res {
                Ok(part) => part.wf() && has_file(*final(office_document), part.path())
                    && opened_workbook(
                    old(office_document).files(),
                    old(parent_relationship_part)@,
                ) == Ok::<(WorkbookState, Seq<FileModel>), OfficeError>(
                    (part.state(), final(office_document).files()),
                ) && final(parent_relationship_part)@ == leading_to(
                    old(parent_relationship_part)@,
                    workbook_content_spec(),
                ),
                Err(e) => opened_workbook(
                    old(office_document).files(),
                    old(parent_relationship_part)@,
                ) == Err::<(WorkbookState, Seq<FileModel>), OfficeError>(e),
            },
    {
        let ghost files = office_document.files();
        let ghost parent = parent_relationship_part@;
        let file_name = match Self::get_workbook_file_name(parent_relationship_part) {
            Ok(name) => name,
            Err(e) => {
                return Err(e);
            },
        };
        let fresh = Self::initialize_content_xml();
        proof {
            lemma_names_of_files(office_document@);
        }
        let mut file_tree = match document_or(office_document, file_name.as_str(), fresh.0) {
            Ok(document) => document,
            Err(e) => {
                return Err(e);
            },
        };
        let ghost root = file_tree@.root_tree();
        let relationships_path = match relationships_path_of(file_name.as_str()) {
            Some(path) => path,
            None => {
                return Err(OfficeError::Programmer);
            },
        };
        let workbook_relationship_part = match RelationsPart::open(
            office_document,
            relationships_path.as_str(),
        ) {
            Ok(part) => part,
            Err(e) => {
                return Err(e);
            },
        };
        let ghost with_relations = office_document.files();
        // Theme
        let theme_path = match workbook_relationship_part.find_target_by_type(
            theme_content().schemas_type,
        ) {
            Ok(Some(path)) => path,
            Ok(None) => "xl/theme/theme1.xml".to_owned(),
            Err(e) => {
                return Err(e);
            },
        };
        let theme_part = ThemePart::new(theme_path.as_str());
        // Share String
        let share_string_path = match workbook_relationship_part.find_target_by_type(
            share_string_content().schemas_type,
        ) {
            Ok(Some(path)) => path,
            Ok(None) => "xl/sharedStrings.xml".to_owned(),
            Err(e) => {
                return Err(e);
            },
        };
        let share_string = ShareStringPart::new(share_string_path);
        assert(share_string@ =~= Seq::<Seq<char>>::empty());
        // Calculation chain
        let calculation_chain = CalculationChainPart::new("xl/calcChain.xml".to_owned());
        // Style
        let style_path = match workbook_relationship_part.find_target_by_type(
            style_content().schemas_type,
        ) {
            Ok(Some(path)) => path,
            Ok(None) => "xl/styles.xml".to_owned(),
            Err(e) => {
                return Err(e);
            },
        };
        let fresh_style = StylePart::initialize_content_xml();
        proof {
            lemma_names_of_files(office_document@);
        }
        let mut style_tree = match document_or(office_document, style_path.as_str(), fresh_style.0) {
            Ok(document) => document,
            Err(e) => {
                return Err(e);
            },
        };
        proof {
            lemma_without_style_tables(style_tree@);
        }
        let style = match StylePart::new(&mut style_tree, style_path.clone()) {
            Ok(style) => style,
            Err(e) => {
                return Err(e);
            },
        };
        match office_document.close_xml_document(
            style_path.as_str(),
            &style_tree,
            style_content().content_type,
        ) {
            Ok(_) => {},
            Err(e) => {
                return Err(e);
            },
        }
        let common_service = CommonServices::new(calculation_chain, share_string, style);
        proof {
            lemma_without_workbook_lists(file_tree@);
        }
        let part = match Self::from_parts(
            &mut file_tree,
            file_name.clone(),
            common_service,
            workbook_relationship_part,
            theme_part,
        ) {
            Ok(part) => part,
            Err(e) => {
                return Err(e);
            },
        };
        match office_document.close_xml_document(
            file_name.as_str(),
            &file_tree,
            workbook_content().content_type,
        ) {
            Ok(_) => Ok(part),
            Err(e) => Err(e),
        }
    }

    /// Writes the workbook and what belongs to it back into the store: the
    /// theme, the style sheet with the style tables, the shared strings
    /// where there are any, the calculation chain where it names a cell,
    /// the workbook's relationships, and the
    /// workbook's XML with the view and the list of sheets. Every part
    /// that is written has a relationship of the workbook leading to it.
    /// What the store then keeps is what `closed_workbook` says, failures
    /// included.
    #[verifier::rlimit(80)]
    pub fn close_document(&mut self, office_document: &mut OfficeDocument) -> (res: Result<
        (),
        OfficeError,
    >)
        requires
            old(self).wf(),
            old(office_document).wf(),
        ensures
            final(self).wf(),
            final(office_document).wf(),
            final(self)@ == old(self)@,
            final(self).path() == old(self).path(),
            final(self).services() == old(self).services(),
            final(self).theme() == old(self).theme(),
            final(self).relations()@.file_path == old(self).relations()@.file_path,
            match res {
                Ok(_) => has_file(*final(office_document), final(self).path()) && closed_workbook(
                    old(office_document).files(),
                    old(self).state(),
                ) == Ok::<Seq<FileModel>, OfficeError>(final(office_document).files()) && final(self).relations()@ == closed_workbook_relations(old(self).state()),
                Err(e) => closed_workbook(old(office_document).files(), old(self).state())
                    == Err::<Seq<FileModel>, OfficeError>(e),
            },
    {
        // Theme
        let theme = theme_content();
        let theme_path = match self.workbook_relationship_part.get_relationship_target_by_type_mut(
            theme.schemas_type,
            &theme,
            None,
            None,
        ) {
            Ok(path) => path,
            Err(e) => {
                return Err(e);
            },
        };
        let fresh_theme = ThemePart::initialize_content_xml();
        proof {
            lemma_names_of_files(office_document@);
        }
        let theme_tree = match document_or(office_document, theme_path.as_str(), fresh_theme.0) {
            Ok(document) => document,
            Err(e) => {
                return Err(e);
            },
        };
        proof {
            let root = theme_tree@.root_tree()->0;
            assert(root.children + Seq::<Node>::empty() =~= root.children);
        }
        match office_document.close_xml_document(
            theme_path.as_str(),
            &theme_tree,
            theme.content_type,
        ) {
            Ok(_) => {},
            Err(e) => {
                return Err(e);
            },
        }
        // Style
        let style_path = match StylePart::get_style_file_name(&mut self.workbook_relationship_part) {
            Ok(path) => path,
            Err(e) => {
                return Err(e);
            },
        };
        let style = style_content();
        proof {
            lemma_names_of_files(office_document@);
        }
        let mut style_tree = match document_or(
            office_document,
            style_path.as_str(),
            root_only("styleSheet", style.schemas_namespace),
        ) {
            Ok(document) => document,
            Err(e) => {
                return Err(e);
            },
        };
        match self.common_service.get_style().close_document(&mut style_tree) {
            Ok(_) => {},
            Err(e) => {
                return Err(OfficeError::Codec);
            },
        }
        match office_document.close_xml_document(
            style_path.as_str(),
            &style_tree,
            style.content_type,
        ) {
            Ok(_) => {},
            Err(e) => {
                return Err(e);
            },
        }
        // Share String
        if self.common_service.get_share_string().len() > 0 {
            let share = share_string_content();
            let share_path = match self.workbook_relationship_part.get_relationship_target_by_type_mut(
                share.schemas_type,
                &share,
                None,
                None,
            ) {
                Ok(path) => path,
                Err(e) => {
                    return Err(e);
                },
            };
            proof {
                lemma_names_of_files(office_document@);
            }
            let mut share_tree = match document_or(
                office_document,
                share_path.as_str(),
                root_only("sst", share.schemas_namespace),
            ) {
                Ok(document) => document,
                Err(e) => {
                    return Err(e);
                },
            };
            match self.common_service.get_share_string().close_document(&mut share_tree) {
                Ok(_) => {},
                Err(e) => {
                    return Err(OfficeError::Codec);
                },
            }
            match office_document.close_xml_document(
                share_path.as_str(),
                &share_tree,
                share.content_type,
            ) {
                Ok(_) => {},
                Err(e) => {
                    return Err(e);
                },
            }
        }
        // Calculation chain
        if self.common_service.get_calculation_chain().len() > 0 {
            let chain = calculation_chain_content();
            let chain_path = match self.workbook_relationship_part.get_relationship_target_by_type_mut(
                chain.schemas_type,
                &chain,
                None,
                None,
            ) {
                Ok(path) => path,
                Err(e) => {
                    return Err(e);
                },
            };
            proof {
                lemma_names_of_files(office_document@);
            }
            let mut chain_tree = match document_or(
                office_document,
                chain_path.as_str(),
                root_only("calcChain", chain.schemas_namespace),
            ) {
                Ok(document) => document,
                Err(e) => {
                    return Err(e);
                },
            };
            match self.common_service.get_calculation_chain().close_document(&mut chain_tree) {
                Ok(_) => {},
                Err(e) => {
                    return Err(OfficeError::Codec);
                },
            }
            match office_document.close_xml_document(
                chain_path.as_str(),
                &chain_tree,
                chain.content_type,
            ) {
                Ok(_) => {},
                Err(e) => {
                    return Err(e);
                },
            }
        }
        // Relationships
        match self.workbook_relationship_part.close_document(office_document) {
            Ok(_) => {},
            Err(e) => {
                return Err(e);
            },
        }
        // Write Sheet Records to Workbook
        let fresh = Self::initialize_content_xml();
        proof {
            lemma_names_of_files(office_document@);
        }
        let mut file_tree = match document_or(office_document, self.file_path.as_str(), fresh.0) {
            Ok(document) => document,
            Err(e) => {
                return Err(e);
            },
        };
        match self.save_sheets_to_doc(&mut file_tree) {
            Ok(_) => {},
            Err(e) => {
                return Err(OfficeError::Codec);
            },
        }
        match office_document.close_xml_document(
            self.file_path.as_str(),
            &file_tree,
            workbook_content().content_type,
        ) {
            Ok(_) => Ok(()),
            Err(e) => Err(e),
        }
    }

    /// The path of the workbook's file in the package.
    pub fn get_file_path(&self) -> (path: &str)
        ensures
            path@ == self.path(),
    {
        self.file_path.as_str()
    }

    /// The id of the style that `style_setting` asks for.
    pub fn style_for(&mut self, style_setting: StyleSetting) -> (res: Result<StyleId, OfficeError>)
        requires
            old(self).wf(),
        ensures
            final(self).wf(),
            final(self)@ == old(self)@,
            final(self).relations() == old(self).relations(),
            final(self).path() == old(self).path(),
            final(self).theme() == old(self).theme(),
            final(self).services().strings() == old(self).services().strings(),
            final(self).services().chain() == old(self).services().chain(),
            final(self).services().styles().path() == old(self).services().styles().path(),
            match old(self).services().styles()@.style_outcome(style_setting@) {
                Ok((tables, id)) => res == Ok::<StyleId, OfficeError>(StyleId { id }) && final(self).services().styles()@ == tables,
                Err(e) => res == Err::<StyleId, OfficeError>(e) && final(self).services().styles()@ == old(self).services().styles()@,
            },
    {
        self.get_style_id_mut(style_setting)
    }
}

} // verus!
