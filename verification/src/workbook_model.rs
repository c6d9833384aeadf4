//! What a workbook keeps in memory of its XML: the list of its sheets and
//! the view in which it opens; and how both are read from and written to
//! the workbook's XML.

use vstd::prelude::*;
use crate::style_read::{fold_all, switch_attribute_of, number_attribute};
use crate::text::decimal;
use crate::xml_node::{Node, last_named};
use crate::xml_tree::{attribute_in, opt_text};

verus! {

/// One sheet of a workbook, as plain mathematical values.
pub struct SheetModel {
    pub name: Seq<char>,
    pub relationship_id: Seq<char>,
    pub is_active: bool,
    pub is_hidden: bool,
}

/// The view in which a workbook opens, as plain mathematical values.
pub struct WorkbookViewModel {
    pub active_tab: Option<Seq<char>>,
    pub first_sheet: Option<Seq<char>>,
    pub visibility: Option<Seq<char>>,
    pub minimize: bool,
    pub hide_horizontal_scroll: bool,
    pub hide_vertical_scroll: bool,
    pub hide_sheet_tab: bool,
    pub sheet_tab_ratio: Option<u32>,
    pub auto_filter_date_grouping: Option<bool>,
}

/// What a workbook keeps in memory, as plain mathematical values.
pub struct WorkbookModel {
    /// The sheets, in the order of their tabs.
    pub sheets: Seq<SheetModel>,
    pub view: Option<WorkbookViewModel>,
}

/// The view in which a workbook opens.
#[derive(Debug)]
pub struct WorkbookView {
    pub active_tab: Option<String>,
    pub first_sheet: Option<String>,
    pub visibility: Option<String>,
    pub minimize: bool,
    pub hide_horizontal_scroll: bool,
    pub hide_vertical_scroll: bool,
    pub hide_sheet_tab: bool,
    pub sheet_tab_ratio: Option<u32>,
    pub auto_filter_date_grouping: Option<bool>,
}

impl View for WorkbookView {
    type V = WorkbookViewModel;

    open spec fn view(&self) -> WorkbookViewModel {
        WorkbookViewModel {
            active_tab: opt_text(self.active_tab),
            first_sheet: opt_text(self.first_sheet),
            visibility: opt_text(self.visibility),
            minimize: self.minimize,
            hide_horizontal_scroll: self.hide_horizontal_scroll,
            hide_vertical_scroll: self.hide_vertical_scroll,
            hide_sheet_tab: self.hide_sheet_tab,
            sheet_tab_ratio: self.sheet_tab_ratio,
            auto_filter_date_grouping: self.auto_filter_date_grouping,
        }
    }
}

impl WorkbookView {
    /// The view that says nothing: everything is shown and nothing is set.
    pub open spec fn default_model() -> WorkbookViewModel {
        WorkbookViewModel {
            active_tab: None,
            first_sheet: None,
            visibility: None,
            minimize: false,
            hide_horizontal_scroll: false,
            hide_vertical_scroll: false,
            hide_sheet_tab: false,
            sheet_tab_ratio: None,
            auto_filter_date_grouping: None,
        }
    }

    pub fn default_value() -> (view: Self)
        ensures
            view@ == Self::default_model(),
    {
        WorkbookView {
            active_tab: None,
            first_sheet: None,
            minimize: false,
            auto_filter_date_grouping: None,
            hide_sheet_tab: false,
            hide_vertical_scroll: false,
            hide_horizontal_scroll: false,
            sheet_tab_ratio: None,
            visibility: None,
        }
    }
}

/// An optional view as plain mathematical values.
pub open spec fn opt_view(view: Option<WorkbookView>) -> Option<WorkbookViewModel> {
    match view {
        Some(v) => Some(v@),
        None => None,
    }
}

/// A list of sheets as plain mathematical values.
pub open spec fn sheets_view(list: Seq<(String, String, bool, bool)>) -> Seq<SheetModel> {
    Seq::new(
        list.len(),
        |i: int|
            SheetModel {
                name: list[i].0@,
                relationship_id: list[i].1@,
                is_active: list[i].2,
                is_hidden: list[i].3,
            },
    )
}

/// The names of a list of sheets, in their order.
pub open spec fn sheet_names(sheets: Seq<SheetModel>) -> Seq<Seq<char>> {
    Seq::new(sheets.len(), |i: int| sheets[i].name)
}

impl WorkbookModel {
    /// The invariant of a workbook: no two sheets have the same name.
    pub open spec fn wf(self) -> bool {
        sheet_names(self.sheets).no_duplicates()
    }

    /// Whether the workbook has a sheet named `name`.
    pub open spec fn has_sheet(self, name: Seq<char>) -> bool {
        sheet_names(self.sheets).contains(name)
    }

    /// The view of the workbook, or the view that says nothing where it
    /// has none.
    pub open spec fn view_or_default(self) -> WorkbookViewModel {
        match self.view {
            Some(v) => v,
            None => WorkbookView::default_model(),
        }
    }
}

/// The text of a flag: `1` for set, `0` for not set.
pub open spec fn flag_text(on: bool) -> Seq<char> {
    if on {
        "1"@
    } else {
        "0"@
    }
}

/// An attribute where there is a value for it, and nothing else.
pub open spec fn opt_attribute(name: Seq<char>, value: Option<Seq<char>>) -> Seq<
    (Seq<char>, Seq<char>),
> {
    match value {
        Some(v) => seq![(name, v)],
        None => Seq::empty(),
    }
}

/// The attributes of a view's element: what is set of the active tab, the
/// first sheet, the tab ratio and the grouping of dates, then whether the
/// workbook is minimized, what is set of its visibility, and whether sheet
/// tabs and scroll bars are shown.
pub open spec fn view_attributes(view: WorkbookViewModel) -> Seq<(Seq<char>, Seq<char>)> {
    opt_attribute("activeTab"@, view.active_tab) + opt_attribute("firstSheet"@, view.first_sheet)
        + opt_attribute(
        "tabRatio"@,
        match view.sheet_tab_ratio {
            Some(ratio) => Some(decimal(ratio as nat)),
            None => None,
        },
    ) + opt_attribute(
        "autoFilterDateGrouping"@,
        match view.auto_filter_date_grouping {
            Some(grouping) => Some(flag_text(grouping)),
            None => None,
        },
    ) + opt_attribute("minimized"@, Some(flag_text(view.minimize))) + opt_attribute(
        "visibility"@,
        view.visibility,
    ) + opt_attribute("showSheetTabs"@, Some(flag_text(!view.hide_sheet_tab))) + opt_attribute(
        "showVerticalScroll"@,
        Some(flag_text(!view.hide_vertical_scroll)),
    ) + opt_attribute("showHorizontalScroll"@, Some(flag_text(!view.hide_horizontal_scroll)))
}

/// The views of a workbook as an element.
pub open spec fn book_views_node(view: WorkbookViewModel) -> Node {
    Node {
        tag: "bookViews"@,
        attributes: Seq::empty(),
        value: None,
        children: seq![
            Node {
                tag: "workbookView"@,
                attributes: view_attributes(view),
                value: None,
                children: Seq::empty(),
            },
        ],
    }
}

/// A sheet as an element: its name, its number counted from 1, the id of
/// the relationship that leads to it, and that it is hidden where it is.
pub open spec fn sheet_node(sheet: SheetModel, number: nat) -> Node {
    Node {
        tag: "sheet"@,
        attributes: seq![
            ("name"@, sheet.name),
            ("sheetId"@, decimal(number)),
            ("r:id"@, sheet.relationship_id),
        ] + (if sheet.is_hidden {
            seq![("state"@, "hidden"@)]
        } else {
            Seq::empty()
        }),
        value: None,
        children: Seq::empty(),
    }
}

/// The sheets of a workbook as an element.
pub open spec fn sheets_node(sheets: Seq<SheetModel>) -> Node {
    Node {
        tag: "sheets"@,
        attributes: Seq::empty(),
        value: None,
        children: Seq::new(sheets.len(), |i: int| sheet_node(sheets[i], (i + 1) as nat)),
    }
}

/// What a workbook writes into its XML: its views where it has a view,
/// then its sheets.
pub open spec fn workbook_nodes(workbook: WorkbookModel) -> Seq<Node> {
    (match workbook.view {
        Some(view) => seq![book_views_node(view)],
        None => Seq::empty(),
    }) + seq![sheets_node(workbook.sheets)]
}

/// The text that an attribute gives, where the element has it.
pub open spec fn flag_attribute(attributes: Seq<(Seq<char>, Seq<char>)>, name: Seq<char>) -> Option<
    bool,
> {
    match attribute_in(attributes, name) {
        Some(_) => Some(switch_attribute_of(attributes, name) == 1),
        None => None,
    }
}

/// The view that the attributes of a view's element stand for. A tab
/// ratio that is given must be a number.
pub open spec fn read_view(a: Seq<(Seq<char>, Seq<char>)>) -> Option<WorkbookViewModel> {
    match attribute_in(a, "tabRatio"@) {
        Some(_) => match number_attribute(a, "tabRatio"@, 0) {
            Some(ratio) => Some(view_with_ratio(a, Some(ratio))),
            None => None,
        },
        None => Some(view_with_ratio(a, None)),
    }
}

/// The view that the attributes of a view's element stand for, its tab
/// ratio being known.
pub open spec fn view_with_ratio(a: Seq<(Seq<char>, Seq<char>)>, ratio: Option<u32>) -> WorkbookViewModel {
    WorkbookViewModel {
        active_tab: attribute_in(a, "activeTab"@),
        first_sheet: attribute_in(a, "firstSheet"@),
        visibility: attribute_in(a, "visibility"@),
        minimize: flag_attribute(a, "minimized"@) == Some(true),
        hide_horizontal_scroll: flag_attribute(a, "showHorizontalScroll"@) == Some(false),
        hide_vertical_scroll: flag_attribute(a, "showVerticalScroll"@) == Some(false),
        hide_sheet_tab: flag_attribute(a, "showSheetTabs"@) == Some(false),
        sheet_tab_ratio: ratio,
        auto_filter_date_grouping: flag_attribute(a, "autoFilterDateGrouping"@),
    }
}

/// The view after one child of the views' element has been read: what a
/// child with attributes says replaces what was read before.
pub open spec fn view_step(view: Option<WorkbookViewModel>, child: Node) -> Option<
    Option<WorkbookViewModel>,
> {
    if child.attributes.len() == 0 {
        Some(view)
    } else {
        match read_view(child.attributes) {
            Some(v) => Some(Some(v)),
            None => None,
        }
    }
}

/// The sheets after one child of the sheets' element has been read. A
/// child without attributes says nothing; one with attributes must give a
/// name and the id of a relationship.
pub open spec fn sheet_step(sheets: Seq<SheetModel>, child: Node) -> Option<Seq<SheetModel>> {
    if child.attributes.len() == 0 {
        Some(sheets)
    } else {
        match (child.attribute("name"@), child.attribute("r:id"@)) {
            (Some(name), Some(relationship_id)) => Some(
                sheets.push(
                    SheetModel {
                        name,
                        relationship_id,
                        is_active: false,
                        is_hidden: child.attribute("state"@) == Some("hidden"@),
                    },
                ),
            ),
            _ => None,
        }
    }
}

/// What the children of a workbook's root say of its view: what the last
/// element named `bookViews` holds.
pub open spec fn read_book_views(nodes: Seq<Node>) -> Option<Option<WorkbookViewModel>> {
    match last_named(nodes, "bookViews"@) {
        Some(views) => fold_all(
            views.children,
            None,
            |v: Option<WorkbookViewModel>, c: Node| view_step(v, c),
        ),
        None => Some(None),
    }
}

/// What the children of a workbook's root say of its sheets: what the last
/// element named `sheets` holds.
pub open spec fn read_sheets(nodes: Seq<Node>) -> Option<Seq<SheetModel>> {
    match last_named(nodes, "sheets"@) {
        Some(sheets) => fold_all(
            sheets.children,
            Seq::empty(),
            |s: Seq<SheetModel>, c: Node| sheet_step(s, c),
        ),
        None => Some(Seq::empty()),
    }
}

/// The workbook that the children of a workbook's root stand for: its view
/// and its sheets, where both can be read and no two sheets have the same
/// name.
pub open spec fn read_workbook(nodes: Seq<Node>) -> Option<WorkbookModel> {
    match (read_book_views(nodes), read_sheets(nodes)) {
        (Some(view), Some(sheets)) => if sheet_names(sheets).no_duplicates() {
            Some(WorkbookModel { sheets, view })
        } else {
            None
        },
        _ => None,
    }
}

} // verus!
