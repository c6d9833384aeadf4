//! Writing and reading a workbook agree: the views and the sheets that
//! are written into a workbook's XML read back as they were written.

use vstd::prelude::*;
use crate::order_dictionary::workbook_order_tags;
use crate::style_read::{fold_all, switch_of_text};
use crate::style_round_trip::{
    entry_names, lemma_fold_empty, lemma_fold_push, lemma_last_named_both,
    lemma_last_named_ordered, lemma_listed_all, lemma_listed_push, lemma_number_of_text, listed_all,
};
use crate::text::decimal;
use crate::workbook_model::{
    SheetModel, WorkbookModel, WorkbookViewModel, book_views_node, flag_text, read_book_views,
    read_sheets, read_view, read_workbook, sheet_node, sheet_step, sheets_node, view_attributes,
    view_step, workbook_nodes,
};
use crate::xml_node::{Node, last_named, ordered_nodes};
use crate::xml_prune::none_named;

verus! {

/// The names of the attributes of a view are different.
pub proof fn lemma_view_names_differ()
    ensures
        "activeTab"@ != "firstSheet"@,
        "activeTab"@ != "tabRatio"@,
        "activeTab"@ != "autoFilterDateGrouping"@,
        "activeTab"@ != "minimized"@,
        "activeTab"@ != "visibility"@,
        "activeTab"@ != "showSheetTabs"@,
        "activeTab"@ != "showVerticalScroll"@,
        "activeTab"@ != "showHorizontalScroll"@,
        "firstSheet"@ != "tabRatio"@,
        "firstSheet"@ != "autoFilterDateGrouping"@,
        "firstSheet"@ != "minimized"@,
        "firstSheet"@ != "visibility"@,
        "firstSheet"@ != "showSheetTabs"@,
        "firstSheet"@ != "showVerticalScroll"@,
        "firstSheet"@ != "showHorizontalScroll"@,
        "tabRatio"@ != "autoFilterDateGrouping"@,
        "tabRatio"@ != "minimized"@,
        "tabRatio"@ != "visibility"@,
        "tabRatio"@ != "showSheetTabs"@,
        "tabRatio"@ != "showVerticalScroll"@,
        "tabRatio"@ != "showHorizontalScroll"@,
        "autoFilterDateGrouping"@ != "minimized"@,
        "autoFilterDateGrouping"@ != "visibility"@,
        "autoFilterDateGrouping"@ != "showSheetTabs"@,
        "autoFilterDateGrouping"@ != "showVerticalScroll"@,
        "autoFilterDateGrouping"@ != "showHorizontalScroll"@,
        "minimized"@ != "visibility"@,
        "minimized"@ != "showSheetTabs"@,
        "minimized"@ != "showVerticalScroll"@,
        "minimized"@ != "showHorizontalScroll"@,
        "visibility"@ != "showSheetTabs"@,
        "visibility"@ != "showVerticalScroll"@,
        "visibility"@ != "showHorizontalScroll"@,
        "showSheetTabs"@ != "showVerticalScroll"@,
        "showSheetTabs"@ != "showHorizontalScroll"@,
        "showVerticalScroll"@ != "showHorizontalScroll"@,
{
    reveal_strlit("activeTab");
    reveal_strlit("firstSheet");
    reveal_strlit("tabRatio");
    reveal_strlit("autoFilterDateGrouping");
    reveal_strlit("minimized");
    reveal_strlit("visibility");
    reveal_strlit("showSheetTabs");
    reveal_strlit("showVerticalScroll");
    reveal_strlit("showHorizontalScroll");
    assert("activeTab"@.len() == 9);
    assert("firstSheet"@.len() == 10);
    assert("tabRatio"@.len() == 8);
    assert("autoFilterDateGrouping"@.len() == 22);
    assert("minimized"@.len() == 9);
    assert("visibility"@.len() == 10);
    assert("showSheetTabs"@.len() == 13);
    assert("showVerticalScroll"@.len() == 18);
    assert("showHorizontalScroll"@.len() == 20);
    assert("activeTab"@[0] == 'a' && "minimized"@[0] == 'm');
    assert("firstSheet"@[0] == 'f' && "visibility"@[0] == 'v');
}

/// The names of the attributes of a sheet are different.
pub proof fn lemma_sheet_names_differ()
    ensures
        "name"@ != "sheetId"@,
        "name"@ != "r:id"@,
        "name"@ != "state"@,
        "sheetId"@ != "r:id"@,
        "sheetId"@ != "state"@,
        "r:id"@ != "state"@,
        "bookViews"@ != "sheets"@,
{
    reveal_strlit("name");
    reveal_strlit("sheetId");
    reveal_strlit("r:id");
    reveal_strlit("state");
    assert("name"@.len() == 4);
    assert("sheetId"@.len() == 7);
    assert("r:id"@.len() == 4);
    assert("state"@.len() == 5);
    assert("name"@[0] == 'n' && "r:id"@[0] == 'r');
    reveal_strlit("bookViews");
    reveal_strlit("sheets");
    assert("bookViews"@.len() == 9);
    assert("sheets"@.len() == 6);
}

/// The texts of the two values of a flag read back as those values.
pub proof fn lemma_flag_text(on: bool)
    ensures
        (switch_of_text(flag_text(on)) == 1) == on,
{
    reveal_strlit("0");
    reveal_strlit("1");
    reveal_strlit("true");
    assert("0"@.len() == 1);
    assert("1"@.len() == 1);
    assert("true"@.len() == 4);
    assert("0"@[0] == '0' && "1"@[0] == '1');
}

/// The attributes of a view, each name with the value that it has, if
/// any.
pub open spec fn view_entries(view: WorkbookViewModel) -> Seq<(Seq<char>, Option<Seq<char>>)> {
    seq![
        ("activeTab"@, view.active_tab),
        ("firstSheet"@, view.first_sheet),
        (
            "tabRatio"@,
            match view.sheet_tab_ratio {
                Some(ratio) => Some(decimal(ratio as nat)),
                None => None,
            },
        ),
        (
            "autoFilterDateGrouping"@,
            match view.auto_filter_date_grouping {
                Some(grouping) => Some(flag_text(grouping)),
                None => None,
            },
        ),
        ("minimized"@, Some(flag_text(view.minimize))),
        ("visibility"@, view.visibility),
        ("showSheetTabs"@, Some(flag_text(!view.hide_sheet_tab))),
        ("showVerticalScroll"@, Some(flag_text(!view.hide_vertical_scroll))),
        ("showHorizontalScroll"@, Some(flag_text(!view.hide_horizontal_scroll))),
    ]
}

/// The attributes of a view are those that its names with their values
/// stand for, and the names are different.
pub proof fn lemma_view_entries(view: WorkbookViewModel)
    ensures
        view_attributes(view) == listed_all(view_entries(view)),
        entry_names(view_entries(view)).no_duplicates(),
        view_attributes(view).len() > 0,
{
    let entries = view_entries(view);
    let none = Seq::<(Seq<char>, Option<Seq<char>>)>::empty();
    let c1 = none + seq![entries[0]];
    let c2 = c1 + seq![entries[1]];
    let c3 = c2 + seq![entries[2]];
    let c4 = c3 + seq![entries[3]];
    let c5 = c4 + seq![entries[4]];
    let c6 = c5 + seq![entries[5]];
    let c7 = c6 + seq![entries[6]];
    let c8 = c7 + seq![entries[7]];
    let c9 = c8 + seq![entries[8]];
    assert(listed_all(none) =~= Seq::<(Seq<char>, Seq<char>)>::empty());
    lemma_listed_push(none, entries[0]);
    lemma_listed_push(c1, entries[1]);
    lemma_listed_push(c2, entries[2]);
    lemma_listed_push(c3, entries[3]);
    lemma_listed_push(c4, entries[4]);
    lemma_listed_push(c5, entries[5]);
    lemma_listed_push(c6, entries[6]);
    lemma_listed_push(c7, entries[7]);
    lemma_listed_push(c8, entries[8]);
    assert(c9 =~= entries);
    assert(view_attributes(view) =~= listed_all(entries));
    let names = entry_names(entries);
    lemma_view_names_differ();
    assert(names.len() == 9);
    assert(names[0] == "activeTab"@);
    assert(names[1] == "firstSheet"@);
    assert(names[2] == "tabRatio"@);
    assert(names[3] == "autoFilterDateGrouping"@);
    assert(names[4] == "minimized"@);
    assert(names[5] == "visibility"@);
    assert(names[6] == "showSheetTabs"@);
    assert(names[7] == "showVerticalScroll"@);
    assert(names[8] == "showHorizontalScroll"@);
}

/// The attributes of a view read back as the view.
pub proof fn lemma_read_view(view: WorkbookViewModel)
    ensures
        read_view(view_attributes(view)) == Some(view),
{
    let entries = view_entries(view);
    lemma_view_entries(view);
    lemma_listed_all(entries, "activeTab"@);
    lemma_listed_all(entries, "firstSheet"@);
    lemma_listed_all(entries, "tabRatio"@);
    lemma_listed_all(entries, "autoFilterDateGrouping"@);
    lemma_listed_all(entries, "minimized"@);
    lemma_listed_all(entries, "visibility"@);
    lemma_listed_all(entries, "showSheetTabs"@);
    lemma_listed_all(entries, "showVerticalScroll"@);
    lemma_listed_all(entries, "showHorizontalScroll"@);
    lemma_flag_text(view.minimize);
    lemma_flag_text(!view.hide_sheet_tab);
    lemma_flag_text(!view.hide_vertical_scroll);
    lemma_flag_text(!view.hide_horizontal_scroll);
    match view.auto_filter_date_grouping {
        Some(grouping) => {
            lemma_flag_text(grouping);
        },
        None => {},
    }
    match view.sheet_tab_ratio {
        Some(ratio) => {
            lemma_number_of_text(ratio);
        },
        None => {},
    }
    assert(entries[0].0 == "activeTab"@);
    assert(entries[1].0 == "firstSheet"@);
    assert(entries[2].0 == "tabRatio"@);
    assert(entries[3].0 == "autoFilterDateGrouping"@);
    assert(entries[4].0 == "minimized"@);
    assert(entries[5].0 == "visibility"@);
    assert(entries[6].0 == "showSheetTabs"@);
    assert(entries[7].0 == "showVerticalScroll"@);
    assert(entries[8].0 == "showHorizontalScroll"@);
}

/// The attributes of a sheet, each name with the value that it has, if
/// any.
pub open spec fn sheet_entries(sheet: SheetModel, number: nat) -> Seq<
    (Seq<char>, Option<Seq<char>>),
> {
    seq![
        ("name"@, Some(sheet.name)),
        ("sheetId"@, Some(decimal(number))),
        ("r:id"@, Some(sheet.relationship_id)),
        (
            "state"@,
            if sheet.is_hidden {
                Some("hidden"@)
            } else {
                None
            },
        ),
    ]
}

/// The element of a sheet that is not active reads back as the sheet,
/// behind the sheets read before it.
pub proof fn lemma_sheet_step(sheets: Seq<SheetModel>, sheet: SheetModel, number: nat)
    requires
        !sheet.is_active,
    ensures
        sheet_step(sheets, sheet_node(sheet, number)) == Some(sheets.push(sheet)),
{
    let entries = sheet_entries(sheet, number);
    let node = sheet_node(sheet, number);
    let none = Seq::<(Seq<char>, Option<Seq<char>>)>::empty();
    let c1 = none + seq![entries[0]];
    let c2 = c1 + seq![entries[1]];
    let c3 = c2 + seq![entries[2]];
    let c4 = c3 + seq![entries[3]];
    assert(listed_all(none) =~= Seq::<(Seq<char>, Seq<char>)>::empty());
    lemma_listed_push(none, entries[0]);
    lemma_listed_push(c1, entries[1]);
    lemma_listed_push(c2, entries[2]);
    lemma_listed_push(c3, entries[3]);
    assert(c4 =~= entries);
    assert(node.attributes =~= listed_all(entries));
    let names = entry_names(entries);
    lemma_sheet_names_differ();
    assert(names.len() == 4);
    assert(names[0] == "name"@ && names[1] == "sheetId"@ && names[2] == "r:id"@ && names[3]
        == "state"@);
    lemma_listed_all(entries, "name"@);
    lemma_listed_all(entries, "r:id"@);
    lemma_listed_all(entries, "state"@);
    assert(entries[0].0 == "name"@ && entries[2].0 == "r:id"@ && entries[3].0 == "state"@);
    assert(node.attributes.len() >= 3);
}

/// The elements of sheets that are not active read back as the sheets.
pub proof fn lemma_read_sheet_nodes(sheets: Seq<SheetModel>, k: int)
    requires
        0 <= k <= sheets.len(),
        forall|i: int| 0 <= i < sheets.len() ==> !(#[trigger] sheets[i]).is_active,
    ensures
        fold_all(
            sheets_node(sheets).children.take(k),
            Seq::empty(),
            |s: Seq<SheetModel>, c: Node| sheet_step(s, c),
        ) == Some(sheets.take(k)),
    decreases k,
{
    let step = |s: Seq<SheetModel>, c: Node| sheet_step(s, c);
    let nodes = sheets_node(sheets).children;
    if k == 0 {
        assert(nodes.take(0) =~= Seq::<Node>::empty());
        assert(sheets.take(0) =~= Seq::<SheetModel>::empty());
        lemma_fold_empty(Seq::<SheetModel>::empty(), step);
    } else {
        lemma_read_sheet_nodes(sheets, k - 1);
        assert(nodes[k - 1] == sheet_node(sheets[k - 1], k as nat));
        assert(nodes.take(k) =~= nodes.take(k - 1) + seq![nodes[k - 1]]);
        lemma_fold_push(nodes.take(k - 1), nodes[k - 1], Seq::<SheetModel>::empty(), step);
        assert(!sheets[k - 1].is_active);
        lemma_sheet_step(sheets.take(k - 1), sheets[k - 1], k as nat);
        assert(sheets.take(k) =~= sheets.take(k - 1).push(sheets[k - 1]));
    }
}

/// Among nodes of which none is named `tag`, no last one is so named.
pub proof fn lemma_none_named_last(nodes: Seq<Node>, tag: Seq<char>)
    requires
        none_named(nodes, tag),
    ensures
        last_named(nodes, tag) is None,
    decreases nodes.len(),
{
    if nodes.len() > 0 {
        assert(nodes.last() == nodes[nodes.len() - 1]);
        assert forall|i: int| 0 <= i < nodes.drop_last().len() implies (#[trigger] nodes.drop_last()[i]).tag
            != tag by {
            assert(nodes.drop_last()[i] == nodes[i]);
        }
        lemma_none_named_last(nodes.drop_last(), tag);
    }
}

/// Round trip of the workbook: the elements that are written of the view
/// and the sheets behind the children of a workbook's root read back as
/// the view and the sheets, also after the children have been put in the
/// order of the schema. Which sheet is active is not written, so this
/// holds of a workbook in which none is; and a workbook without a view
/// reads back without one where the root held no views before.
pub proof fn lemma_saved_workbook_reads_back(prior: Seq<Node>, workbook: WorkbookModel)
    requires
        workbook.wf(),
        forall|i: int| 0 <= i < workbook.sheets.len() ==> !(#[trigger] workbook.sheets[i]).is_active,
        workbook.view is None ==> none_named(prior, "bookViews"@),
    ensures
        read_workbook(prior + workbook_nodes(workbook)) == Some(workbook),
        read_workbook(ordered_nodes(prior + workbook_nodes(workbook), workbook_order_tags()))
            == Some(workbook),
{
    let nodes = prior + workbook_nodes(workbook);
    let written = workbook_nodes(workbook);
    let order = workbook_order_tags();
    lemma_sheet_names_differ();
    lemma_last_named_both(prior, written, "sheets"@);
    lemma_last_named_both(prior, written, "bookViews"@);
    lemma_last_named_ordered(nodes, order, "sheets"@);
    lemma_last_named_ordered(nodes, order, "bookViews"@);
    assert(written.last() == sheets_node(workbook.sheets));
    assert(last_named(written, "sheets"@) == Some(sheets_node(workbook.sheets)));
    lemma_read_sheet_nodes(workbook.sheets, workbook.sheets.len() as int);
    assert(sheets_node(workbook.sheets).children.take(workbook.sheets.len() as int)
        =~= sheets_node(workbook.sheets).children);
    assert(workbook.sheets.take(workbook.sheets.len() as int) =~= workbook.sheets);
    assert(read_sheets(nodes) == Some(workbook.sheets));
    match workbook.view {
        Some(view) => {
            let front = written.drop_last();
            assert(front =~= seq![book_views_node(view)]);
            assert(front.last() == book_views_node(view));
            assert(last_named(front, "bookViews"@) == Some(book_views_node(view)));
            assert(written.last().tag != "bookViews"@);
            assert(last_named(written, "bookViews"@) == last_named(front, "bookViews"@));
            let step = |v: Option<WorkbookViewModel>, c: Node| view_step(v, c);
            let children = book_views_node(view).children;
            lemma_view_entries(view);
            lemma_read_view(view);
            assert(children.drop_last() =~= Seq::<Node>::empty());
            assert(fold_all(children.drop_last(), None, step) == Some(
                None::<WorkbookViewModel>,
            ));
            assert(fold_all(children, None, step) == Some(Some(view)));
        },
        None => {
            let front = written.drop_last();
            assert(front =~= Seq::<Node>::empty());
            assert(last_named(front, "bookViews"@) is None);
            assert(written.last().tag != "bookViews"@);
            assert(last_named(written, "bookViews"@) == last_named(front, "bookViews"@));
            lemma_none_named_last(prior, "bookViews"@);
        },
    }
    assert(read_book_views(nodes) == Some(workbook.view));
}

} // verus!
