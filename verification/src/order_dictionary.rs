//! The order in which the schema wants the children of a part's root.

use vstd::prelude::*;
use crate::xml_document::strs_view;

verus! {

/// The order of the children of a workbook's root.
pub open spec fn workbook_order_tags() -> Seq<Seq<char>> {
    seq![
        "fileVersion"@,
        "fileSharing"@,
        "workbookPr"@,
        "workbookProtection"@,
        "bookViews"@,
        "sheets"@,
        "functionGroups"@,
        "externalReferences"@,
        "definedNames"@,
        "calcPr"@,
        "oleSize"@,
        "customWorkbookViews"@,
        "pivotCaches"@,
        "smartTagPr"@,
        "smartTagTypes"@,
        "webPublishing"@,
        "fileRecoveryPr"@,
        "webPublishObjects"@,
        "extLst"@,
    ]
}

/// The order of the children of a style sheet's root.
pub open spec fn style_order_tags() -> Seq<Seq<char>> {
    seq![
        "numFmts"@,
        "fonts"@,
        "fills"@,
        "borders"@,
        "cellStyleXfs"@,
        "cellXfs"@,
        "cellStyles"@,
        "dxfs"@,
        "tableStyles"@,
        "colors"@,
        "extLst"@,
    ]
}

/// The order of the children of a worksheet's root.
pub open spec fn worksheet_order_tags() -> Seq<Seq<char>> {
    seq![
        "sheetPr"@,
        "dimension"@,
        "sheetViews"@,
        "sheetFormatPr"@,
        "cols"@,
        "sheetData"@,
        "sheetCalcPr"@,
        "sheetProtection"@,
        "protectedRanges"@,
        "scenarios"@,
        "autoFilter"@,
        "sortState"@,
        "dataConsolidate"@,
        "customSheetViews"@,
        "mergeCells"@,
        "phoneticPr"@,
        "conditionalFormatting"@,
        "dataValidations"@,
        "hyperlinks"@,
        "printOptions"@,
        "pageMargins"@,
        "pageSetup"@,
        "headerFooter"@,
        "rowBreaks"@,
        "colBreaks"@,
        "customProperties"@,
        "cellWatches"@,
        "ignoredErrors"@,
        "smartTags"@,
        "drawing"@,
        "legacyDrawing"@,
        "legacyDrawingHF"@,
        "picture"@,
        "oleObjects"@,
        "controls"@,
        "webPublishItems"@,
        "tableParts"@,
        "extLst"@,
    ]
}

/// The order of the children of a workbook's root.
pub fn workbook_order() -> (order: Vec<&'static str>)
    ensures
        strs_view(order@) == workbook_order_tags(),
{
    let order = vec![
        "fileVersion",
        "fileSharing",
        "workbookPr",
        "workbookProtection",
        "bookViews",
        "sheets",
        "functionGroups",
        "externalReferences",
        "definedNames",
        "calcPr",
        "oleSize",
        "customWorkbookViews",
        "pivotCaches",
        "smartTagPr",
        "smartTagTypes",
        "webPublishing",
        "fileRecoveryPr",
        "webPublishObjects",
        "extLst",
    ];
    assert(strs_view(order@) =~= workbook_order_tags());
    order
}

/// The order of the children of a style sheet's root.
pub fn style_order() -> (order: Vec<&'static str>)
    ensures
        strs_view(order@) == style_order_tags(),
{
    let order = vec![
        "numFmts",
        "fonts",
        "fills",
        "borders",
        "cellStyleXfs",
        "cellXfs",
        "cellStyles",
        "dxfs",
        "tableStyles",
        "colors",
        "extLst",
    ];
    assert(strs_view(order@) =~= style_order_tags());
    order
}

/// The order of the children of a worksheet's root.
pub fn worksheet_order() -> (order: Vec<&'static str>)
    ensures
        strs_view(order@) == worksheet_order_tags(),
{
    let order = vec![
        "sheetPr",
        "dimension",
        "sheetViews",
        "sheetFormatPr",
        "cols",
        "sheetData",
        "sheetCalcPr",
        "sheetProtection",
        "protectedRanges",
        "scenarios",
        "autoFilter",
        "sortState",
        "dataConsolidate",
        "customSheetViews",
        "mergeCells",
        "phoneticPr",
        "conditionalFormatting",
        "dataValidations",
        "hyperlinks",
        "printOptions",
        "pageMargins",
        "pageSetup",
        "headerFooter",
        "rowBreaks",
        "colBreaks",
        "customProperties",
        "cellWatches",
        "ignoredErrors",
        "smartTags",
        "drawing",
        "legacyDrawing",
        "legacyDrawingHF",
        "picture",
        "oleObjects",
        "controls",
        "webPublishItems",
        "tableParts",
        "extLst",
    ];
    assert(strs_view(order@) =~= worksheet_order_tags());
    order
}

} // verus!
