use openxml_office::calculation_chain::CalculationChainPart;
use openxml_office::common_service::CommonServices;
use openxml_office::error::OfficeError;
use openxml_office::office_document::OfficeDocument;
use openxml_office::relations::RelationsPart;
use openxml_office::share_string::ShareStringPart;
use openxml_office::style::StylePart;
use openxml_office::style_models::{StyleId, StyleSetting};
use openxml_office::theme::ThemePart;
use openxml_office::workbook::WorkbookPart;
use openxml_office::worksheet::{CellDataType, CellProperties, WorkSheetPart};
use openxml_office::xml_deserialize::XmlDeSerializer;
use openxml_office::xml_document::XmlDocument;
use openxml_office::xml_serialize::XmlSerializer;

fn text_of(document: &XmlDocument) -> String {
    String::from_utf8(XmlDeSerializer::xml_tree_to_vec(document).unwrap()).unwrap()
}

fn services() -> CommonServices {
    let mut styles = StylePart::initialize_content_xml().0;
    CommonServices::new(
        CalculationChainPart::new("xl/calcChain.xml".to_string()),
        ShareStringPart::new("xl/sharedStrings.xml".to_string()),
        StylePart::new(&mut styles, "xl/styles.xml".to_string()).unwrap(),
    )
}

fn relations() -> RelationsPart {
    let mut document = RelationsPart::initialize_content_xml().0;
    RelationsPart::new(&mut document, "xl/_rels/workbook.xml.rels").unwrap()
}

fn part_of(document: &mut XmlDocument) -> Result<WorkbookPart, OfficeError> {
    WorkbookPart::from_parts(
        document,
        "xl/workbook.xml".to_string(),
        services(),
        relations(),
        ThemePart::new("xl/theme/theme1.xml"),
    )
}

fn new_workbook() -> (WorkbookPart, XmlDocument) {
    let mut document = WorkbookPart::initialize_content_xml().0;
    let part = part_of(&mut document).unwrap();
    (part, document)
}

#[test]
fn sheets_are_named_and_numbered_in_turn() {
    let (mut workbook, _) = new_workbook();
    assert_eq!(workbook.list_sheet_names(), Ok(vec![]));
    let first = workbook.add_sheet_mut(None).unwrap();
    assert_eq!(first.get_file_name(), "xl/worksheets/sheet1.xml");
    let data = workbook.add_sheet_mut(Some("Data".to_string())).unwrap();
    assert_eq!(data.get_file_name(), "xl/worksheets/sheet2.xml");
    workbook.add_sheet_mut(Some("Sheet2".to_string())).unwrap();
    workbook.add_sheet_mut(None).unwrap();
    assert_eq!(
        workbook.list_sheet_names(),
        Ok(vec![
            "Sheet1".to_string(),
            "Data".to_string(),
            "Sheet2".to_string(),
            "Sheet3".to_string()
        ])
    );
    assert_eq!(
        workbook.get_worksheet_mut("Data").unwrap().get_file_name(),
        "xl/worksheets/sheet2.xml"
    );
    assert_eq!(workbook.get_worksheet_mut("Nope").err(), Some(OfficeError::NotFound));
}

#[test]
fn sheet_name_taken_is_a_conflict() {
    let (mut workbook, _) = new_workbook();
    workbook.add_sheet_mut(Some("Data".to_string())).unwrap();
    assert_eq!(
        workbook.add_sheet_mut(Some("Data".to_string())).err(),
        Some(OfficeError::Conflict)
    );
    assert_eq!(workbook.list_sheet_names(), Ok(vec!["Data".to_string()]));
}

#[test]
fn rename_collision_changes_nothing() {
    let (mut workbook, mut document) = new_workbook();
    workbook.add_sheet_mut(None).unwrap();
    workbook.add_sheet_mut(Some("Data".to_string())).unwrap();
    assert_eq!(workbook.rename_sheet_name_mut("Sheet1", "Data"), Err(OfficeError::Conflict));
    assert_eq!(workbook.rename_sheet_name_mut("Sheet1", "Sheet1"), Err(OfficeError::Conflict));
    assert_eq!(workbook.rename_sheet_name_mut("Gone", "Other"), Err(OfficeError::NotFound));
    assert_eq!(
        workbook.list_sheet_names(),
        Ok(vec!["Sheet1".to_string(), "Data".to_string()])
    );
    assert_eq!(workbook.rename_sheet_name_mut("Sheet1", "First"), Ok(()));
    assert_eq!(workbook.list_sheet_names(), Ok(vec!["First".to_string(), "Data".to_string()]));
    workbook.save_sheets_to_doc(&mut document).unwrap();
    assert!(text_of(&document).contains("<sheet name=\"First\" sheetId=\"1\" r:id=\"rId1\"/>"));
}

#[test]
fn second_sheet_added_and_first_hidden() {
    let (mut workbook, mut document) = new_workbook();
    workbook.add_sheet_mut(None).unwrap();
    workbook.add_sheet_mut(Some("Data".to_string())).unwrap();
    assert_eq!(workbook.hide_sheet_mut("Sheet1"), Ok(()));
    assert_eq!(workbook.hide_sheet_mut("Missing"), Err(OfficeError::NotFound));
    workbook.save_sheets_to_doc(&mut document).unwrap();
    assert_eq!(
        text_of(&document),
        "<?xml version=\"1.0\" encoding=\"UTF-8\" standalone=\"yes\"?><workbook xmlns=\"http://schemas.openxmlformats.org/spreadsheetml/2006/main\" xmlns:r=\"http://schemas.openxmlformats.org/officeDocument/2006/relationships\"><fileVersion appName=\"openxml-office\" lastEdited=\"7\" lowestEdited=\"7\"/><sheets><sheet name=\"Sheet1\" sheetId=\"1\" r:id=\"rId1\" state=\"hidden\"/><sheet name=\"Data\" sheetId=\"2\" r:id=\"rId2\"/></sheets></workbook>"
    );
}

#[test]
fn hiding_one_sheet_leaves_the_others_as_they_were() {
    let (mut workbook, mut document) = new_workbook();
    workbook.add_sheet_mut(Some("A".to_string())).unwrap();
    workbook.add_sheet_mut(Some("B".to_string())).unwrap();
    workbook.add_sheet_mut(Some("C".to_string())).unwrap();
    workbook.hide_sheet_mut("A").unwrap();
    workbook.hide_sheet_mut("B").unwrap();
    workbook.hide_sheet_mut("B").unwrap();
    workbook.set_active_sheet_mut("B").unwrap();
    assert_eq!(workbook.hide_sheet_mut("D"), Err(OfficeError::NotFound));
    assert_eq!(workbook.set_active_sheet_mut("D"), Err(OfficeError::NotFound));
    workbook.save_sheets_to_doc(&mut document).unwrap();
    let text = text_of(&document);
    assert!(text.contains("<sheet name=\"A\" sheetId=\"1\" r:id=\"rId1\" state=\"hidden\"/>"));
    assert!(text.contains("<sheet name=\"B\" sheetId=\"2\" r:id=\"rId2\" state=\"hidden\"/>"));
    assert!(text.contains("<sheet name=\"C\" sheetId=\"3\" r:id=\"rId3\"/>"));
}

#[test]
fn view_is_written_before_the_sheets() {
    let (mut workbook, mut document) = new_workbook();
    workbook.add_sheet_mut(None).unwrap();
    workbook.set_visibility_mut(false).unwrap();
    workbook.minimize_workbook_mut(true).unwrap();
    workbook.hide_sheet_tabs_mut(true).unwrap();
    workbook.hide_vertical_scroll_mut(true).unwrap();
    workbook.hide_horizontal_scroll_mut(false).unwrap();
    workbook.save_sheets_to_doc(&mut document).unwrap();
    assert_eq!(
        text_of(&document),
        "<?xml version=\"1.0\" encoding=\"UTF-8\" standalone=\"yes\"?><workbook xmlns=\"http://schemas.openxmlformats.org/spreadsheetml/2006/main\" xmlns:r=\"http://schemas.openxmlformats.org/officeDocument/2006/relationships\"><fileVersion appName=\"openxml-office\" lastEdited=\"7\" lowestEdited=\"7\"/><bookViews><workbookView minimized=\"1\" visibility=\"hidden\" showSheetTabs=\"0\" showVerticalScroll=\"0\" showHorizontalScroll=\"1\"/></bookViews><sheets><sheet name=\"Sheet1\" sheetId=\"1\" r:id=\"rId1\"/></sheets></workbook>"
    );
}

#[test]
fn workbook_xml_loads_into_memory_and_back() {
    let source = "<workbook xmlns:r=\"r\"><definedNames/><sheets><sheet name=\"One\" sheetId=\"4\" r:id=\"rId7\"/><sheet name=\"Two\" sheetId=\"9\" r:id=\"rId3\" state=\"hidden\"/></sheets><bookViews><workbookView activeTab=\"1\" tabRatio=\"600\" showSheetTabs=\"0\" autoFilterDateGrouping=\"1\"/></bookViews><workbookPr/></workbook>";
    let mut document = XmlSerializer::vec_to_xml_doc_tree(source.as_bytes().to_vec()).unwrap();
    let workbook = part_of(&mut document).unwrap();
    assert_eq!(workbook.list_sheet_names(), Ok(vec!["One".to_string(), "Two".to_string()]));
    assert_eq!(
        text_of(&document),
        "<?xml version=\"1.0\" encoding=\"UTF-8\" standalone=\"yes\"?><workbook xmlns:r=\"r\"><definedNames/><workbookPr/></workbook>"
    );
    workbook.save_sheets_to_doc(&mut document).unwrap();
    let first = text_of(&document);
    assert_eq!(
        first,
        "<?xml version=\"1.0\" encoding=\"UTF-8\" standalone=\"yes\"?><workbook xmlns:r=\"r\"><workbookPr/><bookViews><workbookView activeTab=\"1\" tabRatio=\"600\" autoFilterDateGrouping=\"1\" minimized=\"0\" showSheetTabs=\"0\" showVerticalScroll=\"1\" showHorizontalScroll=\"1\"/></bookViews><sheets><sheet name=\"One\" sheetId=\"1\" r:id=\"rId7\"/><sheet name=\"Two\" sheetId=\"2\" r:id=\"rId3\" state=\"hidden\"/></sheets><definedNames/></workbook>"
    );
    let mut again = XmlSerializer::vec_to_xml_doc_tree(first.as_bytes().to_vec()).unwrap();
    let reloaded = part_of(&mut again).unwrap();
    reloaded.save_sheets_to_doc(&mut again).unwrap();
    assert_eq!(text_of(&again), first);
}

#[test]
fn workbook_xml_that_breaks_the_rules_is_refused() {
    for source in [
        "<workbook><sheets><sheet name=\"A\"/></sheets></workbook>",
        "<workbook><sheets><sheet r:id=\"rId1\"/></sheets></workbook>",
        "<workbook><sheets><sheet name=\"A\" r:id=\"rId1\"/><sheet name=\"A\" r:id=\"rId2\"/></sheets></workbook>",
        "<workbook><bookViews><workbookView tabRatio=\"wide\"/></bookViews></workbook>",
    ] {
        let mut document = XmlSerializer::vec_to_xml_doc_tree(source.as_bytes().to_vec()).unwrap();
        let before = text_of(&document);
        assert_eq!(part_of(&mut document).err(), Some(OfficeError::Schema), "{}", source);
        assert_eq!(text_of(&document), before);
    }
}

#[test]
fn style_of_the_workbook_is_that_of_its_style_part() {
    let (mut workbook, _) = new_workbook();
    let mut bold = StyleSetting::default_value();
    bold.is_bold = true;
    assert_eq!(workbook.get_style_id_mut(StyleSetting::default_value()), Ok(StyleId::new(0)));
    assert_eq!(workbook.style_for(bold), Ok(StyleId::new(1)));
}

#[test]
fn shared_strings_and_chain_keep_each_entry_once() {
    let mut strings = ShareStringPart::new("xl/sharedStrings.xml".to_string());
    assert_eq!(strings.get_string_id_mut("a"), 0);
    assert_eq!(strings.get_string_id_mut("b"), 1);
    assert_eq!(strings.get_string_id_mut("a"), 0);
    assert_eq!(strings.len(), 2);
    assert_eq!(strings.get_string(1), Some("b"));
    assert_eq!(strings.get_string(2), None);
    let mut chain = CalculationChainPart::new("xl/calcChain.xml".to_string());
    assert_eq!(chain.add_cell_mut("A1", 1), 0);
    assert_eq!(chain.add_cell_mut("A1", 2), 1);
    assert_eq!(chain.add_cell_mut("A1", 1), 0);
    assert_eq!(chain.len(), 2);
}

#[test]
fn cell_data_types_have_their_words() {
    assert_eq!(CellDataType::get_string(CellDataType::ShareString), "s");
    assert_eq!(CellDataType::get_string(CellDataType::Auto), "a");
    assert_eq!(CellDataType::get_enum("inlineStr"), CellDataType::InlineString);
    assert_eq!(CellDataType::get_enum("anything"), CellDataType::Number);
    let cell = CellProperties::default_value();
    assert_eq!(cell.data_type, CellDataType::Auto);
    assert!(cell.value.is_none() && cell.style_id.is_none());
    assert_eq!(WorkSheetPart::new(None).get_file_name(), "xl/worksheets/sheet1.xml");
    assert_eq!(
        text_of(&WorkSheetPart::initialize_content_xml()),
        "<?xml version=\"1.0\" encoding=\"UTF-8\" standalone=\"yes\"?><worksheet xmlns=\"http://schemas.openxmlformats.org/spreadsheetml/2006/main\"><sheetData/></worksheet>"
    );
}

#[test]
fn closing_writes_the_strings_and_the_calculation_chain_that_there_are() {
    let mut services = services();
    assert_eq!(services.get_string_id_mut("a < b"), 0);
    assert_eq!(services.add_cell_mut("B2", 1), 0);
    assert_eq!(services.add_cell_mut("C3", 2), 1);
    assert_eq!(services.add_cell_mut("B2", 1), 0);
    let mut document = WorkbookPart::initialize_content_xml().0;
    let mut workbook = WorkbookPart::from_parts(
        &mut document,
        "xl/workbook.xml".to_string(),
        services,
        relations(),
        ThemePart::new("xl/theme/theme1.xml"),
    )
    .unwrap();
    let mut store = OfficeDocument::new(None, true).unwrap();
    workbook.close_document(&mut store).unwrap();
    let entries = openxml_office::archive::read_archive(store.save_as().unwrap()).unwrap();
    let names: Vec<&str> = entries.iter().map(|entry| entry.0.as_str()).collect();
    assert_eq!(
        names,
        vec![
            "xl/theme/theme1.xml",
            "xl/styles.xml",
            "xl/sharedStrings.xml",
            "xl/calcChain.xml",
            "xl/_rels/workbook.xml.rels",
            "xl/workbook.xml",
        ]
    );
    let chain = String::from_utf8(entries[3].1.clone()).unwrap();
    assert_eq!(
        chain,
        "<?xml version=\"1.0\" encoding=\"UTF-8\" standalone=\"yes\"?><calcChain xmlns=\"http://schemas.openxmlformats.org/spreadsheetml/2006/main\"><c r=\"B2\" i=\"1\"/><c r=\"C3\" i=\"2\"/></calcChain>"
    );
    let strings = String::from_utf8(entries[2].1.clone()).unwrap();
    assert!(strings.ends_with("<si><t>a &lt; b</t></si></sst>"));
    let rels = String::from_utf8(entries[4].1.clone()).unwrap();
    assert!(rels.contains("Target=\"/xl/calcChain.xml\" Type=\"http://schemas.openxmlformats.org/officeDocument/2006/relationships/calcChain\""));
}
