use openxml_office::element_dictionary::{style_content, theme_content, worksheet_content};
use openxml_office::error::OfficeError;
use openxml_office::relations::RelationsPart;
use openxml_office::xml_deserialize::XmlDeSerializer;
use openxml_office::xml_document::XmlDocument;
use openxml_office::xml_serialize::XmlSerializer;

const RELS: &str = "<?xml version=\"1.0\" encoding=\"UTF-8\" standalone=\"yes\"?><Relationships xmlns=\"http://schemas.openxmlformats.org/package/2006/relationships\"><Relationship Id=\"rId1\" Type=\"http://schemas.openxmlformats.org/officeDocument/2006/relationships/worksheet\" Target=\"worksheets/sheet1.xml\"/><Relationship Id=\"rId3\" Type=\"http://schemas.openxmlformats.org/officeDocument/2006/relationships/styles\" Target=\"/xl/styles.xml\"/><Relationship Id=\"rId9\" Type=\"http://example.com/link\" Target=\"http://example.com/\" TargetMode=\"External\"/></Relationships>";

fn loaded(path: &str) -> (RelationsPart, XmlDocument) {
    let mut document = XmlSerializer::vec_to_xml_doc_tree(RELS.as_bytes().to_vec()).unwrap();
    let part = RelationsPart::new(&mut document, path).unwrap();
    (part, document)
}

fn text_of(document: &XmlDocument) -> String {
    String::from_utf8(XmlDeSerializer::xml_tree_to_vec(document).unwrap()).unwrap()
}

#[test]
fn loading_takes_the_relationships_out_of_the_file() {
    let (part, document) = loaded("xl/_rels/workbook.xml.rels");
    assert_eq!(part.len(), 3);
    assert_eq!(
        text_of(&document),
        "<?xml version=\"1.0\" encoding=\"UTF-8\" standalone=\"yes\"?><Relationships xmlns=\"http://schemas.openxmlformats.org/package/2006/relationships\"/>"
    );
}

#[test]
fn targets_are_resolved_against_the_owner_directory() {
    let (part, _) = loaded("xl/_rels/workbook.xml.rels");
    assert_eq!(part.get_relative_path(), Ok("xl/".to_string()));
    assert_eq!(part.get_target_by_id("rId1"), Ok(Some("xl/worksheets/sheet1.xml".to_string())));
    assert_eq!(part.get_target_by_id("rId3"), Ok(Some("xl/styles.xml".to_string())));
    assert_eq!(part.get_target_by_id("rId2"), Ok(None));
    let (root, _) = loaded("_rels/.rels");
    assert_eq!(root.get_relative_path(), Ok(String::new()));
    assert_eq!(root.get_target_by_id("rId1"), Ok(Some("worksheets/sheet1.xml".to_string())));
}

#[test]
fn path_without_rels_directory_is_refused() {
    let (part, _) = loaded("xl/workbook.xml");
    assert_eq!(part.get_relative_path(), Err(OfficeError::Programmer));
    assert_eq!(part.get_target_by_id("rId1"), Err(OfficeError::Programmer));
    assert_eq!(part.get_target_by_id("none"), Ok(None));
}

#[test]
fn new_relationship_gets_the_least_free_id() {
    let (mut part, _) = loaded("xl/_rels/workbook.xml.rels");
    let theme = theme_content();
    assert_eq!(part.set_new_relationship_mut(&theme, None, None), Ok("rId2".to_string()));
    assert_eq!(part.set_new_relationship_mut(&theme, None, None), Ok("rId4".to_string()));
    assert_eq!(part.set_new_relationship_mut(&theme, None, None), Ok("rId5".to_string()));
    assert_eq!(part.get_target_by_id("rId2"), Ok(Some("xl/theme/theme1.xml".to_string())));
    part.delete_relationship_mut("xl/theme/theme1.xml");
    assert_eq!(part.len(), 3);
    assert_eq!(part.set_new_relationship_mut(&theme, None, None), Ok("rId2".to_string()));
}

#[test]
fn first_relationship_of_an_empty_part_is_rid1() {
    let fresh = RelationsPart::initialize_content_xml();
    let mut document = fresh.0;
    assert_eq!(fresh.1, None);
    assert_eq!(fresh.2, "rels");
    let mut part = RelationsPart::new(&mut document, "_rels/.rels").unwrap();
    assert_eq!(part.len(), 0);
    let sheet = worksheet_content();
    assert_eq!(
        part.set_new_relationship_mut(&sheet, None, Some("sheet7".to_string())),
        Ok("rId1".to_string())
    );
    assert_eq!(part.get_target_by_id("rId1"), Ok(Some("xl/worksheets/sheet7.xml".to_string())));
}

#[test]
fn target_by_type_finds_or_creates() {
    let (mut part, _) = loaded("xl/_rels/workbook.xml.rels");
    let style = style_content();
    assert_eq!(
        part.get_relationship_target_by_type_mut(style.schemas_type, &style, None, None),
        Ok("xl/styles.xml".to_string())
    );
    assert_eq!(part.len(), 3);
    let theme = theme_content();
    assert_eq!(part.find_target_by_type(theme.schemas_type), Ok(None));
    assert_eq!(
        part.get_relationship_target_by_type_mut(
            theme.schemas_type,
            &theme,
            Some("xl/custom".to_string()),
            Some("look".to_string())
        ),
        Ok("xl/custom/look.xml".to_string())
    );
    assert_eq!(part.len(), 4);
    assert_eq!(
        part.find_target_by_type(theme.schemas_type),
        Ok(Some("xl/custom/look.xml".to_string()))
    );
}

#[test]
fn delete_takes_out_every_relationship_to_the_target() {
    let (mut part, _) = loaded("xl/_rels/workbook.xml.rels");
    part.delete_relationship_mut("/xl/styles.xml");
    assert_eq!(part.len(), 2);
    assert_eq!(part.get_target_by_id("rId3"), Ok(None));
    part.delete_relationship_mut("missing.xml");
    assert_eq!(part.len(), 2);
}

#[test]
fn saving_writes_the_relationships_in_their_order() {
    let (mut part, mut document) = loaded("xl/_rels/workbook.xml.rels");
    part.delete_relationship_mut("worksheets/sheet1.xml");
    assert_eq!(part.len(), 3);
    part.delete_relationship_mut("/xl/styles.xml");
    assert_eq!(part.save_relationship_to_doc(&mut document), Ok(true));
    assert_eq!(
        text_of(&document),
        "<?xml version=\"1.0\" encoding=\"UTF-8\" standalone=\"yes\"?><Relationships xmlns=\"http://schemas.openxmlformats.org/package/2006/relationships\"><Relationship Id=\"rId1\" Target=\"worksheets/sheet1.xml\" Type=\"http://schemas.openxmlformats.org/officeDocument/2006/relationships/worksheet\"/><Relationship Id=\"rId9\" Target=\"http://example.com/\" Type=\"http://example.com/link\" TargetMode=\"External\"/></Relationships>"
    );
}

#[test]
fn saving_nothing_into_an_empty_file_says_so() {
    let fresh = RelationsPart::initialize_content_xml();
    let mut document = fresh.0;
    let part = RelationsPart::new(&mut document, "_rels/.rels").unwrap();
    assert_eq!(part.save_relationship_to_doc(&mut document), Ok(false));
    let mut rootless = XmlDocument::new();
    assert_eq!(part.save_relationship_to_doc(&mut rootless), Err(OfficeError::NotFound));
}

#[test]
fn relationship_without_id_or_with_a_second_id_is_refused() {
    let missing = "<Relationships><Relationship Type=\"t\" Target=\"x\"/></Relationships>";
    let mut document = XmlSerializer::vec_to_xml_doc_tree(missing.as_bytes().to_vec()).unwrap();
    assert_eq!(RelationsPart::new(&mut document, "_rels/.rels").err(), Some(OfficeError::Schema));
    let twice = "<Relationships><Relationship Id=\"rId1\" Type=\"t\" Target=\"x\"/><Relationship Id=\"rId1\" Type=\"t\" Target=\"y\"/></Relationships>";
    let mut document = XmlSerializer::vec_to_xml_doc_tree(twice.as_bytes().to_vec()).unwrap();
    assert_eq!(RelationsPart::new(&mut document, "_rels/.rels").err(), Some(OfficeError::Schema));
    assert_eq!(document.get_element_ids_by_tag("Relationship").len(), 2);
}

#[test]
fn saved_relationships_load_back_the_same() {
    let (part, mut document) = loaded("xl/_rels/workbook.xml.rels");
    part.save_relationship_to_doc(&mut document).unwrap();
    let first = text_of(&document);
    let mut again = XmlSerializer::vec_to_xml_doc_tree(first.as_bytes().to_vec()).unwrap();
    let reloaded = RelationsPart::new(&mut again, "xl/_rels/workbook.xml.rels").unwrap();
    assert_eq!(reloaded.len(), 3);
    reloaded.save_relationship_to_doc(&mut again).unwrap();
    assert_eq!(text_of(&again), first);
}
