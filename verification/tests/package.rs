use openxml_office::archive::{read_archive, write_archive};
use openxml_office::codec::{compress_content, decompress_content};
use openxml_office::content_types::{ContentTypeTable, ContentTypesPart};
use openxml_office::error::OfficeError;
use openxml_office::excel::Excel;
use openxml_office::office_document::OfficeDocument;
use openxml_office::style_models::{StyleId, StyleSetting};
use openxml_office::xml_deserialize::XmlDeSerializer;
use openxml_office::xml_document::XmlDocument;
use openxml_office::xml_node::XmlNode;

fn entries_of(bytes: &[u8]) -> Vec<(String, String)> {
    read_archive(bytes.to_vec())
        .unwrap()
        .into_iter()
        .map(|(name, data)| (name, String::from_utf8(data).unwrap()))
        .collect()
}

fn file<'a>(entries: &'a [(String, String)], name: &str) -> &'a str {
    &entries.iter().find(|entry| entry.0 == name).unwrap().1
}

fn document_with(tag: &str) -> XmlDocument {
    XmlDocument::from_tree(&XmlNode::new(tag))
}

#[test]
fn compressed_content_decompresses_to_itself() {
    for data in [&b""[..], &b"a"[..], &[0u8, 255, 1, 2, 3, 0, 0, 0][..]] {
        let compressed = compress_content(data).unwrap();
        assert_eq!(decompress_content(&compressed), Ok(data.to_vec()));
    }
    let long: Vec<u8> = (0..100_000u32).map(|i| (i % 7) as u8).collect();
    let compressed = compress_content(&long).unwrap();
    assert!(compressed.len() < long.len());
    assert_eq!(decompress_content(&compressed), Ok(long));
    assert_eq!(decompress_content(b"not gzip"), Err(OfficeError::Codec));
}

#[test]
fn written_archive_reads_back_its_entries() {
    let entries = vec![
        ("first.txt".to_string(), b"one".to_vec()),
        ("dir/second.bin".to_string(), vec![0u8, 1, 2, 255]),
        ("empty".to_string(), Vec::new()),
    ];
    let bytes = write_archive(&entries).unwrap();
    assert_eq!(read_archive(bytes), Ok(entries));
    assert_eq!(read_archive(b"no archive".to_vec()), Err(OfficeError::PackageIo));
    let twice = vec![("a".to_string(), Vec::new()), ("a".to_string(), Vec::new())];
    assert_eq!(write_archive(&twice), Err(OfficeError::PackageIo));
    assert_eq!(read_archive(write_archive(&Vec::new()).unwrap()), Ok(Vec::new()));
}

#[test]
fn store_keeps_documents_by_path() {
    let mut store = OfficeDocument::new(None, true).unwrap();
    assert_eq!(store.get_connection().len(), 0);
    assert!(store.get_xml_tree("a.xml").unwrap().is_none());
    store.close_xml_document("a.xml", &document_with("a"), "type/a").unwrap();
    store.close_xml_document("b.xml", &document_with("b"), "type/b").unwrap();
    store.close_xml_document("a.xml", &document_with("again"), "ignored").unwrap();
    assert_eq!(store.get_connection().len(), 2);
    assert_eq!(store.get_connection()[0].file_name, "a.xml");
    assert_eq!(store.get_connection()[0].content_type, "type/a");
    assert!(store.get_connection()[0].file_content.is_none());
    let back = store.get_xml_tree("a.xml").unwrap().unwrap();
    assert_eq!(back.get_tree(1).unwrap().tag, "again");
    assert!(store.has_file_named("b.xml"));
    store.delete_document_mut("b.xml");
    store.delete_document_mut("missing.xml");
    assert!(!store.has_file_named("b.xml"));
    assert_eq!(store.get_connection().len(), 1);
}

#[test]
fn store_loads_an_archive_and_saves_it_again() {
    let entries = vec![
        ("doc.xml".to_string(), b"<doc><x/></doc>".to_vec()),
        ("image.png".to_string(), vec![137u8, 80, 78, 71]),
    ];
    let mut store = OfficeDocument::new(Some(write_archive(&entries).unwrap()), false).unwrap();
    assert_eq!(store.get_connection().len(), 2);
    assert!(store.get_connection()[0].tree_content.is_none());
    assert_eq!(read_archive(store.save_as().unwrap()), Ok(entries));
    let document = store.get_xml_tree("doc.xml").unwrap().unwrap();
    assert_eq!(document.get_tree(1).unwrap().children.len(), 1);
    assert!(store.get_connection()[0].tree_content.is_some());
    assert!(store.get_connection()[0].file_content.is_some());
    assert_eq!(store.get_xml_tree("image.png").err(), Some(OfficeError::Codec));
    let saved = read_archive(store.save_as().unwrap()).unwrap();
    assert_eq!(
        saved[0].1,
        b"<?xml version=\"1.0\" encoding=\"UTF-8\" standalone=\"yes\"?><doc><x/></doc>".to_vec()
    );
    assert_eq!(saved[1].1, vec![137u8, 80, 78, 71]);
}

#[test]
fn archive_that_cannot_be_read_is_a_package_failure() {
    assert_eq!(
        OfficeDocument::new(Some(b"garbage".to_vec()), true).err(),
        Some(OfficeError::PackageIo)
    );
    assert_eq!(Excel::new(Some(b"garbage".to_vec())).err(), Some(OfficeError::PackageIo));
}

#[test]
fn create_empty_workbook() {
    let mut excel = Excel::new(None).unwrap();
    assert_eq!(excel.list_sheet_names(), Ok(vec!["Sheet1".to_string()]));
    let entries = entries_of(&excel.save_as().unwrap());
    let mut names: Vec<&str> = entries.iter().map(|entry| entry.0.as_str()).collect();
    names.sort();
    assert_eq!(
        names,
        vec![
            "[Content_Types].xml",
            "_rels/.rels",
            "xl/_rels/workbook.xml.rels",
            "xl/styles.xml",
            "xl/theme/theme1.xml",
            "xl/workbook.xml",
            "xl/worksheets/sheet1.xml",
        ]
    );
    let workbook = file(&entries, "xl/workbook.xml");
    assert_eq!(workbook.matches("<sheet ").count(), 1);
    assert!(workbook.contains("<sheet name=\"Sheet1\" sheetId=\"1\" r:id=\"rId1\"/>"));
    let root = file(&entries, "_rels/.rels");
    assert!(root.contains("<Relationship Id=\"rId1\" Target=\"/xl/workbook.xml\" Type=\"http://schemas.openxmlformats.org/officeDocument/2006/relationships/officeDocument\"/>"));
    let rels = file(&entries, "xl/_rels/workbook.xml.rels");
    assert!(rels.contains("Id=\"rId1\" Target=\"/xl/worksheets/sheet1.xml\""));
    assert!(rels.contains("Id=\"rId2\" Target=\"/xl/theme/theme1.xml\""));
    assert!(rels.contains("Id=\"rId3\" Target=\"/xl/styles.xml\""));
    let types = file(&entries, "[Content_Types].xml");
    assert!(types.contains("<Default Extension=\"rels\" ContentType=\"application/vnd.openxmlformats-package.relationships+xml\"/>"));
    assert!(types.contains("<Override PartName=\"/xl/workbook.xml\" ContentType=\"application/vnd.openxmlformats-officedocument.spreadsheetml.sheet.main+xml\"/>"));
    assert!(types.contains("<Override PartName=\"/xl/worksheets/sheet1.xml\""));
    assert!(types.contains("<Override PartName=\"/xl/styles.xml\""));
    assert!(types.contains("<Override PartName=\"/xl/theme/theme1.xml\""));
    assert!(!types.contains("sharedStrings"));
    assert!(file(&entries, "xl/styles.xml").contains("<cellXfs count=\"1\">"));
}

#[test]
fn saved_workbook_opens_and_saves_to_the_same_xml() {
    let mut excel = Excel::new(None).unwrap();
    excel.add_sheet(Some("Data".to_string())).unwrap();
    excel.hide_sheet("Sheet1").unwrap();
    let mut bold = StyleSetting::default_value();
    bold.is_bold = true;
    bold.font_size = 12;
    assert_eq!(excel.style_for(bold), Ok(StyleId::new(1)));
    let first = excel.save_as().unwrap();
    let first_entries = entries_of(&first);
    let workbook = file(&first_entries, "xl/workbook.xml");
    assert_eq!(workbook.matches("<sheet ").count(), 2);
    assert!(workbook.contains("<sheet name=\"Sheet1\" sheetId=\"1\" r:id=\"rId1\" state=\"hidden\"/>"));
    assert!(workbook.contains("<sheet name=\"Data\" sheetId=\"2\" r:id=\"rId2\"/>"));
    assert!(file(&first_entries, "xl/styles.xml").contains("<cellXfs count=\"2\">"));
    let mut reopened = Excel::new(Some(first)).unwrap();
    assert_eq!(
        reopened.list_sheet_names(),
        Ok(vec!["Sheet1".to_string(), "Data".to_string()])
    );
    let mut again = StyleSetting::default_value();
    again.is_bold = true;
    again.font_size = 12;
    assert_eq!(reopened.style_for(again), Ok(StyleId::new(1)));
    assert_eq!(reopened.rename_sheet("Sheet1", "Data"), Err(OfficeError::Conflict));
    let second_entries = entries_of(&reopened.save_as().unwrap());
    for name in ["xl/styles.xml", "[Content_Types].xml", "xl/_rels/workbook.xml.rels", "_rels/.rels", "xl/workbook.xml"] {
        assert_eq!(file(&second_entries, name), file(&first_entries, name), "{}", name);
    }
    assert_eq!(second_entries.len(), first_entries.len());
}

#[test]
fn saving_twice_adds_nothing() {
    let mut excel = Excel::new(None).unwrap();
    let first = entries_of(&excel.save_as().unwrap());
    let second = entries_of(&excel.save_as().unwrap());
    assert_eq!(first.len(), second.len());
    assert_eq!(file(&second, "xl/workbook.xml").matches("<sheets>").count(), 2);
}

#[test]
fn content_types_are_read_and_written() {
    let source = "<Types xmlns=\"http://schemas.openxmlformats.org/package/2006/content-types\"><Default Extension=\"rels\" ContentType=\"r\"/><Override PartName=\"/xl/workbook.xml\" ContentType=\"w\"/><Default Extension=\"xml\" ContentType=\"x\"/><Override PartName=\"/xl/styles.xml\" ContentType=\"s\"/><Override PartName=\"/xl/workbook.xml\" ContentType=\"later\"/></Types>";
    let mut part = ContentTypesPart::new(source.as_bytes().to_vec()).unwrap();
    assert_eq!(part.get_override_content_type("xl/missing.xml"), Ok(None));
    assert_eq!(part.get_override_content_type("xl/workbook.xml"), Ok(Some("later".to_string())));
    assert_eq!(part.get_override_content_type("xl/workbook.xml"), Ok(Some("w".to_string())));
    assert_eq!(part.get_override_content_type("xl/workbook.xml"), Ok(None));
    assert_eq!(
        part.get_extensions(),
        Ok(Some(vec![
            ("rels".to_string(), "r".to_string()),
            ("xml".to_string(), "x".to_string())
        ]))
    );
    assert_eq!(part.get_extensions(), Ok(None));
    assert_eq!(part.get_overrides(), Ok(vec![("/xl/styles.xml".to_string(), "s".to_string())]));
    let written = ContentTypesPart::create_xml_file(
        vec![("rels".to_string(), "r".to_string())],
        vec![("/xl/workbook.xml".to_string(), "w".to_string())],
    )
    .unwrap();
    assert_eq!(
        String::from_utf8(written).unwrap(),
        "<?xml version=\"1.0\" encoding=\"UTF-8\" standalone=\"yes\"?><Types xmlns=\"http://schemas.openxmlformats.org/package/2006/content-types\"><Default Extension=\"rels\" ContentType=\"r\"/><Override PartName=\"/xl/workbook.xml\" ContentType=\"w\"/></Types>"
    );
    assert_eq!(ContentTypesPart::new(b"<Types>".to_vec()).err(), Some(OfficeError::Codec));
    let mut broken =
        ContentTypesPart::new(b"<Types><Default Extension=\"x\"/></Types>".to_vec()).unwrap();
    assert_eq!(broken.get_extensions(), Err(OfficeError::Schema));
    let mut untyped =
        ContentTypesPart::new(b"<Types><Override PartName=\"/a\"/></Types>".to_vec()).unwrap();
    assert_eq!(untyped.get_override_content_type("a"), Err(OfficeError::Schema));
}

#[test]
fn content_type_table_gives_what_was_put_in() {
    let mut table = ContentTypeTable::new();
    assert_eq!(table.get_override("xl/a.xml"), None);
    table.add_override("xl/a.xml", "one");
    table.add_override("xl/b.xml", "two");
    table.add_override("xl/a.xml", "three");
    assert_eq!(table.get_override("xl/a.xml"), Some(&"three".to_string()));
    assert_eq!(table.get_override("xl/b.xml"), Some(&"two".to_string()));
    assert_eq!(table.overrides.len(), 2);
    assert_eq!(table.overrides[0].0, "/xl/a.xml");
    table.ensure_default("xml", "x");
    table.ensure_default("xml", "y");
    assert_eq!(table.extensions, vec![("xml".to_string(), "x".to_string())]);
    table.remove_override("xl/a.xml");
    assert_eq!(table.get_override("xl/a.xml"), None);
    assert_eq!(table.get_override("xl/b.xml"), Some(&"two".to_string()));
}

#[test]
fn document_text_of_a_stored_tree_is_what_was_closed() {
    let mut store = OfficeDocument::new(None, true).unwrap();
    let mut node = XmlNode::new("a");
    node.push_attribute("k", "v & w".to_string());
    let document = XmlDocument::from_tree(&node);
    store.close_xml_document("a.xml", &document, "t").unwrap();
    let back = store.get_xml_tree("a.xml").unwrap().unwrap();
    assert_eq!(
        XmlDeSerializer::xml_tree_to_vec(&back),
        XmlDeSerializer::xml_tree_to_vec(&document)
    );
}

#[test]
fn theme_of_a_new_workbook_is_the_office_theme() {
    let mut excel = Excel::new(None).unwrap();
    let entries = entries_of(&excel.save_as().unwrap());
    let theme = file(&entries, "xl/theme/theme1.xml");
    assert!(theme.starts_with(
        "<?xml version=\"1.0\" encoding=\"UTF-8\" standalone=\"yes\"?><a:theme xmlns:a=\"http://schemas.openxmlformats.org/drawingml/2006/main\" name=\"Office Theme\"><a:themeElements><a:clrScheme name=\"Office\"><a:dk1><a:srgbClr val=\"000000\"/></a:dk1><a:lt1><a:srgbClr val=\"FFFFFF\"/></a:lt1>"
    ));
    assert_eq!(theme.matches("<a:srgbClr ").count(), 12);
    assert!(theme.contains("<a:folHlink><a:srgbClr val=\"954F72\"/></a:folHlink></a:clrScheme>"));
    assert!(theme.contains(
        "<a:fontScheme name=\"Office\"><a:majorFont><a:latin typeface=\"Calibri Light\"/><a:ea typeface=\"\"/><a:cs typeface=\"\"/></a:majorFont><a:minorFont><a:latin typeface=\"Calibri\"/><a:ea typeface=\"\"/><a:cs typeface=\"\"/></a:minorFont></a:fontScheme>"
    ));
    assert!(theme.contains(
        "<a:lnStyleLst><a:ln w=\"6350\"><a:solidFill><a:schemeClr val=\"phClr\"/></a:solidFill></a:ln>"
    ));
    assert_eq!(theme.matches("<a:ln w=\"6350\">").count(), 3);
    assert_eq!(theme.matches("<a:effectStyle><a:effectLst/></a:effectStyle>").count(), 3);
    assert_eq!(theme.matches("<a:solidFill>").count(), 9);
    assert!(theme.ends_with("</a:bgFillStyleLst></a:fmtScheme></a:themeElements></a:theme>"));
}

#[test]
fn archive_with_two_files_of_one_name_is_a_package_failure() {
    let entry = ("a.xml".to_string(), b"<a/>".to_vec());
    assert_eq!(write_archive(&vec![entry.clone(), entry]).err(), Some(OfficeError::PackageIo));
}

#[test]
fn package_without_manifest_or_relationships_opens_as_a_new_workbook_would() {
    let archive = write_archive(&vec![("notes.txt".to_string(), b"plain".to_vec())]).unwrap();
    let mut excel = Excel::new(Some(archive)).unwrap();
    assert_eq!(excel.list_sheet_names(), Ok(Vec::new()));
    let entries = read_archive(excel.save_as().unwrap()).unwrap();
    let names: Vec<&str> = entries.iter().map(|entry| entry.0.as_str()).collect();
    assert_eq!(
        names,
        vec![
            "notes.txt",
            "_rels/.rels",
            "xl/_rels/workbook.xml.rels",
            "xl/styles.xml",
            "xl/workbook.xml",
            "xl/theme/theme1.xml",
            "[Content_Types].xml",
        ]
    );
    assert_eq!(entries[0].1, b"plain".to_vec());
}

#[test]
fn manifest_that_breaks_the_rules_is_refused() {
    let broken = "<Types><Default Extension=\"xml\"/></Types>";
    let archive =
        write_archive(&vec![("[Content_Types].xml".to_string(), broken.as_bytes().to_vec())])
            .unwrap();
    assert_eq!(Excel::new(Some(archive)).err(), Some(OfficeError::Schema));
    let archive =
        write_archive(&vec![("[Content_Types].xml".to_string(), b"no xml".to_vec())]).unwrap();
    assert_eq!(Excel::new(Some(archive)).err(), Some(OfficeError::Codec));
}

#[test]
fn workbook_that_is_the_relationships_file_is_refused() {
    let rels = "<Relationships xmlns=\"http://schemas.openxmlformats.org/package/2006/relationships\"><Relationship Id=\"rId1\" Target=\"/_rels/.rels\" Type=\"http://schemas.openxmlformats.org/officeDocument/2006/relationships/officeDocument\"/></Relationships>";
    let archive =
        write_archive(&vec![("_rels/.rels".to_string(), rels.as_bytes().to_vec())]).unwrap();
    assert!(Excel::new(Some(archive)).is_err());
}
