use openxml_office::error::OfficeError;
use openxml_office::style::StylePart;
use openxml_office::style_models::{
    BorderSetting, BorderStyleValues, CellXfs, ColorSetting, ColorSettingTypeValues,
    FontSchemeValues, HorizontalAlignmentValues, NumberFormatValues, PatternTypeValues, StyleId,
    StyleSetting, VerticalAlignmentValues,
};
use openxml_office::xml_deserialize::XmlDeSerializer;
use openxml_office::xml_document::XmlDocument;
use openxml_office::xml_serialize::XmlSerializer;

fn new_part() -> (StylePart, XmlDocument) {
    let mut document = StylePart::initialize_content_xml().0;
    let part = StylePart::new(&mut document, "xl/styles.xml".to_string()).unwrap();
    (part, document)
}

fn text_of(document: &XmlDocument) -> String {
    String::from_utf8(XmlDeSerializer::xml_tree_to_vec(document).unwrap()).unwrap()
}

fn bold_twelve() -> StyleSetting {
    let mut setting = StyleSetting::default_value();
    setting.is_bold = true;
    setting.font_size = 12;
    setting
}

fn custom(code: &str) -> StyleSetting {
    let mut setting = StyleSetting::default_value();
    setting.number_format = NumberFormatValues::Custom;
    setting.custom_number_format = Some(code.to_string());
    setting
}

#[test]
fn new_style_sheet_has_the_default_tables() {
    let document = StylePart::initialize_content_xml();
    assert_eq!(
        document.1,
        Some("application/vnd.openxmlformats-officedocument.spreadsheetml.styles+xml".to_string())
    );
    assert_eq!(
        text_of(&document.0),
        "<?xml version=\"1.0\" encoding=\"UTF-8\" standalone=\"yes\"?><styleSheet xmlns=\"http://schemas.openxmlformats.org/spreadsheetml/2006/main\"><numFmts count=\"0\"/><fonts count=\"1\"><font><sz val=\"11\"/><color theme=\"1\"/><name val=\"Calibri\"/><family val=\"2\"/><scheme val=\"none\"/></font></fonts><fills count=\"2\"><fill><patternFill patternType=\"none\"/></fill><fill><patternFill patternType=\"gray125\"/></fill></fills><borders count=\"1\"><border><left/><right/><top/><bottom/><diagonal/></border></borders><cellStyleXfs count=\"1\"><xf numFmtId=\"0\" fontId=\"0\" fillId=\"0\" borderId=\"0\"/></cellStyleXfs><cellXfs count=\"1\"><xf numFmtId=\"0\" fontId=\"0\" fillId=\"0\" borderId=\"0\" xfId=\"0\"/></cellXfs></styleSheet>"
    );
    let (part, rest) = new_part();
    assert_eq!(part.fonts().len(), 1);
    assert_eq!(part.fills().len(), 2);
    assert_eq!(part.borders().len(), 1);
    assert_eq!(part.cell_style_xfs().len(), 1);
    assert_eq!(part.cell_xfs().len(), 1);
    assert_eq!(part.number_formats().len(), 0);
    assert_eq!(part.get_file_path(), "xl/styles.xml");
    assert_eq!(
        text_of(&rest),
        "<?xml version=\"1.0\" encoding=\"UTF-8\" standalone=\"yes\"?><styleSheet xmlns=\"http://schemas.openxmlformats.org/spreadsheetml/2006/main\"/>"
    );
}

#[test]
fn default_setting_is_style_zero() {
    let (mut part, _) = new_part();
    assert_eq!(part.get_style_id_mut(StyleSetting::default_value()), Ok(StyleId::new(0)));
    assert_eq!(part.cell_xfs().len(), 1);
    assert_eq!(part.fonts().len(), 1);
}

#[test]
fn same_setting_twice_is_one_style() {
    let (mut part, _) = new_part();
    let baseline = part.cell_xfs().len();
    let first = part.get_style_id_mut(bold_twelve()).unwrap();
    let second = part.get_style_id_mut(bold_twelve()).unwrap();
    assert_eq!(first, second);
    assert_eq!(first, StyleId::new(1));
    assert_eq!(part.cell_xfs().len(), baseline + 1);
    assert_eq!(part.fonts().len(), 2);
    let xf = part.cell_xfs()[1];
    assert_eq!(xf.font_id, 1);
    assert_eq!(xf.apply_font, 1);
    assert_eq!(xf.fill_id, 0);
    assert_eq!(xf.apply_fill, 0);
    assert_eq!(xf.apply_border, 0);
    assert_eq!(xf.apply_alignment, 0);
    assert_eq!(xf.format_id, 1);
}

#[test]
fn different_settings_are_different_styles() {
    let (mut part, _) = new_part();
    let mut ids = Vec::new();
    let mut italic = StyleSetting::default_value();
    italic.is_italic = true;
    let mut filled = StyleSetting::default_value();
    filled.pattern_type = PatternTypeValues::Solid;
    filled.foreground_color = Some("FFFF0000".to_string());
    let mut bordered = StyleSetting::default_value();
    bordered.border_left = BorderSetting {
        style: BorderStyleValues::Thin,
        border_color: Some(ColorSetting::rgb("FF000000".to_string())),
    };
    let mut aligned = StyleSetting::default_value();
    aligned.horizontal_alignment = HorizontalAlignmentValues::Center;
    aligned.is_wrap_text = true;
    let mut percent = StyleSetting::default_value();
    percent.number_format = NumberFormatValues::Percent;
    for setting in [
        StyleSetting::default_value(),
        bold_twelve(),
        italic,
        filled,
        bordered,
        aligned,
        percent,
        custom("0.00%"),
        custom("0.000"),
    ] {
        ids.push(part.get_style_id_mut(setting).unwrap().id);
    }
    assert_eq!(ids, vec![0, 1, 2, 3, 4, 5, 6, 7, 8]);
    assert_eq!(part.get_style_id_mut(custom("0.00%")), Ok(StyleId::new(7)));
    let aligned_xf = part.cell_xfs()[5];
    assert_eq!(aligned_xf.apply_alignment, 1);
    assert_eq!(aligned_xf.is_wrap_text, 1);
    assert_eq!(aligned_xf.horizontal_alignment, HorizontalAlignmentValues::Center);
    assert_eq!(aligned_xf.vertical_alignment, VerticalAlignmentValues::Unset);
    assert_eq!(part.cell_xfs()[6].number_format_id, 9);
    assert_eq!(part.cell_xfs()[6].apply_number_format, 0);
    assert_eq!(part.cell_xfs()[3].fill_id, 2);
    assert_eq!(part.cell_xfs()[3].apply_fill, 1);
    assert_eq!(part.cell_xfs()[4].border_id, 1);
    assert_eq!(part.cell_xfs()[4].apply_border, 1);
}

#[test]
fn custom_number_format_starts_at_164() {
    let (mut part, mut document) = new_part();
    let id = part.get_style_id_mut(custom("0.00%")).unwrap();
    let xf = part.cell_xfs()[id.id as usize];
    assert_eq!(xf.number_format_id, 164);
    assert_eq!(xf.apply_number_format, 1);
    let other = part.get_style_id_mut(custom("#,##0.000")).unwrap();
    assert_eq!(part.cell_xfs()[other.id as usize].number_format_id, 165);
    assert_eq!(part.number_formats().len(), 2);
    assert_eq!(part.number_formats()[0].format_id, 164);
    part.save_content_to_tree_mut(&mut document).unwrap();
    let text = text_of(&document);
    assert_eq!(text.matches("<numFmt numFmtId=\"164\" formatCode=\"0.00%\"/>").count(), 1);
    assert!(text.contains("<numFmts count=\"2\">"));
}

#[test]
fn custom_number_format_without_code_is_refused() {
    let (mut part, _) = new_part();
    let mut setting = StyleSetting::default_value();
    setting.number_format = NumberFormatValues::Custom;
    setting.is_bold = true;
    assert_eq!(part.get_style_id_mut(setting), Err(OfficeError::Programmer));
    assert_eq!(part.fonts().len(), 1);
    assert_eq!(part.cell_xfs().len(), 1);
}

#[test]
fn side_without_line_keeps_its_color() {
    let (mut part, mut document) = new_part();
    let colored = |color: &str| {
        let mut setting = StyleSetting::default_value();
        setting.border_top = BorderSetting {
            style: BorderStyleValues::Unset,
            border_color: Some(ColorSetting::rgb(color.to_string())),
        };
        setting
    };
    assert_eq!(part.get_style_id_mut(StyleSetting::default_value()), Ok(StyleId::new(0)));
    assert_eq!(part.get_style_id_mut(colored("FF00FF00")), Ok(StyleId::new(1)));
    assert_eq!(part.get_style_id_mut(colored("FF0000FF")), Ok(StyleId::new(2)));
    assert_eq!(part.get_style_id_mut(colored("FF00FF00")), Ok(StyleId::new(1)));
    assert_eq!(part.borders().len(), 3);
    part.close_document(&mut document).unwrap();
    let text = text_of(&document);
    assert!(text.contains("<border><left/><right/><top><color rgb=\"FF00FF00\"/></top><bottom/><diagonal/></border>"));
    let mut again = XmlSerializer::vec_to_xml_doc_tree(text.into_bytes()).unwrap();
    let reread = StylePart::new(&mut again, "xl/styles.xml".to_string()).unwrap();
    assert_eq!(reread.borders().len(), 3);
    assert_eq!(
        reread.borders()[2].top.border_color.as_ref().unwrap().value,
        "FF0000FF"
    );
    assert_eq!(reread.borders()[2].top.style, BorderStyleValues::Unset);
}

#[test]
fn more_settings_than_the_cache_holds_keep_their_ids() {
    let (mut part, _) = new_part();
    let mut ids = Vec::new();
    for size in 20..60u32 {
        let mut setting = StyleSetting::default_value();
        setting.font_size = size;
        ids.push(part.get_style_id_mut(setting).unwrap());
    }
    for (place, size) in (20..60u32).enumerate() {
        let mut setting = StyleSetting::default_value();
        setting.font_size = size;
        assert_eq!(part.get_style_id_mut(setting), Ok(ids[place]));
    }
    assert_eq!(part.cell_xfs().len(), 41);
    assert_eq!(part.fonts().len(), 41);
}

#[test]
fn saved_tables_load_back_the_same() {
    let (mut part, mut document) = new_part();
    let mut rich = custom("0.00%");
    rich.is_bold = true;
    rich.is_italic = true;
    rich.is_underline = true;
    rich.is_double_underline = true;
    rich.font_family = "Arial".to_string();
    rich.text_color = ColorSetting {
        color_setting_type: ColorSettingTypeValues::Indexed,
        value: "8".to_string(),
    };
    rich.pattern_type = PatternTypeValues::DarkGrid;
    rich.foreground_color = Some("FF112233".to_string());
    rich.background_color = Some("FF445566".to_string());
    rich.border_left =
        BorderSetting { style: BorderStyleValues::MediumDashDot, border_color: None };
    rich.border_diagonal = BorderSetting {
        style: BorderStyleValues::Double,
        border_color: Some(ColorSetting {
            color_setting_type: ColorSettingTypeValues::Theme,
            value: "4".to_string(),
        }),
    };
    rich.vertical_alignment = VerticalAlignmentValues::Distributed;
    rich.horizontal_alignment = HorizontalAlignmentValues::CenterContinuous;
    rich.is_wrap_text = true;
    let rich_id = part.get_style_id_mut(rich).unwrap();
    let bold_id = part.get_style_id_mut(bold_twelve()).unwrap();
    part.close_document(&mut document).unwrap();
    let first = text_of(&document);
    let mut again = XmlSerializer::vec_to_xml_doc_tree(first.as_bytes().to_vec()).unwrap();
    let mut reloaded = StylePart::new(&mut again, "xl/styles.xml".to_string()).unwrap();
    assert_eq!(reloaded.fonts().len(), part.fonts().len());
    assert_eq!(reloaded.cell_xfs(), part.cell_xfs());
    assert_eq!(reloaded.cell_style_xfs(), part.cell_style_xfs());
    assert!(reloaded.fonts()[1].same(&part.fonts()[1]));
    assert!(reloaded.fills()[2].same(&part.fills()[2]));
    assert!(reloaded.borders()[1].same(&part.borders()[1]));
    assert_eq!(reloaded.fonts()[1].font_scheme, FontSchemeValues::Unset);
    reloaded.close_document(&mut again).unwrap();
    assert_eq!(text_of(&again), first);
    assert_eq!(reloaded.get_style_id_mut(bold_twelve()), Ok(bold_id));
    assert_eq!(rich_id, StyleId::new(1));
}

#[test]
fn closing_puts_the_tables_in_schema_order() {
    let source = "<styleSheet><dxfs count=\"0\"/><cellStyles count=\"0\"/><extLst/></styleSheet>";
    let mut document = XmlSerializer::vec_to_xml_doc_tree(source.as_bytes().to_vec()).unwrap();
    let part = StylePart::new(&mut document, "xl/styles.xml".to_string()).unwrap();
    assert_eq!(part.fonts().len(), 0);
    part.close_document(&mut document).unwrap();
    assert_eq!(
        text_of(&document),
        "<?xml version=\"1.0\" encoding=\"UTF-8\" standalone=\"yes\"?><styleSheet><numFmts count=\"0\"/><fonts count=\"0\"/><fills count=\"0\"/><borders count=\"0\"/><cellStyleXfs count=\"0\"/><cellXfs count=\"0\"/><cellStyles count=\"0\"/><dxfs count=\"0\"/><extLst/></styleSheet>"
    );
}

#[test]
fn reading_a_foreign_style_sheet() {
    let source = "<styleSheet><numFmts count=\"1\"><numFmt numFmtId=\"164\" formatCode=\"0.0\"/></numFmts><fonts count=\"2\"><font><sz val=\"10\"/><name val=\"Arial\"/></font><font><b/><i/><u val=\"double\"/><u/><sz val=\"14\"/><color rgb=\"FF00FF00\"/><name val=\"Times\"/><family val=\"1\"/><scheme val=\"major\"/></font></fonts><fills count=\"1\"><fill><patternFill patternType=\"solid\"><fgColor indexed=\"64\"/><bgColor theme=\"2\"/></patternFill></fill></fills><borders count=\"1\"><border><left style=\"thin\"><color rgb=\"FF000000\"/></left><right/><top style=\"none\"><color rgb=\"FF000000\"/></top><bottom/><diagonal/></border></borders><cellStyleXfs count=\"1\"><xf numFmtId=\"0\" fontId=\"0\" fillId=\"0\" borderId=\"0\"/></cellStyleXfs><cellXfs count=\"2\"><xf numFmtId=\"0\" fontId=\"0\" fillId=\"0\" borderId=\"0\" xfId=\"0\"/><xf numFmtId=\"164\" fontId=\"1\" fillId=\"0\" borderId=\"0\" xfId=\"0\" applyFont=\"true\" applyNumberFormat=\"1\" applyFill=\"0\"><alignment wrapText=\"1\" vertical=\"top\" horizontal=\"right\"/></xf></cellXfs></styleSheet>";
    let mut document = XmlSerializer::vec_to_xml_doc_tree(source.as_bytes().to_vec()).unwrap();
    let part = StylePart::new(&mut document, "xl/styles.xml".to_string()).unwrap();
    let font = &part.fonts()[1];
    assert!(font.is_bold && font.is_italic && font.is_underline && font.is_double_underline);
    assert_eq!(font.size, 14);
    assert_eq!(font.family, 1);
    assert_eq!(font.name, "Times");
    assert_eq!(font.font_scheme, FontSchemeValues::Major);
    assert_eq!(font.color.color_setting_type, ColorSettingTypeValues::Rgb);
    assert_eq!(font.color.value, "FF00FF00");
    assert_eq!(part.fonts()[0].name, "Arial");
    assert_eq!(part.fonts()[0].family, 2);
    let fill = &part.fills()[0];
    assert_eq!(fill.pattern_type, PatternTypeValues::Solid);
    assert_eq!(fill.foreground_color.as_ref().unwrap().value, "64");
    assert_eq!(
        fill.background_color.as_ref().unwrap().color_setting_type,
        ColorSettingTypeValues::Theme
    );
    let border = &part.borders()[0];
    assert_eq!(border.left.style, BorderStyleValues::Thin);
    assert!(border.left.border_color.is_some());
    assert_eq!(border.top.style, BorderStyleValues::Unset);
    assert_eq!(border.top.border_color.as_ref().unwrap().value, "FF000000");
    let expected = CellXfs {
        format_id: 0,
        number_format_id: 164,
        font_id: 1,
        fill_id: 0,
        border_id: 0,
        apply_font: 1,
        apply_alignment: 0,
        apply_fill: 0,
        apply_border: 0,
        apply_number_format: 1,
        apply_protection: 0,
        is_wrap_text: 1,
        vertical_alignment: VerticalAlignmentValues::Top,
        horizontal_alignment: HorizontalAlignmentValues::Right,
    };
    assert_eq!(part.cell_xfs()[1], expected);
    assert_eq!(document.get_child_count(1), 0);
}

#[test]
fn style_sheets_that_break_the_tables_are_refused() {
    for source in [
        "<styleSheet><fonts><font><unknown/></font></fonts></styleSheet>",
        "<styleSheet><borders><border><middle/></border></borders></styleSheet>",
        "<styleSheet><fills><fill><patternFill patternType=\"solid\"><other x=\"1\"/></patternFill></fill></fills></styleSheet>",
        "<styleSheet><fonts><font><sz val=\"big\"/></font></fonts></styleSheet>",
        "<styleSheet><numFmts><numFmt formatCode=\"0.0\"/></numFmts></styleSheet>",
        "<styleSheet><cellXfs><xf fontId=\"3\"/></cellXfs></styleSheet>",
        "<styleSheet><fonts><font/></fonts><fills><fill/></fills><borders><border/></borders><cellStyleXfs><xf/></cellStyleXfs><cellXfs><xf xfId=\"1\"/></cellXfs></styleSheet>",
        "<styleSheet><cellXfs><xf xfId=\"0\"/></cellXfs></styleSheet>",
        "<styleSheet><cellXfs><xf numFmtId=\"164\"/></cellXfs></styleSheet>",
        "<styleSheet><cellXfs><xf fontId=\"-1\"/></cellXfs></styleSheet>",
    ] {
        let mut document = XmlSerializer::vec_to_xml_doc_tree(source.as_bytes().to_vec()).unwrap();
        let before = text_of(&document);
        assert_eq!(
            StylePart::new(&mut document, "xl/styles.xml".to_string()).err(),
            Some(OfficeError::Schema),
            "{}",
            source
        );
        assert_eq!(text_of(&document), before);
    }
}

#[test]
fn enum_words_read_back() {
    for value in [
        BorderStyleValues::Unset,
        BorderStyleValues::Thin,
        BorderStyleValues::MediumDashDotDot,
        BorderStyleValues::SlantDashDot,
        BorderStyleValues::Hair,
    ] {
        assert_eq!(BorderStyleValues::get_enum(&BorderStyleValues::get_string(value)), value);
    }
    assert_eq!(BorderStyleValues::get_string(BorderStyleValues::Unset), "none");
    assert_eq!(BorderStyleValues::get_enum("no such"), BorderStyleValues::Unset);
    assert_eq!(PatternTypeValues::get_string(PatternTypeValues::Gray0625), "gray0625");
    assert_eq!(PatternTypeValues::get_enum("lightTrellis"), PatternTypeValues::LightTrellis);
    assert_eq!(HorizontalAlignmentValues::get_enum("justify"), HorizontalAlignmentValues::Justify);
    assert_eq!(VerticalAlignmentValues::get_string(VerticalAlignmentValues::Bottom), "bottom");
    assert_eq!(ColorSettingTypeValues::get_string(ColorSettingTypeValues::Indexed), "indexed");
    assert_eq!(FontSchemeValues::get_enum("minor"), FontSchemeValues::Minor);
    assert_eq!(NumberFormatValues::get_format_id(NumberFormatValues::Text), 49);
    assert_eq!(NumberFormatValues::get_format_id(NumberFormatValues::General), 0);
}

#[test]
fn tables_of_a_file_are_read_as_they_are() {
    let source = "<styleSheet><numFmts count=\"3\"><numFmt numFmtId=\"170\" formatCode=\"0.0\"/><numFmt numFmtId=\"14\" formatCode=\"dd/mm\"/><numFmt numFmtId=\"166\" formatCode=\"0.0\"/></numFmts><fonts count=\"2\"><font/><font/></fonts><fills count=\"2\"><fill/><fill/></fills><borders count=\"2\"><border/><border/></borders><cellStyleXfs count=\"2\"><xf/><xf/></cellStyleXfs><cellXfs count=\"3\"><xf numFmtId=\"170\" fontId=\"1\" xfId=\"1\"/><xf numFmtId=\"170\" fontId=\"1\" xfId=\"1\"/><xf numFmtId=\"999\" xfId=\"1\"/></cellXfs></styleSheet>";
    let mut document = XmlSerializer::vec_to_xml_doc_tree(source.as_bytes().to_vec()).unwrap();
    let mut part = StylePart::new(&mut document, "xl/styles.xml".to_string()).unwrap();
    let ids: Vec<u32> = part.number_formats().iter().map(|format| format.format_id).collect();
    assert_eq!(ids, vec![170, 14, 166]);
    assert_eq!(part.fonts().len(), 2);
    assert_eq!(part.fills().len(), 2);
    assert_eq!(part.borders().len(), 2);
    assert_eq!(part.cell_style_xfs().len(), 2);
    assert_eq!(part.cell_xfs().len(), 3);
    assert_eq!(part.cell_xfs()[0], part.cell_xfs()[1]);
    assert_eq!(part.cell_xfs()[2].number_format_id, 999);
    assert_eq!(part.cell_xfs()[2].format_id, 1);
    let known = part.get_style_id_mut(custom("0.0")).unwrap();
    assert_eq!(part.cell_xfs()[known.id as usize].number_format_id, 170);
    assert_eq!(part.number_formats().len(), 3);
    let added = part.get_style_id_mut(custom("0.00%")).unwrap();
    assert_eq!(part.cell_xfs()[added.id as usize].number_format_id, 171);
    assert_eq!(part.number_formats()[3].format_id, 171);
    assert_eq!(part.get_style_id_mut(custom("0.0")), Ok(known));
    part.close_document(&mut document).unwrap();
    let text = text_of(&document);
    assert!(text.contains("<numFmts count=\"4\"><numFmt numFmtId=\"170\" formatCode=\"0.0\"/><numFmt numFmtId=\"14\" formatCode=\"dd/mm\"/><numFmt numFmtId=\"166\" formatCode=\"0.0\"/><numFmt numFmtId=\"171\" formatCode=\"0.00%\"/></numFmts>"));
    let mut again = XmlSerializer::vec_to_xml_doc_tree(text.into_bytes()).unwrap();
    let reread = StylePart::new(&mut again, "xl/styles.xml".to_string()).unwrap();
    assert_eq!(reread.cell_xfs(), part.cell_xfs());
    assert_eq!(reread.fonts().len(), part.fonts().len());
}

#[test]
fn number_format_id_beyond_the_last_is_refused() {
    let source = "<styleSheet><numFmts><numFmt numFmtId=\"4294967295\" formatCode=\"0.0\"/></numFmts><fonts><font/></fonts><fills><fill/></fills><borders><border/></borders></styleSheet>";
    let mut document = XmlSerializer::vec_to_xml_doc_tree(source.as_bytes().to_vec()).unwrap();
    let mut part = StylePart::new(&mut document, "xl/styles.xml".to_string()).unwrap();
    assert_eq!(part.get_style_id_mut(custom("0.00%")), Err(OfficeError::Schema));
    assert_eq!(part.number_formats().len(), 1);
    assert_eq!(part.cell_xfs().len(), 0);
    assert!(part.get_style_id_mut(custom("0.0")).is_ok());
}

#[test]
fn tables_are_written_with_the_cell_formats_before_the_named_styles() {
    let source = "<styleSheet><dxfs count=\"0\"/></styleSheet>";
    let mut document = XmlSerializer::vec_to_xml_doc_tree(source.as_bytes().to_vec()).unwrap();
    let part = StylePart::new(&mut document, "xl/styles.xml".to_string()).unwrap();
    part.save_content_to_tree_mut(&mut document).unwrap();
    assert_eq!(
        text_of(&document),
        "<?xml version=\"1.0\" encoding=\"UTF-8\" standalone=\"yes\"?><styleSheet><dxfs count=\"0\"/><numFmts count=\"0\"/><fonts count=\"0\"/><fills count=\"0\"/><borders count=\"0\"/><cellXfs count=\"0\"/><cellStyleXfs count=\"0\"/></styleSheet>"
    );
}
