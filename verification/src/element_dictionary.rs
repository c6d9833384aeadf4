//! What is fixed of each kind of part: the namespace of its XML, the type
//! of the relationship that leads to it, its content type, and where its
//! file goes in a new package.

use vstd::prelude::*;

verus! {

/// What is fixed of one kind of part.
#[derive(Clone, Copy, Debug)]
pub struct Content {
    /// The namespace of the part's root element.
    pub schemas_namespace: &'static str,
    /// The type of the relationship that leads to the part.
    pub schemas_type: &'static str,
    /// The part's content type.
    pub content_type: &'static str,
    /// The extension of the part's file.
    pub extension: &'static str,
    /// How the content type is declared: by extension (`Default`) or for
    /// the one file (`Override`).
    pub extension_type: &'static str,
    /// The directory of the part's file in a new package.
    pub default_path: &'static str,
    /// The name of the part's file in a new package, without extension.
    pub default_name: &'static str,
}

/// Relationship files.
pub open spec fn relationships_content_spec() -> Content {
    Content {
        schemas_namespace: "http://schemas.openxmlformats.org/package/2006/relationships",
        schemas_type: "",
        content_type: "application/vnd.openxmlformats-package.relationships+xml",
        extension: "rels",
        extension_type: "Default",
        default_path: "_rels",
        default_name: "",
    }
}

/// Relationship files.
pub fn relationships_content() -> (content: Content)
    ensures
        content == relationships_content_spec(),
{
    Content {
        schemas_namespace: "http://schemas.openxmlformats.org/package/2006/relationships",
        schemas_type: "",
        content_type: "application/vnd.openxmlformats-package.relationships+xml",
        extension: "rels",
        extension_type: "Default",
        default_path: "_rels",
        default_name: "",
    }
}

/// The content-types manifest.
pub open spec fn content_types_content_spec() -> Content {
    Content {
        schemas_namespace: "http://schemas.openxmlformats.org/package/2006/content-types",
        schemas_type: "",
        content_type: "application/xml",
        extension: "xml",
        extension_type: "Default",
        default_path: "",
        default_name: "[Content_Types]",
    }
}

/// The content-types manifest.
pub fn content_types_content() -> (content: Content)
    ensures
        content == content_types_content_spec(),
{
    Content {
        schemas_namespace: "http://schemas.openxmlformats.org/package/2006/content-types",
        schemas_type: "",
        content_type: "application/xml",
        extension: "xml",
        extension_type: "Default",
        default_path: "",
        default_name: "[Content_Types]",
    }
}

/// The workbook.
pub open spec fn workbook_content_spec() -> Content {
    Content {
        schemas_namespace: "http://schemas.openxmlformats.org/spreadsheetml/2006/main",
        schemas_type: "http://schemas.openxmlformats.org/officeDocument/2006/relationships/officeDocument",
        content_type: "application/vnd.openxmlformats-officedocument.spreadsheetml.sheet.main+xml",
        extension: "xml",
        extension_type: "Override",
        default_path: "xl",
        default_name: "workbook",
    }
}

/// The workbook.
pub fn workbook_content() -> (content: Content)
    ensures
        content == workbook_content_spec(),
{
    Content {
        schemas_namespace: "http://schemas.openxmlformats.org/spreadsheetml/2006/main",
        schemas_type: "http://schemas.openxmlformats.org/officeDocument/2006/relationships/officeDocument",
        content_type: "application/vnd.openxmlformats-officedocument.spreadsheetml.sheet.main+xml",
        extension: "xml",
        extension_type: "Override",
        default_path: "xl",
        default_name: "workbook",
    }
}

/// A worksheet.
pub open spec fn worksheet_content_spec() -> Content {
    Content {
        schemas_namespace: "http://schemas.openxmlformats.org/spreadsheetml/2006/main",
        schemas_type: "http://schemas.openxmlformats.org/officeDocument/2006/relationships/worksheet",
        content_type: "application/vnd.openxmlformats-officedocument.spreadsheetml.worksheet+xml",
        extension: "xml",
        extension_type: "Override",
        default_path: "xl/worksheets",
        default_name: "sheet1",
    }
}

/// A worksheet.
pub fn worksheet_content() -> (content: Content)
    ensures
        content == worksheet_content_spec(),
{
    Content {
        schemas_namespace: "http://schemas.openxmlformats.org/spreadsheetml/2006/main",
        schemas_type: "http://schemas.openxmlformats.org/officeDocument/2006/relationships/worksheet",
        content_type: "application/vnd.openxmlformats-officedocument.spreadsheetml.worksheet+xml",
        extension: "xml",
        extension_type: "Override",
        default_path: "xl/worksheets",
        default_name: "sheet1",
    }
}

/// The style sheet.
pub open spec fn style_content_spec() -> Content {
    Content {
        schemas_namespace: "http://schemas.openxmlformats.org/spreadsheetml/2006/main",
        schemas_type: "http://schemas.openxmlformats.org/officeDocument/2006/relationships/styles",
        content_type: "application/vnd.openxmlformats-officedocument.spreadsheetml.styles+xml",
        extension: "xml",
        extension_type: "Override",
        default_path: "xl",
        default_name: "styles",
    }
}

/// The style sheet.
pub fn style_content() -> (content: Content)
    ensures
        content == style_content_spec(),
{
    Content {
        schemas_namespace: "http://schemas.openxmlformats.org/spreadsheetml/2006/main",
        schemas_type: "http://schemas.openxmlformats.org/officeDocument/2006/relationships/styles",
        content_type: "application/vnd.openxmlformats-officedocument.spreadsheetml.styles+xml",
        extension: "xml",
        extension_type: "Override",
        default_path: "xl",
        default_name: "styles",
    }
}

/// The table of shared strings.
pub open spec fn share_string_content_spec() -> Content {
    Content {
        schemas_namespace: "http://schemas.openxmlformats.org/spreadsheetml/2006/main",
        schemas_type: "http://schemas.openxmlformats.org/officeDocument/2006/relationships/sharedStrings",
        content_type: "application/vnd.openxmlformats-officedocument.spreadsheetml.sharedStrings+xml",
        extension: "xml",
        extension_type: "Override",
        default_path: "xl",
        default_name: "sharedStrings",
    }
}

/// The table of shared strings.
pub fn share_string_content() -> (content: Content)
    ensures
        content == share_string_content_spec(),
{
    Content {
        schemas_namespace: "http://schemas.openxmlformats.org/spreadsheetml/2006/main",
        schemas_type: "http://schemas.openxmlformats.org/officeDocument/2006/relationships/sharedStrings",
        content_type: "application/vnd.openxmlformats-officedocument.spreadsheetml.sharedStrings+xml",
        extension: "xml",
        extension_type: "Override",
        default_path: "xl",
        default_name: "sharedStrings",
    }
}

/// The calculation chain.
pub open spec fn calculation_chain_content_spec() -> Content {
    Content {
        schemas_namespace: "http://schemas.openxmlformats.org/spreadsheetml/2006/main",
        schemas_type: "http://schemas.openxmlformats.org/officeDocument/2006/relationships/calcChain",
        content_type: "application/vnd.openxmlformats-officedocument.spreadsheetml.calcChain+xml",
        extension: "xml",
        extension_type: "Override",
        default_path: "xl",
        default_name: "calcChain",
    }
}

/// The calculation chain.
pub fn calculation_chain_content() -> (content: Content)
    ensures
        content == calculation_chain_content_spec(),
{
    Content {
        schemas_namespace: "http://schemas.openxmlformats.org/spreadsheetml/2006/main",
        schemas_type: "http://schemas.openxmlformats.org/officeDocument/2006/relationships/calcChain",
        content_type: "application/vnd.openxmlformats-officedocument.spreadsheetml.calcChain+xml",
        extension: "xml",
        extension_type: "Override",
        default_path: "xl",
        default_name: "calcChain",
    }
}

/// The theme.
pub open spec fn theme_content_spec() -> Content {
    Content {
        schemas_namespace: "http://schemas.openxmlformats.org/drawingml/2006/main",
        schemas_type: "http://schemas.openxmlformats.org/officeDocument/2006/relationships/theme",
        content_type: "application/vnd.openxmlformats-officedocument.theme+xml",
        extension: "xml",
        extension_type: "Override",
        default_path: "xl/theme",
        default_name: "theme1",
    }
}

/// The theme.
pub fn theme_content() -> (content: Content)
    ensures
        content == theme_content_spec(),
{
    Content {
        schemas_namespace: "http://schemas.openxmlformats.org/drawingml/2006/main",
        schemas_type: "http://schemas.openxmlformats.org/officeDocument/2006/relationships/theme",
        content_type: "application/vnd.openxmlformats-officedocument.theme+xml",
        extension: "xml",
        extension_type: "Override",
        default_path: "xl/theme",
        default_name: "theme1",
    }
}

/// The namespace of relationship ids in the XML of a part.
pub fn relationship_namespace() -> (namespace: &'static str)
    ensures
        namespace@ == "http://schemas.openxmlformats.org/officeDocument/2006/relationships"@,
{
    "http://schemas.openxmlformats.org/officeDocument/2006/relationships"
}

} // verus!
