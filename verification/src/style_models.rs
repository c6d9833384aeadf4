//! The values of the style model: colors, fonts, fills, borders, number
//! formats, the cell formats that index them, and the setting by which a
//! caller asks for a style.

use vstd::prelude::*;
use crate::text::str_eq;
use crate::xml_tree::opt_text;

verus! {

/// How a color is given: by place in the indexed palette, as red, green and
/// blue, or by place in the theme.
#[derive(Clone, Copy, Debug, PartialEq, Eq, Structural, Hash)]
pub enum ColorSettingTypeValues {
    Indexed,
    Rgb,
    Theme,
}

/// The word that the schema has for each value.
pub open spec fn color_kind_text(value: ColorSettingTypeValues) -> Seq<char> {
    match value {
        ColorSettingTypeValues::Indexed => "indexed"@,
        ColorSettingTypeValues::Rgb => "rgb"@,
        ColorSettingTypeValues::Theme => "theme"@,
    }
}

/// The value that a word of the schema stands for; `Rgb` for any other
/// word.
pub open spec fn color_kind_of_text(text: Seq<char>) -> ColorSettingTypeValues {
    if text == "indexed"@ {
        ColorSettingTypeValues::Indexed
    } else if text == "theme"@ {
        ColorSettingTypeValues::Theme
    } else {
        ColorSettingTypeValues::Rgb
    }
}

/// Reading the word of a value gives the value back.
pub proof fn lemma_color_kind_round_trip(value: ColorSettingTypeValues)
    ensures
        color_kind_of_text(color_kind_text(value)) == value,
{
    reveal_strlit("indexed");
    assert("indexed"@.len() == 7);
    reveal_strlit("rgb");
    assert("rgb"@.len() == 3);
    reveal_strlit("theme");
    assert("theme"@.len() == 5);
}

impl ColorSettingTypeValues {
    pub fn get_string(input_enum: ColorSettingTypeValues) -> (text: String)
        ensures
            text@ == color_kind_text(input_enum),
    {
        match input_enum {
            ColorSettingTypeValues::Indexed => "indexed".to_owned(),
            ColorSettingTypeValues::Rgb => "rgb".to_owned(),
            ColorSettingTypeValues::Theme => "theme".to_owned(),
        }
    }

    pub fn get_enum(input_string: &str) -> (value: ColorSettingTypeValues)
        ensures
            value == color_kind_of_text(input_string@),
    {
        if str_eq(input_string, "indexed") {
            ColorSettingTypeValues::Indexed
        } else if str_eq(input_string, "theme") {
            ColorSettingTypeValues::Theme
        } else {
            ColorSettingTypeValues::Rgb
        }
    }
}

/// The theme font that a font follows, if any.
#[derive(Clone, Copy, Debug, PartialEq, Eq, Structural, Hash)]
pub enum FontSchemeValues {
    Unset,
    Minor,
    Major,
}

/// The word that the schema has for each value.
pub open spec fn font_scheme_text(value: FontSchemeValues) -> Seq<char> {
    match value {
        FontSchemeValues::Unset => "none"@,
        FontSchemeValues::Minor => "minor"@,
        FontSchemeValues::Major => "major"@,
    }
}

/// The value that a word of the schema stands for; `Unset` for any other
/// word.
pub open spec fn font_scheme_of_text(text: Seq<char>) -> FontSchemeValues {
    if text == "minor"@ {
        FontSchemeValues::Minor
    } else if text == "major"@ {
        FontSchemeValues::Major
    } else {
        FontSchemeValues::Unset
    }
}

/// Reading the word of a value gives the value back.
pub proof fn lemma_font_scheme_round_trip(value: FontSchemeValues)
    ensures
        font_scheme_of_text(font_scheme_text(value)) == value,
{
    reveal_strlit("none");
    assert("none"@.len() == 4);
    reveal_strlit("minor");
    assert("minor"@.len() == 5);
    reveal_strlit("major");
    assert("major"@.len() == 5);
    assert("major"@[1] == 'a');
    assert("minor"@[1] == 'i');
}

impl FontSchemeValues {
    pub fn get_string(input_enum: FontSchemeValues) -> (text: String)
        ensures
            text@ == font_scheme_text(input_enum),
    {
        match input_enum {
            FontSchemeValues::Unset => "none".to_owned(),
            FontSchemeValues::Minor => "minor".to_owned(),
            FontSchemeValues::Major => "major".to_owned(),
        }
    }

    pub fn get_enum(input_string: &str) -> (value: FontSchemeValues)
        ensures
            value == font_scheme_of_text(input_string@),
    {
        if str_eq(input_string, "minor") {
            FontSchemeValues::Minor
        } else if str_eq(input_string, "major") {
            FontSchemeValues::Major
        } else {
            FontSchemeValues::Unset
        }
    }
}

/// The pattern of a fill.
#[derive(Clone, Copy, Debug, PartialEq, Eq, Structural, Hash)]
pub enum PatternTypeValues {
    Unset,
    Solid,
    MediumGray,
    DarkGray,
    LightGray,
    DarkHorizontal,
    DarkVertical,
    DarkDown,
    DarkUp,
    DarkGrid,
    DarkTrellis,
    LightHorizontal,
    LightVertical,
    LightDown,
    LightUp,
    LightGrid,
    LightTrellis,
    Gray125,
    Gray0625,
}

/// The word that the schema has for each value.
pub open spec fn pattern_type_text(value: PatternTypeValues) -> Seq<char> {
    match value {
        PatternTypeValues::Unset => "none"@,
        PatternTypeValues::Solid => "solid"@,
        PatternTypeValues::MediumGray => "mediumGray"@,
        PatternTypeValues::DarkGray => "darkGray"@,
        PatternTypeValues::LightGray => "lightGray"@,
        PatternTypeValues::DarkHorizontal => "darkHorizontal"@,
        PatternTypeValues::DarkVertical => "darkVertical"@,
        PatternTypeValues::DarkDown => "darkDown"@,
        PatternTypeValues::DarkUp => "darkUp"@,
        PatternTypeValues::DarkGrid => "darkGrid"@,
        PatternTypeValues::DarkTrellis => "darkTrellis"@,
        PatternTypeValues::LightHorizontal => "lightHorizontal"@,
        PatternTypeValues::LightVertical => "lightVertical"@,
        PatternTypeValues::LightDown => "lightDown"@,
        PatternTypeValues::LightUp => "lightUp"@,
        PatternTypeValues::LightGrid => "lightGrid"@,
        PatternTypeValues::LightTrellis => "lightTrellis"@,
        PatternTypeValues::Gray125 => "gray125"@,
        PatternTypeValues::Gray0625 => "gray0625"@,
    }
}

/// The value that a word of the schema stands for; `Unset` for any other
/// word.
pub open spec fn pattern_type_of_text(text: Seq<char>) -> PatternTypeValues {
    if text == "solid"@ {
        PatternTypeValues::Solid
    } else if text == "mediumGray"@ {
        PatternTypeValues::MediumGray
    } else if text == "darkGray"@ {
        PatternTypeValues::DarkGray
    } else if text == "lightGray"@ {
        PatternTypeValues::LightGray
    } else if text == "darkHorizontal"@ {
        PatternTypeValues::DarkHorizontal
    } else if text == "darkVertical"@ {
        PatternTypeValues::DarkVertical
    } else if text == "darkDown"@ {
        PatternTypeValues::DarkDown
    } else if text == "darkUp"@ {
        PatternTypeValues::DarkUp
    } else if text == "darkGrid"@ {
        PatternTypeValues::DarkGrid
    } else if text == "darkTrellis"@ {
        PatternTypeValues::DarkTrellis
    } else if text == "lightHorizontal"@ {
        PatternTypeValues::LightHorizontal
    } else if text == "lightVertical"@ {
        PatternTypeValues::LightVertical
    } else if text == "lightDown"@ {
        PatternTypeValues::LightDown
    } else if text == "lightUp"@ {
        PatternTypeValues::LightUp
    } else if text == "lightGrid"@ {
        PatternTypeValues::LightGrid
    } else if text == "lightTrellis"@ {
        PatternTypeValues::LightTrellis
    } else if text == "gray125"@ {
        PatternTypeValues::Gray125
    } else if text == "gray0625"@ {
        PatternTypeValues::Gray0625
    } else {
        PatternTypeValues::Unset
    }
}

/// Reading the word of a value gives the value back.
pub proof fn lemma_pattern_type_round_trip(value: PatternTypeValues)
    ensures
        pattern_type_of_text(pattern_type_text(value)) == value,
{
    reveal_strlit("none");
    assert("none"@.len() == 4);
    reveal_strlit("solid");
    assert("solid"@.len() == 5);
    reveal_strlit("mediumGray");
    assert("mediumGray"@.len() == 10);
    reveal_strlit("darkGray");
    assert("darkGray"@.len() == 8);
    reveal_strlit("lightGray");
    assert("lightGray"@.len() == 9);
    reveal_strlit("darkHorizontal");
    assert("darkHorizontal"@.len() == 14);
    reveal_strlit("darkVertical");
    assert("darkVertical"@.len() == 12);
    reveal_strlit("darkDown");
    assert("darkDown"@.len() == 8);
    reveal_strlit("darkUp");
    assert("darkUp"@.len() == 6);
    reveal_strlit("darkGrid");
    assert("darkGrid"@.len() == 8);
    reveal_strlit("darkTrellis");
    assert("darkTrellis"@.len() == 11);
    reveal_strlit("lightHorizontal");
    assert("lightHorizontal"@.len() == 15);
    reveal_strlit("lightVertical");
    assert("lightVertical"@.len() == 13);
    reveal_strlit("lightDown");
    assert("lightDown"@.len() == 9);
    reveal_strlit("lightUp");
    assert("lightUp"@.len() == 7);
    reveal_strlit("lightGrid");
    assert("lightGrid"@.len() == 9);
    reveal_strlit("lightTrellis");
    assert("lightTrellis"@.len() == 12);
    reveal_strlit("gray125");
    assert("gray125"@.len() == 7);
    reveal_strlit("gray0625");
    assert("gray0625"@.len() == 8);
    assert("darkDown"@[0] == 'd');
    assert("darkDown"@[4] == 'D');
    assert("darkGray"@[0] == 'd');
    assert("darkGray"@[4] == 'G');
    assert("darkGray"@[6] == 'a');
    assert("darkGrid"@[0] == 'd');
    assert("darkGrid"@[4] == 'G');
    assert("darkGrid"@[6] == 'i');
    assert("darkVertical"@[0] == 'd');
    assert("gray0625"@[0] == 'g');
    assert("gray125"@[0] == 'g');
    assert("lightDown"@[5] == 'D');
    assert("lightGray"@[5] == 'G');
    assert("lightGray"@[7] == 'a');
    assert("lightGrid"@[5] == 'G');
    assert("lightGrid"@[7] == 'i');
    assert("lightTrellis"@[0] == 'l');
    assert("lightUp"@[0] == 'l');
}

impl PatternTypeValues {
    pub fn get_string(input_enum: PatternTypeValues) -> (text: String)
        ensures
            text@ == pattern_type_text(input_enum),
    {
        match input_enum {
            PatternTypeValues::Unset => "none".to_owned(),
            PatternTypeValues::Solid => "solid".to_owned(),
            PatternTypeValues::MediumGray => "mediumGray".to_owned(),
            PatternTypeValues::DarkGray => "darkGray".to_owned(),
            PatternTypeValues::LightGray => "lightGray".to_owned(),
            PatternTypeValues::DarkHorizontal => "darkHorizontal".to_owned(),
            PatternTypeValues::DarkVertical => "darkVertical".to_owned(),
            PatternTypeValues::DarkDown => "darkDown".to_owned(),
            PatternTypeValues::DarkUp => "darkUp".to_owned(),
            PatternTypeValues::DarkGrid => "darkGrid".to_owned(),
            PatternTypeValues::DarkTrellis => "darkTrellis".to_owned(),
            PatternTypeValues::LightHorizontal => "lightHorizontal".to_owned(),
            PatternTypeValues::LightVertical => "lightVertical".to_owned(),
            PatternTypeValues::LightDown => "lightDown".to_owned(),
            PatternTypeValues::LightUp => "lightUp".to_owned(),
            PatternTypeValues::LightGrid => "lightGrid".to_owned(),
            PatternTypeValues::LightTrellis => "lightTrellis".to_owned(),
            PatternTypeValues::Gray125 => "gray125".to_owned(),
            PatternTypeValues::Gray0625 => "gray0625".to_owned(),
        }
    }

    pub fn get_enum(input_string: &str) -> (value: PatternTypeValues)
        ensures
            value == pattern_type_of_text(input_string@),
    {
        if str_eq(input_string, "solid") {
            PatternTypeValues::Solid
        } else if str_eq(input_string, "mediumGray") {
            PatternTypeValues::MediumGray
        } else if str_eq(input_string, "darkGray") {
            PatternTypeValues::DarkGray
        } else if str_eq(input_string, "lightGray") {
            PatternTypeValues::LightGray
        } else if str_eq(input_string, "darkHorizontal") {
            PatternTypeValues::DarkHorizontal
        } else if str_eq(input_string, "darkVertical") {
            PatternTypeValues::DarkVertical
        } else if str_eq(input_string, "darkDown") {
            PatternTypeValues::DarkDown
        } else if str_eq(input_string, "darkUp") {
            PatternTypeValues::DarkUp
        } else if str_eq(input_string, "darkGrid") {
            PatternTypeValues::DarkGrid
        } else if str_eq(input_string, "darkTrellis") {
            PatternTypeValues::DarkTrellis
        } else if str_eq(input_string, "lightHorizontal") {
            PatternTypeValues::LightHorizontal
        } else if str_eq(input_string, "lightVertical") {
            PatternTypeValues::LightVertical
        } else if str_eq(input_string, "lightDown") {
            PatternTypeValues::LightDown
        } else if str_eq(input_string, "lightUp") {
            PatternTypeValues::LightUp
        } else if str_eq(input_string, "lightGrid") {
            PatternTypeValues::LightGrid
        } else if str_eq(input_string, "lightTrellis") {
            PatternTypeValues::LightTrellis
        } else if str_eq(input_string, "gray125") {
            PatternTypeValues::Gray125
        } else if str_eq(input_string, "gray0625") {
            PatternTypeValues::Gray0625
        } else {
            PatternTypeValues::Unset
        }
    }
}

/// The line of a border.
#[derive(Clone, Copy, Debug, PartialEq, Eq, Structural, Hash)]
pub enum BorderStyleValues {
    Unset,
    Thin,
    Medium,
    Dashed,
    Dotted,
    Thick,
    Double,
    Hair,
    MediumDashed,
    DashDot,
    MediumDashDot,
    DashDotDot,
    MediumDashDotDot,
    SlantDashDot,
}

/// The word that the schema has for each value.
pub open spec fn border_style_text(value: BorderStyleValues) -> Seq<char> {
    match value {
        BorderStyleValues::Unset => "none"@,
        BorderStyleValues::Thin => "thin"@,
        BorderStyleValues::Medium => "medium"@,
        BorderStyleValues::Dashed => "dashed"@,
        BorderStyleValues::Dotted => "dotted"@,
        BorderStyleValues::Thick => "thick"@,
        BorderStyleValues::Double => "double"@,
        BorderStyleValues::Hair => "hair"@,
        BorderStyleValues::MediumDashed => "mediumDashed"@,
        BorderStyleValues::DashDot => "dashDot"@,
        BorderStyleValues::MediumDashDot => "mediumDashDot"@,
        BorderStyleValues::DashDotDot => "dashDotDot"@,
        BorderStyleValues::MediumDashDotDot => "mediumDashDotDot"@,
        BorderStyleValues::SlantDashDot => "slantDashDot"@,
    }
}

/// The value that a word of the schema stands for; `Unset` for any other
/// word.
pub open spec fn border_style_of_text(text: Seq<char>) -> BorderStyleValues {
    if text == "thin"@ {
        BorderStyleValues::Thin
    } else if text == "medium"@ {
        BorderStyleValues::Medium
    } else if text == "dashed"@ {
        BorderStyleValues::Dashed
    } else if text == "dotted"@ {
        BorderStyleValues::Dotted
    } else if text == "thick"@ {
        BorderStyleValues::Thick
    } else if text == "double"@ {
        BorderStyleValues::Double
    } else if text == "hair"@ {
        BorderStyleValues::Hair
    } else if text == "mediumDashed"@ {
        BorderStyleValues::MediumDashed
    } else if text == "dashDot"@ {
        BorderStyleValues::DashDot
    } else if text == "mediumDashDot"@ {
        BorderStyleValues::MediumDashDot
    } else if text == "dashDotDot"@ {
        BorderStyleValues::DashDotDot
    } else if text == "mediumDashDotDot"@ {
        BorderStyleValues::MediumDashDotDot
    } else if text == "slantDashDot"@ {
        BorderStyleValues::SlantDashDot
    } else {
        BorderStyleValues::Unset
    }
}

/// Reading the word of a value gives the value back.
pub proof fn lemma_border_style_round_trip(value: BorderStyleValues)
    ensures
        border_style_of_text(border_style_text(value)) == value,
{
    reveal_strlit("none");
    assert("none"@.len() == 4);
    reveal_strlit("thin");
    assert("thin"@.len() == 4);
    reveal_strlit("medium");
    assert("medium"@.len() == 6);
    reveal_strlit("dashed");
    assert("dashed"@.len() == 6);
    reveal_strlit("dotted");
    assert("dotted"@.len() == 6);
    reveal_strlit("thick");
    assert("thick"@.len() == 5);
    reveal_strlit("double");
    assert("double"@.len() == 6);
    reveal_strlit("hair");
    assert("hair"@.len() == 4);
    reveal_strlit("mediumDashed");
    assert("mediumDashed"@.len() == 12);
    reveal_strlit("dashDot");
    assert("dashDot"@.len() == 7);
    reveal_strlit("mediumDashDot");
    assert("mediumDashDot"@.len() == 13);
    reveal_strlit("dashDotDot");
    assert("dashDotDot"@.len() == 10);
    reveal_strlit("mediumDashDotDot");
    assert("mediumDashDotDot"@.len() == 16);
    reveal_strlit("slantDashDot");
    assert("slantDashDot"@.len() == 12);
    assert("dashed"@[0] == 'd');
    assert("dashed"@[1] == 'a');
    assert("dotted"@[0] == 'd');
    assert("dotted"@[1] == 'o');
    assert("dotted"@[2] == 't');
    assert("double"@[0] == 'd');
    assert("double"@[1] == 'o');
    assert("double"@[2] == 'u');
    assert("hair"@[0] == 'h');
    assert("medium"@[0] == 'm');
    assert("mediumDashed"@[0] == 'm');
    assert("none"@[0] == 'n');
    assert("slantDashDot"@[0] == 's');
    assert("thin"@[0] == 't');
}

impl BorderStyleValues {
    pub fn get_string(input_enum: BorderStyleValues) -> (text: String)
        ensures
            text@ == border_style_text(input_enum),
    {
        match input_enum {
            BorderStyleValues::Unset => "none".to_owned(),
            BorderStyleValues::Thin => "thin".to_owned(),
            BorderStyleValues::Medium => "medium".to_owned(),
            BorderStyleValues::Dashed => "dashed".to_owned(),
            BorderStyleValues::Dotted => "dotted".to_owned(),
            BorderStyleValues::Thick => "thick".to_owned(),
            BorderStyleValues::Double => "double".to_owned(),
            BorderStyleValues::Hair => "hair".to_owned(),
            BorderStyleValues::MediumDashed => "mediumDashed".to_owned(),
            BorderStyleValues::DashDot => "dashDot".to_owned(),
            BorderStyleValues::MediumDashDot => "mediumDashDot".to_owned(),
            BorderStyleValues::DashDotDot => "dashDotDot".to_owned(),
            BorderStyleValues::MediumDashDotDot => "mediumDashDotDot".to_owned(),
            BorderStyleValues::SlantDashDot => "slantDashDot".to_owned(),
        }
    }

    pub fn get_enum(input_string: &str) -> (value: BorderStyleValues)
        ensures
            value == border_style_of_text(input_string@),
    {
        if str_eq(input_string, "thin") {
            BorderStyleValues::Thin
        } else if str_eq(input_string, "medium") {
            BorderStyleValues::Medium
        } else if str_eq(input_string, "dashed") {
            BorderStyleValues::Dashed
        } else if str_eq(input_string, "dotted") {
            BorderStyleValues::Dotted
        } else if str_eq(input_string, "thick") {
            BorderStyleValues::Thick
        } else if str_eq(input_string, "double") {
            BorderStyleValues::Double
        } else if str_eq(input_string, "hair") {
            BorderStyleValues::Hair
        } else if str_eq(input_string, "mediumDashed") {
            BorderStyleValues::MediumDashed
        } else if str_eq(input_string, "dashDot") {
            BorderStyleValues::DashDot
        } else if str_eq(input_string, "mediumDashDot") {
            BorderStyleValues::MediumDashDot
        } else if str_eq(input_string, "dashDotDot") {
            BorderStyleValues::DashDotDot
        } else if str_eq(input_string, "mediumDashDotDot") {
            BorderStyleValues::MediumDashDotDot
        } else if str_eq(input_string, "slantDashDot") {
            BorderStyleValues::SlantDashDot
        } else {
            BorderStyleValues::Unset
        }
    }
}

/// Where a cell's content stands between left and right.
#[derive(Clone, Copy, Debug, PartialEq, Eq, Structural, Hash)]
pub enum HorizontalAlignmentValues {
    Unset,
    General,
    Left,
    Center,
    Right,
    Fill,
    Justify,
    CenterContinuous,
    Distributed,
}

/// The word that the schema has for each value.
pub open spec fn horizontal_alignment_text(value: HorizontalAlignmentValues) -> Seq<char> {
    match value {
        HorizontalAlignmentValues::Unset => "none"@,
        HorizontalAlignmentValues::General => "general"@,
        HorizontalAlignmentValues::Left => "left"@,
        HorizontalAlignmentValues::Center => "center"@,
        HorizontalAlignmentValues::Right => "right"@,
        HorizontalAlignmentValues::Fill => "fill"@,
        HorizontalAlignmentValues::Justify => "justify"@,
        HorizontalAlignmentValues::CenterContinuous => "centerContinuous"@,
        HorizontalAlignmentValues::Distributed => "distributed"@,
    }
}

/// The value that a word of the schema stands for; `Unset` for any other
/// word.
pub open spec fn horizontal_alignment_of_text(text: Seq<char>) -> HorizontalAlignmentValues {
    if text == "general"@ {
        HorizontalAlignmentValues::General
    } else if text == "left"@ {
        HorizontalAlignmentValues::Left
    } else if text == "center"@ {
        HorizontalAlignmentValues::Center
    } else if text == "right"@ {
        HorizontalAlignmentValues::Right
    } else if text == "fill"@ {
        HorizontalAlignmentValues::Fill
    } else if text == "justify"@ {
        HorizontalAlignmentValues::Justify
    } else if text == "centerContinuous"@ {
        HorizontalAlignmentValues::CenterContinuous
    } else if text == "distributed"@ {
        HorizontalAlignmentValues::Distributed
    } else {
        HorizontalAlignmentValues::Unset
    }
}

/// Reading the word of a value gives the value back.
pub proof fn lemma_horizontal_alignment_round_trip(value: HorizontalAlignmentValues)
    ensures
        horizontal_alignment_of_text(horizontal_alignment_text(value)) == value,
{
    reveal_strlit("none");
    assert("none"@.len() == 4);
    reveal_strlit("general");
    assert("general"@.len() == 7);
    reveal_strlit("left");
    assert("left"@.len() == 4);
    reveal_strlit("center");
    assert("center"@.len() == 6);
    reveal_strlit("right");
    assert("right"@.len() == 5);
    reveal_strlit("fill");
    assert("fill"@.len() == 4);
    reveal_strlit("justify");
    assert("justify"@.len() == 7);
    reveal_strlit("centerContinuous");
    assert("centerContinuous"@.len() == 16);
    reveal_strlit("distributed");
    assert("distributed"@.len() == 11);
    assert("fill"@[0] == 'f');
    assert("general"@[0] == 'g');
    assert("justify"@[0] == 'j');
    assert("left"@[0] == 'l');
    assert("none"@[0] == 'n');
}

impl HorizontalAlignmentValues {
    pub fn get_string(input_enum: HorizontalAlignmentValues) -> (text: String)
        ensures
            text@ == horizontal_alignment_text(input_enum),
    {
        match input_enum {
            HorizontalAlignmentValues::Unset => "none".to_owned(),
            HorizontalAlignmentValues::General => "general".to_owned(),
            HorizontalAlignmentValues::Left => "left".to_owned(),
            HorizontalAlignmentValues::Center => "center".to_owned(),
            HorizontalAlignmentValues::Right => "right".to_owned(),
            HorizontalAlignmentValues::Fill => "fill".to_owned(),
            HorizontalAlignmentValues::Justify => "justify".to_owned(),
            HorizontalAlignmentValues::CenterContinuous => "centerContinuous".to_owned(),
            HorizontalAlignmentValues::Distributed => "distributed".to_owned(),
        }
    }

    pub fn get_enum(input_string: &str) -> (value: HorizontalAlignmentValues)
        ensures
            value == horizontal_alignment_of_text(input_string@),
    {
        if str_eq(input_string, "general") {
            HorizontalAlignmentValues::General
        } else if str_eq(input_string, "left") {
            HorizontalAlignmentValues::Left
        } else if str_eq(input_string, "center") {
            HorizontalAlignmentValues::Center
        } else if str_eq(input_string, "right") {
            HorizontalAlignmentValues::Right
        } else if str_eq(input_string, "fill") {
            HorizontalAlignmentValues::Fill
        } else if str_eq(input_string, "justify") {
            HorizontalAlignmentValues::Justify
        } else if str_eq(input_string, "centerContinuous") {
            HorizontalAlignmentValues::CenterContinuous
        } else if str_eq(input_string, "distributed") {
            HorizontalAlignmentValues::Distributed
        } else {
            HorizontalAlignmentValues::Unset
        }
    }
}

/// Where a cell's content stands between top and bottom.
#[derive(Clone, Copy, Debug, PartialEq, Eq, Structural, Hash)]
pub enum VerticalAlignmentValues {
    Unset,
    Top,
    Center,
    Bottom,
    Justify,
    Distributed,
}

/// The word that the schema has for each value.
pub open spec fn vertical_alignment_text(value: VerticalAlignmentValues) -> Seq<char> {
    match value {
        VerticalAlignmentValues::Unset => "none"@,
        VerticalAlignmentValues::Top => "top"@,
        VerticalAlignmentValues::Center => "center"@,
        VerticalAlignmentValues::Bottom => "bottom"@,
        VerticalAlignmentValues::Justify => "justify"@,
        VerticalAlignmentValues::Distributed => "distributed"@,
    }
}

/// The value that a word of the schema stands for; `Unset` for any other
/// word.
pub open spec fn vertical_alignment_of_text(text: Seq<char>) -> VerticalAlignmentValues {
    if text == "top"@ {
        VerticalAlignmentValues::Top
    } else if text == "center"@ {
        VerticalAlignmentValues::Center
    } else if text == "bottom"@ {
        VerticalAlignmentValues::Bottom
    } else if text == "justify"@ {
        VerticalAlignmentValues::Justify
    } else if text == "distributed"@ {
        VerticalAlignmentValues::Distributed
    } else {
        VerticalAlignmentValues::Unset
    }
}

/// Reading the word of a value gives the value back.
pub proof fn lemma_vertical_alignment_round_trip(value: VerticalAlignmentValues)
    ensures
        vertical_alignment_of_text(vertical_alignment_text(value)) == value,
{
    reveal_strlit("none");
    assert("none"@.len() == 4);
    reveal_strlit("top");
    assert("top"@.len() == 3);
    reveal_strlit("center");
    assert("center"@.len() == 6);
    reveal_strlit("bottom");
    assert("bottom"@.len() == 6);
    reveal_strlit("justify");
    assert("justify"@.len() == 7);
    reveal_strlit("distributed");
    assert("distributed"@.len() == 11);
    assert("bottom"@[0] == 'b');
    assert("center"@[0] == 'c');
}

impl VerticalAlignmentValues {
    pub fn get_string(input_enum: VerticalAlignmentValues) -> (text: String)
        ensures
            text@ == vertical_alignment_text(input_enum),
    {
        match input_enum {
            VerticalAlignmentValues::Unset => "none".to_owned(),
            VerticalAlignmentValues::Top => "top".to_owned(),
            VerticalAlignmentValues::Center => "center".to_owned(),
            VerticalAlignmentValues::Bottom => "bottom".to_owned(),
            VerticalAlignmentValues::Justify => "justify".to_owned(),
            VerticalAlignmentValues::Distributed => "distributed".to_owned(),
        }
    }

    pub fn get_enum(input_string: &str) -> (value: VerticalAlignmentValues)
        ensures
            value == vertical_alignment_of_text(input_string@),
    {
        if str_eq(input_string, "top") {
            VerticalAlignmentValues::Top
        } else if str_eq(input_string, "center") {
            VerticalAlignmentValues::Center
        } else if str_eq(input_string, "bottom") {
            VerticalAlignmentValues::Bottom
        } else if str_eq(input_string, "justify") {
            VerticalAlignmentValues::Justify
        } else if str_eq(input_string, "distributed") {
            VerticalAlignmentValues::Distributed
        } else {
            VerticalAlignmentValues::Unset
        }
    }
}
/// The number formats that the file format has built in, and `Custom` for
/// a format that the caller writes out.
#[derive(Clone, Copy, Debug, PartialEq, Eq, Structural, Hash)]
pub enum NumberFormatValues {
    General,
    Number,
    Decimal,
    Thousands,
    ThousandsDecimal,
    Percent,
    PercentDecimal,
    Scientific,
    Fraction,
    Date,
    Time,
    DateTime,
    Text,
    Custom,
}

/// The first id that a custom number format can have: the ids below it are
/// those of the built-in formats.
pub const FIRST_CUSTOM_FORMAT_ID: u32 = 164;

/// The id that the file format gives to each built-in number format; for
/// `Custom`, the first id above them.
pub open spec fn builtin_format_id(format: NumberFormatValues) -> u32 {
    match format {
        NumberFormatValues::General => 0,
        NumberFormatValues::Number => 1,
        NumberFormatValues::Decimal => 2,
        NumberFormatValues::Thousands => 3,
        NumberFormatValues::ThousandsDecimal => 4,
        NumberFormatValues::Percent => 9,
        NumberFormatValues::PercentDecimal => 10,
        NumberFormatValues::Scientific => 11,
        NumberFormatValues::Fraction => 12,
        NumberFormatValues::Date => 14,
        NumberFormatValues::Time => 21,
        NumberFormatValues::DateTime => 22,
        NumberFormatValues::Text => 49,
        NumberFormatValues::Custom => 164,
    }
}

impl NumberFormatValues {
    /// The id of a built-in number format.
    pub fn get_format_id(format: NumberFormatValues) -> (id: u32)
        ensures
            id == builtin_format_id(format),
    {
        match format {
            NumberFormatValues::General => 0,
            NumberFormatValues::Number => 1,
            NumberFormatValues::Decimal => 2,
            NumberFormatValues::Thousands => 3,
            NumberFormatValues::ThousandsDecimal => 4,
            NumberFormatValues::Percent => 9,
            NumberFormatValues::PercentDecimal => 10,
            NumberFormatValues::Scientific => 11,
            NumberFormatValues::Fraction => 12,
            NumberFormatValues::Date => 14,
            NumberFormatValues::Time => 21,
            NumberFormatValues::DateTime => 22,
            NumberFormatValues::Text => 49,
            NumberFormatValues::Custom => 164,
        }
    }
}

/// A color, as plain mathematical values.
pub struct ColorModel {
    pub kind: ColorSettingTypeValues,
    pub value: Seq<char>,
}

/// A color: the way in which it is given, and the value in that way.
#[derive(Debug)]
pub struct ColorSetting {
    pub color_setting_type: ColorSettingTypeValues,
    pub value: String,
}

impl View for ColorSetting {
    type V = ColorModel;

    open spec fn view(&self) -> ColorModel {
        ColorModel { kind: self.color_setting_type, value: self.value@ }
    }
}

/// An optional color, as plain mathematical values.
pub open spec fn opt_color(color: Option<ColorSetting>) -> Option<ColorModel> {
    match color {
        Some(c) => Some(c@),
        None => None,
    }
}

impl ColorSetting {
    /// The color of text where nothing else is asked for: the theme's
    /// second color.
    pub open spec fn default_model() -> ColorModel {
        ColorModel { kind: ColorSettingTypeValues::Theme, value: "1"@ }
    }

    pub fn default_value() -> (color: Self)
        ensures
            color@ == Self::default_model(),
    {
        ColorSetting { color_setting_type: ColorSettingTypeValues::Theme, value: "1".to_owned() }
    }

    /// A color given as red, green and blue.
    pub fn rgb(value: String) -> (color: Self)
        ensures
            color@ == (ColorModel { kind: ColorSettingTypeValues::Rgb, value: value@ }),
    {
        ColorSetting { color_setting_type: ColorSettingTypeValues::Rgb, value }
    }

    /// Whether two colors are the same.
    pub fn same(&self, other: &Self) -> (same: bool)
        ensures
            same == (self@ == other@),
    {
        self.color_setting_type == other.color_setting_type && str_eq(
            self.value.as_str(),
            other.value.as_str(),
        )
    }

    pub fn duplicate(&self) -> (copy: Self)
        ensures
            copy@ == self@,
    {
        ColorSetting { color_setting_type: self.color_setting_type, value: self.value.clone() }
    }
}

/// Whether two optional colors are the same.
pub fn same_opt_color(a: &Option<ColorSetting>, b: &Option<ColorSetting>) -> (same: bool)
    ensures
        same == (opt_color(*a) == opt_color(*b)),
{
    match (a, b) {
        (Some(x), Some(y)) => x.same(y),
        (None, None) => true,
        _ => false,
    }
}

/// A copy of an optional color.
pub fn duplicate_opt_color(color: &Option<ColorSetting>) -> (copy: Option<ColorSetting>)
    ensures
        opt_color(copy) == opt_color(*color),
{
    match color {
        Some(c) => Some(c.duplicate()),
        None => None,
    }
}

/// Whether two optional strings are the same.
pub fn same_opt_text(a: &Option<String>, b: &Option<String>) -> (same: bool)
    ensures
        same == (opt_text(*a) == opt_text(*b)),
{
    match (a, b) {
        (Some(x), Some(y)) => str_eq(x.as_str(), y.as_str()),
        (None, None) => true,
        _ => false,
    }
}

/// A custom number format, as plain mathematical values.
pub struct NumberFormatModel {
    pub format_id: u32,
    pub format_code: Seq<char>,
}

/// A custom number format: its id and the code that it stands for.
#[derive(Debug)]
pub struct NumberFormat {
    pub format_id: u32,
    pub format_code: String,
}

impl View for NumberFormat {
    type V = NumberFormatModel;

    open spec fn view(&self) -> NumberFormatModel {
        NumberFormatModel { format_id: self.format_id, format_code: self.format_code@ }
    }
}

/// A font, as plain mathematical values.
pub struct FontModel {
    pub name: Seq<char>,
    pub color: ColorModel,
    pub family: u32,
    pub size: u32,
    pub font_scheme: FontSchemeValues,
    pub is_bold: bool,
    pub is_italic: bool,
    pub is_underline: bool,
    pub is_double_underline: bool,
}

/// A font.
#[derive(Debug)]
pub struct FontStyle {
    pub name: String,
    pub color: ColorSetting,
    pub family: u32,
    pub size: u32,
    pub font_scheme: FontSchemeValues,
    pub is_bold: bool,
    pub is_italic: bool,
    pub is_underline: bool,
    pub is_double_underline: bool,
}

impl View for FontStyle {
    type V = FontModel;

    open spec fn view(&self) -> FontModel {
        FontModel {
            name: self.name@,
            color: self.color@,
            family: self.family,
            size: self.size,
            font_scheme: self.font_scheme,
            is_bold: self.is_bold,
            is_italic: self.is_italic,
            is_underline: self.is_underline,
            is_double_underline: self.is_double_underline,
        }
    }
}

impl FontStyle {
    /// The font of a new workbook: Calibri of size 11 in the theme's text
    /// color.
    pub open spec fn default_model() -> FontModel {
        FontModel {
            name: "Calibri"@,
            color: ColorSetting::default_model(),
            family: 2,
            size: 11,
            font_scheme: FontSchemeValues::Unset,
            is_bold: false,
            is_italic: false,
            is_underline: false,
            is_double_underline: false,
        }
    }

    pub fn default_value() -> (font: Self)
        ensures
            font@ == Self::default_model(),
    {
        FontStyle {
            name: "Calibri".to_owned(),
            color: ColorSetting::default_value(),
            family: 2,
            size: 11,
            font_scheme: FontSchemeValues::Unset,
            is_bold: false,
            is_italic: false,
            is_underline: false,
            is_double_underline: false,
        }
    }

    /// Whether two fonts are the same.
    pub fn same(&self, other: &Self) -> (same: bool)
        ensures
            same == (self@ == other@),
    {
        str_eq(self.name.as_str(), other.name.as_str()) && self.color.same(&other.color)
            && self.family == other.family && self.size == other.size && self.font_scheme
            == other.font_scheme && self.is_bold == other.is_bold && self.is_italic
            == other.is_italic && self.is_underline == other.is_underline
            && self.is_double_underline == other.is_double_underline
    }

    pub fn duplicate(&self) -> (copy: Self)
        ensures
            copy@ == self@,
    {
        FontStyle {
            name: self.name.clone(),
            color: self.color.duplicate(),
            family: self.family,
            size: self.size,
            font_scheme: self.font_scheme,
            is_bold: self.is_bold,
            is_italic: self.is_italic,
            is_underline: self.is_underline,
            is_double_underline: self.is_double_underline,
        }
    }
}

/// A fill, as plain mathematical values.
pub struct FillModel {
    pub pattern_type: PatternTypeValues,
    pub background_color: Option<ColorModel>,
    pub foreground_color: Option<ColorModel>,
}

/// A fill: a pattern and its two colors.
#[derive(Debug)]
pub struct FillStyle {
    pub pattern_type: PatternTypeValues,
    pub background_color: Option<ColorSetting>,
    pub foreground_color: Option<ColorSetting>,
}

impl View for FillStyle {
    type V = FillModel;

    open spec fn view(&self) -> FillModel {
        FillModel {
            pattern_type: self.pattern_type,
            background_color: opt_color(self.background_color),
            foreground_color: opt_color(self.foreground_color),
        }
    }
}

impl FillStyle {
    /// The fill without pattern or color.
    pub open spec fn default_model() -> FillModel {
        FillModel {
            pattern_type: PatternTypeValues::Unset,
            background_color: None,
            foreground_color: None,
        }
    }

    pub fn default_value() -> (fill: Self)
        ensures
            fill@ == Self::default_model(),
    {
        FillStyle {
            pattern_type: PatternTypeValues::Unset,
            background_color: None,
            foreground_color: None,
        }
    }

    /// Whether two fills are the same.
    pub fn same(&self, other: &Self) -> (same: bool)
        ensures
            same == (self@ == other@),
    {
        self.pattern_type == other.pattern_type && same_opt_color(
            &self.background_color,
            &other.background_color,
        ) && same_opt_color(&self.foreground_color, &other.foreground_color)
    }

    pub fn duplicate(&self) -> (copy: Self)
        ensures
            copy@ == self@,
    {
        FillStyle {
            pattern_type: self.pattern_type,
            background_color: duplicate_opt_color(&self.background_color),
            foreground_color: duplicate_opt_color(&self.foreground_color),
        }
    }
}

/// One side of a border, as plain mathematical values.
pub struct BorderSideModel {
    pub style: BorderStyleValues,
    pub border_color: Option<ColorModel>,
}

/// One side of a border: its line and its color.
#[derive(Debug)]
pub struct BorderSetting {
    pub style: BorderStyleValues,
    pub border_color: Option<ColorSetting>,
}

impl View for BorderSetting {
    type V = BorderSideModel;

    open spec fn view(&self) -> BorderSideModel {
        BorderSideModel { style: self.style, border_color: opt_color(self.border_color) }
    }
}

impl BorderSetting {
    /// The side without a line.
    pub open spec fn default_model() -> BorderSideModel {
        BorderSideModel { style: BorderStyleValues::Unset, border_color: None }
    }

    pub fn default_value() -> (side: Self)
        ensures
            side@ == Self::default_model(),
    {
        BorderSetting { style: BorderStyleValues::Unset, border_color: None }
    }

    /// Whether two sides are the same.
    pub fn same(&self, other: &Self) -> (same: bool)
        ensures
            same == (self@ == other@),
    {
        self.style == other.style && same_opt_color(&self.border_color, &other.border_color)
    }

    pub fn duplicate(&self) -> (copy: Self)
        ensures
            copy@ == self@,
    {
        BorderSetting { style: self.style, border_color: duplicate_opt_color(&self.border_color) }
    }
}

/// A border, as plain mathematical values.
pub struct BorderModel {
    pub left: BorderSideModel,
    pub right: BorderSideModel,
    pub top: BorderSideModel,
    pub bottom: BorderSideModel,
    pub diagonal: BorderSideModel,
}

/// A border: its four sides and its diagonal.
#[derive(Debug)]
pub struct BorderStyle {
    pub left: BorderSetting,
    pub right: BorderSetting,
    pub top: BorderSetting,
    pub bottom: BorderSetting,
    pub diagonal: BorderSetting,
}

impl View for BorderStyle {
    type V = BorderModel;

    open spec fn view(&self) -> BorderModel {
        BorderModel {
            left: self.left@,
            right: self.right@,
            top: self.top@,
            bottom: self.bottom@,
            diagonal: self.diagonal@,
        }
    }
}

impl BorderStyle {
    /// The border without any line.
    pub open spec fn default_model() -> BorderModel {
        BorderModel {
            left: BorderSetting::default_model(),
            right: BorderSetting::default_model(),
            top: BorderSetting::default_model(),
            bottom: BorderSetting::default_model(),
            diagonal: BorderSetting::default_model(),
        }
    }

    pub fn default_value() -> (border: Self)
        ensures
            border@ == Self::default_model(),
    {
        BorderStyle {
            left: BorderSetting::default_value(),
            right: BorderSetting::default_value(),
            top: BorderSetting::default_value(),
            bottom: BorderSetting::default_value(),
            diagonal: BorderSetting::default_value(),
        }
    }

    /// Whether two borders are the same.
    pub fn same(&self, other: &Self) -> (same: bool)
        ensures
            same == (self@ == other@),
    {
        self.left.same(&other.left) && self.right.same(&other.right) && self.top.same(&other.top)
            && self.bottom.same(&other.bottom) && self.diagonal.same(&other.diagonal)
    }

    pub fn duplicate(&self) -> (copy: Self)
        ensures
            copy@ == self@,
    {
        BorderStyle {
            left: self.left.duplicate(),
            right: self.right.duplicate(),
            top: self.top.duplicate(),
            bottom: self.bottom.duplicate(),
            diagonal: self.diagonal.duplicate(),
        }
    }
}

/// A cell format: the places of its number format, font, fill and border in
/// their tables, the place of the named style that it rests on, its
/// alignment, and the switches that say which of these apply.
#[derive(Clone, Copy, Debug, PartialEq, Eq, Structural, Hash)]
pub struct CellXfs {
    pub format_id: u32,
    pub number_format_id: u32,
    pub font_id: u32,
    pub fill_id: u32,
    pub border_id: u32,
    pub apply_font: u8,
    pub apply_alignment: u8,
    pub apply_fill: u8,
    pub apply_border: u8,
    pub apply_number_format: u8,
    pub apply_protection: u8,
    pub is_wrap_text: u8,
    pub vertical_alignment: VerticalAlignmentValues,
    pub horizontal_alignment: HorizontalAlignmentValues,
}

impl CellXfs {
    /// The cell format in which every place is 0 and no switch is set.
    pub open spec fn default_model() -> CellXfs {
        CellXfs {
            format_id: 0,
            number_format_id: 0,
            font_id: 0,
            fill_id: 0,
            border_id: 0,
            apply_font: 0,
            apply_alignment: 0,
            apply_fill: 0,
            apply_border: 0,
            apply_number_format: 0,
            apply_protection: 0,
            is_wrap_text: 0,
            vertical_alignment: VerticalAlignmentValues::Unset,
            horizontal_alignment: HorizontalAlignmentValues::Unset,
        }
    }

    pub fn default_value() -> (xf: Self)
        ensures
            xf == Self::default_model(),
    {
        CellXfs {
            format_id: 0,
            number_format_id: 0,
            font_id: 0,
            fill_id: 0,
            border_id: 0,
            apply_font: 0,
            apply_alignment: 0,
            apply_fill: 0,
            apply_border: 0,
            apply_number_format: 0,
            apply_protection: 0,
            is_wrap_text: 0,
            vertical_alignment: VerticalAlignmentValues::Unset,
            horizontal_alignment: HorizontalAlignmentValues::Unset,
        }
    }
}

/// The handle of a style: the place of its cell format in the table that
/// cells point into.
#[derive(Clone, Copy, Debug, PartialEq, Eq, Structural, Hash)]
pub struct StyleId {
    pub id: u32,
}

impl StyleId {
    pub fn new(id: u32) -> (style_id: Self)
        ensures
            style_id.id == id,
    {
        StyleId { id }
    }
}

/// What a caller asks of a style, as plain mathematical values.
pub struct StyleSettingModel {
    pub number_format: NumberFormatValues,
    pub custom_number_format: Option<Seq<char>>,
    pub font_family: Seq<char>,
    pub font_size: u32,
    pub is_bold: bool,
    pub is_italic: bool,
    pub is_underline: bool,
    pub is_double_underline: bool,
    pub text_color: ColorModel,
    pub foreground_color: Option<Seq<char>>,
    pub background_color: Option<Seq<char>>,
    pub pattern_type: PatternTypeValues,
    pub border_left: BorderSideModel,
    pub border_top: BorderSideModel,
    pub border_right: BorderSideModel,
    pub border_bottom: BorderSideModel,
    pub border_diagonal: BorderSideModel,
    pub horizontal_alignment: HorizontalAlignmentValues,
    pub vertical_alignment: VerticalAlignmentValues,
    pub is_wrap_text: bool,
}

/// What a caller asks of a style: number format, font, fill, borders and
/// alignment.
#[derive(Debug)]
pub struct StyleSetting {
    pub number_format: NumberFormatValues,
    /// The format code, where `number_format` is `Custom`.
    pub custom_number_format: Option<String>,
    pub font_family: String,
    pub font_size: u32,
    pub is_bold: bool,
    pub is_italic: bool,
    pub is_underline: bool,
    pub is_double_underline: bool,
    pub text_color: ColorSetting,
    /// Red, green and blue of the fill's foreground.
    pub foreground_color: Option<String>,
    /// Red, green and blue of the fill's background.
    pub background_color: Option<String>,
    pub pattern_type: PatternTypeValues,
    pub border_left: BorderSetting,
    pub border_top: BorderSetting,
    pub border_right: BorderSetting,
    pub border_bottom: BorderSetting,
    pub border_diagonal: BorderSetting,
    pub horizontal_alignment: HorizontalAlignmentValues,
    pub vertical_alignment: VerticalAlignmentValues,
    pub is_wrap_text: bool,
}

impl View for StyleSetting {
    type V = StyleSettingModel;

    open spec fn view(&self) -> StyleSettingModel {
        StyleSettingModel {
            number_format: self.number_format,
            custom_number_format: opt_text(self.custom_number_format),
            font_family: self.font_family@,
            font_size: self.font_size,
            is_bold: self.is_bold,
            is_italic: self.is_italic,
            is_underline: self.is_underline,
            is_double_underline: self.is_double_underline,
            text_color: self.text_color@,
            foreground_color: opt_text(self.foreground_color),
            background_color: opt_text(self.background_color),
            pattern_type: self.pattern_type,
            border_left: self.border_left@,
            border_top: self.border_top@,
            border_right: self.border_right@,
            border_bottom: self.border_bottom@,
            border_diagonal: self.border_diagonal@,
            horizontal_alignment: self.horizontal_alignment,
            vertical_alignment: self.vertical_alignment,
            is_wrap_text: self.is_wrap_text,
        }
    }
}

impl StyleSetting {
    /// The setting that asks for nothing: the default font, no fill, no
    /// border, no alignment, the general number format.
    pub open spec fn default_model() -> StyleSettingModel {
        StyleSettingModel {
            number_format: NumberFormatValues::General,
            custom_number_format: None,
            font_family: "Calibri"@,
            font_size: 11,
            is_bold: false,
            is_italic: false,
            is_underline: false,
            is_double_underline: false,
            text_color: ColorSetting::default_model(),
            foreground_color: None,
            background_color: None,
            pattern_type: PatternTypeValues::Unset,
            border_left: BorderSetting::default_model(),
            border_top: BorderSetting::default_model(),
            border_right: BorderSetting::default_model(),
            border_bottom: BorderSetting::default_model(),
            border_diagonal: BorderSetting::default_model(),
            horizontal_alignment: HorizontalAlignmentValues::Unset,
            vertical_alignment: VerticalAlignmentValues::Unset,
            is_wrap_text: false,
        }
    }

    pub fn default_value() -> (setting: Self)
        ensures
            setting@ == Self::default_model(),
    {
        StyleSetting {
            number_format: NumberFormatValues::General,
            custom_number_format: None,
            font_family: "Calibri".to_owned(),
            font_size: 11,
            is_bold: false,
            is_italic: false,
            is_underline: false,
            is_double_underline: false,
            text_color: ColorSetting::default_value(),
            foreground_color: None,
            background_color: None,
            pattern_type: PatternTypeValues::Unset,
            border_left: BorderSetting::default_value(),
            border_top: BorderSetting::default_value(),
            border_right: BorderSetting::default_value(),
            border_bottom: BorderSetting::default_value(),
            border_diagonal: BorderSetting::default_value(),
            horizontal_alignment: HorizontalAlignmentValues::Unset,
            vertical_alignment: VerticalAlignmentValues::Unset,
            is_wrap_text: false,
        }
    }

    /// Whether two settings ask for the same.
    pub fn same(&self, other: &Self) -> (same: bool)
        ensures
            same == (self@ == other@),
    {
        self.number_format == other.number_format && same_opt_text(
            &self.custom_number_format,
            &other.custom_number_format,
        ) && str_eq(self.font_family.as_str(), other.font_family.as_str()) && self.font_size
            == other.font_size && self.is_bold == other.is_bold && self.is_italic
            == other.is_italic && self.is_underline == other.is_underline
            && self.is_double_underline == other.is_double_underline && self.text_color.same(
            &other.text_color,
        ) && same_opt_text(&self.foreground_color, &other.foreground_color) && same_opt_text(
            &self.background_color,
            &other.background_color,
        ) && self.pattern_type == other.pattern_type && self.border_left.same(&other.border_left)
            && self.border_top.same(&other.border_top) && self.border_right.same(
            &other.border_right,
        ) && self.border_bottom.same(&other.border_bottom) && self.border_diagonal.same(
            &other.border_diagonal,
        ) && self.horizontal_alignment == other.horizontal_alignment && self.vertical_alignment
            == other.vertical_alignment && self.is_wrap_text == other.is_wrap_text
    }
}

} // verus!
