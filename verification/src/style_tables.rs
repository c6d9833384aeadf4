//! The six style tables as plain mathematical values, and what it means to
//! resolve a style setting against them: each part of the setting is looked
//! up in its table by content and added behind the last entry where it is
//! not there yet, so that equal content always gets the same place.

use vstd::prelude::*;
use crate::error::OfficeError;
use crate::style_models::{
    BorderModel, CellXfs, ColorModel, ColorSettingTypeValues, FillModel, FontModel,
    FontSchemeValues, HorizontalAlignmentValues, NumberFormatModel, NumberFormatValues,
    StyleSettingModel, VerticalAlignmentValues, builtin_format_id,
};

verus! {

/// The most entries that a style table holds: as many as a place of 32
/// bits, by which cell formats name their entries, can count.
pub const MAX_STYLE_ENTRIES: usize = 0xffff_ffff;

/// The place of the first entry of `table` equal to `item`, counted from 0;
/// the length of `table` where there is none.
pub open spec fn first_index<T>(table: Seq<T>, item: T) -> nat
    decreases table.len(),
{
    if table.len() == 0 {
        0
    } else if table[0] == item {
        0
    } else {
        1 + first_index(table.drop_first(), item)
    }
}

/// The table with `item` in it: the table itself where it holds `item`,
/// else the table with `item` behind its last entry.
pub open spec fn with_item<T>(table: Seq<T>, item: T) -> Seq<T> {
    if first_index(table, item) < table.len() {
        table
    } else {
        table.push(item)
    }
}

/// What `first_index` finds: a place in the table that holds the item and
/// before which it does not occur, or the table's length where the table
/// does not hold the item.
pub proof fn lemma_first_index<T>(table: Seq<T>, item: T)
    ensures
        first_index(table, item) <= table.len(),
        first_index(table, item) < table.len() ==> table[first_index(table, item) as int] == item,
        forall|i: int| 0 <= i < first_index(table, item) ==> table[i] != item,
        first_index(table, item) < table.len() <==> table.contains(item),
    decreases table.len(),
{
    if table.len() > 0 && table[0] != item {
        let rest = table.drop_first();
        lemma_first_index(rest, item);
        let r = first_index(rest, item);
        assert forall|i: int| 0 <= i < 1 + r implies table[i] != item by {
            if i > 0 {
                assert(rest[i - 1] == table[i]);
            }
        }
        if r < rest.len() {
            assert(rest[r as int] == table[r as int + 1]);
        }
        if table.contains(item) {
            let i = choose|i: int| 0 <= i < table.len() && table[i] == item;
            assert(rest[i - 1] == item);
            assert(rest.contains(item));
        }
    } else if table.len() > 0 {
        assert(table[0] == item);
    }
}

/// Adding an entry behind the last does not move the place at which an item
/// is found that the table held already; and the added entry is found at
/// the old length where the table did not hold it.
pub proof fn lemma_first_index_push<T>(table: Seq<T>, added: T, item: T)
    ensures
        first_index(table, item) < table.len() ==> first_index(table.push(added), item)
            == first_index(table, item),
        first_index(table, item) == table.len() && added == item ==> first_index(
            table.push(added),
            item,
        ) == table.len(),
        first_index(table, item) == table.len() && added != item ==> first_index(
            table.push(added),
            item,
        ) == table.len() + 1,
    decreases table.len(),
{
    let longer = table.push(added);
    if table.len() == 0 {
        assert(longer.drop_first().len() == 0);
        assert(first_index(longer.drop_first(), item) == 0);
        assert(longer[0] == added);
    } else {
        assert(longer[0] == table[0]);
        if table[0] != item {
            assert(longer.drop_first() == table.drop_first().push(added));
            lemma_first_index_push(table.drop_first(), added, item);
        }
    }
}

/// A table with an item put in holds the item at the place at which the old
/// table was asked for it, keeps the entries that it had, and has no
/// duplicates where it had none.
pub proof fn lemma_with_item<T>(table: Seq<T>, item: T)
    ensures
        first_index(with_item(table, item), item) == first_index(table, item),
        first_index(table, item) < with_item(table, item).len(),
        with_item(table, item)[first_index(table, item) as int] == item,
        with_item(with_item(table, item), item) == with_item(table, item),
        table.len() <= with_item(table, item).len() <= table.len() + 1,
        forall|i: int| 0 <= i < table.len() ==> with_item(table, item)[i] == table[i],
        table.no_duplicates() ==> with_item(table, item).no_duplicates(),
{
    lemma_first_index(table, item);
    lemma_first_index_push(table, item, item);
    let out = with_item(table, item);
    if first_index(table, item) == table.len() && table.no_duplicates() {
        assert forall|i: int, j: int| 0 <= i < out.len() && 0 <= j < out.len() && i != j implies out[i]
            != out[j] by {
            if i < table.len() && j < table.len() {
                assert(out[i] == table[i] && out[j] == table[j]);
            } else if i < table.len() {
                assert(table.contains(table[i]));
            } else {
                assert(table.contains(table[j]));
            }
        }
    }
}

/// An item that a table holds is found at the same place after another item
/// has been put in.
pub proof fn lemma_with_item_keeps<T>(table: Seq<T>, added: T, item: T)
    requires
        first_index(table, item) < table.len(),
    ensures
        first_index(with_item(table, added), item) == first_index(table, item),
{
    lemma_first_index_push(table, added, item);
}

/// The six style tables.
pub struct StyleModel {
    pub number_formats: Seq<NumberFormatModel>,
    pub fonts: Seq<FontModel>,
    pub fills: Seq<FillModel>,
    pub borders: Seq<BorderModel>,
    /// The formats of the named styles.
    pub cell_style_xfs: Seq<CellXfs>,
    /// The formats that cells point into.
    pub cell_xfs: Seq<CellXfs>,
}

/// The format codes of a table of number formats, in their order.
pub open spec fn format_codes(formats: Seq<NumberFormatModel>) -> Seq<Seq<char>> {
    formats.map_values(|f: NumberFormatModel| f.format_code)
}

/// The ids of a table of number formats, in their order.
pub open spec fn format_ids(formats: Seq<NumberFormatModel>) -> Seq<u32> {
    formats.map_values(|f: NumberFormatModel| f.format_id)
}

/// The id that the next custom number format gets: 164, the first id that
/// is not built in, or the id above the greatest of the table where that
/// is more.
pub open spec fn free_format_id(formats: Seq<NumberFormatModel>) -> nat
    decreases formats.len(),
{
    if formats.len() == 0 {
        164
    } else {
        let before = free_format_id(formats.drop_last());
        let above = formats.last().format_id as nat + 1;
        if above > before {
            above
        } else {
            before
        }
    }
}

/// The id that the next custom number format gets is not built in and is
/// above every id of the table.
pub proof fn lemma_free_format_id(formats: Seq<NumberFormatModel>)
    ensures
        free_format_id(formats) >= 164,
        forall|i: int| 0 <= i < formats.len() ==> (#[trigger] formats[i]).format_id < free_format_id(
            formats,
        ),
    decreases formats.len(),
{
    if formats.len() > 0 {
        lemma_free_format_id(formats.drop_last());
        assert forall|i: int| 0 <= i < formats.len() implies (#[trigger] formats[i]).format_id
            < free_format_id(formats) by {
            if i < formats.len() - 1 {
                assert(formats.drop_last()[i] == formats[i]);
            }
        }
    }
}

/// The font that a setting asks for.
pub open spec fn font_of(setting: StyleSettingModel) -> FontModel {
    FontModel {
        name: setting.font_family,
        color: setting.text_color,
        family: 2,
        size: setting.font_size,
        font_scheme: FontSchemeValues::Unset,
        is_bold: setting.is_bold,
        is_italic: setting.is_italic,
        is_underline: setting.is_underline,
        is_double_underline: setting.is_double_underline,
    }
}

/// The color that a setting's red, green and blue stand for.
pub open spec fn rgb_of(value: Option<Seq<char>>) -> Option<ColorModel> {
    match value {
        Some(v) => Some(ColorModel { kind: ColorSettingTypeValues::Rgb, value: v }),
        None => None,
    }
}

/// The fill that a setting asks for.
pub open spec fn fill_of(setting: StyleSettingModel) -> FillModel {
    FillModel {
        pattern_type: setting.pattern_type,
        background_color: rgb_of(setting.background_color),
        foreground_color: rgb_of(setting.foreground_color),
    }
}

/// The border that a setting asks for: its five sides as they are given.
pub open spec fn border_of(setting: StyleSettingModel) -> BorderModel {
    BorderModel {
        left: setting.border_left,
        right: setting.border_right,
        top: setting.border_top,
        bottom: setting.border_bottom,
        diagonal: setting.border_diagonal,
    }
}

/// Whether the switches of a cell format are 0 or 1.
pub open spec fn xf_is_plain(xf: CellXfs) -> bool {
    &&& xf.apply_font <= 1
    &&& xf.apply_alignment <= 1
    &&& xf.apply_fill <= 1
    &&& xf.apply_border <= 1
    &&& xf.apply_number_format <= 1
    &&& xf.apply_protection <= 1
    &&& xf.is_wrap_text <= 1
}

/// The switch that goes with a place in a table: set for every place but the
/// first, which is the default and is not applied explicitly.
pub open spec fn switch(index: nat) -> u8 {
    if index > 0 {
        1
    } else {
        0
    }
}

/// Whether a setting asks for a custom number format.
pub open spec fn is_custom(setting: StyleSettingModel) -> bool {
    setting.number_format == NumberFormatValues::Custom
}

/// Whether a setting says no more than what is used of it: it names a
/// format code exactly when it asks for a custom number format.
pub open spec fn is_canonical(setting: StyleSettingModel) -> bool {
    is_custom(setting) <==> setting.custom_number_format is Some
}

impl StyleModel {
    /// Whether the places that a cell format names are in their tables.
    pub open spec fn xf_in_range(self, xf: CellXfs) -> bool {
        &&& xf.font_id < self.fonts.len()
        &&& xf.fill_id < self.fills.len()
        &&& xf.border_id < self.borders.len()
    }

    /// Whether the place of the named style that a cell format names is in
    /// the table of named styles; where there is no such table, the place
    /// is 0, which is what a cell format without a named style says.
    pub open spec fn style_in_range(self, xf: CellXfs) -> bool {
        xf.format_id < self.cell_style_xfs.len() || (xf.format_id == 0
            && self.cell_style_xfs.len() == 0)
    }

    /// Whether every table is within the size that a table may have.
    pub open spec fn fits(self) -> bool {
        &&& self.number_formats.len() <= MAX_STYLE_ENTRIES
        &&& self.fonts.len() <= MAX_STYLE_ENTRIES
        &&& self.fills.len() <= MAX_STYLE_ENTRIES
        &&& self.borders.len() <= MAX_STYLE_ENTRIES
        &&& self.cell_style_xfs.len() <= MAX_STYLE_ENTRIES
        &&& self.cell_xfs.len() <= MAX_STYLE_ENTRIES
    }

    /// The invariant of the tables: every table is within its size; every
    /// place of a font, a fill, a border or a named style that a cell
    /// format names is in its table; switches are 0 or 1; a named style
    /// rests on no other. Tables that a file brings may hold the same
    /// content twice, and number their custom number formats as they
    /// like.
    pub open spec fn wf(self) -> bool {
        &&& self.fits()
        &&& forall|i: int|
            0 <= i < self.cell_style_xfs.len() ==> self.xf_in_range(#[trigger] self.cell_style_xfs[i])
                && xf_is_plain(self.cell_style_xfs[i]) && self.cell_style_xfs[i].format_id == 0
        &&& forall|i: int|
            0 <= i < self.cell_xfs.len() ==> self.xf_in_range(#[trigger] self.cell_xfs[i])
                && xf_is_plain(self.cell_xfs[i]) && self.style_in_range(self.cell_xfs[i])
    }

    /// Whether no two custom number formats have the same id.
    pub open spec fn numbered(self) -> bool {
        format_ids(self.number_formats).no_duplicates()
    }

    /// The place of the setting's custom format code among the number
    /// formats.
    pub open spec fn format_index(self, setting: StyleSettingModel) -> nat {
        first_index(format_codes(self.number_formats), setting.custom_number_format->0)
    }

    /// The id of the setting's number format: that of a built-in format,
    /// or that of the first custom format with the setting's code, or the
    /// least id from 164 on above every id of the table where the table
    /// does not hold the code.
    pub open spec fn number_format_id(self, setting: StyleSettingModel) -> nat {
        if is_custom(setting) {
            if self.format_index(setting) < self.number_formats.len() {
                self.number_formats[self.format_index(setting) as int].format_id as nat
            } else {
                free_format_id(self.number_formats)
            }
        } else {
            builtin_format_id(setting.number_format) as nat
        }
    }

    /// Whether the setting asks for a custom number format that the table
    /// does not hold.
    pub open spec fn needs_format(self, setting: StyleSettingModel) -> bool {
        is_custom(setting) && self.format_index(setting) == self.number_formats.len()
    }

    /// The number formats with that of the setting among them.
    pub open spec fn number_formats_with(self, setting: StyleSettingModel) -> Seq<
        NumberFormatModel,
    > {
        if self.needs_format(setting) {
            self.number_formats.push(
                NumberFormatModel {
                    format_id: free_format_id(self.number_formats) as u32,
                    format_code: setting.custom_number_format->0,
                },
            )
        } else {
            self.number_formats
        }
    }

    /// The cell format of the setting before the named style is known.
    pub open spec fn base_xf(self, setting: StyleSettingModel) -> CellXfs {
        CellXfs {
            format_id: 0,
            number_format_id: self.number_format_id(setting) as u32,
            font_id: first_index(self.fonts, font_of(setting)) as u32,
            fill_id: first_index(self.fills, fill_of(setting)) as u32,
            border_id: first_index(self.borders, border_of(setting)) as u32,
            apply_font: switch(first_index(self.fonts, font_of(setting))),
            apply_alignment: if setting.vertical_alignment != VerticalAlignmentValues::Unset
                || setting.horizontal_alignment != HorizontalAlignmentValues::Unset
                || setting.is_wrap_text {
                1
            } else {
                0
            },
            apply_fill: switch(first_index(self.fills, fill_of(setting))),
            apply_border: switch(first_index(self.borders, border_of(setting))),
            apply_number_format: if is_custom(setting) {
                1
            } else {
                0
            },
            apply_protection: 0,
            is_wrap_text: if setting.is_wrap_text {
                1
            } else {
                0
            },
            vertical_alignment: setting.vertical_alignment,
            horizontal_alignment: setting.horizontal_alignment,
        }
    }

    /// The cell format of the setting, with the place of its named style.
    pub open spec fn full_xf(self, setting: StyleSettingModel) -> CellXfs {
        CellXfs {
            format_id: first_index(self.cell_style_xfs, self.base_xf(setting)) as u32,
            ..self.base_xf(setting)
        }
    }

    /// The place of the setting's cell format in the table that cells point
    /// into: the id of its style.
    pub open spec fn style_index(self, setting: StyleSettingModel) -> nat {
        first_index(self.cell_xfs, self.full_xf(setting))
    }

    /// The tables with everything in them that the setting asks for.
    pub open spec fn resolved(self, setting: StyleSettingModel) -> StyleModel {
        StyleModel {
            number_formats: self.number_formats_with(setting),
            fonts: with_item(self.fonts, font_of(setting)),
            fills: with_item(self.fills, fill_of(setting)),
            borders: with_item(self.borders, border_of(setting)),
            cell_style_xfs: with_item(self.cell_style_xfs, self.base_xf(setting)),
            cell_xfs: with_item(self.cell_xfs, self.full_xf(setting)),
        }
    }

    /// What asking for the style of a setting comes to: the tables
    /// afterwards and the id of the style; or a refusal, where a custom
    /// number format is asked for without its code, where no id is left
    /// for a new number format, or where a table would grow beyond its
    /// size.
    pub open spec fn style_outcome(self, setting: StyleSettingModel) -> Result<
        (StyleModel, u32),
        OfficeError,
    > {
        if is_custom(setting) && setting.custom_number_format is None {
            Err(OfficeError::Programmer)
        } else if self.needs_format(setting) && free_format_id(self.number_formats) > u32::MAX {
            Err(OfficeError::Schema)
        } else if !self.resolved(setting).fits() {
            Err(OfficeError::Schema)
        } else {
            Ok((self.resolved(setting), self.style_index(setting) as u32))
        }
    }

    /// Whether the tables hold everything that the setting asks for, its
    /// style under the id `id`.
    pub open spec fn holds(self, setting: StyleSettingModel, id: u32) -> bool {
        self.style_outcome(setting) == Ok::<(StyleModel, u32), OfficeError>((self, id))
    }
}

/// A table that is its own `with_item` holds the item.
pub proof fn lemma_present<T>(table: Seq<T>, item: T)
    requires
        with_item(table, item) == table,
    ensures
        first_index(table, item) < table.len(),
{
    lemma_first_index(table, item);
    if first_index(table, item) == table.len() {
        assert(table.push(item).len() == table.len() + 1);
    }
}

impl StyleModel {
    /// The format codes after a setting's number format has been put in
    /// are the codes before with the setting's code put in.
    pub proof fn lemma_format_codes_with(self, setting: StyleSettingModel)
        requires
            is_custom(setting),
        ensures
            format_codes(self.number_formats_with(setting)) == with_item(
                format_codes(self.number_formats),
                setting.custom_number_format->0,
            ),
    {
        let codes = format_codes(self.number_formats);
        let code = setting.custom_number_format->0;
        lemma_first_index(codes, code);
        assert(format_codes(self.number_formats_with(setting)) =~= with_item(codes, code));
    }

    /// Resolving a setting keeps the tables' invariant.
    pub proof fn lemma_resolved_wf(self, setting: StyleSettingModel)
        requires
            self.wf(),
            self.style_outcome(setting) is Ok,
        ensures
            self.resolved(setting).wf(),
    {
        let m = self.resolved(setting);
        let base = self.base_xf(setting);
        let full = self.full_xf(setting);
        lemma_with_item(self.fonts, font_of(setting));
        lemma_with_item(self.fills, fill_of(setting));
        lemma_with_item(self.borders, border_of(setting));
        lemma_with_item(self.cell_style_xfs, base);
        lemma_with_item(self.cell_xfs, full);
        lemma_first_index(self.fonts, font_of(setting));
        lemma_first_index(self.fills, fill_of(setting));
        lemma_first_index(self.borders, border_of(setting));
        lemma_first_index(self.cell_style_xfs, base);
        if is_custom(setting) {
            self.lemma_format_codes_with(setting);
            lemma_with_item(format_codes(self.number_formats), setting.custom_number_format->0);
            lemma_first_index(format_codes(self.number_formats), setting.custom_number_format->0);
        }
        assert(m.xf_in_range(base));
        assert(m.xf_in_range(full));
        assert forall|i: int| 0 <= i < m.cell_style_xfs.len() implies m.xf_in_range(
            #[trigger] m.cell_style_xfs[i],
        ) && xf_is_plain(m.cell_style_xfs[i]) && m.cell_style_xfs[i].format_id == 0 by {
            if i < self.cell_style_xfs.len() {
                assert(m.cell_style_xfs[i] == self.cell_style_xfs[i]);
                assert(self.xf_in_range(self.cell_style_xfs[i]));
            }
        }
        assert forall|i: int| 0 <= i < m.cell_xfs.len() implies m.xf_in_range(
            #[trigger] m.cell_xfs[i],
        ) && xf_is_plain(m.cell_xfs[i]) && m.style_in_range(m.cell_xfs[i]) by {
            if i < self.cell_xfs.len() {
                assert(m.cell_xfs[i] == self.cell_xfs[i]);
                assert(self.xf_in_range(self.cell_xfs[i]));
            }
        }
    }

    /// Once resolved, always held: the tables that resolving a setting gives
    /// hold the setting under the id that resolving gave.
    pub proof fn lemma_resolved_holds(self, setting: StyleSettingModel)
        requires
            self.wf(),
            self.style_outcome(setting) is Ok,
        ensures
            self.resolved(setting).holds(setting, self.style_index(setting) as u32),
    {
        let m = self.resolved(setting);
        let base = self.base_xf(setting);
        let full = self.full_xf(setting);
        lemma_with_item(self.fonts, font_of(setting));
        lemma_with_item(self.fills, fill_of(setting));
        lemma_with_item(self.borders, border_of(setting));
        lemma_with_item(self.cell_style_xfs, base);
        lemma_with_item(self.cell_xfs, full);
        if is_custom(setting) {
            self.lemma_format_codes_with(setting);
            lemma_with_item(format_codes(self.number_formats), setting.custom_number_format->0);
        }
        assert(m.base_xf(setting) == base);
        assert(m.full_xf(setting) == full);
        assert(m.resolved(setting) == m);
    }

    /// What the tables hold, they hold after any other setting has been
    /// resolved: a style keeps its id for as long as the tables live.
    pub proof fn lemma_holds_stable(
        self,
        held: StyleSettingModel,
        id: u32,
        setting: StyleSettingModel,
    )
        requires
            self.wf(),
            self.holds(held, id),
            self.style_outcome(setting) is Ok,
        ensures
            self.resolved(setting).holds(held, id),
    {
        let m = self.resolved(setting);
        let held_base = self.base_xf(held);
        let held_full = self.full_xf(held);
        assert(self.resolved(held) == self);
        lemma_present(self.fonts, font_of(held));
        lemma_present(self.fills, fill_of(held));
        lemma_present(self.borders, border_of(held));
        lemma_present(self.cell_style_xfs, held_base);
        lemma_present(self.cell_xfs, held_full);
        lemma_with_item_keeps(self.fonts, font_of(setting), font_of(held));
        lemma_with_item_keeps(self.fills, fill_of(setting), fill_of(held));
        lemma_with_item_keeps(self.borders, border_of(setting), border_of(held));
        lemma_with_item_keeps(self.cell_style_xfs, self.base_xf(setting), held_base);
        lemma_with_item_keeps(self.cell_xfs, self.full_xf(setting), held_full);
        lemma_with_item(self.fonts, font_of(setting));
        lemma_with_item(self.fills, fill_of(setting));
        lemma_with_item(self.borders, border_of(setting));
        lemma_with_item(self.cell_style_xfs, self.base_xf(setting));
        lemma_with_item(self.cell_xfs, self.full_xf(setting));
        if is_custom(held) {
            let codes = format_codes(self.number_formats);
            let code = held.custom_number_format->0;
            lemma_first_index(codes, code);
            assert(self.format_index(held) < self.number_formats.len()) by {
                if self.format_index(held) == self.number_formats.len() {
                    assert(self.number_formats_with(held).len() == self.number_formats.len() + 1);
                }
            }
            if is_custom(setting) {
                self.lemma_format_codes_with(setting);
                lemma_with_item_keeps(codes, setting.custom_number_format->0, code);
            }
            assert(m.format_index(held) == self.format_index(held));
            lemma_first_index(format_codes(m.number_formats), code);
        }
        assert(m.base_xf(held) == held_base);
        assert(m.full_xf(held) == held_full);
        assert(m.resolved(held) == m);
    }

    /// Resolving a setting keeps the ids of the custom number formats
    /// different.
    pub proof fn lemma_resolved_numbered(self, setting: StyleSettingModel)
        requires
            self.numbered(),
            self.style_outcome(setting) is Ok,
        ensures
            self.resolved(setting).numbered(),
    {
        let before = format_ids(self.number_formats);
        let after = format_ids(self.resolved(setting).number_formats);
        lemma_free_format_id(self.number_formats);
        if self.needs_format(setting) {
            assert forall|i: int, j: int|
                0 <= i < after.len() && 0 <= j < after.len() && i != j implies after[i]
                != after[j] by {
                if i < before.len() && j < before.len() {
                    assert(before[i] != before[j]);
                } else if i < before.len() {
                    assert(self.number_formats[i].format_id < free_format_id(self.number_formats));
                } else {
                    assert(self.number_formats[j].format_id < free_format_id(self.number_formats));
                }
            }
        } else {
            assert(after =~= before);
        }
    }

    /// Style dedup: of two settings resolved one after the other, the
    /// second gets the id of the first exactly when the two settings are
    /// the same. It is stated of tables in which no two custom number
    /// formats have the same id, and of settings that name a format code
    /// only where they ask for a custom number format: a code beside a
    /// built-in format is not looked at, so two settings that differ in
    /// it alone share their style.
    pub proof fn lemma_style_dedup(self, first: StyleSettingModel, second: StyleSettingModel)
        requires
            self.wf(),
            self.numbered(),
            is_canonical(first),
            is_canonical(second),
            self.style_outcome(first) is Ok,
            self.resolved(first).style_outcome(second) is Ok,
        ensures
            (self.style_index(first) == self.resolved(first).style_index(second)) <==> first
                == second,
    {
        let m1 = self.resolved(first);
        let m2 = m1.resolved(second);
        let id1 = self.style_index(first);
        let id2 = m1.style_index(second);
        self.lemma_resolved_wf(first);
        self.lemma_resolved_holds(first);
        lemma_first_index(self.cell_xfs, self.full_xf(first));
        lemma_first_index(m1.cell_xfs, m1.full_xf(second));
        if first == second {
            assert(m1.style_outcome(first) == Ok::<(StyleModel, u32), OfficeError>(
                (m1, id1 as u32),
            ));
            assert(id1 as u32 == id2 as u32);
            assert(id1 == id2);
        }
        if id1 == id2 {
            let x1 = self.full_xf(first);
            let x2 = m1.full_xf(second);
            lemma_with_item(self.cell_xfs, x1);
            lemma_with_item(m1.cell_xfs, x2);
            assert(m1.cell_xfs[id1 as int] == x1);
            assert(m2.cell_xfs[id2 as int] == x2);
            assert(x1 == x2);
            lemma_with_item(self.fonts, font_of(first));
            lemma_with_item(m1.fonts, font_of(second));
            lemma_first_index(self.fonts, font_of(first));
            lemma_first_index(m1.fonts, font_of(second));
            assert(font_of(first) == font_of(second)) by {
                let i = first_index(self.fonts, font_of(first));
                let j = first_index(m1.fonts, font_of(second));
                assert(i == j);
                assert(m1.fonts[i as int] == font_of(first));
                assert(m2.fonts[j as int] == font_of(second));
                assert(m2.fonts[i as int] == m1.fonts[i as int]);
            }
            lemma_with_item(self.fills, fill_of(first));
            lemma_with_item(m1.fills, fill_of(second));
            lemma_first_index(self.fills, fill_of(first));
            lemma_first_index(m1.fills, fill_of(second));
            assert(fill_of(first) == fill_of(second)) by {
                let i = first_index(self.fills, fill_of(first));
                let j = first_index(m1.fills, fill_of(second));
                assert(i == j);
                assert(m1.fills[i as int] == fill_of(first));
                assert(m2.fills[j as int] == fill_of(second));
                assert(m2.fills[i as int] == m1.fills[i as int]);
            }
            lemma_with_item(self.borders, border_of(first));
            lemma_with_item(m1.borders, border_of(second));
            lemma_first_index(self.borders, border_of(first));
            lemma_first_index(m1.borders, border_of(second));
            assert(border_of(first) == border_of(second)) by {
                let i = first_index(self.borders, border_of(first));
                let j = first_index(m1.borders, border_of(second));
                assert(i == j);
                assert(m1.borders[i as int] == border_of(first));
                assert(m2.borders[j as int] == border_of(second));
                assert(m2.borders[i as int] == m1.borders[i as int]);
            }
            assert(is_custom(first) == is_custom(second));
            if is_custom(first) {
                let c1 = first.custom_number_format->0;
                let c2 = second.custom_number_format->0;
                let codes0 = format_codes(self.number_formats);
                let codes1 = format_codes(m1.number_formats);
                let codes2 = format_codes(m2.number_formats);
                self.lemma_format_codes_with(first);
                m1.lemma_format_codes_with(second);
                lemma_with_item(codes0, c1);
                lemma_with_item(codes1, c2);
                lemma_first_index(codes0, c1);
                lemma_first_index(codes1, c2);
                let i = first_index(codes0, c1);
                let j = first_index(codes1, c2);
                self.lemma_resolved_numbered(first);
                m1.lemma_resolved_numbered(second);
                lemma_free_format_id(self.number_formats);
                lemma_free_format_id(m1.number_formats);
                assert(m1.number_formats[i as int].format_id == x1.number_format_id);
                assert(m2.number_formats[j as int].format_id == x2.number_format_id);
                assert(m2.number_formats[i as int] == m1.number_formats[i as int]);
                assert(format_ids(m2.number_formats)[i as int] == format_ids(
                    m2.number_formats,
                )[j as int]);
                assert(i == j);
                assert(codes1[i as int] == c1);
                assert(codes2[j as int] == c2);
                assert(codes2[i as int] == codes1[i as int]);
                assert(c1 == c2);
                assert(first.custom_number_format == second.custom_number_format);
            } else {
                assert(builtin_format_id(first.number_format) == builtin_format_id(
                    second.number_format,
                ));
                assert(first.number_format == second.number_format);
                assert(first.custom_number_format == second.custom_number_format);
            }
            assert(first.is_wrap_text == second.is_wrap_text);
            assert(first.foreground_color == second.foreground_color) by {
                assert(rgb_of(first.foreground_color) == rgb_of(second.foreground_color));
            }
            assert(first.background_color == second.background_color) by {
                assert(rgb_of(first.background_color) == rgb_of(second.background_color));
            }
            assert(first == second);
        }
    }
}

impl StyleModel {
    /// The tables after each of `settings` has been resolved in turn;
    /// nothing where one of them is refused.
    pub open spec fn resolved_each(self, settings: Seq<StyleSettingModel>) -> Option<StyleModel>
        decreases settings.len(),
    {
        if settings.len() == 0 {
            Some(self)
        } else {
            match self.resolved_each(settings.drop_last()) {
                Some(tables) => if tables.style_outcome(settings.last()) is Ok {
                    Some(tables.resolved(settings.last()))
                } else {
                    None
                },
                None => None,
            }
        }
    }

    /// What the tables hold, they hold after any number of settings have
    /// been resolved.
    pub proof fn lemma_holds_through(
        self,
        held: StyleSettingModel,
        id: u32,
        settings: Seq<StyleSettingModel>,
    )
        requires
            self.wf(),
            self.holds(held, id),
            self.resolved_each(settings) is Some,
        ensures
            self.resolved_each(settings)->0.wf(),
            self.resolved_each(settings)->0.holds(held, id),
        decreases settings.len(),
    {
        if settings.len() > 0 {
            let before = self.resolved_each(settings.drop_last())->0;
            self.lemma_holds_through(held, id, settings.drop_last());
            before.lemma_resolved_wf(settings.last());
            before.lemma_holds_stable(held, id, settings.last());
        }
    }

    /// Style dedup over time: a setting that has been resolved gets the
    /// same id again after any number of other settings have been
    /// resolved, and the tables are then left as they are.
    pub proof fn lemma_style_id_kept(
        self,
        setting: StyleSettingModel,
        others: Seq<StyleSettingModel>,
    )
        requires
            self.wf(),
            self.style_outcome(setting) is Ok,
            self.resolved(setting).resolved_each(others) is Some,
        ensures
            self.resolved(setting).resolved_each(others)->0.style_outcome(setting) == Ok::<
                (StyleModel, u32),
                OfficeError,
            >((self.resolved(setting).resolved_each(others)->0, self.style_index(setting) as u32)),
    {
        self.lemma_resolved_wf(setting);
        self.lemma_resolved_holds(setting);
        self.resolved(setting).lemma_holds_through(
            setting,
            self.style_index(setting) as u32,
            others,
        );
    }

    /// The first custom number format: where the tables hold no custom
    /// number format and none of them is full, a setting that asks for one
    /// by its code is resolved; it gets the id 164 for it, the code
    /// becomes the one custom format of the tables, and the cell format of
    /// the setting's style names that id.
    pub proof fn lemma_first_custom_format(self, setting: StyleSettingModel)
        requires
            self.wf(),
            self.number_formats.len() == 0,
            is_custom(setting),
            setting.custom_number_format is Some,
            self.fonts.len() < MAX_STYLE_ENTRIES,
            self.fills.len() < MAX_STYLE_ENTRIES,
            self.borders.len() < MAX_STYLE_ENTRIES,
            self.cell_style_xfs.len() < MAX_STYLE_ENTRIES,
            self.cell_xfs.len() < MAX_STYLE_ENTRIES,
        ensures
            self.style_outcome(setting) is Ok,
            self.resolved(setting).number_formats == seq![
                NumberFormatModel {
                    format_id: 164,
                    format_code: setting.custom_number_format->0,
                },
            ],
            self.style_index(setting) < self.resolved(setting).cell_xfs.len(),
            self.resolved(setting).cell_xfs[self.style_index(setting) as int].number_format_id
                == 164,
            self.resolved(setting).cell_xfs[self.style_index(setting) as int].apply_number_format
                == 1,
    {
        let full = self.full_xf(setting);
        lemma_with_item(self.cell_xfs, full);
        lemma_first_index(self.cell_xfs, full);
        lemma_with_item(self.fonts, font_of(setting));
        lemma_with_item(self.fills, fill_of(setting));
        lemma_with_item(self.borders, border_of(setting));
        lemma_with_item(self.cell_style_xfs, self.base_xf(setting));
        assert(format_codes(self.number_formats) =~= Seq::<Seq<char>>::empty());
        assert(self.resolved(setting).number_formats =~= seq![
            NumberFormatModel { format_id: 164, format_code: setting.custom_number_format->0 },
        ]);
    }
}

} // verus!
