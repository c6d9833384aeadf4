//! The style part: the six style tables of a workbook and the cache in
//! front of them. A style setting is resolved to the id of a cell format;
//! equal settings always resolve to the same id.

use vstd::prelude::*;
use crate::error::OfficeError;
use crate::style_models::{
    BorderModel, BorderStyle, CellXfs, ColorSetting, FillModel, FillStyle, FontModel,
    FontSchemeValues, FontStyle, HorizontalAlignmentValues, NumberFormat, NumberFormatModel,
    NumberFormatValues, StyleId, StyleSetting, StyleSettingModel, VerticalAlignmentValues,
};
use crate::style_tables::{
    MAX_STYLE_ENTRIES, StyleModel, border_of, fill_of, first_index, font_of, format_codes,
    free_format_id, lemma_first_index, lemma_with_item,
};
use crate::text::str_eq;

verus! {

/// The most settings that the cache remembers.
pub const CACHE_CAPACITY: usize = 25;

/// The entries of a cache as plain mathematical values: each setting with
/// the id of its style, oldest first.
pub open spec fn recent_view(cache: Seq<(StyleSetting, u32)>) -> Seq<(StyleSettingModel, u32)> {
    Seq::new(cache.len(), |i: int| (cache[i].0@, cache[i].1))
}

/// The settings of the entries of a cache, in their order.
pub open spec fn settings_of(recent: Seq<(StyleSettingModel, u32)>) -> Seq<StyleSettingModel> {
    Seq::new(recent.len(), |i: int| recent[i].0)
}

/// The cache after the setting `setting` has been looked up in it: the
/// first entry of that setting is the youngest, and the others keep their
/// order; a cache that does not hold the setting is as it was.
pub open spec fn looked_up(recent: Seq<(StyleSettingModel, u32)>, setting: StyleSettingModel) -> Seq<
    (StyleSettingModel, u32),
> {
    let place = first_index(settings_of(recent), setting) as int;
    if place < recent.len() {
        recent.remove(place).push(recent[place])
    } else {
        recent
    }
}

/// The id under which a cache holds the setting `setting`: that of the
/// first entry of that setting; nothing where it holds none.
pub open spec fn cached_id(recent: Seq<(StyleSettingModel, u32)>, setting: StyleSettingModel)
    -> Option<u32> {
    let place = first_index(settings_of(recent), setting) as int;
    if place < recent.len() {
        Some(recent[place].1)
    } else {
        None
    }
}

/// The cache after the setting `setting` has been put into it with the id
/// `id`: the new entry is the youngest, and the oldest entry has left a
/// cache that was full.
pub open spec fn remembered(
    recent: Seq<(StyleSettingModel, u32)>,
    setting: StyleSettingModel,
    id: u32,
) -> Seq<(StyleSettingModel, u32)> {
    (if recent.len() >= CACHE_CAPACITY {
        recent.drop_first()
    } else {
        recent
    }).push((setting, id))
}

/// A table of number formats as plain mathematical values.
pub open spec fn formats_view(table: Seq<NumberFormat>) -> Seq<NumberFormatModel> {
    Seq::new(table.len(), |i: int| table[i]@)
}

/// A table of fonts as plain mathematical values.
pub open spec fn fonts_view(table: Seq<FontStyle>) -> Seq<FontModel> {
    Seq::new(table.len(), |i: int| table[i]@)
}

/// A table of fills as plain mathematical values.
pub open spec fn fills_view(table: Seq<FillStyle>) -> Seq<FillModel> {
    Seq::new(table.len(), |i: int| table[i]@)
}

/// A table of borders as plain mathematical values.
pub open spec fn borders_view(table: Seq<BorderStyle>) -> Seq<BorderModel> {
    Seq::new(table.len(), |i: int| table[i]@)
}

/// The place of the format code `code` in a table of number formats.
pub fn find_format(table: &Vec<NumberFormat>, code: &str) -> (index: usize)
    ensures
        index == first_index(format_codes(formats_view(table@)), code@),
{
    let ghost all = format_codes(formats_view(table@));
    assert(all.skip(0) == all);
    let mut i: usize = 0;
    while i < table.len()
        invariant
            i <= table.len(),
            all == format_codes(formats_view(table@)),
            first_index(all, code@) == i + first_index(all.skip(i as int), code@),
        decreases table.len() - i,
    {
        proof {
            let rest = all.skip(i as int);
            assert(rest[0] == table@[i as int].format_code@);
            assert(rest.drop_first() == all.skip(i + 1));
        }
        if str_eq(table[i].format_code.as_str(), code) {
            return i;
        }
        i += 1;
    }
    i
}

/// The id that the next custom number format of a table gets.
pub fn next_format_id(table: &Vec<NumberFormat>) -> (id: u64)
    ensures
        id == free_format_id(formats_view(table@)),
{
    let ghost all = formats_view(table@);
    let mut id: u64 = 164;
    let mut i: usize = 0;
    assert(all.take(0) =~= Seq::<NumberFormatModel>::empty());
    while i < table.len()
        invariant
            i <= table.len(),
            all == formats_view(table@),
            id == free_format_id(all.take(i as int)),
            id <= 0x1_0000_0000,
        decreases table.len() - i,
    {
        proof {
            let front = all.take(i + 1);
            assert(front.drop_last() =~= all.take(i as int));
            assert(front.last() == table@[i as int]@);
        }
        let above = table[i].format_id as u64 + 1;
        if above > id {
            id = above;
        }
        i += 1;
    }
    assert(all.take(i as int) =~= all);
    id
}

/// The place of `font` in a table of fonts.
pub fn find_font(table: &Vec<FontStyle>, font: &FontStyle) -> (index: usize)
    ensures
        index == first_index(fonts_view(table@), font@),
{
    let ghost all = fonts_view(table@);
    assert(all.skip(0) == all);
    let mut i: usize = 0;
    while i < table.len()
        invariant
            i <= table.len(),
            all == fonts_view(table@),
            first_index(all, font@) == i + first_index(all.skip(i as int), font@),
        decreases table.len() - i,
    {
        proof {
            let rest = all.skip(i as int);
            assert(rest[0] == table@[i as int]@);
            assert(rest.drop_first() == all.skip(i + 1));
        }
        if table[i].same(font) {
            return i;
        }
        i += 1;
    }
    i
}

/// The place of `fill` in a table of fills.
pub fn find_fill(table: &Vec<FillStyle>, fill: &FillStyle) -> (index: usize)
    ensures
        index == first_index(fills_view(table@), fill@),
{
    let ghost all = fills_view(table@);
    assert(all.skip(0) == all);
    let mut i: usize = 0;
    while i < table.len()
        invariant
            i <= table.len(),
            all == fills_view(table@),
            first_index(all, fill@) == i + first_index(all.skip(i as int), fill@),
        decreases table.len() - i,
    {
        proof {
            let rest = all.skip(i as int);
            assert(rest[0] == table@[i as int]@);
            assert(rest.drop_first() == all.skip(i + 1));
        }
        if table[i].same(fill) {
            return i;
        }
        i += 1;
    }
    i
}

/// The place of `border` in a table of borders.
pub fn find_border(table: &Vec<BorderStyle>, border: &BorderStyle) -> (index: usize)
    ensures
        index == first_index(borders_view(table@), border@),
{
    let ghost all = borders_view(table@);
    assert(all.skip(0) == all);
    let mut i: usize = 0;
    while i < table.len()
        invariant
            i <= table.len(),
            all == borders_view(table@),
            first_index(all, border@) == i + first_index(all.skip(i as int), border@),
        decreases table.len() - i,
    {
        proof {
            let rest = all.skip(i as int);
            assert(rest[0] == table@[i as int]@);
            assert(rest.drop_first() == all.skip(i + 1));
        }
        if table[i].same(border) {
            return i;
        }
        i += 1;
    }
    i
}

/// The place of `xf` in a table of cell formats.
pub fn find_xf(table: &Vec<CellXfs>, xf: &CellXfs) -> (index: usize)
    ensures
        index == first_index(table@, *xf),
{
    let ghost all = table@;
    assert(all.skip(0) == all);
    let mut i: usize = 0;
    while i < table.len()
        invariant
            i <= table.len(),
            all == table@,
            first_index(all, *xf) == i + first_index(all.skip(i as int), *xf),
        decreases table.len() - i,
    {
        proof {
            let rest = all.skip(i as int);
            assert(rest[0] == table@[i as int]);
            assert(rest.drop_first() == all.skip(i + 1));
        }
        if table[i] == *xf {
            return i;
        }
        i += 1;
    }
    i
}

/// The font that a setting asks for.
pub fn font_from(setting: &StyleSetting) -> (font: FontStyle)
    ensures
        font@ == font_of(setting@),
{
    FontStyle {
        name: setting.font_family.clone(),
        color: setting.text_color.duplicate(),
        family: 2,
        size: setting.font_size,
        font_scheme: FontSchemeValues::Unset,
        is_bold: setting.is_bold,
        is_italic: setting.is_italic,
        is_underline: setting.is_underline,
        is_double_underline: setting.is_double_underline,
    }
}

/// The fill that a setting asks for.
pub fn fill_from(setting: &StyleSetting) -> (fill: FillStyle)
    ensures
        fill@ == fill_of(setting@),
{
    FillStyle {
        pattern_type: setting.pattern_type,
        background_color: match &setting.background_color {
            Some(v) => Some(ColorSetting::rgb(v.clone())),
            None => None,
        },
        foreground_color: match &setting.foreground_color {
            Some(v) => Some(ColorSetting::rgb(v.clone())),
            None => None,
        },
    }
}

/// The border that a setting asks for.
pub fn border_from(setting: &StyleSetting) -> (border: BorderStyle)
    ensures
        border@ == border_of(setting@),
{
    BorderStyle {
        left: setting.border_left.duplicate(),
        right: setting.border_right.duplicate(),
        top: setting.border_top.duplicate(),
        bottom: setting.border_bottom.duplicate(),
        diagonal: setting.border_diagonal.duplicate(),
    }
}

/// The style part of a workbook: the six style tables, kept in memory
/// while the workbook is open, and a cache of the settings asked for
/// last.
#[derive(Debug)]
pub struct StylePart {
    file_path: String,
    /// The settings resolved last, oldest first, each with its style's id.
    cache: Vec<(StyleSetting, u32)>,
    number_format_collection: Vec<NumberFormat>,
    font_collection: Vec<FontStyle>,
    fill_collection: Vec<FillStyle>,
    border_collection: Vec<BorderStyle>,
    cell_style_xfs_collection: Vec<CellXfs>,
    cell_xfs_collection: Vec<CellXfs>,
}

impl View for StylePart {
    type V = StyleModel;

    closed spec fn view(&self) -> StyleModel {
        StyleModel {
            number_formats: formats_view(self.number_format_collection@),
            fonts: fonts_view(self.font_collection@),
            fills: fills_view(self.fill_collection@),
            borders: borders_view(self.border_collection@),
            cell_style_xfs: self.cell_style_xfs_collection@,
            cell_xfs: self.cell_xfs_collection@,
        }
    }
}

impl StylePart {
    /// The settings that the cache remembers, each with the id of its
    /// style, oldest first.
    pub closed spec fn recent(&self) -> Seq<(StyleSettingModel, u32)> {
        recent_view(self.cache@)
    }

    /// The invariant of the part: that of its tables, and that every
    /// setting in the cache is held by the tables under the id beside it.
    pub closed spec fn wf(&self) -> bool {
        &&& self@.wf()
        &&& self.cache.len() <= CACHE_CAPACITY
        &&& forall|i: int|
            0 <= i < self.cache.len() ==> self@.holds(
                (#[trigger] self.cache@[i]).0@,
                self.cache@[i].1,
            )
    }

    /// The invariant of the part gives that of its tables, so that what is
    /// proved of well-formed tables holds of the tables of a part.
    pub proof fn lemma_wf_tables(&self)
        requires
            self.wf(),
        ensures
            self@.wf(),
    {
    }

    /// The part over the given tables.
    pub fn from_tables(
        file_path: String,
        number_formats: Vec<NumberFormat>,
        fonts: Vec<FontStyle>,
        fills: Vec<FillStyle>,
        borders: Vec<BorderStyle>,
        cell_style_xfs: Vec<CellXfs>,
        cell_xfs: Vec<CellXfs>,
    ) -> (part: Self)
        requires
            (StyleModel {
                number_formats: formats_view(number_formats@),
                fonts: fonts_view(fonts@),
                fills: fills_view(fills@),
                borders: borders_view(borders@),
                cell_style_xfs: cell_style_xfs@,
                cell_xfs: cell_xfs@,
            }).wf(),
        ensures
            part.wf(),
            part@ == (StyleModel {
                number_formats: formats_view(number_formats@),
                fonts: fonts_view(fonts@),
                fills: fills_view(fills@),
                borders: borders_view(borders@),
                cell_style_xfs: cell_style_xfs@,
                cell_xfs: cell_xfs@,
            }),
            part.path() == file_path@,
    {
        StylePart {
            file_path,
            cache: Vec::new(),
            number_format_collection: number_formats,
            font_collection: fonts,
            fill_collection: fills,
            border_collection: borders,
            cell_style_xfs_collection: cell_style_xfs,
            cell_xfs_collection: cell_xfs,
        }
    }

    /// The path of the part's file in the package.
    pub closed spec fn path(&self) -> Seq<char> {
        self.file_path@
    }

    /// The path of the part's file in the package.
    pub fn get_file_path(&self) -> (path: &str)
        ensures
            path@ == self.path(),
    {
        self.file_path.as_str()
    }

    /// The table of custom number formats.
    pub fn number_formats(&self) -> (table: &Vec<NumberFormat>)
        ensures
            formats_view(table@) == self@.number_formats,
    {
        &self.number_format_collection
    }

    /// The table of fonts.
    pub fn fonts(&self) -> (table: &Vec<FontStyle>)
        ensures
            fonts_view(table@) == self@.fonts,
    {
        &self.font_collection
    }

    /// The table of fills.
    pub fn fills(&self) -> (table: &Vec<FillStyle>)
        ensures
            fills_view(table@) == self@.fills,
    {
        &self.fill_collection
    }

    /// The table of borders.
    pub fn borders(&self) -> (table: &Vec<BorderStyle>)
        ensures
            borders_view(table@) == self@.borders,
    {
        &self.border_collection
    }

    /// The table of the formats of the named styles.
    pub fn cell_style_xfs(&self) -> (table: &Vec<CellXfs>)
        ensures
            table@ == self@.cell_style_xfs,
    {
        &self.cell_style_xfs_collection
    }

    /// The table of the formats of the cells.
    pub fn cell_xfs(&self) -> (table: &Vec<CellXfs>)
        ensures
            table@ == self@.cell_xfs,
    {
        &self.cell_xfs_collection
    }

    /// The id under which the cache remembers `setting`, if it does. A
    /// setting found is moved to the cache's young end.
    fn cached(&mut self, setting: &StyleSetting) -> (id: Option<u32>)
        requires
            old(self).wf(),
        ensures
            final(self).wf(),
            final(self)@ == old(self)@,
            final(self).path() == old(self).path(),
            id == cached_id(old(self).recent(), setting@),
            final(self).recent() == looked_up(old(self).recent(), setting@),
            id matches Some(found) ==> old(self)@.holds(setting@, found),
    {
        let ghost recent = self.recent();
        let ghost settings = settings_of(recent);
        proof {
            assert(settings.skip(0) =~= settings);
            lemma_first_index(settings, setting@);
        }
        let mut i: usize = 0;
        while i < self.cache.len()
            invariant
                i <= self.cache.len(),
                self.wf(),
                *self == *old(self),
                recent == self.recent(),
                settings == settings_of(recent),
                first_index(settings, setting@) == i + first_index(
                    settings.skip(i as int),
                    setting@,
                ),
            decreases self.cache.len() - i,
        {
            proof {
                let rest = settings.skip(i as int);
                assert(rest[0] == self.cache@[i as int].0@);
                assert(rest.drop_first() =~= settings.skip(i + 1));
            }
            if self.cache[i].0.same(setting) {
                let entry = self.cache.remove(i);
                let id = entry.1;
                self.cache.push(entry);
                proof {
                    let before = old(self).cache@;
                    let after = self.cache@;
                    assert forall|k: int| 0 <= k < after.len() implies self@.holds(
                        (#[trigger] after[k]).0@,
                        after[k].1,
                    ) by {
                        if k < i {
                            assert(after[k] == before[k]);
                        } else if k < after.len() - 1 {
                            assert(after[k] == before[k + 1]);
                        } else {
                            assert(after[k] == before[i as int]);
                        }
                    }
                    assert(first_index(settings, setting@) == i);
                    assert(recent[i as int] == (before[i as int].0@, before[i as int].1));
                    assert(self.recent() =~= recent.remove(i as int).push(recent[i as int]));
                }
                return Some(id);
            }
            i += 1;
        }
        proof {
            assert(settings.skip(i as int) =~= Seq::<StyleSettingModel>::empty());
        }
        None
    }

    /// Puts `setting` with its id at the cache's young end; the oldest
    /// entry leaves where the cache is full.
    fn remember(&mut self, setting: StyleSetting, id: u32)
        requires
            old(self).wf(),
            old(self)@.holds(setting@, id),
        ensures
            final(self).wf(),
            final(self)@ == old(self)@,
            final(self).path() == old(self).path(),
            final(self).recent() == remembered(old(self).recent(), setting@, id),
    {
        if self.cache.len() >= CACHE_CAPACITY {
            let _ = self.cache.remove(0);
        }
        self.cache.push((setting, id));
        proof {
            let before = old(self).cache@;
            let after = self.cache@;
            assert forall|k: int| 0 <= k < after.len() implies self@.holds(
                (#[trigger] after[k]).0@,
                after[k].1,
            ) by {
                if k < after.len() - 1 {
                    if before.len() >= CACHE_CAPACITY {
                        assert(after[k] == before[k + 1]);
                    } else {
                        assert(after[k] == before[k]);
                    }
                }
            }
            assert(self.recent() =~= remembered(old(self).recent(), setting@, id)) by {
                let kept = if before.len() >= CACHE_CAPACITY {
                    old(self).recent().drop_first()
                } else {
                    old(self).recent()
                };
                assert forall|k: int| 0 <= k < after.len() implies self.recent()[k]
                    == kept.push((setting@, id))[k] by {
                    if k < after.len() - 1 {
                        if before.len() >= CACHE_CAPACITY {
                            assert(after[k] == before[k + 1]);
                        } else {
                            assert(after[k] == before[k]);
                        }
                    }
                }
            }
        }
    }

    /// The id of the style that `style_setting` asks for. Whatever of the
    /// setting the tables do not hold yet is added behind their last entry,
    /// so that no entry ever moves; what they hold is used again. A custom
    /// number format without its code is refused, and so is a setting for
    /// which a table would have to grow beyond its size; the tables are
    /// then left as they were.
    pub fn get_style_id_mut(&mut self, style_setting: StyleSetting) -> (res: Result<
        StyleId,
        OfficeError,
    >)
        requires
            old(self).wf(),
        ensures
            final(self).wf(),
            final(self).path() == old(self).path(),
            match old(self)@.style_outcome(style_setting@) {
                Ok((tables, id)) => res == Ok::<StyleId, OfficeError>(StyleId { id }) && final(self)@ == tables,
                Err(e) => res == Err::<StyleId, OfficeError>(e) && final(self)@ == old(self)@,
            },
            final(self).recent() == (match (
                cached_id(old(self).recent(), style_setting@),
                old(self)@.style_outcome(style_setting@),
            ) {
                (Some(_), _) => looked_up(old(self).recent(), style_setting@),
                (None, Ok((_, id))) => remembered(old(self).recent(), style_setting@, id),
                (None, Err(_)) => old(self).recent(),
            }),
    {
        let ghost model = self@;
        let ghost setting = style_setting@;
        if let Some(id) = self.cached(&style_setting) {
            return Ok(StyleId::new(id));
        }
        let custom = style_setting.number_format == NumberFormatValues::Custom;
        if custom && style_setting.custom_number_format.is_none() {
            return Err(OfficeError::Programmer);
        }
        let font = font_from(&style_setting);
        let fill = fill_from(&style_setting);
        let border = border_from(&style_setting);
        let format_count = self.number_format_collection.len();
        let format_index = match &style_setting.custom_number_format {
            Some(code) => if custom {
                find_format(&self.number_format_collection, code.as_str())
            } else {
                0
            },
            None => 0,
        };
        let font_index = find_font(&self.font_collection, &font);
        let fill_index = find_fill(&self.fill_collection, &fill);
        let border_index = find_border(&self.border_collection, &border);
        proof {
            lemma_first_index(model.fonts, font@);
            lemma_first_index(model.fills, fill@);
            lemma_first_index(model.borders, border@);
            if custom {
                lemma_first_index(format_codes(model.number_formats), setting.custom_number_format->0);
            }
        }
        let number_format_id: u32 = if custom {
            if format_index < format_count {
                assert(formats_view(self.number_format_collection@)[format_index as int]
                    == self.number_format_collection@[format_index as int]@);
                self.number_format_collection[format_index].format_id
            } else {
                let free = next_format_id(&self.number_format_collection);
                if free > 0xffff_ffff {
                    return Err(OfficeError::Schema);
                }
                free as u32
            }
        } else {
            NumberFormatValues::get_format_id(style_setting.number_format)
        };
        let aligned = style_setting.vertical_alignment != VerticalAlignmentValues::Unset
            || style_setting.horizontal_alignment != HorizontalAlignmentValues::Unset
            || style_setting.is_wrap_text;
        let base = CellXfs {
            format_id: 0,
            number_format_id,
            font_id: font_index as u32,
            fill_id: fill_index as u32,
            border_id: border_index as u32,
            apply_font: if font_index > 0 {
                1
            } else {
                0
            },
            apply_alignment: if aligned {
                1
            } else {
                0
            },
            apply_fill: if fill_index > 0 {
                1
            } else {
                0
            },
            apply_border: if border_index > 0 {
                1
            } else {
                0
            },
            apply_number_format: if custom {
                1
            } else {
                0
            },
            apply_protection: 0,
            is_wrap_text: if style_setting.is_wrap_text {
                1
            } else {
                0
            },
            vertical_alignment: style_setting.vertical_alignment,
            horizontal_alignment: style_setting.horizontal_alignment,
        };
        assert(base == model.base_xf(setting));
        let style_index = find_xf(&self.cell_style_xfs_collection, &base);
        proof {
            lemma_first_index(model.cell_style_xfs, base);
        }
        let mut full = base;
        full.format_id = style_index as u32;
        assert(full == model.full_xf(setting));
        let index = find_xf(&self.cell_xfs_collection, &full);
        proof {
            lemma_first_index(model.cell_xfs, full);
            lemma_with_item(model.fonts, font@);
            lemma_with_item(model.fills, fill@);
            lemma_with_item(model.borders, border@);
            lemma_with_item(model.cell_style_xfs, base);
            lemma_with_item(model.cell_xfs, full);
        }
        let new_format = custom && format_index == format_count;
        let new_font = font_index == self.font_collection.len();
        let new_fill = fill_index == self.fill_collection.len();
        let new_border = border_index == self.border_collection.len();
        let new_style = style_index == self.cell_style_xfs_collection.len();
        let new_xf = index == self.cell_xfs_collection.len();
        if (new_format && format_count >= MAX_STYLE_ENTRIES) || (new_font
            && self.font_collection.len() >= MAX_STYLE_ENTRIES) || (new_fill
            && self.fill_collection.len() >= MAX_STYLE_ENTRIES) || (new_border
            && self.border_collection.len() >= MAX_STYLE_ENTRIES) || (new_style
            && self.cell_style_xfs_collection.len() >= MAX_STYLE_ENTRIES) || (new_xf
            && self.cell_xfs_collection.len() >= MAX_STYLE_ENTRIES) {
            return Err(OfficeError::Schema);
        }
        if new_format {
            match &style_setting.custom_number_format {
                Some(code) => {
                    self.number_format_collection.push(
                        NumberFormat { format_id: number_format_id, format_code: code.clone() },
                    );
                },
                None => {},
            }
        }
        if new_font {
            self.font_collection.push(font);
        }
        if new_fill {
            self.fill_collection.push(fill);
        }
        if new_border {
            self.border_collection.push(border);
        }
        if new_style {
            self.cell_style_xfs_collection.push(base);
        }
        if new_xf {
            self.cell_xfs_collection.push(full);
        }
        let id = index as u32;
        proof {
            let target = model.resolved(setting);
            assert(self@.number_formats =~= target.number_formats);
            assert(self@.fonts =~= target.fonts);
            assert(self@.fills =~= target.fills);
            assert(self@.borders =~= target.borders);
            assert(self@.cell_style_xfs =~= target.cell_style_xfs);
            assert(self@.cell_xfs =~= target.cell_xfs);
            assert(self@ == target);
            assert(model.style_outcome(setting) == Ok::<(StyleModel, u32), OfficeError>(
                (target, id),
            ));
            model.lemma_resolved_wf(setting);
            model.lemma_resolved_holds(setting);
            assert forall|k: int| 0 <= k < self.cache.len() implies self@.holds(
                (#[trigger] self.cache@[k]).0@,
                self.cache@[k].1,
            ) by {
                model.lemma_holds_stable(self.cache@[k].0@, self.cache@[k].1, setting);
            }
        }
        self.remember(style_setting, id);
        Ok(StyleId::new(id))
    }
}

} // verus!
