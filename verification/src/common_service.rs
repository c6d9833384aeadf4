//! The services that the sheets of a workbook share: the calculation
//! chain, the table of shared strings and the style tables.

use vstd::prelude::*;
use crate::calculation_chain::CalculationChainPart;
use crate::error::OfficeError;
use crate::share_string::ShareStringPart;
use crate::style::StylePart;
use crate::style_models::{StyleId, StyleSetting};

verus! {

/// The services that the sheets of one workbook share.
#[derive(Debug)]
pub struct CommonServices {
    calculation_chain: CalculationChainPart,
    share_string: ShareStringPart,
    style: StylePart,
}

impl CommonServices {
    /// The calculation chain of the services.
    pub closed spec fn chain(&self) -> CalculationChainPart {
        self.calculation_chain
    }

    /// The table of shared strings of the services.
    pub closed spec fn strings(&self) -> ShareStringPart {
        self.share_string
    }

    /// The style part of the services.
    pub closed spec fn styles(&self) -> StylePart {
        self.style
    }

    /// The invariant of the services: that of each of them.
    pub open spec fn wf(&self) -> bool {
        self.chain().wf() && self.strings().wf() && self.styles().wf()
    }

    /// The services made of the three given.
    pub fn new(
        calculation_chain: CalculationChainPart,
        share_string: ShareStringPart,
        style: StylePart,
    ) -> (services: Self)
        ensures
            services.chain() == calculation_chain,
            services.strings() == share_string,
            services.styles() == style,
    {
        Self { calculation_chain, share_string, style }
    }

    /// The style part.
    pub fn get_style(&self) -> (style: &StylePart)
        ensures
            *style == self.styles(),
    {
        &self.style
    }

    /// The table of shared strings.
    pub fn get_share_string(&self) -> (share_string: &ShareStringPart)
        ensures
            *share_string == self.strings(),
    {
        &self.share_string
    }

    /// The calculation chain.
    pub fn get_calculation_chain(&self) -> (chain: &CalculationChainPart)
        ensures
            *chain == self.chain(),
    {
        &self.calculation_chain
    }

    /// The id of the style that `style_setting` asks for, as the style
    /// part gives it. The other services are left as they were.
    pub fn get_style_id_mut(&mut self, style_setting: StyleSetting) -> (res: Result<
        StyleId,
        OfficeError,
    >)
        requires
            old(self).wf(),
        ensures
            final(self).wf(),
            final(self).chain() == old(self).chain(),
            final(self).strings() == old(self).strings(),
            final(self).styles().path() == old(self).styles().path(),
            match old(self).styles()@.style_outcome(style_setting@) {
                Ok((tables, id)) => res == Ok::<StyleId, OfficeError>(StyleId { id }) && final(self).styles()@ == tables,
                Err(e) => res == Err::<StyleId, OfficeError>(e) && final(self).styles()@ == old(self).styles()@,
            },
    {
        self.style.get_style_id_mut(style_setting)
    }

    /// The place of `text` in the table of shared strings, as the table
    /// gives it. The other services are left as they were.
    pub fn get_string_id_mut(&mut self, text: &str) -> (id: usize)
        requires
            old(self).wf(),
        ensures
            final(self).wf(),
            final(self).chain() == old(self).chain(),
            final(self).styles() == old(self).styles(),
            id == crate::style_tables::first_index(old(self).strings()@, text@),
            final(self).strings()@ == crate::style_tables::with_item(old(self).strings()@, text@),
    {
        self.share_string.get_string_id_mut(text)
    }

    /// The place of the cell `cell_key` of the sheet `sheet_id` in the
    /// calculation chain, as the chain gives it. The other services are
    /// left as they were.
    pub fn add_cell_mut(&mut self, cell_key: &str, sheet_id: u32) -> (place: usize)
        requires
            old(self).wf(),
        ensures
            final(self).wf(),
            final(self).strings() == old(self).strings(),
            final(self).styles() == old(self).styles(),
            place == crate::style_tables::first_index(old(self).chain()@, (cell_key@, sheet_id)),
            final(self).chain()@ == crate::style_tables::with_item(
                old(self).chain()@,
                (cell_key@, sheet_id),
            ),
    {
        self.calculation_chain.add_cell_mut(cell_key, sheet_id)
    }
}

} // verus!
