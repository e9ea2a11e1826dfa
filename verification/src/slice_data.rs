//! The parsed macroblocks of one slice.
use crate::macroblock_layer::Macroblock;
use vstd::prelude::*;

verus! {

#[derive(Debug, Clone)]
pub struct SliceData {
    pub macroblocks: Vec<Macroblock>,
    /// `mb_field_decoding_flag` of each macroblock, parallel to `macroblocks`.
    pub mb_field_decoding_flags: Vec<bool>,
    pub last_mb_addr: u32,
}

} // verus!
