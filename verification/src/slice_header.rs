//! Slice header: the syntax elements that reconstruction reads.
use vstd::prelude::*;

verus! {

#[derive(Debug, Clone, Copy, PartialEq, Eq, Structural)]
pub enum SliceType {
    P,
    B,
    I,
    SP,
    SI,
}

/// Explicit prediction weights; an entry is `None` where its flag was 0.
#[derive(Debug, Clone)]
pub struct PredWeightTable {
    pub luma_log2_weight_denom: u32,
    pub chroma_log2_weight_denom: u32,
    pub luma_weights_l0: Vec<Option<(i32, i32)>>,
    pub chroma_weights_l0: Vec<Option<[(i32, i32); 2]>>,
    pub luma_weights_l1: Vec<Option<(i32, i32)>>,
    pub chroma_weights_l1: Vec<Option<[(i32, i32); 2]>>,
}

#[derive(Debug, Clone)]
pub struct SliceHeader {
    pub first_mb_in_slice: u32,
    pub slice_type: SliceType,
    pub colour_plane_id: u32,
    pub field_pic_flag: bool,
    pub bottom_field_flag: bool,
    pub direct_spatial_mv_pred_flag: bool,
    pub pred_weight_table: Option<PredWeightTable>,
    pub slice_qp_delta: i32,
    pub sp_for_switch_flag: bool,
    pub slice_qs_delta: i32,
    pub disable_deblocking_filter_idc: u32,
    pub slice_alpha_c0_offset_div2: i32,
    pub slice_beta_offset_div2: i32,
}

impl SliceHeader {
    /// Weight denominators small enough for `2^denominator` to be a 32-bit value.
    pub open spec fn wf(&self) -> bool {
        self.pred_weight_table matches Some(t) ==> t.luma_log2_weight_denom <= 30
            && t.chroma_log2_weight_denom <= 30
    }
}

} // verus!
