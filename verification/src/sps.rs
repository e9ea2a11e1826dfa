//! Sequence parameter set: the syntax elements that reconstruction reads.
use vstd::prelude::*;

verus! {

/// Scaling matrices with the fall-back rules already resolved.
///
/// Each list holds its weights in raster order (row by row of the block they scale).
#[derive(Debug, Clone)]
pub struct ScalingLists {
    pub lists_4x4: Vec<[u8; 16]>,
    pub lists_8x8: Vec<[u8; 64]>,
}

#[derive(Debug, Clone)]
pub struct Sps {
    pub chroma_format_idc: u32,
    pub separate_colour_plane_flag: bool,
    pub bit_depth_luma_minus8: u32,
    pub bit_depth_chroma_minus8: u32,
    pub qpprime_y_zero_transform_bypass_flag: bool,
    pub seq_scaling_lists: Option<ScalingLists>,
    pub mb_adaptive_frame_field_flag: bool,
    pub direct_8x8_inference_flag: bool,
}

impl Sps {
    /// Chroma format and bit depths within the range the syntax allows.
    pub open spec fn wf(&self) -> bool {
        self.chroma_format_idc <= 3 && self.bit_depth_luma_minus8 <= 6
            && self.bit_depth_chroma_minus8 <= 6
    }

    /// `ChromaArrayType`: 0 when the colour planes are coded separately, else `chroma_format_idc`.
    pub open spec fn cat(&self) -> u32 {
        if self.separate_colour_plane_flag {
            0
        } else {
            self.chroma_format_idc
        }
    }

    pub fn chroma_array_type(&self) -> (r: u32)
        ensures
            r == self.cat(),
    {
        if self.separate_colour_plane_flag {
            0
        } else {
            self.chroma_format_idc
        }
    }
}

} // verus!
