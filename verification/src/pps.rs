//! Picture parameter set: the syntax elements that reconstruction reads.
use crate::sps::ScalingLists;
use vstd::prelude::*;

verus! {

#[derive(Debug, Clone)]
pub struct PpsExtension {
    pub pic_scaling_lists: Option<ScalingLists>,
    pub second_chroma_qp_index_offset: i32,
}

#[derive(Debug, Clone)]
pub struct Pps {
    /// Slice group of every macroblock of the picture; `None` with a single slice group.
    pub slice_group_map: Option<Vec<u32>>,
    pub weighted_pred_flag: bool,
    pub weighted_bipred_idc: u32,
    pub pic_init_qp_minus26: i32,
    pub pic_init_qs_minus26: i32,
    pub chroma_qp_index_offset: i32,
    pub constrained_intra_pred_flag: bool,
    pub extension: Option<PpsExtension>,
}

impl Pps {
    /// `qPOffset` of a chroma plane: the second offset applies to Cr when it was sent.
    pub open spec fn chroma_offset(&self, cr: bool) -> int {
        match self.extension {
            Some(ext) if cr => ext.second_chroma_qp_index_offset as int,
            _ => self.chroma_qp_index_offset as int,
        }
    }

    pub fn chroma_qp_offset(&self, cr: bool) -> (r: i32)
        ensures
            r == self.chroma_offset(cr),
    {
        if cr {
            if let Some(ext) = &self.extension {
                return ext.second_chroma_qp_index_offset;
            }
        }
        self.chroma_qp_index_offset
    }
}

} // verus!
