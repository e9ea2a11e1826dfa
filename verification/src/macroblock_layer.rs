//! Parsed macroblocks.
use crate::slice_header::SliceType;
use vstd::prelude::*;

verus! {

/// Parameters that the `mb_type` of an Intra_16x16 macroblock carries.
#[derive(Debug, Clone, Copy, PartialEq, Eq, Structural)]
pub struct Intra16x16 {
    pub pred_mode: u8,
    pub cbp_luma: u8,
    pub cbp_chroma: u8,
}

#[derive(Debug, Clone, Copy, PartialEq, Eq, Structural)]
pub enum MbType {
    INxN,
    Intra16x16(Intra16x16),
    IPcm,
    SI,
    PSkip,
    PL016x16,
    PL0L016x8,
    PL0L08x16,
    P8x8,
    P8x8Ref0,
    BSkip,
    BDirect16x16,
    BL016x16,
    BL116x16,
    BBi16x16,
    BL0L016x8,
    BL0L08x16,
    BL1L116x8,
    BL1L18x16,
    BL0L116x8,
    BL0L18x16,
    BL1L016x8,
    BL1L08x16,
    BL0Bi16x8,
    BL0Bi8x16,
    BL1Bi16x8,
    BL1Bi8x16,
    BBiL016x8,
    BBiL08x16,
    BBiL116x8,
    BBiL18x16,
    BBiBi16x8,
    BBiBi8x16,
    B8x8,
}

impl MbType {
    pub open spec fn intra(self) -> bool {
        self is INxN || self is Intra16x16 || self is IPcm || self is SI
    }

    pub fn is_intra(&self) -> (r: bool)
        ensures
            r == self.intra(),
    {
        matches!(self, MbType::INxN | MbType::Intra16x16(_) | MbType::IPcm | MbType::SI)
    }

    pub fn is_i_pcm(&self) -> (r: bool)
        ensures
            r == (*self is IPcm),
    {
        matches!(self, MbType::IPcm)
    }

    pub fn is_i_nxn(&self) -> (r: bool)
        ensures
            r == (*self is INxN),
    {
        matches!(self, MbType::INxN)
    }

    pub fn is_intra_16x16(&self) -> (r: bool)
        ensures
            r == (*self is Intra16x16),
    {
        matches!(self, MbType::Intra16x16(_))
    }

    pub fn is_si(&self) -> (r: bool)
        ensures
            r == (*self is SI),
    {
        matches!(self, MbType::SI)
    }
}

#[derive(Debug, Clone, Copy, PartialEq, Eq, Structural)]
pub enum SubMbType {
    PL08x8,
    PL08x4,
    PL04x8,
    PL04x4,
    BDirect8x8,
    BL08x8,
    BL18x8,
    BBi8x8,
    BL08x4,
    BL04x8,
    BL18x4,
    BL14x8,
    BBi8x4,
    BBi4x8,
    BL04x4,
    BL14x4,
    BBi4x4,
    Reserved(u32),
}

/// `mb_pred()` syntax. The mode arrays are indexed by block, the reference and vector lists by
/// macroblock partition.
#[derive(Debug, Clone)]
pub struct MbPred {
    pub prev_intra4x4_pred_mode_flag: [bool; 16],
    pub rem_intra4x4_pred_mode: [u8; 16],
    pub prev_intra8x8_pred_mode_flag: [bool; 4],
    pub rem_intra8x8_pred_mode: [u8; 4],
    pub intra_chroma_pred_mode: u8,
    pub ref_idx_l0: Vec<u32>,
    pub ref_idx_l1: Vec<u32>,
    pub mvd_l0: Vec<[i32; 2]>,
    pub mvd_l1: Vec<[i32; 2]>,
}

impl MbPred {
    /// Remaining-mode values that are used leave room for the increment of the mode derivation.
    pub open spec fn wf(&self) -> bool {
        &&& forall|i: int|
            0 <= i < 16 && !self.prev_intra4x4_pred_mode_flag[i]
                ==> self.rem_intra4x4_pred_mode[i] < 255
        &&& forall|i: int|
            0 <= i < 4 && !self.prev_intra8x8_pred_mode_flag[i] ==> self.rem_intra8x8_pred_mode[i]
                < 255
    }
}

impl Default for MbPred {
    fn default() -> (r: MbPred)
        ensures
            r.wf(),
            forall|i: int| 0 <= i < 16 ==> !r.prev_intra4x4_pred_mode_flag[i],
            forall|i: int| 0 <= i < 16 ==> r.rem_intra4x4_pred_mode[i] == 0,
            forall|i: int| 0 <= i < 4 ==> !r.prev_intra8x8_pred_mode_flag[i],
            forall|i: int| 0 <= i < 4 ==> r.rem_intra8x8_pred_mode[i] == 0,
            r.intra_chroma_pred_mode == 0,
            r.ref_idx_l0@ == Seq::<u32>::empty(),
            r.ref_idx_l1@ == Seq::<u32>::empty(),
            r.mvd_l0@ == Seq::<[i32; 2]>::empty(),
            r.mvd_l1@ == Seq::<[i32; 2]>::empty(),
    {
        MbPred {
            prev_intra4x4_pred_mode_flag: [false; 16],
            rem_intra4x4_pred_mode: [0; 16],
            prev_intra8x8_pred_mode_flag: [false; 4],
            rem_intra8x8_pred_mode: [0; 4],
            intra_chroma_pred_mode: 0,
            ref_idx_l0: Vec::new(),
            ref_idx_l1: Vec::new(),
            mvd_l0: Vec::new(),
            mvd_l1: Vec::new(),
        }
    }
}

/// `sub_mb_pred()` syntax, indexed by 8x8 sub-macroblock.
#[derive(Debug, Clone)]
pub struct SubMbPred {
    pub sub_mb_type: [SubMbType; 4],
    pub ref_idx_l0: [u32; 4],
    pub ref_idx_l1: [u32; 4],
    pub mvd_l0: [Vec<[i32; 2]>; 4],
    pub mvd_l1: [Vec<[i32; 2]>; 4],
}

impl Default for SubMbPred {
    fn default() -> (r: SubMbPred)
        ensures
            forall|i: int| 0 <= i < 4 ==> r.sub_mb_type[i] == SubMbType::PL08x8,
            forall|i: int| 0 <= i < 4 ==> r.ref_idx_l0[i] == 0,
            forall|i: int| 0 <= i < 4 ==> r.ref_idx_l1[i] == 0,
            forall|i: int| 0 <= i < 4 ==> (#[trigger] r.mvd_l0[i])@.len() == 0,
            forall|i: int| 0 <= i < 4 ==> (#[trigger] r.mvd_l1[i])@.len() == 0,
    {
        SubMbPred {
            sub_mb_type: [SubMbType::PL08x8; 4],
            ref_idx_l0: [0; 4],
            ref_idx_l1: [0; 4],
            mvd_l0: [Vec::new(), Vec::new(), Vec::new(), Vec::new()],
            mvd_l1: [Vec::new(), Vec::new(), Vec::new(), Vec::new()],
        }
    }
}

/// Samples of an I_PCM macroblock in raster order.
#[derive(Debug, Clone)]
pub struct PcmSamples {
    pub luma: Vec<u32>,
    pub chroma_cb: Vec<u32>,
    pub chroma_cr: Vec<u32>,
}

/// One parsed macroblock. Coefficient blocks hold levels in scan order.
#[derive(Debug, Clone)]
pub struct Macroblock {
    pub mb_type: MbType,
    pub mb_type_raw: u32,
    pub mb_pred: Option<MbPred>,
    pub sub_mb_pred: Option<SubMbPred>,
    pub pcm_samples: Option<PcmSamples>,
    pub coded_block_pattern: u32,
    pub transform_size_8x8_flag: bool,
    pub mb_qp_delta: i32,
    pub residual_luma: Vec<[i32; 16]>,
    pub residual_luma_dc: Option<[i32; 16]>,
    pub residual_chroma_dc_cb: Vec<i32>,
    pub residual_chroma_dc_cr: Vec<i32>,
    pub residual_chroma_ac_cb: Vec<[i32; 16]>,
    pub residual_chroma_ac_cr: Vec<[i32; 16]>,
    pub residual_cb_luma_like: Vec<[i32; 16]>,
    pub residual_cr_luma_like: Vec<[i32; 16]>,
    pub residual_cb_16x16_dc: Option<[i32; 16]>,
    pub residual_cr_16x16_dc: Option<[i32; 16]>,
    pub is_skip: bool,
}

impl Macroblock {
    /// A skipped macroblock of a slice of the given type: B_Skip in B slices, P_Skip elsewhere.
    pub fn new_skip(slice_type: SliceType) -> (r: Macroblock)
        ensures
            r.mb_type == (if slice_type is B {
                MbType::BSkip
            } else {
                MbType::PSkip
            }),
            r.mb_type_raw == 0,
            r.is_skip,
            r.mb_pred is None,
            r.sub_mb_pred is None,
            r.pcm_samples is None,
            r.coded_block_pattern == 0,
            r.mb_qp_delta == 0,
            !r.transform_size_8x8_flag,
            r.residual_luma@ == Seq::<[i32; 16]>::empty(),
            r.residual_luma_dc is None,
            r.residual_cb_16x16_dc is None,
            r.residual_cr_16x16_dc is None,
            r.residual_chroma_dc_cb@ == Seq::<i32>::empty(),
            r.residual_chroma_dc_cr@ == Seq::<i32>::empty(),
            r.residual_chroma_ac_cb@ == Seq::<[i32; 16]>::empty(),
            r.residual_chroma_ac_cr@ == Seq::<[i32; 16]>::empty(),
            r.residual_cb_luma_like@ == Seq::<[i32; 16]>::empty(),
            r.residual_cr_luma_like@ == Seq::<[i32; 16]>::empty(),
    {
        let mb_type = if matches!(slice_type, SliceType::B) {
            MbType::BSkip
        } else {
            MbType::PSkip
        };
        Macroblock {
            mb_type,
            mb_type_raw: 0,
            mb_pred: None,
            sub_mb_pred: None,
            pcm_samples: None,
            coded_block_pattern: 0,
            transform_size_8x8_flag: false,
            mb_qp_delta: 0,
            residual_luma: Vec::new(),
            residual_luma_dc: None,
            residual_chroma_dc_cb: Vec::new(),
            residual_chroma_dc_cr: Vec::new(),
            residual_chroma_ac_cb: Vec::new(),
            residual_chroma_ac_cr: Vec::new(),
            residual_cb_luma_like: Vec::new(),
            residual_cr_luma_like: Vec::new(),
            residual_cb_16x16_dc: None,
            residual_cr_16x16_dc: None,
            is_skip: true,
        }
    }
}

} // verus!
