//! Per-macroblock state of the picture being decoded.
use vstd::prelude::*;

verus! {

/// What later macroblocks and the deblocking filter need to know of one macroblock.
#[derive(Debug, Clone, Copy)]
pub struct MbInfo {
    pub available: bool,
    pub is_intra: bool,
    pub in_sp_si_slice: bool,
    pub is_i_pcm: bool,
    pub is_intra_nxn: bool,
    pub mb_type_raw: u32,
    pub qp_y: i32,
    pub cbp_luma: u8,
    pub cbp_chroma: u8,
    pub transform_size_8x8_flag: bool,
    /// Bit `i` is set when 4x4 luma block `i` has a non-zero coefficient.
    pub luma_nonzero_4x4: u16,
    pub chroma_nonzero_4x4: u16,
    pub intra_chroma_pred_mode: u8,
    pub slice_id: i32,
    pub mb_field_decoding_flag: bool,
    pub intra_4x4_pred_modes: [u8; 16],
    pub intra_8x8_pred_modes: [u8; 4],
    pub mv_l0: [(i16, i16); 16],
    pub mv_l1: [(i16, i16); 16],
    pub ref_idx_l0: [i8; 4],
    pub ref_idx_l1: [i8; 4],
    pub ref_poc_l0: [i32; 4],
    pub ref_poc_l1: [i32; 4],
}

/// The content of an [`MbInfo`].
#[verifier::ext_equal]
pub struct MbInfoV {
    pub available: bool,
    pub is_intra: bool,
    pub in_sp_si_slice: bool,
    pub is_i_pcm: bool,
    pub is_intra_nxn: bool,
    pub mb_type_raw: u32,
    pub qp_y: i32,
    pub cbp_luma: u8,
    pub cbp_chroma: u8,
    pub transform_size_8x8_flag: bool,
    pub luma_nonzero_4x4: u16,
    pub chroma_nonzero_4x4: u16,
    pub intra_chroma_pred_mode: u8,
    pub slice_id: i32,
    pub mb_field_decoding_flag: bool,
    pub intra_4x4_pred_modes: Seq<u8>,
    pub intra_8x8_pred_modes: Seq<u8>,
    pub mv_l0: Seq<(i16, i16)>,
    pub mv_l1: Seq<(i16, i16)>,
    pub ref_idx_l0: Seq<i8>,
    pub ref_idx_l1: Seq<i8>,
    pub ref_poc_l0: Seq<i32>,
    pub ref_poc_l1: Seq<i32>,
}

impl View for MbInfo {
    type V = MbInfoV;

    open spec fn view(&self) -> MbInfoV {
        MbInfoV {
            available: self.available,
            is_intra: self.is_intra,
            in_sp_si_slice: self.in_sp_si_slice,
            is_i_pcm: self.is_i_pcm,
            is_intra_nxn: self.is_intra_nxn,
            mb_type_raw: self.mb_type_raw,
            qp_y: self.qp_y,
            cbp_luma: self.cbp_luma,
            cbp_chroma: self.cbp_chroma,
            transform_size_8x8_flag: self.transform_size_8x8_flag,
            luma_nonzero_4x4: self.luma_nonzero_4x4,
            chroma_nonzero_4x4: self.chroma_nonzero_4x4,
            intra_chroma_pred_mode: self.intra_chroma_pred_mode,
            slice_id: self.slice_id,
            mb_field_decoding_flag: self.mb_field_decoding_flag,
            intra_4x4_pred_modes: self.intra_4x4_pred_modes@,
            intra_8x8_pred_modes: self.intra_8x8_pred_modes@,
            mv_l0: self.mv_l0@,
            mv_l1: self.mv_l1@,
            ref_idx_l0: self.ref_idx_l0@,
            ref_idx_l1: self.ref_idx_l1@,
            ref_poc_l0: self.ref_poc_l0@,
            ref_poc_l1: self.ref_poc_l1@,
        }
    }
}

/// The state of a macroblock that has not been decoded.
pub open spec fn empty_info() -> MbInfoV {
    MbInfoV {
        available: false,
        is_intra: false,
        in_sp_si_slice: false,
        is_i_pcm: false,
        is_intra_nxn: false,
        mb_type_raw: 0,
        qp_y: 0,
        cbp_luma: 0,
        cbp_chroma: 0,
        transform_size_8x8_flag: false,
        luma_nonzero_4x4: 0,
        chroma_nonzero_4x4: 0,
        intra_chroma_pred_mode: 0,
        slice_id: (-1) as i32,
        mb_field_decoding_flag: false,
        intra_4x4_pred_modes: Seq::new(16, |i: int| 0u8),
        intra_8x8_pred_modes: Seq::new(4, |i: int| 0u8),
        mv_l0: Seq::new(16, |i: int| (0i16, 0i16)),
        mv_l1: Seq::new(16, |i: int| (0i16, 0i16)),
        ref_idx_l0: Seq::new(4, |i: int| (-1) as i8),
        ref_idx_l1: Seq::new(4, |i: int| (-1) as i8),
        ref_poc_l0: Seq::new(4, |i: int| 0i32),
        ref_poc_l1: Seq::new(4, |i: int| 0i32),
    }
}

impl Default for MbInfo {
    fn default() -> (r: MbInfo)
        ensures
            r@ == empty_info(),
    {
        let r = MbInfo {
            available: false,
            is_intra: false,
            in_sp_si_slice: false,
            is_i_pcm: false,
            is_intra_nxn: false,
            mb_type_raw: 0,
            qp_y: 0,
            cbp_luma: 0,
            cbp_chroma: 0,
            transform_size_8x8_flag: false,
            luma_nonzero_4x4: 0,
            chroma_nonzero_4x4: 0,
            intra_chroma_pred_mode: 0,
            slice_id: -1,
            mb_field_decoding_flag: false,
            intra_4x4_pred_modes: [0; 16],
            intra_8x8_pred_modes: [0; 4],
            mv_l0: [(0, 0); 16],
            mv_l1: [(0, 0); 16],
            ref_idx_l0: [-1; 4],
            ref_idx_l1: [-1; 4],
            ref_poc_l0: [0; 4],
            ref_poc_l1: [0; 4],
        };
        assert(r@ =~= empty_info());
        r
    }
}

/// Most macroblocks a picture can have.
pub const MAX_MBS: u32 = 0x0400_0000;

#[derive(Debug, Clone)]
pub struct MbGrid {
    pub width_in_mbs: u32,
    pub height_in_mbs: u32,
    pub info: Vec<MbInfo>,
    pub mbaff_frame_flag: bool,
}

/// The content of an [`MbGrid`].
#[verifier::ext_equal]
pub struct GridV {
    pub w: int,
    pub h: int,
    pub mbaff: bool,
    pub info: Seq<MbInfoV>,
}

impl View for MbGrid {
    type V = GridV;

    open spec fn view(&self) -> GridV {
        GridV {
            w: self.width_in_mbs as int,
            h: self.height_in_mbs as int,
            mbaff: self.mbaff_frame_flag,
            info: self.info@.map_values(|i: MbInfo| i@),
        }
    }
}

impl GridV {
    /// The record of macroblock `addr`, if the picture has it.
    pub open spec fn get(self, addr: int) -> Option<MbInfoV> {
        if 0 <= addr < self.info.len() {
            Some(self.info[addr])
        } else {
            None
        }
    }

    /// The grid with the record of macroblock `addr` replaced, where the picture has it.
    pub open spec fn set(self, addr: int, i: MbInfoV) -> GridV {
        if 0 <= addr < self.info.len() {
            GridV { info: self.info.update(addr, i), ..self }
        } else {
            self
        }
    }

    /// Everything but the records is the same.
    pub open spec fn same_shape(self, other: GridV) -> bool {
        self.w == other.w && self.h == other.h && self.mbaff == other.mbaff && self.info.len()
            == other.info.len()
    }

    /// Left, above, above-right and above-left neighbours in raster order.
    pub open spec fn neighbours(self, addr: int) -> (Option<int>, Option<int>, Option<int>, Option<
        int,
    >) {
        let x = addr % self.w;
        let y = addr / self.w;
        (
            if x > 0 {
                Some(addr - 1)
            } else {
                None
            },
            if y > 0 {
                Some(addr - self.w)
            } else {
                None
            },
            if y > 0 && x + 1 < self.w {
                Some(addr - self.w + 1)
            } else {
                None
            },
            if y > 0 && x > 0 {
                Some(addr - self.w - 1)
            } else {
                None
            },
        )
    }
}

impl MbGrid {
    /// At least one macroblock, a size that 32-bit sample coordinates can address, and one record
    /// per macroblock.
    pub open spec fn wf(&self) -> bool {
        &&& self.width_in_mbs >= 1
        &&& self.height_in_mbs >= 1
        &&& self.info.len() == self.width_in_mbs * self.height_in_mbs
        &&& self.info.len() <= MAX_MBS
    }

    /// A grid of undecoded macroblocks.
    pub fn new(width_in_mbs: u32, height_in_mbs: u32) -> (r: MbGrid)
        requires
            width_in_mbs >= 1,
            height_in_mbs >= 1,
            width_in_mbs * height_in_mbs <= MAX_MBS,
        ensures
            r.wf(),
            r.width_in_mbs == width_in_mbs,
            r.height_in_mbs == height_in_mbs,
            !r.mbaff_frame_flag,
            forall|i: int| 0 <= i < r@.info.len() ==> #[trigger] r@.info[i] == empty_info(),
    {
        let n: u32 = width_in_mbs * height_in_mbs;
        let mut info: Vec<MbInfo> = Vec::new();
        for k in 0..n
            invariant
                info.len() == k,
                forall|i: int| 0 <= i < k ==> (#[trigger] info@[i])@ == empty_info(),
        {
            info.push(MbInfo::default());
        }
        MbGrid { width_in_mbs, height_in_mbs, info, mbaff_frame_flag: false }
    }

    pub fn get(&self, mb_addr: u32) -> (r: Option<&MbInfo>)
        ensures
            match r {
                Some(i) => self@.get(mb_addr as int) == Some(i@),
                None => self@.get(mb_addr as int) is None,
            },
    {
        if (mb_addr as usize) < self.info.len() {
            Some(&self.info[mb_addr as usize])
        } else {
            None
        }
    }

    pub fn get_mut(&mut self, mb_addr: u32) -> (r: Option<&mut MbInfo>)
        ensures
            r is Some == (mb_addr < old(self).info.len()),
            match r {
                Some(i) => {
                    &&& *i == old(self).info@[mb_addr as int]
                    &&& final(self).info@ == old(self).info@.update(mb_addr as int, *final(i))
                    &&& final(self).width_in_mbs == old(self).width_in_mbs
                    &&& final(self).height_in_mbs == old(self).height_in_mbs
                    &&& final(self).mbaff_frame_flag == old(self).mbaff_frame_flag
                },
                None => *final(self) == *old(self),
            },
    {
        if (mb_addr as usize) < self.info.len() {
            Some(&mut self.info[mb_addr as usize])
        } else {
            None
        }
    }

    /// Replaces the record of macroblock `mb_addr`; an address outside the picture is ignored.
    pub fn put(&mut self, mb_addr: u32, i: MbInfo)
        ensures
            final(self)@ == old(self)@.set(mb_addr as int, i@),
            old(self).wf() ==> final(self).wf(),
            final(self).info.len() == old(self).info.len(),
    {
        if (mb_addr as usize) < self.info.len() {
            self.info[mb_addr as usize] = i;
        }
        assert(self@ =~= old(self)@.set(mb_addr as int, i@));
    }

    /// Column and row of a macroblock in raster order.
    pub fn mb_xy(&self, mb_addr: u32) -> (r: (u32, u32))
        requires
            self.width_in_mbs >= 1,
        ensures
            r.0 == mb_addr as int % self@.w,
            r.1 == mb_addr as int / self@.w,
    {
        (mb_addr % self.width_in_mbs, mb_addr / self.width_in_mbs)
    }

    /// Left, above, above-right and above-left neighbours in raster order.
    pub fn neighbour_mb_addrs(&self, mb_addr: u32) -> (r: [Option<u32>; 4])
        requires
            self.width_in_mbs >= 1,
        ensures
            ({
                let n = self@.neighbours(mb_addr as int);
                &&& opt_eq(r[0], n.0)
                &&& opt_eq(r[1], n.1)
                &&& opt_eq(r[2], n.2)
                &&& opt_eq(r[3], n.3)
            }),
    {
        let w = self.width_in_mbs;
        let x = mb_addr % w;
        let y = mb_addr / w;
        proof {
            vstd::arithmetic::div_mod::lemma_fundamental_div_mod(mb_addr as int, w as int);
            if y > 0 {
                assert(w * y >= w) by (nonlinear_arith)
                    requires
                        y >= 1,
                        w >= 1,
                ;
            }
        }
        [
            if x > 0 {
                Some(mb_addr - 1)
            } else {
                None
            },
            if y > 0 {
                Some(mb_addr - w)
            } else {
                None
            },
            if y > 0 && x + 1 < w {
                Some(mb_addr - w + 1)
            } else {
                None
            },
            if y > 0 && x > 0 {
                Some(mb_addr - w - 1)
            } else {
                None
            },
        ]
    }
}

/// The two optional addresses are the same.
pub open spec fn opt_eq(a: Option<u32>, b: Option<int>) -> bool {
    match (a, b) {
        (Some(x), Some(y)) => x == y,
        (None, None) => true,
        _ => false,
    }
}

} // verus!
