//! Reconstruction of slices.
use crate::boundary_strength::EdgeCtxV;
use crate::coded_blocks::{
    chroma_mask, compute_chroma_nonzero_mask, compute_luma_nonzero_mask, luma_mask,
};
use crate::deblock_picture::{deblocked, DeblockArgs};
use crate::direct::{cur_pic, refs_ok, CurPic};
use crate::error::{decimal, outcome, text_with_number, ErrV};
use crate::macroblock_layer::Macroblock;
use crate::math::floor_mod;
use crate::mb_address::{advance_mb_addr, map_view, next_addr, MAX_ADDR};
use crate::mb_grid::{GridV, MbGrid, MbInfoV};
use crate::picture::{same_meta, PicV, Picture};
use crate::pps::Pps;
use crate::recon_mb_inter::{inter_mb, reconstruct_mb_inter};
use crate::recon_mb_intra::{
    intra_mb, mb_ok, reconstruct_mb_intra, sp_ok, MbArgs, MbStep, SpSiCtx,
};
use crate::ref_store::{RefPicProvider, RefsV};
use crate::residual::cbp_luma;
use crate::slice_data::SliceData;
use crate::slice_header::{SliceHeader, SliceType};
use crate::sps::Sps;
use crate::transform::bd_offset;
use vstd::prelude::*;

pub use crate::deblock_picture::deblock_picture_full;
pub use crate::error::ReconstructError;

verus! {

/// Luma quantisation parameter of a macroblock from that of the one before and the coded change:
/// it wraps around in the range from `-QpBdOffset` to 51.
pub open spec fn next_qp(prev: int, delta: int, bit_depth_minus8: u32) -> int {
    let off = bd_offset(bit_depth_minus8);
    (prev + delta + 52 + 2 * off) % (52 + off) - off
}

pub fn next_qp_y(prev_qp_y: i32, mb_qp_delta: i32, bit_depth_luma_minus8: u32) -> (r: i32)
    requires
        bit_depth_luma_minus8 <= 6,
    ensures
        r == next_qp(prev_qp_y as int, mb_qp_delta as int, bit_depth_luma_minus8),
        -bd_offset(bit_depth_luma_minus8) <= r <= 51,
        ({
            let off = bd_offset(bit_depth_luma_minus8);
            let s = prev_qp_y + mb_qp_delta;
            -off <= prev_qp_y <= 51 && -52 - off < mb_qp_delta < 52 + off ==> r == if s > 51 {
                s - 52 - off
            } else if s < -off {
                s + 52 + off
            } else {
                s
            }
        }),
{
    proof {
        let off = bd_offset(bit_depth_luma_minus8);
        if -off <= prev_qp_y <= 51 && -52 - off < mb_qp_delta < 52 + off {
            law_next_qp_wraps_once(
                prev_qp_y as int,
                mb_qp_delta as int,
                bit_depth_luma_minus8,
            );
        }
    }
    let off: i64 = 6 * bit_depth_luma_minus8 as i64;
    let raw: i64 = prev_qp_y as i64 + mb_qp_delta as i64 + 52 + 2 * off;
    (floor_mod(raw, 52 + off) - off) as i32
}

/// The parameter stays in its range.
pub proof fn law_next_qp_in_range(prev: int, delta: int, bit_depth_minus8: u32)
    ensures
        -bd_offset(bit_depth_minus8) <= next_qp(prev, delta, bit_depth_minus8) <= 51,
{
    let off = bd_offset(bit_depth_minus8);
    vstd::arithmetic::div_mod::lemma_mod_bound(prev + delta + 52 + 2 * off, 52 + off);
}

/// From a parameter in range, a change smaller than the range wraps around at most once.
pub proof fn law_next_qp_wraps_once(prev: int, delta: int, bit_depth_minus8: u32)
    requires
        -bd_offset(bit_depth_minus8) <= prev <= 51,
        -52 - bd_offset(bit_depth_minus8) < delta < 52 + bd_offset(bit_depth_minus8),
    ensures
        ({
            let m = 52 + bd_offset(bit_depth_minus8);
            next_qp(prev, delta, bit_depth_minus8) == if prev + delta > 51 {
                prev + delta - m
            } else if prev + delta < 52 - m {
                prev + delta + m
            } else {
                prev + delta
            }
        }),
{
    let off = bd_offset(bit_depth_minus8);
    let m = 52 + off;
    let q = if prev + delta > 51 {
        2int
    } else if prev + delta < -off {
        0int
    } else {
        1int
    };
    let a = prev + delta + 52 + 2 * off;
    vstd::arithmetic::div_mod::lemma_fundamental_div_mod_converse(a, m, q, a - q * m);
}

/// Without a change the parameter stays the same.
pub proof fn law_next_qp_without_change(prev: int, bit_depth_minus8: u32)
    requires
        -bd_offset(bit_depth_minus8) <= prev <= 51,
    ensures
        next_qp(prev, 0, bit_depth_minus8) == prev,
{
    let off = bd_offset(bit_depth_minus8);
    let m = 52 + off;
    vstd::arithmetic::div_mod::lemma_mod_add_multiples_vanish(prev + off, m);
    vstd::arithmetic::div_mod::lemma_small_mod((prev + off) as nat, m as nat);
}

/// At eight bits the parameter is the sum modulo 52.
pub proof fn law_next_qp_eight_bits(prev: int, delta: int)
    ensures
        next_qp(prev, delta, 0) == (prev + delta + 52) % 52,
{
}

/// A change followed by its opposite restores the parameter.
pub proof fn law_next_qp_undone(prev: int, delta: int, bit_depth_minus8: u32)
    requires
        -bd_offset(bit_depth_minus8) <= prev <= 51,
    ensures
        next_qp(next_qp(prev, delta, bit_depth_minus8), -delta, bit_depth_minus8) == prev,
{
    let off = bd_offset(bit_depth_minus8);
    let m = 52 + off;
    let a = prev + delta + 52 + 2 * off;
    vstd::arithmetic::div_mod::lemma_fundamental_div_mod(a, m);
    let q = a / m;
    let r = next_qp(prev, delta, bit_depth_minus8);
    let b = r - delta + 52 + 2 * off;
    assert(b == (prev + off) + m * (2 - q)) by (nonlinear_arith)
        requires
            b == a - m * q - off - delta + 52 + 2 * off,
            a == prev + delta + 52 + 2 * off,
            m == 52 + off,
    ;
    vstd::arithmetic::div_mod::lemma_mod_multiples_vanish(2 - q, prev + off, m);
    vstd::arithmetic::div_mod::lemma_small_mod((prev + off) as nat, m as nat);
}

/// Parameters of an SP or SI slice; `None` for other slices, an error where the slice is coded in
/// a way that SP and SI slices cannot be.
pub open spec fn sp_si_ctx(sh: SliceHeader, sps: Sps, pps: Pps) -> Result<Option<SpSiCtx>, ErrV> {
    let qs = 26 + pps.pic_init_qs_minus26 + sh.slice_qs_delta;
    let cat = sps.cat();
    if !(sh.slice_type is SP || sh.slice_type is SI) {
        Ok(None)
    } else if qs < 0 || qs > 51 {
        Err(
            ErrV::SpSiUnsupported("QSY "@ + decimal(qs) + " out of the §7.4.3 range 0..=51"@),
        )
    } else if cat != 1 {
        Err(
            ErrV::SpSiUnsupported(
                "ChromaArrayType "@ + decimal(cat as int)
                    + " (SP/SI is 4:2:0-only, A.2.3)"@,
            ),
        )
    } else if sps.bit_depth_luma_minus8 != 0 || sps.bit_depth_chroma_minus8 != 0 {
        Err(ErrV::SpSiUnsupported("SP/SI at >8-bit depth"@))
    } else if sps.qpprime_y_zero_transform_bypass_flag {
        Err(ErrV::SpSiUnsupported("SP/SI with qpprime_y_zero_transform_bypass_flag"@))
    } else {
        Ok(
            Some(
                SpSiCtx {
                    qs_y: qs as i32,
                    switching: sh.slice_type is SI || sh.sp_for_switch_flag,
                },
            ),
        )
    }
}

pub open spec fn sp_si_result(r: Result<Option<SpSiCtx>, ReconstructError>) -> Result<
    Option<SpSiCtx>,
    ErrV,
> {
    match r {
        Ok(c) => Ok(c),
        Err(e) => Err(e@),
    }
}

pub fn sp_si_ctx_for_slice(slice_header: &SliceHeader, sps: &Sps, pps: &Pps) -> (r: Result<
    Option<SpSiCtx>,
    ReconstructError,
>)
    ensures
        sp_si_result(r) == sp_si_ctx(*slice_header, *sps, *pps),
        r matches Ok(c) ==> sp_ok(c, *sps),
{
    if !matches!(slice_header.slice_type, SliceType::SP | SliceType::SI) {
        return Ok(None);
    }
    let qs: i64 = 26 + pps.pic_init_qs_minus26 as i64 + slice_header.slice_qs_delta as i64;
    if qs < 0 || qs > 51 {
        return Err(
            ReconstructError::SpSiUnsupported(
                text_with_number("QSY ", qs, " out of the §7.4.3 range 0..=51"),
            ),
        );
    }
    let cat = sps.chroma_array_type();
    if cat != 1 {
        return Err(
            ReconstructError::SpSiUnsupported(
                text_with_number(
                    "ChromaArrayType ",
                    cat as i64,
                    " (SP/SI is 4:2:0-only, A.2.3)",
                ),
            ),
        );
    }
    if sps.bit_depth_luma_minus8 != 0 || sps.bit_depth_chroma_minus8 != 0 {
        return Err(ReconstructError::SpSiUnsupported("SP/SI at >8-bit depth".to_string()));
    }
    if sps.qpprime_y_zero_transform_bypass_flag {
        return Err(
            ReconstructError::SpSiUnsupported(
                "SP/SI with qpprime_y_zero_transform_bypass_flag".to_string(),
            ),
        );
    }
    Ok(
        Some(
            SpSiCtx {
                qs_y: qs as i32,
                switching: matches!(slice_header.slice_type, SliceType::SI)
                    || slice_header.sp_for_switch_flag,
            },
        ),
    )
}

/// Class of the scaling matrices of a slice's luma: those of its colour plane where colour planes
/// are coded separately.
pub open spec fn luma_list(sps: Sps, sh: SliceHeader) -> int {
    if !sps.separate_colour_plane_flag {
        0
    } else if sh.colour_plane_id < 2 {
        sh.colour_plane_id as int
    } else {
        2
    }
}

fn luma_scaling_plane(sps: &Sps, header: &SliceHeader) -> (r: usize)
    ensures
        r == luma_list(*sps, *header),
        r <= 2,
{
    if !sps.separate_colour_plane_flag {
        0
    } else if header.colour_plane_id < 2 {
        header.colour_plane_id as usize
    } else {
        2
    }
}

/// What the reconstruction of a slice depends on besides picture samples and grid.
pub struct SliceArgs {
    pub sd: SliceData,
    pub sh: SliceHeader,
    pub sps: Sps,
    pub pps: Pps,
    pub refs: RefsV,
    pub cur: CurPic,
    pub pic_cat: u32,
    pub pic_w: u32,
}

/// The frame mixes frame and field macroblock pairs.
pub open spec fn is_mbaff(sps: Sps, sh: SliceHeader) -> bool {
    sps.mb_adaptive_frame_field_flag && !sh.field_pic_flag
}

impl SliceArgs {
    pub open spec fn field_flag(self, i: int) -> bool {
        0 <= i < self.sd.mb_field_decoding_flags@.len() && self.sd.mb_field_decoding_flags@[i]
    }

    /// Quantisation parameter of a macroblock; uncompressed and skipped ones keep the one before.
    pub open spec fn qp(self, i: int, prev: int) -> int {
        let mb = self.sd.macroblocks@[i];
        if mb.mb_type is IPcm || mb.is_skip {
            prev
        } else {
            next_qp(prev, mb.mb_qp_delta as int, self.sps.bit_depth_luma_minus8)
        }
    }

    pub open spec fn mb_args(self, i: int, addr: int, qp: int, sp: Option<SpSiCtx>) -> MbArgs {
        let mbaff = is_mbaff(self.sps, self.sh);
        MbArgs {
            mb: self.sd.macroblocks@[i],
            addr: addr as u32,
            qp_y: qp as i32,
            sps: self.sps,
            pps: self.pps,
            pic_cat: self.pic_cat,
            pic_w: self.pic_w,
            mbaff,
            field: self.field_flag(i),
            slice_id: self.sh.first_mb_in_slice as i32,
            field_scan: (mbaff && self.field_flag(i)) || self.sh.field_pic_flag,
            sp,
        }
    }

    /// First macroblock address; pairs are counted in MBAFF frames.
    pub open spec fn first_addr(self) -> int {
        if is_mbaff(self.sps, self.sh) {
            2 * self.sh.first_mb_in_slice
        } else {
            self.sh.first_mb_in_slice as int
        }
    }

    /// Quantisation parameter at the start of the slice.
    pub open spec fn slice_qp(self) -> int {
        26 + self.pps.pic_init_qp_minus26 + self.sh.slice_qp_delta
    }
}

/// The record of a macroblock once it is reconstructed.
pub open spec fn finished(i: MbInfoV, m: MbArgs) -> MbInfoV {
    let mb = m.mb;
    MbInfoV {
        available: true,
        is_intra: mb.mb_type.intra(),
        in_sp_si_slice: m.sp is Some,
        is_i_pcm: mb.mb_type is IPcm,
        is_intra_nxn: mb.mb_type is INxN,
        mb_type_raw: mb.mb_type_raw,
        qp_y: m.qp_y,
        cbp_luma: (mb.coded_block_pattern as int % 16) as u8,
        cbp_chroma: ((mb.coded_block_pattern as int / 16) % 4) as u8,
        transform_size_8x8_flag: mb.transform_size_8x8_flag,
        luma_nonzero_4x4: luma_mask(mb) as u16,
        chroma_nonzero_4x4: chroma_mask(mb, m.sps.cat()) as u16,
        intra_chroma_pred_mode: match mb.mb_pred {
            Some(p) => p.intra_chroma_pred_mode,
            None => i.intra_chroma_pred_mode,
        },
        slice_id: m.slice_id,
        mb_field_decoding_flag: m.field,
        ..i
    }
}

/// The grid with a finished macroblock.
pub open spec fn with_finished(g: GridV, m: MbArgs) -> GridV {
    match g.get(m.addr as int) {
        Some(i) => g.set(m.addr as int, finished(i, m)),
        None => g,
    }
}

/// Picture and grid after one macroblock.
#[verifier::opaque]
pub open spec fn mb_step(pv: PicV, g: GridV, a: SliceArgs, m: MbArgs) -> MbStep {
    let r = if m.mb.mb_type.intra() {
        intra_mb(pv, g, m, luma_list(a.sps, a.sh))
    } else {
        inter_mb(pv, g, m, a.sh, a.refs, a.cur, luma_list(a.sps, a.sh))
    };
    match r {
        (q, h, Some(e)) => (q, h, Some(e)),
        (q, h, None) => (q, with_finished(h, m), None),
    }
}

/// Picture and grid after the macroblocks from number `i` on, the first of them at `addr`.
pub open spec fn slice_from(
    pv: PicV,
    g: GridV,
    a: SliceArgs,
    sp: Option<SpSiCtx>,
    i: int,
    addr: int,
    prev_qp: int,
) -> MbStep
    decreases a.sd.macroblocks@.len() - i,
{
    if i >= a.sd.macroblocks@.len() {
        (pv, g, None)
    } else {
        let qp = a.qp(i, prev_qp);
        match mb_step(pv, g, a, a.mb_args(i, addr, qp, sp)) {
            (q, h, Some(e)) => (q, h, Some(e)),
            (q, h, None) => {
                let next = next_addr(map_view(a.pps.slice_group_map), addr);
                if i + 1 < a.sd.macroblocks@.len() && next < h.info.len() {
                    slice_from(q, h, a, sp, i + 1, next, qp)
                } else {
                    (q, h, None)
                }
            },
        }
    }
}

/// Picture and grid after a slice, without deblocking.
#[verifier::opaque]
pub open spec fn slice_reconstructed(pv: PicV, g0: GridV, a: SliceArgs) -> MbStep {
    let g = GridV { mbaff: is_mbaff(a.sps, a.sh), ..g0 };
    match sp_si_ctx(a.sh, a.sps, a.pps) {
        Err(e) => (pv, g, Some(e)),
        Ok(sp) => slice_from(pv, g, a, sp, 0, a.first_addr(), a.slice_qp()),
    }
}

/// Values of the slice and its parameter sets that the syntax allows. In an SP slice whose
/// parameter is out of range, skipped macroblocks, which keep it, have no luma levels to scale.
pub open spec fn slice_ok(sd: SliceData, sh: SliceHeader, sps: Sps, pps: Pps) -> bool {
    &&& sps.wf()
    &&& sh.wf()
    &&& (if is_mbaff(sps, sh) {
        2 * sh.first_mb_in_slice
    } else {
        sh.first_mb_in_slice as int
    }) < MAX_ADDR
    &&& i32::MIN <= 26 + pps.pic_init_qp_minus26 + sh.slice_qp_delta <= i32::MAX
    &&& pps.slice_group_map matches Some(m) ==> m.len() <= MAX_ADDR
    &&& sh.slice_type is SP && !sh.sp_for_switch_flag && !(0 <= 26 + pps.pic_init_qp_minus26
        + sh.slice_qp_delta <= 51)
        ==> forall|i: int|
        0 <= i < sd.macroblocks@.len() && (#[trigger] sd.macroblocks@[i]).is_skip ==> cbp_luma(
            sd.macroblocks@[i],
        ) == 0
    &&& forall|i: int|
        0 <= i < sd.macroblocks@.len() && (#[trigger] sd.macroblocks@[i]).mb_type.intra() ==> mb_ok(
            sd.macroblocks@[i],
            sps.cat(),
        )
}

fn finish_mb(
    grid: &mut MbGrid,
    mb: &Macroblock,
    addr: u32,
    qp_y: i32,
    cat: u32,
    slice_id: i32,
    field: bool,
    sp: bool,
    Ghost(m): Ghost<MbArgs>,
)
    requires
        old(grid).wf(),
        m.mb == *mb,
        m.addr == addr,
        m.qp_y == qp_y,
        m.sps.cat() == cat,
        m.slice_id == slice_id,
        m.field == field,
        m.sp is Some == sp,
    ensures
        final(grid)@ == with_finished(old(grid)@, m),
        final(grid).wf(),
        final(grid)@.same_shape(old(grid)@),
{
    if (addr as usize) < grid.info.len() {
        let mut i = grid.info[addr as usize];
        let ghost before = i@;
        i.available = true;
        i.is_intra = mb.mb_type.is_intra();
        i.in_sp_si_slice = sp;
        i.is_i_pcm = mb.mb_type.is_i_pcm();
        i.is_intra_nxn = mb.mb_type.is_i_nxn();
        i.mb_type_raw = mb.mb_type_raw;
        i.qp_y = qp_y;
        i.cbp_luma = (mb.coded_block_pattern % 16) as u8;
        i.cbp_chroma = ((mb.coded_block_pattern / 16) % 4) as u8;
        i.transform_size_8x8_flag = mb.transform_size_8x8_flag;
        i.luma_nonzero_4x4 = compute_luma_nonzero_mask(mb);
        i.chroma_nonzero_4x4 = compute_chroma_nonzero_mask(mb, cat);
        if let Some(p) = &mb.mb_pred {
            i.intra_chroma_pred_mode = p.intra_chroma_pred_mode;
        }
        i.slice_id = slice_id;
        i.mb_field_decoding_flag = field;
        assert(i@ =~= finished(before, m));
        grid.put(addr, i);
    }
}

/// Reconstructs a slice without deblocking, for pictures of several slices: deblock the picture
/// once, after its last slice.
#[verifier::loop_isolation(false)]
pub fn reconstruct_slice_no_deblock<R: RefPicProvider>(
    slice_data: &SliceData,
    slice_header: &SliceHeader,
    sps: &Sps,
    pps: &Pps,
    ref_pics: &R,
    pic: &mut Picture,
    grid: &mut MbGrid,
) -> (r: Result<(), ReconstructError>)
    requires
        slice_ok(*slice_data, *slice_header, *sps, *pps),
        refs_ok(ref_pics.refs()),
        old(grid).wf(),
    ensures
        (final(pic).planes(), final(grid)@, outcome(r)) == slice_reconstructed(
            old(pic).planes(),
            old(grid)@,
            slice_args(*slice_data, *slice_header, *sps, *pps, ref_pics.refs(), *old(pic)),
        ),
        same_meta(*final(pic), *old(pic)),
        final(grid)@.same_shape(
            (GridV { mbaff: is_mbaff(*sps, *slice_header), ..old(grid)@ }),
        ),
        final(grid).wf(),
{
    let ghost a = slice_args(*slice_data, *slice_header, *sps, *pps, ref_pics.refs(), *pic);
    proof {
        reveal(slice_reconstructed);
    }
    let mbaff = sps.mb_adaptive_frame_field_flag && !slice_header.field_pic_flag;
    grid.mbaff_frame_flag = mbaff;
    assert(grid@ =~= (GridV { mbaff, ..old(grid)@ }));
    let mut prev_qp: i32 = (26 + pps.pic_init_qp_minus26 as i64
        + slice_header.slice_qp_delta as i64) as i32;
    let sp = match sp_si_ctx_for_slice(slice_header, sps, pps) {
        Ok(c) => c,
        Err(e) => {
            return Err(e);
        },
    };
    let cat = sps.chroma_array_type();
    let lists = luma_scaling_plane(sps, slice_header);
    let slice_id: i32 = slice_header.first_mb_in_slice as i32;
    let mut addr: u32 = if mbaff {
        2 * slice_header.first_mb_in_slice
    } else {
        slice_header.first_mb_in_slice
    };
    let total = slice_data.macroblocks.len();
    let ghost goal = slice_from(pic.planes(), grid@, a, sp, 0, addr as int, prev_qp as int);
    let mut i: usize = 0;
    while i < total
        invariant
            i <= total,
            addr < MAX_ADDR,
            grid.wf(),
            grid@.same_shape((GridV { mbaff, ..old(grid)@ })),
            same_meta(*pic, *old(pic)),
            sp is Some && 0 <= a.slice_qp() <= 51 ==> 0 <= prev_qp <= 51,
            goal == slice_from(
                pic.planes(),
                grid@,
                a,
                sp,
                i as int,
                addr as int,
                prev_qp as int,
            ),
        decreases total - i,
    {
        let mb = &slice_data.macroblocks[i];
        let field = i < slice_data.mb_field_decoding_flags.len()
            && slice_data.mb_field_decoding_flags[i];
        let qp_y = if mb.mb_type.is_i_pcm() || mb.is_skip {
            prev_qp
        } else {
            next_qp_y(prev_qp, mb.mb_qp_delta, sps.bit_depth_luma_minus8)
        };
        let field_scan = (mbaff && field) || slice_header.field_pic_flag;
        let ghost m = a.mb_args(i as int, addr as int, qp_y as int, sp);
        let ghost before = (pic.planes(), grid@);
        let ghost size = grid.info.len();
        proof {
            reveal(mb_step);
        }
        let res = if mb.mb_type.is_intra() {
            reconstruct_mb_intra(
                mb,
                addr,
                qp_y,
                sps,
                pps,
                pic,
                grid,
                mbaff,
                field,
                slice_id,
                field_scan,
                lists,
                sp,
            )
        } else {
            reconstruct_mb_inter(
                mb,
                addr,
                qp_y,
                slice_header,
                sps,
                pps,
                ref_pics,
                pic,
                grid,
                mbaff,
                field,
                slice_id,
                field_scan,
                lists,
                sp,
            )
        };
        match res {
            Ok(_) => {},
            Err(e) => {
                return Err(e);
            },
        }
        finish_mb(
            grid,
            mb,
            addr,
            qp_y,
            cat,
            slice_id,
            field,
            sp.is_some(),
            Ghost(m),
        );
        prev_qp = qp_y;
        let next = advance_mb_addr(addr, &pps.slice_group_map);
        if i + 1 >= total || next as usize >= grid.info.len() {
            return Ok(());
        }
        addr = next;
        i += 1;
    }
    Ok(())
}

/// Offsets that can be doubled where deblocking is on.
pub open spec fn offsets_ok(sh: SliceHeader) -> bool {
    sh.disable_deblocking_filter_idc != 1 ==> -0x4000_0000 <= sh.slice_alpha_c0_offset_div2
        <= 0x3fff_ffff && -0x4000_0000 <= sh.slice_beta_offset_div2 <= 0x3fff_ffff
}

/// The picture after deblocking with the offsets and flags of a slice.
pub open spec fn slice_deblocked(pv: PicV, g: GridV, a: SliceArgs) -> PicV {
    deblocked(
        pv,
        DeblockArgs {
            c: EdgeCtxV {
                g,
                mbaff: is_mbaff(a.sps, a.sh),
                field_pic: a.sh.field_pic_flag,
                flags: a.sd.mb_field_decoding_flags@,
            },
            alpha_off: (2 * a.sh.slice_alpha_c0_offset_div2) as i32,
            beta_off: (2 * a.sh.slice_beta_offset_div2) as i32,
            bit_depth_y: (8 + a.sps.bit_depth_luma_minus8) as u32,
            bit_depth_c: (8 + a.sps.bit_depth_chroma_minus8) as u32,
            pps: a.pps,
            cat: a.pic_cat,
        },
    )
}

/// Picture and grid after a slice: reconstructed, then deblocked unless the slice turns
/// deblocking off.
pub open spec fn slice_finished(pv: PicV, g: GridV, a: SliceArgs) -> MbStep {
    match slice_reconstructed(pv, g, a) {
        (q, h, Some(e)) => (q, h, Some(e)),
        (q, h, None) => if a.sh.disable_deblocking_filter_idc == 1 {
            (q, h, None)
        } else {
            (slice_deblocked(q, h, a), h, None)
        },
    }
}

/// Reconstructs a slice and deblocks the picture, for pictures of one slice.
pub fn reconstruct_slice<R: RefPicProvider>(
    slice_data: &SliceData,
    slice_header: &SliceHeader,
    sps: &Sps,
    pps: &Pps,
    ref_pics: &R,
    pic: &mut Picture,
    grid: &mut MbGrid,
) -> (r: Result<(), ReconstructError>)
    requires
        slice_ok(*slice_data, *slice_header, *sps, *pps),
        offsets_ok(*slice_header),
        refs_ok(ref_pics.refs()),
        old(grid).wf(),
    ensures
        (final(pic).planes(), final(grid)@, outcome(r)) == slice_finished(
            old(pic).planes(),
            old(grid)@,
            slice_args(*slice_data, *slice_header, *sps, *pps, ref_pics.refs(), *old(pic)),
        ),
        same_meta(*final(pic), *old(pic)),
        final(grid)@.same_shape(
            (GridV { mbaff: is_mbaff(*sps, *slice_header), ..old(grid)@ }),
        ),
        final(grid).wf(),
{
    match reconstruct_slice_no_deblock(
        slice_data,
        slice_header,
        sps,
        pps,
        ref_pics,
        pic,
        grid,
    ) {
        Ok(_) => {},
        Err(e) => {
            return Err(e);
        },
    }
    if slice_header.disable_deblocking_filter_idc != 1 {
        deblock_picture_full(
            pic,
            grid,
            2 * slice_header.slice_alpha_c0_offset_div2,
            2 * slice_header.slice_beta_offset_div2,
            8 + sps.bit_depth_luma_minus8,
            8 + sps.bit_depth_chroma_minus8,
            pps,
            sps.mb_adaptive_frame_field_flag && !slice_header.field_pic_flag,
            slice_header.field_pic_flag,
            &slice_data.mb_field_decoding_flags,
        );
    }
    Ok(())
}

/// The arguments of a slice.
pub open spec fn slice_args(
    sd: SliceData,
    sh: SliceHeader,
    sps: Sps,
    pps: Pps,
    refs: RefsV,
    pic: Picture,
) -> SliceArgs {
    SliceArgs {
        sd,
        sh,
        sps,
        pps,
        refs,
        cur: cur_pic(pic),
        pic_cat: pic.chroma_array_type,
        pic_w: pic.luma@.w as u32,
    }
}

} // verus!
