//! Laws of slices.
use crate::error::ErrV;
use crate::geometry::{mb_h_c, mb_w_c};
use crate::math::min_of;
use crate::mb_address::{lemma_div_mod_bound, MAX_ADDR};
use crate::mb_grid::GridV;
use crate::picture::PicV;
use crate::pps::Pps;
use crate::recon_mb_intra::{
    intra_mb, law_pcm_chroma_is_copied, law_pcm_luma_is_copied, mb_ok, MbArgs, SpSiCtx,
};
use crate::reconstruct::{
    is_mbaff, law_next_qp_in_range, luma_list, mb_step, slice_finished, slice_from,
    slice_reconstructed, sp_si_ctx, SliceArgs,
};
use crate::slice_header::SliceHeader;
use crate::sps::Sps;
use crate::transform::bd_offset;
use vstd::prelude::*;

verus! {

/// With deblocking turned off, a slice is only reconstructed.
pub proof fn law_deblocking_can_be_turned_off(pv: PicV, g: GridV, a: SliceArgs)
    requires
        a.sh.disable_deblocking_filter_idc == 1,
    ensures
        slice_finished(pv, g, a) == slice_reconstructed(pv, g, a),
{
}

/// Deblocking changes neither the grid nor whether the slice succeeds, and a failed slice is not
/// deblocked.
pub proof fn law_deblocking_follows_success(pv: PicV, g: GridV, a: SliceArgs)
    ensures
        slice_finished(pv, g, a).1 == slice_reconstructed(pv, g, a).1,
        slice_finished(pv, g, a).2 == slice_reconstructed(pv, g, a).2,
        slice_reconstructed(pv, g, a).2 is Some ==> slice_finished(pv, g, a)
            == slice_reconstructed(pv, g, a),
{
}

/// A slice without macroblocks changes no sample and no record.
pub proof fn law_empty_slice_keeps_all(pv: PicV, g: GridV, a: SliceArgs)
    requires
        a.sd.macroblocks@.len() == 0,
    ensures
        slice_reconstructed(pv, g, a).0 == pv,
        slice_reconstructed(pv, g, a).1.info == g.info,
{
    reveal(slice_reconstructed);
}

/// Only SP and SI slices can be refused for how they are coded.
pub proof fn law_plain_slices_are_accepted(sh: SliceHeader, sps: Sps, pps: Pps)
    requires
        sh.slice_type is I || sh.slice_type is P || sh.slice_type is B,
    ensures
        sp_si_ctx(sh, sps, pps) == Ok::<Option<SpSiCtx>, ErrV>(None),
{
}

/// A slice that is refused changes no sample and no record.
pub proof fn law_refused_slice_keeps_all(pv: PicV, g: GridV, a: SliceArgs)
    requires
        sp_si_ctx(a.sh, a.sps, a.pps) is Err,
    ensures
        slice_finished(pv, g, a).0 == pv,
        slice_finished(pv, g, a).1.info == g.info,
        slice_finished(pv, g, a).2 is Some,
{
    reveal(slice_reconstructed);
}

/// The parameter of every macroblock stays in range.
pub proof fn law_macroblock_qp_in_range(a: SliceArgs, i: int, prev: int)
    requires
        -bd_offset(a.sps.bit_depth_luma_minus8) <= prev <= 51,
    ensures
        -bd_offset(a.sps.bit_depth_luma_minus8) <= a.qp(i, prev) <= 51,
{
    law_next_qp_in_range(
        prev,
        a.sd.macroblocks@[i].mb_qp_delta as int,
        a.sps.bit_depth_luma_minus8,
    );
}

/// Uncompressed and skipped macroblocks keep the parameter of the one before.
pub proof fn law_qp_passes_through(a: SliceArgs, i: int, prev: int)
    requires
        a.sd.macroblocks@[i].mb_type is IPcm || a.sd.macroblocks@[i].is_skip,
    ensures
        a.qp(i, prev) == prev,
{
}

/// A reconstructed macroblock is recorded as decoded, with its slice and its parameter.
pub proof fn law_macroblock_is_recorded(pv: PicV, g: GridV, a: SliceArgs, m: MbArgs)
    requires
        mb_step(pv, g, a, m).2 is None,
        m.addr < mb_step(pv, g, a, m).1.info.len(),
    ensures
        ({
            let i = mb_step(pv, g, a, m).1.info[m.addr as int];
            &&& i.available
            &&& i.slice_id == m.slice_id
            &&& i.qp_y == m.qp_y
            &&& i.is_intra == m.mb.mb_type.intra()
            &&& i.mb_field_decoding_flag == m.field
        }),
{
    reveal(mb_step);
}

/// All macroblocks of the slice are uncompressed frame macroblocks, and follow one another in
/// raster order inside a picture of the given grid.
pub open spec fn is_pcm_slice(a: SliceArgs, g: GridV) -> bool {
    &&& a.sps.wf()
    &&& !is_mbaff(a.sps, a.sh)
    &&& a.pps.slice_group_map is None
    &&& g.w >= 1
    &&& a.sh.first_mb_in_slice + a.sd.macroblocks@.len() <= g.info.len() <= MAX_ADDR
    &&& forall|i: int|
        0 <= i < a.sd.macroblocks@.len() ==> (#[trigger] a.sd.macroblocks@[i]).mb_type is IPcm
            && a.sd.macroblocks@[i].pcm_samples is Some && !a.field_flag(i) && mb_ok(
            a.sd.macroblocks@[i],
            a.sps.cat(),
        )
}

/// Number of the macroblock that covers a position of a plane in which macroblocks are `bw` by `bh`
/// samples, counted from the first of the slice.
pub open spec fn covering_mb(a: SliceArgs, w: int, bw: int, bh: int, x: int, y: int) -> int {
    (y / bh) * w + x / bw - a.sh.first_mb_in_slice
}

/// The macroblocks from number `j` on cover a position.
pub open spec fn is_covered(a: SliceArgs, w: int, bw: int, bh: int, j: int, x: int, y: int) -> bool {
    0 <= x && 0 <= y && x / bw < w && j <= covering_mb(a, w, bw, bh, x, y)
        < a.sd.macroblocks@.len()
}

/// Coded value of an uncompressed sample, at most the largest 16-bit value.
pub open spec fn pcm_value(s: Seq<u32>, bw: int, bh: int, x: int, y: int) -> int {
    min_of(s[(y % bh) * bw + x % bw] as int, 65535)
}

/// The planes after the uncompressed macroblocks from number `j` on, at one position.
pub open spec fn pcm_at(
    pv: PicV,
    q: PicV,
    a: SliceArgs,
    w: int,
    j: int,
    x: int,
    y: int,
) -> bool {
    let mbs = a.sd.macroblocks@;
    let (bw, bh) = (mb_w_c(a.sps.cat()), mb_h_c(a.sps.cat()));
    &&& (q.luma.at)(x, y) == if pv.luma.has(x, y) && is_covered(a, w, 16, 16, j, x, y) {
        pcm_value(mbs[covering_mb(a, w, 16, 16, x, y)].pcm_samples->0.luma@, 16, 16, x, y)
    } else {
        (pv.luma.at)(x, y)
    }
    &&& (q.cb.at)(x, y) == if bw > 0 && pv.cb.has(x, y) && is_covered(a, w, bw, bh, j, x, y) {
        pcm_value(mbs[covering_mb(a, w, bw, bh, x, y)].pcm_samples->0.chroma_cb@, bw, bh, x, y)
    } else {
        (pv.cb.at)(x, y)
    }
    &&& (q.cr.at)(x, y) == if bw > 0 && pv.cr.has(x, y) && is_covered(a, w, bw, bh, j, x, y) {
        pcm_value(mbs[covering_mb(a, w, bw, bh, x, y)].pcm_samples->0.chroma_cr@, bw, bh, x, y)
    } else {
        (pv.cr.at)(x, y)
    }
}

pub proof fn lemma_raster_place(w: int, addr: int, bw: int, bh: int, x: int, y: int)
    requires
        w >= 1,
        addr >= 0,
        bw == 8 || bw == 16,
        bh == 8 || bh == 16,
        0 <= x,
        0 <= y,
    ensures
        (0 <= x - (addr % w) * bw < bw && 0 <= y - (addr / w) * bh < bh) <==> (x / bw < w && (y
            / bh) * w + x / bw == addr),
        x / bw < w && (y / bh) * w + x / bw == addr ==> x - (addr % w) * bw == x % bw && y - (addr
            / w) * bh == y % bh,
{
    vstd::arithmetic::div_mod::lemma_fundamental_div_mod(addr, w);
    vstd::arithmetic::div_mod::lemma_mod_bound(addr, w);
    let (q, r) = (addr / w, addr % w);
    assert(w * q == q * w) by (nonlinear_arith);
    if x / bw < w && (y / bh) * w + x / bw == addr {
        vstd::arithmetic::div_mod::lemma_fundamental_div_mod_converse(addr, w, y / bh, x / bw);
    }
}

/// One uncompressed macroblock of the slice.
proof fn lemma_pcm_step(
    pv: PicV,
    g: GridV,
    a: SliceArgs,
    sp: Option<SpSiCtx>,
    j: int,
    qp: int,
    x: int,
    y: int,
)
    requires
        is_pcm_slice(a, g),
        0 <= j < a.sd.macroblocks@.len(),
    ensures
        ({
            let r = mb_step(pv, g, a, a.mb_args(j, a.sh.first_mb_in_slice + j, qp, sp));
            let mbs = a.sd.macroblocks@;
            let (bw, bh) = (mb_w_c(a.sps.cat()), mb_h_c(a.sps.cat()));
            let here = x >= 0 && y >= 0 && x / 16 < g.w && covering_mb(a, g.w, 16, 16, x, y) == j;
            let here_c = x >= 0 && y >= 0 && x / bw < g.w && covering_mb(a, g.w, bw, bh, x, y)
                == j;
            let s = mbs[j].pcm_samples->0;
            &&& r.2 is None
            &&& r.1.same_shape(g)
            &&& r.0.luma.same_size(pv.luma)
            &&& r.0.cb.same_size(pv.cb)
            &&& r.0.cr.same_size(pv.cr)
            &&& (r.0.luma.at)(x, y) == if pv.luma.has(x, y) && here {
                pcm_value(s.luma@, 16, 16, x, y)
            } else {
                (pv.luma.at)(x, y)
            }
            &&& (r.0.cb.at)(x, y) == if bw > 0 && pv.cb.has(x, y) && here_c {
                pcm_value(s.chroma_cb@, bw, bh, x, y)
            } else {
                (pv.cb.at)(x, y)
            }
            &&& (r.0.cr.at)(x, y) == if bw > 0 && pv.cr.has(x, y) && here_c {
                pcm_value(s.chroma_cr@, bw, bh, x, y)
            } else {
                (pv.cr.at)(x, y)
            }
        }),
{
    let addr = a.sh.first_mb_in_slice + j;
    let m = a.mb_args(j, addr, qp, sp);
    let l = luma_list(a.sps, a.sh);
    let (bw, bh) = (mb_w_c(a.sps.cat()), mb_h_c(a.sps.cat()));
    reveal(mb_step);
    reveal(intra_mb);
    let wr = m.writer(g);
    lemma_div_mod_bound(addr, g.w);
    assert(wr.mb_px == (addr % g.w) * 16 && wr.mb_py == (addr / g.w) * 16);
    law_pcm_luma_is_copied(pv, g, m, l, x, y);
    if x >= 0 && y >= 0 {
        lemma_raster_place(g.w, addr, 16, 16, x, y);
    }
    if bw > 0 {
        assert(wr.cx() == (addr % g.w) * bw && wr.cy() == (addr / g.w) * bh);
        law_pcm_chroma_is_copied(pv, g, m, l, x, y);
        if x >= 0 && y >= 0 {
            lemma_raster_place(g.w, addr, bw, bh, x, y);
        }
    }
}

proof fn lemma_pcm_slice_from(
    pv: PicV,
    g: GridV,
    a: SliceArgs,
    sp: Option<SpSiCtx>,
    j: int,
    prev_qp: int,
    x: int,
    y: int,
)
    requires
        is_pcm_slice(a, g),
        0 <= j <= a.sd.macroblocks@.len(),
    ensures
        ({
            let r = slice_from(pv, g, a, sp, j, a.sh.first_mb_in_slice + j, prev_qp);
            r.2 is None && pcm_at(pv, r.0, a, g.w, j, x, y)
        }),
    decreases a.sd.macroblocks@.len() - j,
{
    if j < a.sd.macroblocks@.len() {
        let addr = a.sh.first_mb_in_slice + j;
        let qp = a.qp(j, prev_qp);
        lemma_pcm_step(pv, g, a, sp, j, qp, x, y);
        let r = mb_step(pv, g, a, a.mb_args(j, addr, qp, sp));
        if j + 1 < a.sd.macroblocks@.len() {
            lemma_pcm_slice_from(r.0, r.1, a, sp, j + 1, qp, x, y);
        }
    }
}

/// A slice of uncompressed macroblocks is reconstructed exactly: every sample it covers gets the
/// coded value, at most the largest 16-bit value, whatever the bit depth, and every other sample
/// stays as it was.
pub proof fn law_pcm_slice_is_exact(pv: PicV, g: GridV, a: SliceArgs, x: int, y: int)
    requires
        is_pcm_slice(a, g),
        sp_si_ctx(a.sh, a.sps, a.pps) is Ok,
    ensures
        slice_reconstructed(pv, g, a).2 is None,
        pcm_at(pv, slice_reconstructed(pv, g, a).0, a, g.w, 0, x, y),
{
    reveal(slice_reconstructed);
    let h = GridV { mbaff: is_mbaff(a.sps, a.sh), ..g };
    if let Ok(sp) = sp_si_ctx(a.sh, a.sps, a.pps) {
        lemma_pcm_slice_from(pv, h, a, sp, 0, a.slice_qp(), x, y);
    }
}

/// Macroblocks of a slice follow one another: each starts from the picture, the grid and the
/// parameter that the one before it left, at the next address of its slice group.
pub proof fn law_macroblocks_follow(
    pv: PicV,
    g: GridV,
    a: SliceArgs,
    sp: Option<SpSiCtx>,
    i: int,
    addr: int,
    prev: int,
)
    requires
        0 <= i,
        i + 1 < a.sd.macroblocks@.len(),
    ensures
        ({
            let mb = a.sd.macroblocks@[i];
            let qp = if mb.mb_type is IPcm || mb.is_skip {
                prev
            } else {
                crate::reconstruct::next_qp(
                    prev,
                    mb.mb_qp_delta as int,
                    a.sps.bit_depth_luma_minus8,
                )
            };
            let next = match a.pps.slice_group_map {
                Some(m) => crate::mb_address::next_addr(Some(m@), addr),
                None => addr + 1,
            };
            let one = mb_step(pv, g, a, a.mb_args(i, addr, qp, sp));
            let all = slice_from(pv, g, a, sp, i, addr, prev);
            &&& one.2 is Some ==> all == one
            &&& one.2 is None && next < one.1.info.len() ==> all == slice_from(
                one.0,
                one.1,
                a,
                sp,
                i + 1,
                next,
                qp,
            )
        }),
{
}

} // verus!
