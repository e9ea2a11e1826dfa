//! Laws of what a slice leaves unchanged.
use crate::geometry::{mb_h_c, mb_w_c, MbWriter};
use crate::locality_laws::{
    is_placed, keeps_others, law_macroblock_keeps_others, same_at, same_but,
};
use crate::mb_address::{lemma_div_mod_bound, map_view, next_addr, MAX_ADDR};
use crate::mb_grid::GridV;
use crate::picture::PicV;
use crate::recon_mb_intra::{sp_ok, SpSiCtx};
use crate::reconstruct::{
    is_mbaff, mb_step, slice_from, slice_reconstructed, sp_si_ctx, SliceArgs,
};
use crate::slice_laws::{covering_mb, lemma_raster_place};
use vstd::prelude::*;

verus! {

/// Address of macroblock number `k` of a slice.
pub open spec fn slice_addr(a: SliceArgs, k: int) -> int
    decreases k,
{
    if k <= 0 {
        a.first_addr()
    } else {
        next_addr(map_view(a.pps.slice_group_map), slice_addr(a, k - 1))
    }
}

/// Where macroblock number `k` of a slice writes its samples.
pub open spec fn slice_writer(a: SliceArgs, g: GridV, k: int) -> MbWriter {
    a.mb_args(k, slice_addr(a, k), 0, None).writer(g)
}

/// Number of macroblocks that are attempted, from number `i` on: up to one that fails, or the last
/// one that has a place in the picture.
pub open spec fn attempted_from(
    pv: PicV,
    g: GridV,
    a: SliceArgs,
    sp: Option<SpSiCtx>,
    i: int,
    addr: int,
    prev_qp: int,
) -> int
    decreases a.sd.macroblocks@.len() - i,
{
    if i >= a.sd.macroblocks@.len() {
        i
    } else {
        let qp = a.qp(i, prev_qp);
        match mb_step(pv, g, a, a.mb_args(i, addr, qp, sp)) {
            (q, h, Some(_)) => i + 1,
            (q, h, None) => {
                let next = next_addr(map_view(a.pps.slice_group_map), addr);
                if i + 1 < a.sd.macroblocks@.len() && next < h.info.len() {
                    attempted_from(q, h, a, sp, i + 1, next, qp)
                } else {
                    i + 1
                }
            },
        }
    }
}

/// Number of macroblocks of a slice that are attempted.
#[verifier::opaque]
pub open spec fn attempted(pv: PicV, g: GridV, a: SliceArgs) -> int {
    match sp_si_ctx(a.sh, a.sps, a.pps) {
        Err(_) => 0,
        Ok(sp) => attempted_from(
            pv,
            GridV { mbaff: is_mbaff(a.sps, a.sh), ..g },
            a,
            sp,
            0,
            a.first_addr(),
            a.slice_qp(),
        ),
    }
}

/// A slice of a picture with the given grid, its parameters valid.
pub open spec fn is_slice_of(a: SliceArgs, g: GridV) -> bool {
    a.sps.wf() && g.w >= 1 && g.info.len() <= MAX_ADDR && a.first_addr() <= MAX_ADDR
}

/// The macroblocks from number `j` up to `e` write no luma sample to a position.
pub open spec fn no_luma(a: SliceArgs, g: GridV, j: int, e: int, x: int, y: int) -> bool {
    forall|k: int| j <= k < e ==> !(#[trigger] slice_writer(a, g, k)).has_luma(x, y)
}

/// The macroblocks from number `j` up to `e` write no chroma sample to a position.
pub open spec fn no_chroma(a: SliceArgs, g: GridV, j: int, e: int, x: int, y: int) -> bool {
    forall|k: int| j <= k < e ==> !(#[trigger] slice_writer(a, g, k)).has_chroma(x, y)
}

/// None of the macroblocks from number `j` up to `e` is at an address.
pub open spec fn no_record(a: SliceArgs, j: int, e: int, addr: int) -> bool {
    forall|k: int| j <= k < e ==> #[trigger] slice_addr(a, k) != addr
}

proof fn lemma_step_is_placed(
    g: GridV,
    a: SliceArgs,
    sp: Option<SpSiCtx>,
    i: int,
    qp: int,
)
    requires
        is_slice_of(a, g),
        sp_ok(sp, a.sps),
        0 <= slice_addr(a, i) <= MAX_ADDR,
    ensures
        is_placed(g, a.mb_args(i, slice_addr(a, i), qp, sp)),
        a.mb_args(i, slice_addr(a, i), qp, sp).writer(g) == slice_writer(a, g, i),
        a.mb_args(i, slice_addr(a, i), qp, sp).addr == slice_addr(a, i),
{
}

proof fn lemma_slice_keeps_others(
    pv: PicV,
    g: GridV,
    a: SliceArgs,
    sp: Option<SpSiCtx>,
    i: int,
    prev_qp: int,
    x: int,
    y: int,
    at: int,
)
    requires
        is_slice_of(a, g),
        sp_ok(sp, a.sps),
        0 <= i,
        0 <= slice_addr(a, i) <= MAX_ADDR,
    ensures
        ({
            let r = slice_from(pv, g, a, sp, i, slice_addr(a, i), prev_qp);
            let e = attempted_from(pv, g, a, sp, i, slice_addr(a, i), prev_qp);
            &&& r.1.same_shape(g)
            &&& i < a.sd.macroblocks@.len() ==> i < e <= a.sd.macroblocks@.len()
            &&& no_luma(a, g, i, e, x, y) ==> same_at(pv.luma, r.0.luma, x, y)
            &&& no_chroma(a, g, i, e, x, y) ==> same_at(pv.cb, r.0.cb, x, y) && same_at(
                pv.cr,
                r.0.cr,
                x,
                y,
            )
            &&& no_record(a, i, e, at) ==> r.1.get(at) == g.get(at)
        }),
    decreases a.sd.macroblocks@.len() - i,
{
    let n = a.sd.macroblocks@.len();
    if i < n {
        let addr = slice_addr(a, i);
        let qp = a.qp(i, prev_qp);
        let m = a.mb_args(i, addr, qp, sp);
        lemma_step_is_placed(g, a, sp, i, qp);
        law_macroblock_keeps_others(pv, g, a, m, x, y);
        let (q, h, err) = mb_step(pv, g, a, m);
        assert(same_but(g, h, addr));
        let e = attempted_from(pv, g, a, sp, i, addr, prev_qp);
        let next = next_addr(map_view(a.pps.slice_group_map), addr);
        assert(slice_addr(a, i + 1) == next);
        if err is None && i + 1 < n && next < h.info.len() {
            lemma_next_is_later(a, addr);
            lemma_slice_keeps_others(q, h, a, sp, i + 1, qp, x, y, at);
            assert forall|k: int| #[trigger] slice_writer(a, h, k) == slice_writer(a, g, k) by {}
            assert(i < e);
            assert(no_luma(a, g, i, e, x, y) ==> !slice_writer(a, g, i).has_luma(x, y));
            assert(no_chroma(a, g, i, e, x, y) ==> !slice_writer(a, g, i).has_chroma(x, y));
            assert(no_luma(a, g, i, e, x, y) ==> no_luma(a, h, i + 1, e, x, y));
            assert(no_chroma(a, g, i, e, x, y) ==> no_chroma(a, h, i + 1, e, x, y));
            assert(no_record(a, i, e, at) ==> no_record(a, i + 1, e, at) && addr != at);
            assert(at != addr ==> h.get(at) == g.get(at));
        } else {
            assert(e == i + 1);
            assert(no_luma(a, g, i, e, x, y) ==> !slice_writer(a, g, i).has_luma(x, y));
            assert(no_chroma(a, g, i, e, x, y) ==> !slice_writer(a, g, i).has_chroma(x, y));
            assert(no_record(a, i, e, at) ==> addr != at);
            assert(at != addr ==> h.get(at) == g.get(at));
        }
    }
}

proof fn lemma_next_is_later(a: SliceArgs, addr: int)
    requires
        0 <= addr,
    ensures
        next_addr(map_view(a.pps.slice_group_map), addr) > addr,
{
    if let Some(m) = map_view(a.pps.slice_group_map) {
        if addr < m.len() {
            crate::mb_address::law_next_address_in_group(m, addr, addr);
        }
    }
}

/// A slice changes only the samples and the records of the macroblocks that it attempts; after a
/// failure, none of a later macroblock.
pub proof fn law_slice_keeps_others(pv: PicV, g: GridV, a: SliceArgs, x: int, y: int, at: int)
    requires
        is_slice_of(a, g),
    ensures
        ({
            let r = slice_reconstructed(pv, g, a);
            let e = attempted(pv, g, a);
            &&& 0 <= e <= a.sd.macroblocks@.len()
            &&& no_luma(a, g, 0, e, x, y) ==> same_at(pv.luma, r.0.luma, x, y)
            &&& no_chroma(a, g, 0, e, x, y) ==> same_at(pv.cb, r.0.cb, x, y) && same_at(
                pv.cr,
                r.0.cr,
                x,
                y,
            )
            &&& no_record(a, 0, e, at) ==> r.1.get(at) == g.get(at)
        }),
{
    reveal(slice_reconstructed);
    reveal(attempted);
    let h = GridV { mbaff: is_mbaff(a.sps, a.sh), ..g };
    if let Ok(sp) = sp_si_ctx(a.sh, a.sps, a.pps) {
        lemma_slice_keeps_others(pv, h, a, sp, 0, a.slice_qp(), x, y, at);
        assert forall|k: int| #[trigger] slice_writer(a, h, k) == slice_writer(a, g, k) by {}
        let e = attempted(pv, g, a);
        assert(no_luma(a, g, 0, e, x, y) ==> no_luma(a, h, 0, e, x, y));
        assert(no_chroma(a, g, 0, e, x, y) ==> no_chroma(a, h, 0, e, x, y));
    }
}

/// The same slice with only the first `i` of its macroblocks.
pub open spec fn is_start_of(b: SliceArgs, a: SliceArgs, i: int) -> bool {
    &&& 0 <= i <= a.sd.macroblocks@.len()
    &&& b.sd.macroblocks@ == a.sd.macroblocks@.take(i)
    &&& b.sd.mb_field_decoding_flags@ == a.sd.mb_field_decoding_flags@
    &&& b.sh == a.sh && b.sps == a.sps && b.pps == a.pps
    &&& b.refs == a.refs && b.cur == a.cur && b.pic_cat == a.pic_cat && b.pic_w == a.pic_w
}

proof fn lemma_failure_after_start(
    pv: PicV,
    g: GridV,
    a: SliceArgs,
    b: SliceArgs,
    sp: Option<SpSiCtx>,
    j: int,
    prev_qp: int,
    x: int,
    y: int,
)
    requires
        is_slice_of(a, g),
        sp_ok(sp, a.sps),
        0 <= j,
        0 <= slice_addr(a, j) <= MAX_ADDR,
        slice_from(pv, g, a, sp, j, slice_addr(a, j), prev_qp).2 is Some,
        is_start_of(
            b,
            a,
            attempted_from(pv, g, a, sp, j, slice_addr(a, j), prev_qp) - 1,
        ),
    ensures
        ({
            let i = attempted_from(pv, g, a, sp, j, slice_addr(a, j), prev_qp) - 1;
            let r = slice_from(pv, g, a, sp, j, slice_addr(a, j), prev_qp);
            let s = slice_from(pv, g, b, sp, j, slice_addr(a, j), prev_qp);
            &&& j <= i
            &&& s.2 is None
            &&& s.1.same_shape(g)
            &&& keeps_others(
                s.0,
                s.1,
                r.0,
                r.1,
                slice_writer(a, g, i),
                slice_addr(a, i),
                x,
                y,
            )
        }),
    decreases a.sd.macroblocks@.len() - j,
{
    let addr = slice_addr(a, j);
    let qp = a.qp(j, prev_qp);
    let m = a.mb_args(j, addr, qp, sp);
    let i = attempted_from(pv, g, a, sp, j, addr, prev_qp) - 1;
    let n = a.sd.macroblocks@.len();
    lemma_step_is_placed(g, a, sp, j, qp);
    law_macroblock_keeps_others(pv, g, a, m, x, y);
    let (q, h, err) = mb_step(pv, g, a, m);
    if err is None {
        let next = next_addr(map_view(a.pps.slice_group_map), addr);
        assert(slice_addr(a, j + 1) == next);
        assert(j + 1 < n && next < h.info.len());
        lemma_next_is_later(a, addr);
        assert(i == attempted_from(q, h, a, sp, j + 1, next, qp) - 1);
        lemma_failure_after_start(q, h, a, b, sp, j + 1, qp, x, y);
        assert(slice_writer(a, h, i) == slice_writer(a, g, i));
        assert(b.sd.macroblocks@[j] == a.sd.macroblocks@[j]);
        assert(b.mb_args(j, addr, qp, sp) == m);
        assert(b.qp(j, prev_qp) == qp);
        reveal(mb_step);
        assert(mb_step(pv, g, b, m) == mb_step(pv, g, a, m));
    }
}

/// When a macroblock of a slice fails, nothing is undone: apart from the samples and the record of
/// that macroblock, the picture and the grid are what the macroblocks before it alone give.
pub proof fn law_failed_slice_keeps_its_start(
    pv: PicV,
    g: GridV,
    a: SliceArgs,
    b: SliceArgs,
    x: int,
    y: int,
)
    requires
        is_slice_of(a, g),
        sp_si_ctx(a.sh, a.sps, a.pps) is Ok,
        slice_reconstructed(pv, g, a).2 is Some,
        is_start_of(b, a, attempted(pv, g, a) - 1),
    ensures
        ({
            let i = attempted(pv, g, a) - 1;
            let r = slice_reconstructed(pv, g, a);
            let s = slice_reconstructed(pv, g, b);
            &&& s.2 is None
            &&& keeps_others(
                s.0,
                s.1,
                r.0,
                r.1,
                slice_writer(a, g, i),
                slice_addr(a, i),
                x,
                y,
            )
        }),
{
    reveal(slice_reconstructed);
    reveal(attempted);
    let h = GridV { mbaff: is_mbaff(a.sps, a.sh), ..g };
    if let Ok(sp) = sp_si_ctx(a.sh, a.sps, a.pps) {
        lemma_failure_after_start(pv, h, a, b, sp, 0, a.slice_qp(), x, y);
        let i = attempted(pv, g, a) - 1;
        assert(slice_writer(a, h, i) == slice_writer(a, g, i));
    }
}

/// A slice of frame macroblocks that follow one another in raster order inside the picture.
pub open spec fn is_raster_slice(a: SliceArgs, g: GridV) -> bool {
    &&& a.sps.wf()
    &&& !is_mbaff(a.sps, a.sh)
    &&& a.pps.slice_group_map is None
    &&& g.w >= 1
    &&& a.sh.first_mb_in_slice + a.sd.macroblocks@.len() <= g.info.len() <= MAX_ADDR
    &&& forall|i: int| !#[trigger] a.field_flag(i)
}

/// Macroblock number `i` of a raster slice covers a position of a plane in which macroblocks are
/// `bw` by `bh` samples.
pub open spec fn covers_at(
    a: SliceArgs,
    w: int,
    bw: int,
    bh: int,
    i: int,
    x: int,
    y: int,
) -> bool {
    0 <= x && 0 <= y && x / bw < w && covering_mb(a, w, bw, bh, x, y) == i
}

/// The macroblocks of a raster slice before number `e` cover a position of a plane in which
/// macroblocks are `bw` by `bh` samples.
pub open spec fn covered_before(
    a: SliceArgs,
    w: int,
    bw: int,
    bh: int,
    e: int,
    x: int,
    y: int,
) -> bool {
    0 <= x && 0 <= y && x / bw < w && 0 <= covering_mb(a, w, bw, bh, x, y) < e
}

proof fn lemma_raster_addr(a: SliceArgs, k: int)
    requires
        !is_mbaff(a.sps, a.sh),
        a.pps.slice_group_map is None,
        0 <= k,
    ensures
        slice_addr(a, k) == a.sh.first_mb_in_slice + k,
    decreases k,
{
    if k > 0 {
        lemma_raster_addr(a, k - 1);
    }
}

/// A macroblock of a raster slice writes exactly the samples that it covers.
proof fn lemma_raster_writer(a: SliceArgs, g: GridV, k: int, x: int, y: int)
    requires
        is_raster_slice(a, g),
        0 <= k < a.sd.macroblocks@.len(),
    ensures
        slice_writer(a, g, k).has_luma(x, y) == covers_at(a, g.w, 16, 16, k, x, y),
        ({
            let (bw, bh) = (mb_w_c(a.sps.cat()), mb_h_c(a.sps.cat()));
            slice_writer(a, g, k).has_chroma(x, y) == (bw > 0 && covers_at(
                a,
                g.w,
                bw,
                bh,
                k,
                x,
                y,
            ))
        }),
{
    lemma_raster_addr(a, k);
    let addr = slice_addr(a, k);
    lemma_div_mod_bound(addr, g.w);
    assert(!a.field_flag(k));
    let wr = slice_writer(a, g, k);
    assert(wr.mb_px == (addr % g.w) * 16 && wr.mb_py == (addr / g.w) * 16);
    let (bw, bh) = (mb_w_c(a.sps.cat()), mb_h_c(a.sps.cat()));
    if x >= 0 && y >= 0 {
        lemma_raster_place(g.w, addr, 16, 16, x, y);
        if bw > 0 {
            lemma_raster_place(g.w, addr, bw, bh, x, y);
        }
    }
    if bw > 0 {
        assert(wr.cx() == (addr % g.w) * bw && wr.cy() == (addr / g.w) * bh);
    }
}

/// A slice in raster order changes no sample and no record of a macroblock outside the addresses
/// from its first on, as many as it has macroblocks, or as it attempted when one failed.
pub proof fn law_raster_slice_keeps_others(
    pv: PicV,
    g: GridV,
    a: SliceArgs,
    x: int,
    y: int,
    at: int,
)
    requires
        is_raster_slice(a, g),
    ensures
        ({
            let r = slice_reconstructed(pv, g, a);
            let e = attempted(pv, g, a);
            let f = a.sh.first_mb_in_slice as int;
            let (bw, bh) = (mb_w_c(a.sps.cat()), mb_h_c(a.sps.cat()));
            &&& 0 <= e <= a.sd.macroblocks@.len()
            &&& !covered_before(a, g.w, 16, 16, e, x, y) ==> same_at(pv.luma, r.0.luma, x, y)
            &&& bw == 0 || !covered_before(a, g.w, bw, bh, e, x, y) ==> same_at(
                pv.cb,
                r.0.cb,
                x,
                y,
            ) && same_at(pv.cr, r.0.cr, x, y)
            &&& !(f <= at < f + e) ==> r.1.get(at) == g.get(at)
        }),
{
    law_slice_keeps_others(pv, g, a, x, y, at);
    let e = attempted(pv, g, a);
    let (bw, bh) = (mb_w_c(a.sps.cat()), mb_h_c(a.sps.cat()));
    assert forall|k: int| 0 <= k < e implies (#[trigger] slice_writer(a, g, k)).has_luma(x, y)
        == covers_at(a, g.w, 16, 16, k, x, y) by {
        lemma_raster_writer(a, g, k, x, y);
    }
    assert forall|k: int| 0 <= k < e implies (#[trigger] slice_writer(a, g, k)).has_chroma(x, y)
        == (bw > 0 && covers_at(a, g.w, bw, bh, k, x, y)) by {
        lemma_raster_writer(a, g, k, x, y);
    }
    assert forall|k: int| 0 <= k < e implies #[trigger] slice_addr(a, k)
        == a.sh.first_mb_in_slice + k by {
        lemma_raster_addr(a, k);
    }
    assert(!covered_before(a, g.w, 16, 16, e, x, y) ==> no_luma(a, g, 0, e, x, y));
    assert(bw == 0 || !covered_before(a, g.w, bw, bh, e, x, y) ==> no_chroma(
        a,
        g,
        0,
        e,
        x,
        y,
    ));
    let f = a.sh.first_mb_in_slice as int;
    assert(!(f <= at < f + e) ==> no_record(a, 0, e, at));
}

/// When macroblock number `i` of a slice in raster order fails, every sample and every record of
/// another macroblock is what the first `i` macroblocks alone give.
pub proof fn law_failed_raster_slice_keeps_its_start(
    pv: PicV,
    g: GridV,
    a: SliceArgs,
    b: SliceArgs,
    x: int,
    y: int,
    at: int,
)
    requires
        is_raster_slice(a, g),
        sp_si_ctx(a.sh, a.sps, a.pps) is Ok,
        slice_reconstructed(pv, g, a).2 is Some,
        is_start_of(b, a, attempted(pv, g, a) - 1),
    ensures
        ({
            let i = attempted(pv, g, a) - 1;
            let r = slice_reconstructed(pv, g, a);
            let s = slice_reconstructed(pv, g, b);
            let (bw, bh) = (mb_w_c(a.sps.cat()), mb_h_c(a.sps.cat()));
            &&& 0 <= i < a.sd.macroblocks@.len()
            &&& s.2 is None
            &&& !covers_at(a, g.w, 16, 16, i, x, y) ==> same_at(s.0.luma, r.0.luma, x, y)
            &&& bw == 0 || !covers_at(a, g.w, bw, bh, i, x, y) ==> same_at(
                s.0.cb,
                r.0.cb,
                x,
                y,
            ) && same_at(s.0.cr, r.0.cr, x, y)
            &&& at != a.sh.first_mb_in_slice + i ==> r.1.get(at) == s.1.get(at)
        }),
{
    law_slice_keeps_others(pv, g, a, x, y, at);
    law_failed_slice_keeps_its_start(pv, g, a, b, x, y);
    let i = attempted(pv, g, a) - 1;
    lemma_raster_addr(a, i);
    lemma_raster_writer(a, g, i, x, y);
}

/// A slice in raster order that succeeds has attempted all its macroblocks.
pub proof fn law_raster_slice_is_complete(pv: PicV, g: GridV, a: SliceArgs)
    requires
        is_raster_slice(a, g),
        slice_reconstructed(pv, g, a).2 is None,
    ensures
        attempted(pv, g, a) == a.sd.macroblocks@.len(),
{
    reveal(slice_reconstructed);
    reveal(attempted);
    let h = GridV { mbaff: is_mbaff(a.sps, a.sh), ..g };
    if let Ok(sp) = sp_si_ctx(a.sh, a.sps, a.pps) {
        lemma_raster_complete(pv, h, a, sp, 0, a.slice_qp());
    }
}

proof fn lemma_raster_complete(
    pv: PicV,
    g: GridV,
    a: SliceArgs,
    sp: Option<SpSiCtx>,
    i: int,
    prev_qp: int,
)
    requires
        is_raster_slice(a, g),
        sp_ok(sp, a.sps),
        0 <= i <= a.sd.macroblocks@.len(),
        slice_from(pv, g, a, sp, i, a.sh.first_mb_in_slice + i, prev_qp).2 is None,
    ensures
        attempted_from(pv, g, a, sp, i, a.sh.first_mb_in_slice + i, prev_qp)
            == a.sd.macroblocks@.len(),
    decreases a.sd.macroblocks@.len() - i,
{
    if i < a.sd.macroblocks@.len() {
        let addr = a.sh.first_mb_in_slice + i;
        let qp = a.qp(i, prev_qp);
        let m = a.mb_args(i, addr, qp, sp);
        lemma_raster_addr(a, i);
        lemma_step_is_placed(g, a, sp, i, qp);
        law_macroblock_keeps_others(pv, g, a, m, 0, 0);
        let (q, h, err) = mb_step(pv, g, a, m);
        if i + 1 < a.sd.macroblocks@.len() {
            lemma_raster_complete(q, h, a, sp, i + 1, qp);
        }
    }
}

} // verus!
