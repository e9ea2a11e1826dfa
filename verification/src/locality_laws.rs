//! Laws of what a macroblock leaves unchanged.
use crate::direct::CurPic;
use crate::geometry::{mb_h_c, mb_w_c, LUMA_4X4_XY, LUMA_8X8_XY, MbWriter};
use crate::inter_partition::{partition_step, placed, InterArgs, PredV};
use crate::intra_modes::{mode4, mode8};
use crate::intra_pred::{
    predict_16x16_spec, predict_chroma_spec, predict_nxn_spec, smooth8, IntraNxNMode,
};
use crate::macroblock_layer::{Macroblock, MbPred, MbType, PcmSamples};
use crate::mb_address::{lemma_div_mod_bound, MAX_ADDR};
use crate::mb_grid::GridV;
use crate::neighbours::{gather, tr_decoded4};
use crate::partition_mvs::InterPartition;
use crate::partitions::{partitions, PartArgs};
use crate::picture::PicV;
use crate::plane::PlaneV;
use crate::recon_blocks::{block4, block8, mosaic, put_block, samples4, samples8, PlaneCtx};
use crate::recon_intra::{
    chroma4_from, chroma8_from, chroma_nxn_444, chroma_plane, luma4_from, luma8_from, luma_nxn,
    modes4_of, modes8_of, plane_16x16, sp_chroma_samples,
};
use crate::recon_mb_inter::{
    empty_pred, inter_args, inter_mb, inter_samples, inter_start, partitions_from, sp_luma_samples,
};
use crate::recon_mb_intra::{
    chroma_mode, intra_chroma, intra_mb, intra_start, mode_16x16, pcm_chroma, pcm_values,
    si_chroma_qs, sp_ok, MbArgs,
};
use crate::reconstruct::{luma_list, mb_step, with_finished, SliceArgs};
use crate::ref_store::RefsV;
use crate::residual::{cbp_chroma, cbp_luma, clipped, dc_levels, levels4, levels8, reconstructed};
use crate::slice_header::SliceHeader;
use crate::transform::{residual4x4, weights4, weights8};
use vstd::prelude::*;

verus! {

/// A position of a plane belongs to the block of `w` by `h` samples of a macroblock whose first
/// sample is at `(wx, wy)` and whose rows are `step` picture rows apart.
pub open spec fn in_area(wx: int, wy: int, step: int, w: int, h: int, x: int, y: int) -> bool {
    0 <= x - wx < w && 0 <= y - wy && (y - wy) % step == 0 && (y - wy) / step < h
}

/// A plane of the same size with the same sample at a position.
pub open spec fn same_at(p: PlaneV, q: PlaneV, x: int, y: int) -> bool {
    q.same_size(p) && (q.at)(x, y) == (p.at)(x, y)
}

/// The context writes nothing to a position with its block of `w` by `h` samples.
pub open spec fn avoids(c: PlaneCtx, w: int, h: int, x: int, y: int) -> bool {
    (c.step == 1 || c.step == 2) && !in_area(
        c.wx as int,
        c.wy as int,
        c.step as int,
        w,
        h,
        x,
        y,
    )
}

proof fn lemma_put_outside(
    p: PlaneV,
    c: PlaneCtx,
    x0: int,
    y0: int,
    w: int,
    h: int,
    vals: Seq<int>,
    mw: int,
    mh: int,
    x: int,
    y: int,
)
    requires
        avoids(c, mw, mh, x, y),
        0 <= x0 && x0 + w <= mw,
        0 <= y0 && y0 + h <= mh,
        0 < w,
        0 <= h,
        vals.len() <= w * h,
    ensures
        same_at(p, put_block(p, c, x0, y0, w, vals), x, y),
{
    let (dx, dy) = (x - c.wx - x0, y - c.wy - y0 * c.step);
    let row = dy / (c.step as int);
    assert(y0 * c.step == if c.step == 2 {
        2 * y0
    } else {
        y0
    }) by (nonlinear_arith)
        requires
            c.step == 1 || c.step == 2,
    ;
    if 0 <= dx < w && dy >= 0 && dy % (c.step as int) == 0 {
        assert(row >= h);
        assert(row * w + dx >= w * h) by (nonlinear_arith)
            requires
                row >= h,
                dx >= 0,
                w > 0,
        ;
    }
}

proof fn lemma_block4_outside(
    p: PlaneV,
    g: GridV,
    c: PlaneCtx,
    blk: int,
    mode: IntraNxNMode,
    levels: Seq<i32>,
    w: Seq<int>,
    si_qs: Option<i64>,
    x: int,
    y: int,
)
    requires
        0 <= blk < 16,
        avoids(c, 16, 16, x, y),
    ensures
        same_at(p, block4(p, g, c, blk, mode, levels, w, si_qs).0, x, y),
{
    reveal(block4);
    reveal(predict_nxn_spec);
    reveal(reconstructed);
    reveal(clipped);
    reveal(residual4x4);
    let bx = LUMA_4X4_XY[blk].0 as int;
    let by = LUMA_4X4_XY[blk].1 as int;
    let s = gather(p, g, c.nb, c.gx + bx, c.gy + by, bx, by, 4, 4, tr_decoded4(blk), 1, 1);
    let pred = predict_nxn_spec(mode, s, 4, c.bit_depth);
    assert(pred.len() == 16);
    if let Ok(v) = samples4(c, mode, pred, levels, w, si_qs) {
        assert(v.len() == 16);
        lemma_put_outside(p, c, bx, by, 4, 4, v, 16, 16, x, y);
    }
}

proof fn lemma_block8_outside(
    p: PlaneV,
    g: GridV,
    c: PlaneCtx,
    blk: int,
    mode: IntraNxNMode,
    levels: Seq<i32>,
    w: Seq<int>,
    x: int,
    y: int,
)
    requires
        0 <= blk < 4,
        avoids(c, 16, 16, x, y),
    ensures
        same_at(p, block8(p, g, c, blk, mode, levels, w).0, x, y),
{
    reveal(block8);
    reveal(predict_nxn_spec);
    reveal(reconstructed);
    let bx = LUMA_8X8_XY[blk].0 as int;
    let by = LUMA_8X8_XY[blk].1 as int;
    let s = gather(p, g, c.nb, c.gx + bx, c.gy + by, bx, by, 8, 8, blk != 3, 1, 1);
    let pred = predict_nxn_spec(mode, smooth8(s), 8, c.bit_depth);
    assert(pred.len() == 64);
    if let Ok(v) = samples8(c, mode, pred, levels, w) {
        assert(v.len() == 64);
        lemma_put_outside(p, c, bx, by, 8, 8, v, 16, 16, x, y);
    }
}

/// A grid of the same shape in which only the record of macroblock `addr` may differ.
pub open spec fn same_but(g: GridV, h: GridV, addr: int) -> bool {
    h.same_shape(g) && forall|k: int| k != addr ==> #[trigger] h.get(k) == g.get(k)
}

proof fn lemma_luma4_outside(
    p: PlaneV,
    g: GridV,
    c: PlaneCtx,
    mb: Macroblock,
    pred: MbPred,
    w: Seq<int>,
    si_qs: Option<i64>,
    blk: int,
    x: int,
    y: int,
)
    requires
        0 <= blk,
        avoids(c, 16, 16, x, y),
    ensures
        same_at(p, luma4_from(p, g, c, mb, pred, w, si_qs, blk).0, x, y),
        same_but(g, luma4_from(p, g, c, mb, pred, w, si_qs, blk).1, c.nb.addr as int),
    decreases 16 - blk,
{
    if blk < 16 {
        let addr = c.nb.addr as int;
        let mode = IntraNxNMode::of(
            mode4(g, addr, blk, pred, c.nb.cip, c.nb.slice_id as int),
        );
        let levels = levels4(mb.residual_luma@, cbp_luma(mb), blk);
        lemma_block4_outside(p, g, c, blk, mode, levels, w, si_qs, x, y);
        if let (q, None) = block4(p, g, c, blk, mode, levels, w, si_qs) {
            let h = g.with_mode4(addr, blk, mode.index());
            assert(same_but(g, h, addr));
            lemma_luma4_outside(q, h, c, mb, pred, w, si_qs, blk + 1, x, y);
        }
    }
}

proof fn lemma_luma8_outside(
    p: PlaneV,
    g: GridV,
    c: PlaneCtx,
    mb: Macroblock,
    pred: MbPred,
    w: Seq<int>,
    blk: int,
    x: int,
    y: int,
)
    requires
        0 <= blk,
        avoids(c, 16, 16, x, y),
    ensures
        same_at(p, luma8_from(p, g, c, mb, pred, w, blk).0, x, y),
        same_but(g, luma8_from(p, g, c, mb, pred, w, blk).1, c.nb.addr as int),
    decreases 4 - blk,
{
    if blk < 4 {
        let addr = c.nb.addr as int;
        let mode = IntraNxNMode::of(
            mode8(g, addr, blk, pred, c.nb.cip, c.nb.slice_id as int),
        );
        let levels = levels8(mb.residual_luma@, cbp_luma(mb), blk);
        lemma_block8_outside(p, g, c, blk, mode, levels, w, x, y);
        if let (q, None) = block8(p, g, c, blk, mode, levels, w) {
            let h = g.with_mode8(addr, blk, mode.index());
            assert(same_but(g, h, addr));
            lemma_luma8_outside(q, h, c, mb, pred, w, blk + 1, x, y);
        }
    }
}

proof fn lemma_luma_nxn_outside(
    p: PlaneV,
    g: GridV,
    c: PlaneCtx,
    mb: Macroblock,
    w4: Seq<int>,
    w8: Seq<int>,
    si_qs: Option<i64>,
    x: int,
    y: int,
)
    requires
        avoids(c, 16, 16, x, y),
    ensures
        same_at(p, luma_nxn(p, g, c, mb, w4, w8, si_qs).0, x, y),
        same_but(g, luma_nxn(p, g, c, mb, w4, w8, si_qs).1, c.nb.addr as int),
{
    reveal(luma_nxn);
    let addr = c.nb.addr as int;
    if let Some(pred) = mb.mb_pred {
        let s = g.with_nxn_start(addr, mb, c.step == 2, c.nb.slice_id);
        assert(same_but(g, s, addr));
        lemma_luma4_outside(p, s, c, mb, pred, w4, si_qs, 0, x, y);
        lemma_luma8_outside(p, s, c, mb, pred, w8, 0, x, y);
    }
}

proof fn lemma_chroma4_outside(
    p: PlaneV,
    g: GridV,
    c: PlaneCtx,
    blocks: Seq<[i32; 16]>,
    cbp: int,
    modes: Seq<u8>,
    w: Seq<int>,
    blk: int,
    x: int,
    y: int,
)
    requires
        0 <= blk,
        avoids(c, 16, 16, x, y),
    ensures
        same_at(p, chroma4_from(p, g, c, blocks, cbp, modes, w, blk).0, x, y),
    decreases 16 - blk,
{
    if blk < 16 {
        let mode = IntraNxNMode::of(modes[blk] as int);
        let levels = levels4(blocks, cbp, blk);
        lemma_block4_outside(p, g, c, blk, mode, levels, w, None, x, y);
        if let (q, None) = block4(p, g, c, blk, mode, levels, w, None) {
            lemma_chroma4_outside(q, g, c, blocks, cbp, modes, w, blk + 1, x, y);
        }
    }
}

proof fn lemma_chroma8_outside(
    p: PlaneV,
    g: GridV,
    c: PlaneCtx,
    blocks: Seq<[i32; 16]>,
    cbp: int,
    modes: Seq<u8>,
    w: Seq<int>,
    blk: int,
    x: int,
    y: int,
)
    requires
        0 <= blk,
        avoids(c, 16, 16, x, y),
    ensures
        same_at(p, chroma8_from(p, g, c, blocks, cbp, modes, w, blk).0, x, y),
    decreases 4 - blk,
{
    if blk < 4 {
        let mode = IntraNxNMode::of(modes[blk] as int);
        let levels = levels8(blocks, cbp, blk);
        lemma_block8_outside(p, g, c, blk, mode, levels, w, x, y);
        if let (q, None) = block8(p, g, c, blk, mode, levels, w) {
            lemma_chroma8_outside(q, g, c, blocks, cbp, modes, w, blk + 1, x, y);
        }
    }
}

proof fn lemma_chroma_nxn_outside(
    p: PlaneV,
    g: GridV,
    c: PlaneCtx,
    mb: Macroblock,
    blocks: Seq<[i32; 16]>,
    w4: Seq<int>,
    w8: Seq<int>,
    x: int,
    y: int,
)
    requires
        avoids(c, 16, 16, x, y),
    ensures
        same_at(p, chroma_nxn_444(p, g, c, mb, blocks, w4, w8).0, x, y),
{
    reveal(chroma_nxn_444);
    let addr = c.nb.addr as int;
    lemma_chroma8_outside(p, g, c, blocks, cbp_luma(mb), modes8_of(g, addr), w8, 0, x, y);
    lemma_chroma4_outside(p, g, c, blocks, cbp_luma(mb), modes4_of(g, addr), w4, 0, x, y);
}

proof fn lemma_16x16_outside(
    p: PlaneV,
    g: GridV,
    c: PlaneCtx,
    mode_idx: u8,
    text: Seq<char>,
    dc: Seq<i32>,
    acs: Seq<[i32; 16]>,
    coded: bool,
    w: Seq<int>,
    x: int,
    y: int,
)
    requires
        avoids(c, 16, 16, x, y),
    ensures
        same_at(p, plane_16x16(p, g, c, mode_idx, text, dc, acs, coded, w).0, x, y),
{
    reveal(plane_16x16);
    reveal(predict_16x16_spec);
    reveal(reconstructed);
    assert forall|v: Seq<int>| v.len() == 256 implies same_at(
        p,
        #[trigger] put_block(p, c, 0, 0, 16, v),
        x,
        y,
    ) by {
        lemma_put_outside(p, c, 0, 0, 16, 16, v, 16, 16, x, y);
    }
}

proof fn lemma_chroma_plane_outside(
    p: PlaneV,
    g: GridV,
    c: PlaneCtx,
    h: int,
    mode_idx: u8,
    cbp: int,
    dc: Seq<i32>,
    acs: Seq<[i32; 16]>,
    w: Seq<int>,
    si_qs: Option<i64>,
    x: int,
    y: int,
)
    requires
        h == 8 || h == 16,
        avoids(c, 8, h, x, y),
    ensures
        same_at(p, chroma_plane(p, g, c, h, mode_idx, cbp, dc, acs, w, si_qs).0, x, y),
{
    reveal(chroma_plane);
    reveal(predict_chroma_spec);
    reveal(reconstructed);
    reveal(clipped);
    reveal(mosaic);
    reveal(sp_chroma_samples);
    assert forall|v: Seq<int>| v.len() <= 8 * h implies same_at(
        p,
        #[trigger] put_block(p, c, 0, 0, 8, v),
        x,
        y,
    ) by {
        lemma_put_outside(p, c, 0, 0, 8, h, v, 8, h, x, y);
    }
}

impl MbWriter {
    /// A luma position that the macroblock writes.
    pub open spec fn has_luma(self, x: int, y: int) -> bool {
        in_area(self.mb_px as int, self.mb_py as int, self.step(), 16, 16, x, y)
    }

    /// A chroma position that the macroblock writes.
    pub open spec fn has_chroma(self, x: int, y: int) -> bool {
        in_area(
            self.cx(),
            self.cy(),
            self.step(),
            mb_w_c(self.chroma_array_type),
            mb_h_c(self.chroma_array_type),
            x,
            y,
        )
    }
}

/// A macroblock of a grid, with the parameters of its slice valid.
pub open spec fn is_placed(g: GridV, m: MbArgs) -> bool {
    &&& g.w >= 1
    &&& m.addr <= MAX_ADDR
    &&& m.sps.wf()
    &&& sp_ok(m.sp, m.sps)
}

/// The contexts of a macroblock place its samples where its writer does.
proof fn lemma_contexts(g: GridV, h: GridV, m: MbArgs)
    requires
        is_placed(g, m),
        h.w == g.w,
    ensures
        ({
            let wr = m.writer(g);
            let (y, b, r) = (m.luma_ctx(h), m.chroma_ctx(h, false), m.chroma_ctx(h, true));
            &&& y.wx == wr.mb_px && y.wy == wr.mb_py && y.step == wr.step()
            &&& b.wx == wr.cx() && b.wy == wr.cy() && b.step == wr.step()
            &&& r.wx == wr.cx() && r.wy == wr.cy() && r.step == wr.step()
            &&& y.nb.addr == m.addr && wr.chroma_array_type == m.sps.cat()
            &&& wr.step() == 1 || wr.step() == 2
        }),
{
    let addr = m.addr as int;
    lemma_div_mod_bound(addr, g.w);
    lemma_div_mod_bound(addr / 2, g.w);
    assert(m.writer(h) == m.writer(g));
}

proof fn lemma_intra_chroma_outside(
    pv: PicV,
    g: GridV,
    h: GridV,
    m: MbArgs,
    si_qs: Option<i64>,
    x: int,
    y: int,
)
    requires
        is_placed(g, m),
        h.w == g.w,
        !m.writer(g).has_chroma(x, y),
    ensures
        intra_chroma(pv, h, m, si_qs).0.luma == pv.luma,
        same_at(pv.cb, intra_chroma(pv, h, m, si_qs).0.cb, x, y),
        same_at(pv.cr, intra_chroma(pv, h, m, si_qs).0.cr, x, y),
{
    reveal(intra_chroma);
    lemma_contexts(g, h, m);
    let cat = m.sps.cat();
    let (b, r) = (m.chroma_ctx(h, false), m.chroma_ctx(h, true));
    let mb = m.mb;
    if cat == 3 {
        let (mode, coded) = mode_16x16(mb);
        let text = "4:4:4 Intra_16x16 mode "@;
        lemma_16x16_outside(
            pv.cb,
            h,
            b,
            mode,
            text,
            dc_levels(mb.residual_cb_16x16_dc),
            mb.residual_cb_luma_like@,
            coded,
            weights4(1, m.sps, m.pps),
            x,
            y,
        );
        lemma_16x16_outside(
            pv.cr,
            h,
            r,
            mode,
            text,
            dc_levels(mb.residual_cr_16x16_dc),
            mb.residual_cr_luma_like@,
            coded,
            weights4(2, m.sps, m.pps),
            x,
            y,
        );
        lemma_chroma_nxn_outside(
            pv.cb,
            h,
            b,
            mb,
            mb.residual_cb_luma_like@,
            weights4(1, m.sps, m.pps),
            weights8(2, m.sps, m.pps),
            x,
            y,
        );
        lemma_chroma_nxn_outside(
            pv.cr,
            h,
            r,
            mb,
            mb.residual_cr_luma_like@,
            weights4(2, m.sps, m.pps),
            weights8(4, m.sps, m.pps),
            x,
            y,
        );
    } else if cat != 0 {
        lemma_chroma_plane_outside(
            pv.cb,
            h,
            b,
            mb_h_c(cat),
            chroma_mode(mb),
            cbp_chroma(mb),
            mb.residual_chroma_dc_cb@,
            mb.residual_chroma_ac_cb@,
            weights4(1, m.sps, m.pps),
            si_chroma_qs(m, si_qs, false),
            x,
            y,
        );
        lemma_chroma_plane_outside(
            pv.cr,
            h,
            r,
            mb_h_c(cat),
            chroma_mode(mb),
            cbp_chroma(mb),
            mb.residual_chroma_dc_cr@,
            mb.residual_chroma_ac_cr@,
            weights4(2, m.sps, m.pps),
            si_chroma_qs(m, si_qs, true),
            x,
            y,
        );
    }
}

/// What a macroblock leaves unchanged: luma samples outside its luma block, chroma samples outside
/// its chroma blocks, and the records of other macroblocks.
pub open spec fn keeps_others(
    pv: PicV,
    g: GridV,
    q: PicV,
    h: GridV,
    wr: MbWriter,
    addr: int,
    x: int,
    y: int,
) -> bool {
    &&& !wr.has_luma(x, y) ==> same_at(pv.luma, q.luma, x, y)
    &&& !wr.has_chroma(x, y) ==> same_at(pv.cb, q.cb, x, y) && same_at(pv.cr, q.cr, x, y)
    &&& same_but(g, h, addr)
}

proof fn lemma_pcm_outside(pv: PicV, g: GridV, h: GridV, m: MbArgs, s: PcmSamples, x: int, y: int)
    requires
        is_placed(g, m),
        h.w == g.w,
    ensures
        ({
            let wr = m.writer(g);
            let cat = m.sps.cat();
            let l = put_block(pv.luma, m.luma_ctx(h), 0, 0, 16, pcm_values(s.luma@, 256));
            let b = pcm_chroma(pv.cb, m.chroma_ctx(h, false), cat, s.chroma_cb@);
            let r = pcm_chroma(pv.cr, m.chroma_ctx(h, true), cat, s.chroma_cr@);
            &&& !wr.has_luma(x, y) ==> same_at(pv.luma, l, x, y)
            &&& !wr.has_chroma(x, y) ==> same_at(pv.cb, b, x, y) && same_at(pv.cr, r, x, y)
        }),
{
    lemma_contexts(g, h, m);
    let wr = m.writer(g);
    let cat = m.sps.cat();
    let (bw, bh) = (mb_w_c(cat), mb_h_c(cat));
    if !wr.has_luma(x, y) {
        let v = pcm_values(s.luma@, 256);
        lemma_put_outside(pv.luma, m.luma_ctx(h), 0, 0, 16, 16, v, 16, 16, x, y);
    }
    if !wr.has_chroma(x, y) && bw > 0 {
        let n = bw * bh;
        let v = pcm_values(s.chroma_cb@, n);
        lemma_put_outside(pv.cb, m.chroma_ctx(h, false), 0, 0, bw, bh, v, bw, bh, x, y);
        let v = pcm_values(s.chroma_cr@, n);
        lemma_put_outside(pv.cr, m.chroma_ctx(h, true), 0, 0, bw, bh, v, bw, bh, x, y);
    }
}

proof fn lemma_intra_mb_outside(pv: PicV, g: GridV, m: MbArgs, list: int, x: int, y: int)
    requires
        is_placed(g, m),
    ensures
        keeps_others(
            pv,
            g,
            intra_mb(pv, g, m, list).0,
            intra_mb(pv, g, m, list).1,
            m.writer(g),
            m.addr as int,
            x,
            y,
        ),
{
    reveal(intra_mb);
    let h = intra_start(g, m);
    let addr = m.addr as int;
    let wr = m.writer(g);
    assert(same_but(g, h, addr));
    lemma_contexts(g, h, m);
    let c = m.luma_ctx(h);
    let mb = m.mb;
    match mb.mb_type {
        MbType::IPcm => {
            if let Some(s) = mb.pcm_samples {
                lemma_pcm_outside(pv, g, h, m, s, x, y);
            }
        },
        MbType::Intra16x16(cfg) => {
            let w = weights4(list, m.sps, m.pps);
            let (text, dc) = ("Intra_16x16 pred_mode "@, dc_levels(mb.residual_luma_dc));
            let (acs, coded) = (mb.residual_luma@, cfg.cbp_luma == 15);
            let q = plane_16x16(pv.luma, h, c, cfg.pred_mode, text, dc, acs, coded, w).0;
            if !wr.has_luma(x, y) {
                lemma_16x16_outside(
                    pv.luma,
                    h,
                    c,
                    cfg.pred_mode,
                    text,
                    dc,
                    acs,
                    coded,
                    w,
                    x,
                    y,
                );
            }
            lemma_chroma_after_luma(PicV { luma: q, ..pv }, g, h, m, None, x, y);
        },
        _ => {
            let si_qs = if mb.mb_type is SI {
                Some(m.sp->0.qs_y as i64)
            } else {
                None
            };
            let (w4, w8) = (weights4(list, m.sps, m.pps), weights8(2 * list, m.sps, m.pps));
            let (q, k, e) = luma_nxn(pv.luma, h, c, mb, w4, w8, si_qs);
            if !wr.has_luma(x, y) {
                lemma_luma_nxn_outside(pv.luma, h, c, mb, w4, w8, si_qs, x, y);
            }
            lemma_luma_nxn_outside(pv.luma, h, c, mb, w4, w8, si_qs, c.wx - 1, y);
            lemma_chroma_after_luma(PicV { luma: q, ..pv }, g, k, m, si_qs, x, y);
        },
    }
}

proof fn lemma_chroma_after_luma(
    pv: PicV,
    g: GridV,
    h: GridV,
    m: MbArgs,
    si_qs: Option<i64>,
    x: int,
    y: int,
)
    requires
        is_placed(g, m),
        h.w == g.w,
    ensures
        intra_chroma(pv, h, m, si_qs).0.luma == pv.luma,
        !m.writer(g).has_chroma(x, y) ==> same_at(
            pv.cb,
            intra_chroma(pv, h, m, si_qs).0.cb,
            x,
            y,
        ) && same_at(pv.cr, intra_chroma(pv, h, m, si_qs).0.cr, x, y),
{
    if !m.writer(g).has_chroma(x, y) {
        lemma_intra_chroma_outside(pv, g, h, m, si_qs, x, y);
    } else {
        reveal(intra_chroma);
    }
}

/// The samples of a prediction.
pub open spec fn pred_len_ok(q: PredV, cat: u32) -> bool {
    &&& q.luma.len() == 256
    &&& q.cb.len() == mb_w_c(cat) * mb_h_c(cat)
    &&& q.cr.len() == mb_w_c(cat) * mb_h_c(cat)
}

proof fn lemma_partitions_keep(
    g: GridV,
    p: PredV,
    ia: InterArgs,
    parts: Seq<InterPartition>,
    i: int,
    cat: u32,
)
    requires
        0 <= i,
        pred_len_ok(p, cat),
    ensures
        same_but(g, partitions_from(g, p, ia, parts, i).0, ia.addr as int),
        partitions_from(g, p, ia, parts, i).1 matches Ok(q) ==> pred_len_ok(q, cat),
    decreases parts.len() - i,
{
    if i < parts.len() {
        reveal(partition_step);
        reveal(placed);
        let (h, r) = partition_step(g, p, ia, parts[i]);
        assert(same_but(g, h, ia.addr as int));
        if let Ok(q) = r {
            assert(pred_len_ok(q, cat));
            lemma_partitions_keep(h, q, ia, parts, i + 1, cat);
        }
    }
}

proof fn lemma_inter_samples_outside(
    pv: PicV,
    g: GridV,
    h: GridV,
    m: MbArgs,
    list: int,
    pred: PredV,
    x: int,
    y: int,
)
    requires
        is_placed(g, m),
        h.w == g.w,
        pred_len_ok(pred, m.sps.cat()),
    ensures
        ({
            let wr = m.writer(g);
            let q = inter_samples(pv, h, m, list, pred).0;
            &&& !wr.has_luma(x, y) ==> same_at(pv.luma, q.luma, x, y)
            &&& !wr.has_chroma(x, y) ==> same_at(pv.cb, q.cb, x, y) && same_at(pv.cr, q.cr, x, y)
        }),
{
    reveal(inter_samples);
    reveal(reconstructed);
    reveal(clipped);
    reveal(mosaic);
    reveal(sp_luma_samples);
    reveal(sp_chroma_samples);
    lemma_contexts(g, h, m);
    let wr = m.writer(g);
    let cat = m.sps.cat();
    let (bw, bh) = (mb_w_c(cat), mb_h_c(cat));
    let (c, b, r) = (m.luma_ctx(h), m.chroma_ctx(h, false), m.chroma_ctx(h, true));
    if !wr.has_luma(x, y) {
        assert forall|v: Seq<int>| v.len() == 256 implies same_at(
            pv.luma,
            #[trigger] put_block(pv.luma, c, 0, 0, 16, v),
            x,
            y,
        ) by {
            lemma_put_outside(pv.luma, c, 0, 0, 16, 16, v, 16, 16, x, y);
        }
    }
    if !wr.has_chroma(x, y) && bw > 0 {
        assert forall|v: Seq<int>| v.len() == bw * bh implies same_at(
            pv.cb,
            #[trigger] put_block(pv.cb, b, 0, 0, bw, v),
            x,
            y,
        ) by {
            lemma_put_outside(pv.cb, b, 0, 0, bw, bh, v, bw, bh, x, y);
        }
        assert forall|v: Seq<int>| v.len() == bw * bh implies same_at(
            pv.cr,
            #[trigger] put_block(pv.cr, r, 0, 0, bw, v),
            x,
            y,
        ) by {
            lemma_put_outside(pv.cr, r, 0, 0, bw, bh, v, bw, bh, x, y);
        }
    }
}

proof fn lemma_inter_mb_outside(
    pv: PicV,
    g: GridV,
    m: MbArgs,
    sh: SliceHeader,
    refs: RefsV,
    cur: CurPic,
    list: int,
    x: int,
    y: int,
)
    requires
        is_placed(g, m),
    ensures
        keeps_others(
            pv,
            g,
            inter_mb(pv, g, m, sh, refs, cur, list).0,
            inter_mb(pv, g, m, sh, refs, cur, list).1,
            m.writer(g),
            m.addr as int,
            x,
            y,
        ),
{
    reveal(inter_mb);
    let h = inter_start(g, m);
    let cat = m.sps.cat();
    assert(same_but(g, h, m.addr as int));
    let pa = PartArgs {
        mb: m.mb,
        spatial: sh.direct_spatial_mv_pred_flag,
        infer8: m.sps.direct_8x8_inference_flag,
        refs,
        cur,
        addr: m.addr as int,
        g: h,
        slice_id: m.slice_id as int,
    };
    if let Ok(parts) = partitions(pa) {
        let ia = inter_args(h, m, sh, refs, cur);
        assert(pred_len_ok(empty_pred(cat), cat));
        lemma_partitions_keep(h, empty_pred(cat), ia, parts, 0, cat);
        if let (k, Ok(pred)) = partitions_from(h, empty_pred(cat), ia, parts, 0) {
            lemma_inter_samples_outside(pv, g, k, m, list, pred, x, y);
        }
    }
}

/// A macroblock changes only its own samples and its own record, whether it succeeds or fails.
pub proof fn law_macroblock_keeps_others(
    pv: PicV,
    g: GridV,
    a: SliceArgs,
    m: MbArgs,
    x: int,
    y: int,
)
    requires
        is_placed(g, m),
    ensures
        keeps_others(
            pv,
            g,
            mb_step(pv, g, a, m).0,
            mb_step(pv, g, a, m).1,
            m.writer(g),
            m.addr as int,
            x,
            y,
        ),
{
    reveal(mb_step);
    let l = luma_list(a.sps, a.sh);
    let r = if m.mb.mb_type.intra() {
        lemma_intra_mb_outside(pv, g, m, l, x, y);
        intra_mb(pv, g, m, l)
    } else {
        lemma_inter_mb_outside(pv, g, m, a.sh, a.refs, a.cur, l, x, y);
        inter_mb(pv, g, m, a.sh, a.refs, a.cur, l)
    };
    assert(same_but(r.1, with_finished(r.1, m), m.addr as int));
}

/// A macroblock keeps the size of every plane.
pub proof fn law_macroblock_keeps_size(pv: PicV, g: GridV, a: SliceArgs, m: MbArgs)
    requires
        is_placed(g, m),
    ensures
        mb_step(pv, g, a, m).0.luma.same_size(pv.luma),
        mb_step(pv, g, a, m).0.cb.same_size(pv.cb),
        mb_step(pv, g, a, m).0.cr.same_size(pv.cr),
{
    let wr = m.writer(g);
    law_macroblock_keeps_others(pv, g, a, m, wr.mb_px - 1, 0);
    law_macroblock_keeps_others(pv, g, a, m, wr.cx() - 1, 0);
}

} // verus!
