//! Laws of whole macroblocks: how their parts come together.
use crate::error::ErrV;
use crate::geometry::{LUMA_4X4_XY, LUMA_8X8_XY};
use crate::inter_partition::{partition_step, InterArgs, PredV};
use crate::intra_block_laws::to_sample;
use crate::intra_pred::IntraNxNMode;
use crate::macroblock_layer::{Macroblock, MbPred, MbType};
use crate::math::ints;
use crate::mb_grid::GridV;
use crate::motion_laws::z_order;
use crate::partition_mvs::InterPartition;
use crate::picture::PicV;
use crate::plane::PlaneV;
use crate::recon_blocks::{block4, block8, law_block_is_written, PlaneCtx};
use crate::recon_intra::{
    chroma4_from, chroma_nxn_444, chroma_residual, luma4_from, luma8_from, plane_16x16,
};
use crate::recon_mb_inter::{
    inter_args, inter_chroma_plane, inter_plane, inter_residual, partitions_from, sp_luma_samples,
};
use crate::recon_mb_intra::{intra_chroma, intra_mb, MbArgs};
use crate::ref_store::RefsV;
use crate::residual::{levels4, levels8, reconstructed, zeros};
use crate::scan::{unscan4, unscan8};
use crate::slice_header::SliceHeader;
use crate::transform::{qp_ok, residual4x4, residual8x8, weights4, weights8};
use vstd::prelude::*;

verus! {

/// Partitions are predicted one after the other, each from what the ones before it left, the last
/// one included.
pub proof fn law_partitions_in_order(
    g: GridV,
    p: PredV,
    a: InterArgs,
    parts: Seq<InterPartition>,
    last: InterPartition,
)
    ensures
        partitions_from(g, p, a, parts.push(last), 0) == match partitions_from(g, p, a, parts, 0) {
            (h, Err(e)) => (h, Err(e)),
            (h, Ok(q)) => partition_step(h, q, a, last),
        },
{
    lemma_in_order(g, p, a, parts, last, 0);
}

proof fn lemma_in_order(
    g: GridV,
    p: PredV,
    a: InterArgs,
    parts: Seq<InterPartition>,
    last: InterPartition,
    i: int,
)
    requires
        0 <= i <= parts.len(),
    ensures
        partitions_from(g, p, a, parts.push(last), i) == match partitions_from(g, p, a, parts, i) {
            (h, Err(e)) => (h, Err(e)),
            (h, Ok(q)) => partition_step(h, q, a, last),
        },
    decreases parts.len() - i,
{
    let all = parts.push(last);
    if i < parts.len() {
        assert(all[i] == parts[i]);
        if let (h, Ok(q)) = partition_step(g, p, a, parts[i]) {
            lemma_in_order(h, q, a, parts, last, i + 1);
        }
    } else {
        assert(all[i] == last);
        if let (h, Ok(q)) = partition_step(g, p, a, last) {
            assert(partitions_from(h, q, a, all, i + 1) == (h, Ok::<PredV, ErrV>(q)));
        }
    }
}

/// What the prediction of an inter macroblock works with: the place of the macroblock, the parity
/// of a field macroblock of a frame, its slice.
pub proof fn law_inter_arguments(
    g: GridV,
    a: MbArgs,
    sh: SliceHeader,
    refs: RefsV,
    cur: crate::direct::CurPic,
)
    requires
        g.w >= 1,
        a.addr <= crate::mb_address::MAX_ADDR,
    ensures
        ({
            let r = inter_args(g, a, sh, refs, cur);
            let (n, pair) = (a.addr as int, a.addr as int / 2);
            &&& r.sh == sh && r.sps == a.sps && r.pps == a.pps && r.refs == refs && r.cur == cur
            &&& r.addr == a.addr && r.slice_id == a.slice_id
            &&& !a.mbaff ==> r.parity is None && r.mb_px == 16 * (n % g.w) && r.mb_py == 16 * (n
                / g.w)
            &&& a.mbaff ==> r.mb_px == 16 * (pair % g.w)
            &&& a.mbaff && !a.field ==> r.parity is None && r.mb_py == 32 * (pair / g.w) + 16 * (n
                % 2)
            &&& a.mbaff && a.field ==> r.parity == Some((n % 2) as u8) && r.mb_py == 32 * (pair
                / g.w) + n % 2
        }),
{
    crate::mb_address::lemma_div_mod_bound(a.addr as int, g.w);
    crate::mb_address::lemma_div_mod_bound(a.addr as int / 2, g.w);
    assert(a.addr as int % 2 == 0 || a.addr as int % 2 == 1);
}

/// A plane of an inter macroblock is, sample by sample, prediction plus residual limited to the
/// sample range; with 16x16 samples or, for subsampled chroma, 8 by `h`.
pub proof fn law_inter_is_prediction_plus_residual(
    p: PlaneV,
    c: PlaneCtx,
    pred: Seq<int>,
    by8: bool,
    blocks: Seq<[i32; 16]>,
    cbp: int,
    w4: Seq<int>,
    w8: Seq<int>,
    h: int,
    dc: Seq<i32>,
    x: int,
    y: int,
)
    requires
        c.step == 1,
        8 <= c.bit_depth <= 14,
        c.bypass || qp_ok(c.qp as int, c.bit_depth),
        h == 8 || h == 16,
        p.has(c.wx + x, c.wy + y),
        0 <= x,
        0 <= y,
    ensures
        pred.len() == 256 && x < 16 && y < 16 ==> ({
            let r = inter_plane(p, c, pred, by8, blocks, cbp, w4, w8);
            let res = inter_residual(c, by8, blocks, cbp, w4, w8)[16 * y + x];
            r.1 is None && (r.0.at)(c.wx + x, c.wy + y) == to_sample(
                pred[16 * y + x] + res,
                c.bit_depth,
            )
        }),
        pred.len() == 8 * h && x < 8 && y < h ==> ({
            let r = inter_chroma_plane(p, c, pred, h, cbp, dc, blocks, w4);
            let res = chroma_residual(c, h, cbp, dc, blocks, w4)[8 * y + x];
            r.1 is None && (r.0.at)(c.wx + x, c.wy + y) == to_sample(
                pred[8 * y + x] + res,
                c.bit_depth,
            )
        }),
{
    reveal(reconstructed);
    crate::math::lemma_p2_mono(8, c.bit_depth as int);
    crate::math::lemma_p2_mono(c.bit_depth as int, 14);
    crate::math::lemma_p2_values();
    if pred.len() == 256 && x < 16 && y < 16 {
        let v = reconstructed(pred, inter_residual(c, by8, blocks, cbp, w4, w8), c.bit_depth);
        law_block_is_written(p, c, 0, 0, 16, v, c.wx + x, c.wy + y);
        assert(y / 1 == y && y % 1 == 0 && 0 * c.step == 0);
    }
    if pred.len() == 8 * h && x < 8 && y < h {
        let v = reconstructed(pred, chroma_residual(c, h, cbp, dc, blocks, w4), c.bit_depth);
        law_block_is_written(p, c, 0, 0, 8, v, c.wx + x, c.wy + y);
        assert(y / 1 == y && y % 1 == 0 && 0 * c.step == 0);
    }
}

/// Luma of an intra macroblock that is predicted as a whole: its own DC levels, and AC levels where
/// the pattern of its type says so, with the scaling matrix of intra luma.
pub proof fn law_intra_16x16_macroblock(pv: PicV, g: GridV, a: MbArgs)
    requires
        a.mb.mb_type is Intra16x16,
        intra_mb(pv, g, a, 0).2 is None,
        (a.addr as int) < g.info.len(),
    ensures
        ({
            let t = a.mb.mb_type->Intra16x16_0;
            let h = g.set(
                a.addr as int,
                crate::mb_grid::MbInfoV {
                    slice_id: a.slice_id,
                    mb_field_decoding_flag: a.field,
                    is_intra: true,
                    ..g.info[a.addr as int]
                },
            );
            let dc = match a.mb.residual_luma_dc {
                Some(l) => l@,
                None => zeros(16),
            };
            let r = plane_16x16(
                pv.luma,
                h,
                a.luma_ctx(h),
                t.pred_mode,
                "Intra_16x16 pred_mode "@,
                dc,
                a.mb.residual_luma@,
                t.cbp_luma == 15,
                weights4(0, a.sps, a.pps),
            );
            r.1 is None && intra_mb(pv, g, a, 0).0.luma == r.0
        }),
{
    reveal(intra_mb);
    reveal(intra_chroma);
}

/// Intra chroma of 4:4:4: as luma is made, each plane with its own levels, parameter and scaling
/// matrices.
pub proof fn law_intra_chroma_444(pv: PicV, g: GridV, a: MbArgs)
    requires
        a.sps.cat() == 3,
        intra_chroma(pv, g, a, None).1 is None,
    ensures
        ({
            let r = intra_chroma(pv, g, a, None).0;
            let (cb, cr) = (a.chroma_ctx(g, false), a.chroma_ctx(g, true));
            let text = "4:4:4 Intra_16x16 mode "@;
            let dcs = |l: Option<[i32; 16]>|
                match l {
                    Some(l) => l@,
                    None => zeros(16),
                };
            &&& r.luma == pv.luma
            &&& a.mb.mb_type matches MbType::Intra16x16(t) ==> r.cb == plane_16x16(
                pv.cb,
                g,
                cb,
                t.pred_mode,
                text,
                dcs(a.mb.residual_cb_16x16_dc),
                a.mb.residual_cb_luma_like@,
                t.cbp_luma == 15,
                weights4(1, a.sps, a.pps),
            ).0 && r.cr == plane_16x16(
                pv.cr,
                g,
                cr,
                t.pred_mode,
                text,
                dcs(a.mb.residual_cr_16x16_dc),
                a.mb.residual_cr_luma_like@,
                t.cbp_luma == 15,
                weights4(2, a.sps, a.pps),
            ).0
            &&& !(a.mb.mb_type is Intra16x16) ==> r.cb == chroma_nxn_444(
                pv.cb,
                g,
                cb,
                a.mb,
                a.mb.residual_cb_luma_like@,
                weights4(1, a.sps, a.pps),
                weights8(2, a.sps, a.pps),
            ).0 && r.cr == chroma_nxn_444(
                pv.cr,
                g,
                cr,
                a.mb,
                a.mb.residual_cr_luma_like@,
                weights4(2, a.sps, a.pps),
                weights8(4, a.sps, a.pps),
            ).0
        }),
{
    reveal(intra_chroma);
}

/// The position lies in 4x4 block `b` of the macroblock, or in a later one.
pub open spec fn in_block_from(c: PlaneCtx, b: int, x: int, y: int) -> bool {
    let (dx, dy) = (x - c.wx, y - c.wy);
    0 <= dx < 16 && 0 <= dy < 16 && z_order(dx / 4, dy / 4) >= b
}

#[verifier::spinoff_prover]
proof fn lemma_block_is_local(
    p: PlaneV,
    g: GridV,
    c: PlaneCtx,
    blk: int,
    mode: IntraNxNMode,
    levels: Seq<i32>,
    w: Seq<int>,
    si_qs: Option<i64>,
    x: int,
    y: int,
)
    requires
        c.step == 1,
        0 <= blk < 16,
        !(c.wx + LUMA_4X4_XY[blk].0 <= x < c.wx + LUMA_4X4_XY[blk].0 + 4 && c.wy
            + LUMA_4X4_XY[blk].1 <= y < c.wy + LUMA_4X4_XY[blk].1 + 4),
    ensures
        (block4(p, g, c, blk, mode, levels, w, si_qs).0.at)(x, y) == (p.at)(x, y),
{
    reveal(block4);
    let (bx, by) = (LUMA_4X4_XY[blk].0 as int, LUMA_4X4_XY[blk].1 as int);
    let s = crate::neighbours::gather(
        p,
        g,
        c.nb,
        c.gx + bx,
        c.gy + by,
        bx,
        by,
        4,
        4,
        crate::neighbours::tr_decoded4(blk),
        1,
        1,
    );
    let pred = crate::intra_pred::predict_nxn_spec(mode, s, 4, c.bit_depth);
    assert(pred.len() == 16) by {
        reveal(crate::intra_pred::predict_nxn_spec);
    }
    if let Ok(v) = crate::recon_blocks::samples4(c, mode, pred, levels, w, si_qs) {
        assert(v.len() == 16) by {
            reveal(crate::residual::clipped);
            reveal(reconstructed);
            reveal(crate::transform::residual4x4);
        }
        law_block_is_written(p, c, bx, by, 4, v, x, y);
        assert(by * c.step == by);
        let dy = y - c.wy - by;
        assert(dy / 1 == dy);
    }
}

/// Blocks from number `blk` on leave all else as it is.
proof fn lemma_tail_keeps(
    p: PlaneV,
    g: GridV,
    c: PlaneCtx,
    mb: Macroblock,
    pred: MbPred,
    w: Seq<int>,
    si_qs: Option<i64>,
    blk: int,
    x: int,
    y: int,
)
    requires
        c.step == 1,
        0 <= blk <= 16,
        !in_block_from(c, blk, x, y),
    ensures
        (luma4_from(p, g, c, mb, pred, w, si_qs, blk).0.at)(x, y) == (p.at)(x, y),
    decreases 16 - blk,
{
    if blk < 16 {
        let mode = IntraNxNMode::of(
            crate::intra_modes::mode4(
                g,
                c.nb.addr as int,
                blk,
                pred,
                c.nb.cip,
                c.nb.slice_id as int,
            ),
        );
        let levels = levels4(mb.residual_luma@, crate::residual::cbp_luma(mb), blk);
        lemma_outside(c, blk, x, y);
        lemma_block_is_local(p, g, c, blk, mode, levels, w, si_qs, x, y);
        let (q, e) = block4(p, g, c, blk, mode, levels, w, si_qs);
        if e is None {
            let h = g.with_mode4(c.nb.addr as int, blk, mode.index());
            lemma_tail_keeps(q, h, c, mb, pred, w, si_qs, blk + 1, x, y);
        }
    }
}

proof fn lemma_outside(c: PlaneCtx, blk: int, x: int, y: int)
    requires
        0 <= blk < 16,
        !in_block_from(c, blk, x, y),
    ensures
        !(c.wx + LUMA_4X4_XY[blk].0 <= x < c.wx + LUMA_4X4_XY[blk].0 + 4 && c.wy
            + LUMA_4X4_XY[blk].1 <= y < c.wy + LUMA_4X4_XY[blk].1 + 4),
        !in_block_from(c, blk + 1, x, y),
{
    let (bx, by) = (LUMA_4X4_XY[blk].0 as int, LUMA_4X4_XY[blk].1 as int);
    assert(z_order(bx / 4, by / 4) == blk && bx % 4 == 0 && by % 4 == 0);
    let (dx, dy) = (x - c.wx, y - c.wy);
    if bx <= dx < bx + 4 && by <= dy < by + 4 {
        assert(dx / 4 == bx / 4 && dy / 4 == by / 4);
    }
}

/// The 4x4 blocks of an intra macroblock build on one another: block `b` is made with its own
/// levels, by its own mode as the grid keeps it, from a plane that holds all samples around the
/// macroblock and of the blocks before it as they are in the end; later blocks leave its samples
/// alone.
pub proof fn law_4x4_blocks_build_on_one_another(
    p: PlaneV,
    g: GridV,
    c: PlaneCtx,
    mb: Macroblock,
    pred: MbPred,
    w: Seq<int>,
    b: int,
)
    requires
        c.step == 1,
        0 <= b < 16,
        !g.mbaff,
        g.w >= 1,
        (c.nb.addr as int) < g.info.len(),
        !g.info[c.nb.addr as int].transform_size_8x8_flag,
        g.info[c.nb.addr as int].intra_4x4_pred_modes.len() == 16,
        luma4_from(p, g, c, mb, pred, w, None, 0).2 is None,
    ensures
        ({
            let r = luma4_from(p, g, c, mb, pred, w, None, 0);
            exists|q: PlaneV, h: GridV| #[trigger] is_made(r.0, r.1, q, h, c, mb, w, b)
        }),
{
    lemma_made(p, g, c, mb, pred, w, 0, b);
}

/// Block `b` of the finished plane `r` was made from plane `q` and grid `h`, by the mode that the
/// finished grid `k` keeps.
pub open spec fn is_made(
    r: PlaneV,
    k: GridV,
    q: PlaneV,
    h: GridV,
    c: PlaneCtx,
    mb: Macroblock,
    w: Seq<int>,
    b: int,
) -> bool {
    let mode = IntraNxNMode::of(k.info[c.nb.addr as int].intra_4x4_pred_modes[b] as int);
    let levels = levels4(mb.residual_luma@, mb.coded_block_pattern as int % 16, b);
    let made = block4(q, h, c, b, mode, levels, w, None);
    &&& made.1 is None
    &&& forall|x: int, y: int|
        !in_block_from(c, b, x, y) ==> #[trigger] (q.at)(x, y) == (r.at)(x, y)
    &&& forall|x: int, y: int|
        !in_block_from(c, b + 1, x, y) ==> #[trigger] (made.0.at)(x, y) == (r.at)(x, y)
}

proof fn lemma_made(
    p: PlaneV,
    g: GridV,
    c: PlaneCtx,
    mb: Macroblock,
    pred: MbPred,
    w: Seq<int>,
    blk: int,
    b: int,
)
    requires
        c.step == 1,
        0 <= blk <= b < 16,
        !g.mbaff,
        g.w >= 1,
        (c.nb.addr as int) < g.info.len(),
        !g.info[c.nb.addr as int].transform_size_8x8_flag,
        g.info[c.nb.addr as int].intra_4x4_pred_modes.len() == 16,
        luma4_from(p, g, c, mb, pred, w, None, blk).2 is None,
    ensures
        ({
            let r = luma4_from(p, g, c, mb, pred, w, None, blk);
            exists|q: PlaneV, h: GridV| #[trigger] is_made(r.0, r.1, q, h, c, mb, w, b)
        }),
    decreases b - blk,
{
    let addr = c.nb.addr as int;
    let mode = IntraNxNMode::of(
        crate::intra_modes::mode4(g, addr, blk, pred, c.nb.cip, c.nb.slice_id as int),
    );
    let levels = levels4(mb.residual_luma@, crate::residual::cbp_luma(mb), blk);
    let (q, e) = block4(p, g, c, blk, mode, levels, w, None);
    let h = g.with_mode4(addr, blk, mode.index());
    let r = luma4_from(p, g, c, mb, pred, w, None, blk);
    if b > blk {
        lemma_made(q, h, c, mb, pred, w, blk + 1, b);
    } else {
        assert forall|x: int, y: int| !in_block_from(c, b, x, y) implies #[trigger] (p.at)(x, y)
            == (r.0.at)(x, y) by {
            lemma_tail_keeps(p, g, c, mb, pred, w, None, blk, x, y);
        }
        assert forall|x: int, y: int| !in_block_from(c, b + 1, x, y) implies #[trigger] (q.at)(x, y)
            == (r.0.at)(x, y) by {
            lemma_tail_keeps(q, h, c, mb, pred, w, None, blk + 1, x, y);
        }
        crate::mode_laws::lemma_modes_from(q, h, c, mb, pred, w, None, blk + 1, 0);
        assert(h.info[addr].intra_4x4_pred_modes[blk] == mode.index());
        assert(r.1.info[addr].intra_4x4_pred_modes[blk] == mode.index());
        assert(is_made(r.0, r.1, p, g, c, mb, w, b));
    }
}

/// The position lies in 8x8 block `b` of the macroblock, or in a later one.
pub open spec fn in_quarter_from(c: PlaneCtx, b: int, x: int, y: int) -> bool {
    let (dx, dy) = (x - c.wx, y - c.wy);
    0 <= dx < 16 && 0 <= dy < 16 && 2 * (dy / 8) + dx / 8 >= b
}

#[verifier::spinoff_prover]
proof fn lemma_quarter_is_local(
    p: PlaneV,
    g: GridV,
    c: PlaneCtx,
    blk: int,
    mode: IntraNxNMode,
    levels: Seq<i32>,
    w: Seq<int>,
    x: int,
    y: int,
)
    requires
        c.step == 1,
        0 <= blk < 4,
        !(c.wx + LUMA_8X8_XY[blk].0 <= x < c.wx + LUMA_8X8_XY[blk].0 + 8 && c.wy
            + LUMA_8X8_XY[blk].1 <= y < c.wy + LUMA_8X8_XY[blk].1 + 8),
    ensures
        (block8(p, g, c, blk, mode, levels, w).0.at)(x, y) == (p.at)(x, y),
{
    reveal(block8);
    let (bx, by) = (LUMA_8X8_XY[blk].0 as int, LUMA_8X8_XY[blk].1 as int);
    let s = crate::neighbours::gather(
        p,
        g,
        c.nb,
        c.gx + bx,
        c.gy + by,
        bx,
        by,
        8,
        8,
        blk != 3,
        1,
        1,
    );
    let pred = crate::intra_pred::predict_nxn_spec(mode, crate::intra_pred::smooth8(s), 8, c.bit_depth);
    assert(pred.len() == 64) by {
        reveal(crate::intra_pred::predict_nxn_spec);
    }
    if let Ok(v) = crate::recon_blocks::samples8(c, mode, pred, levels, w) {
        assert(v.len() == 64) by {
            reveal(reconstructed);
        }
        law_block_is_written(p, c, bx, by, 8, v, x, y);
        assert(by * c.step == by);
        let dy = y - c.wy - by;
        assert(dy / 1 == dy);
    }
}

/// Blocks from number `blk` on leave all else as it is.
proof fn lemma_quarters_keep(
    p: PlaneV,
    g: GridV,
    c: PlaneCtx,
    mb: Macroblock,
    pred: MbPred,
    w: Seq<int>,
    blk: int,
    x: int,
    y: int,
)
    requires
        c.step == 1,
        0 <= blk <= 4,
        !in_quarter_from(c, blk, x, y),
    ensures
        (luma8_from(p, g, c, mb, pred, w, blk).0.at)(x, y) == (p.at)(x, y),
    decreases 4 - blk,
{
    if blk < 4 {
        let mode = IntraNxNMode::of(
            crate::intra_modes::mode8(
                g,
                c.nb.addr as int,
                blk,
                pred,
                c.nb.cip,
                c.nb.slice_id as int,
            ),
        );
        let levels = levels8(mb.residual_luma@, crate::residual::cbp_luma(mb), blk);
        lemma_outside_quarter(c, blk, x, y);
        lemma_quarter_is_local(p, g, c, blk, mode, levels, w, x, y);
        let (q, e) = block8(p, g, c, blk, mode, levels, w);
        if e is None {
            let h = g.with_mode8(c.nb.addr as int, blk, mode.index());
            lemma_quarters_keep(q, h, c, mb, pred, w, blk + 1, x, y);
        }
    }
}

proof fn lemma_outside_quarter(c: PlaneCtx, blk: int, x: int, y: int)
    requires
        0 <= blk < 4,
        !in_quarter_from(c, blk, x, y),
    ensures
        !(c.wx + LUMA_8X8_XY[blk].0 <= x < c.wx + LUMA_8X8_XY[blk].0 + 8 && c.wy
            + LUMA_8X8_XY[blk].1 <= y < c.wy + LUMA_8X8_XY[blk].1 + 8),
        !in_quarter_from(c, blk + 1, x, y),
{
    let (bx, by) = (LUMA_8X8_XY[blk].0 as int, LUMA_8X8_XY[blk].1 as int);
    assert(2 * (by / 8) + bx / 8 == blk && bx % 8 == 0 && by % 8 == 0);
    let (dx, dy) = (x - c.wx, y - c.wy);
    if bx <= dx < bx + 8 && by <= dy < by + 4 {
        assert(dx / 8 == bx / 8 && dy / 8 == by / 8);
    }
}

/// The 8x8 blocks of an intra macroblock build on one another: block `b` is made with its own
/// levels, by its own mode as the grid keeps it, from a plane that holds all samples around the
/// macroblock and of the blocks before it as they are in the end; later blocks leave its samples
/// alone.
pub proof fn law_8x8_blocks_build_on_one_another(
    p: PlaneV,
    g: GridV,
    c: PlaneCtx,
    mb: Macroblock,
    pred: MbPred,
    w: Seq<int>,
    b: int,
)
    requires
        c.step == 1,
        0 <= b < 4,
        !g.mbaff,
        g.w >= 1,
        (c.nb.addr as int) < g.info.len(),
        g.info[c.nb.addr as int].transform_size_8x8_flag,
        g.info[c.nb.addr as int].intra_8x8_pred_modes.len() == 4,
        luma8_from(p, g, c, mb, pred, w, 0).2 is None,
    ensures
        ({
            let r = luma8_from(p, g, c, mb, pred, w, 0);
            exists|q: PlaneV, h: GridV| #[trigger] is_quarter_made(r.0, r.1, q, h, c, mb, w, b)
        }),
{
    lemma_quarter_made(p, g, c, mb, pred, w, 0, b);
}

/// Block `b` of the finished plane `r` was made from plane `q` and grid `h`, by the mode that the
/// finished grid `k` keeps.
pub open spec fn is_quarter_made(
    r: PlaneV,
    k: GridV,
    q: PlaneV,
    h: GridV,
    c: PlaneCtx,
    mb: Macroblock,
    w: Seq<int>,
    b: int,
) -> bool {
    let mode = IntraNxNMode::of(k.info[c.nb.addr as int].intra_8x8_pred_modes[b] as int);
    let levels = levels8(mb.residual_luma@, mb.coded_block_pattern as int % 16, b);
    let made = block8(q, h, c, b, mode, levels, w);
    &&& made.1 is None
    &&& forall|x: int, y: int|
        !in_quarter_from(c, b, x, y) ==> #[trigger] (q.at)(x, y) == (r.at)(x, y)
    &&& forall|x: int, y: int|
        !in_quarter_from(c, b + 1, x, y) ==> #[trigger] (made.0.at)(x, y) == (r.at)(x, y)
}

proof fn lemma_quarter_made(
    p: PlaneV,
    g: GridV,
    c: PlaneCtx,
    mb: Macroblock,
    pred: MbPred,
    w: Seq<int>,
    blk: int,
    b: int,
)
    requires
        c.step == 1,
        0 <= blk <= b < 4,
        !g.mbaff,
        g.w >= 1,
        (c.nb.addr as int) < g.info.len(),
        g.info[c.nb.addr as int].transform_size_8x8_flag,
        g.info[c.nb.addr as int].intra_8x8_pred_modes.len() == 4,
        luma8_from(p, g, c, mb, pred, w, blk).2 is None,
    ensures
        ({
            let r = luma8_from(p, g, c, mb, pred, w, blk);
            exists|q: PlaneV, h: GridV| #[trigger] is_quarter_made(r.0, r.1, q, h, c, mb, w, b)
        }),
    decreases b - blk,
{
    let addr = c.nb.addr as int;
    let mode = IntraNxNMode::of(
        crate::intra_modes::mode8(g, addr, blk, pred, c.nb.cip, c.nb.slice_id as int),
    );
    let levels = levels8(mb.residual_luma@, crate::residual::cbp_luma(mb), blk);
    let (q, e) = block8(p, g, c, blk, mode, levels, w);
    let h = g.with_mode8(addr, blk, mode.index());
    let r = luma8_from(p, g, c, mb, pred, w, blk);
    if b > blk {
        lemma_quarter_made(q, h, c, mb, pred, w, blk + 1, b);
    } else {
        assert forall|x: int, y: int| !in_quarter_from(c, b, x, y) implies #[trigger] (p.at)(x, y)
            == (r.0.at)(x, y) by {
            lemma_quarters_keep(p, g, c, mb, pred, w, blk, x, y);
        }
        assert forall|x: int, y: int| !in_quarter_from(c, b + 1, x, y) implies #[trigger] (q.at)(x, y)
            == (r.0.at)(x, y) by {
            lemma_quarters_keep(q, h, c, mb, pred, w, blk + 1, x, y);
        }
        crate::mode_laws::lemma_modes_from8(q, h, c, mb, pred, w, blk + 1, 0);
        assert(h.info[addr].intra_8x8_pred_modes[blk] == mode.index());
        assert(r.1.info[addr].intra_8x8_pred_modes[blk] == mode.index());
        assert(is_quarter_made(r.0, r.1, p, g, c, mb, w, b));
    }
}

/// Luma of an inter macroblock of a switching picture: in each 4x4 block the inverse transform of
/// the joint levels of prediction and residual, limited to the sample range; nothing is added to
/// it.
pub proof fn law_sp_luma(
    c: PlaneCtx,
    pred: Seq<int>,
    blocks: Seq<[i32; 16]>,
    cbp: int,
    s: crate::recon_mb_intra::SpSiCtx,
    w: Seq<int>,
    block: Seq<int>,
    x: int,
    y: int,
)
    requires
        pred.len() == 256,
        8 <= c.bit_depth <= 14,
        0 <= x < 16,
        0 <= y < 16,
        block.len() == 16,
        forall|i: int, j: int|
            0 <= i < 4 && 0 <= j < 4 ==> #[trigger] block[4 * j + i] == pred[16 * (y / 4 * 4 + j) + (x
                / 4 * 4 + i)],
    ensures
        ({
            let levels = ints(unscan4(levels4(blocks, cbp, z_order(x / 4, y / 4)), c.field_scan));
            let joint = if s.switching {
                crate::sp_transform::sp_luma_switch(block, levels, s.qs_y as int)
            } else {
                crate::sp_transform::sp_luma(block, levels, c.qp as int, s.qs_y as int, w)
            };
            sp_luma_samples(c, pred, blocks, cbp, s, w)[16 * y + x] == to_sample(
                residual4x4(joint, s.qs_y as int, w)[4 * (y % 4) + x % 4],
                c.bit_depth,
            )
        }),
{
    reveal(sp_luma_samples);
    reveal(crate::residual::clipped);
    reveal(crate::recon_blocks::mosaic);
    crate::math::lemma_p2_mono(0, c.bit_depth as int);
    let b = z_order(x / 4, y / 4);
    assert(LUMA_4X4_XY[b].0 == x / 4 * 4 && LUMA_4X4_XY[b].1 == y / 4 * 4);
    let own = crate::recon_mb_inter::block_of_16(pred, b);
    assert forall|k: int| 0 <= k < 16 implies #[trigger] own[k] == block[k] by {
        let (i, j) = (k % 4, k / 4);
        assert(block[4 * j + i] == pred[16 * (y / 4 * 4 + j) + (x / 4 * 4 + i)]);
    }
    assert(own =~= block);
    let parts = Seq::new(
        16,
        |b: int|
            crate::recon_mb_inter::sp_luma_block(
                c,
                crate::recon_mb_inter::block_of_16(pred, b),
                levels4(blocks, cbp, b),
                s,
                w,
            ),
    );
    crate::residual_laws::lemma_mosaic16(parts, x, y);
}

/// Grids that differ only in the modes of one macroblock give the same neighbours.
proof fn lemma_same_neighbours(
    p: PlaneV,
    g: GridV,
    h: GridV,
    addr: int,
    k: int,
    c: crate::neighbours::NbCtx,
    bx: int,
    by: int,
    x: int,
    y: int,
    tr: bool,
)
    requires
        !g.mbaff,
        0 <= addr < g.info.len(),
        crate::mode_laws::same_before(g, h, addr, k),
    ensures
        crate::neighbours::gather(p, g, c, bx, by, x, y, 4, 4, tr, 1, 1) == crate::neighbours::gather(
            p,
            h,
            c,
            bx,
            by,
            x,
            y,
            4,
            4,
            tr,
            1,
            1,
        ),
{
    reveal(crate::neighbours::gather);
    assert forall|u: int, v: int| #[trigger] crate::neighbours::position_ok(g, c, u, v, 1, 1)
        == crate::neighbours::position_ok(h, c, u, v, 1, 1) by {
        let n = g.covering(u * 1, v * 1);
        if 0 <= n < g.info.len() {
            assert(n == addr || g.info[n] == h.info[n]);
        }
    }
}

/// In 4:4:4, chroma blocks with the levels of luma become what luma became: the same modes, one
/// block after the other.
pub proof fn law_444_blocks_as_luma(
    p: PlaneV,
    g: GridV,
    c: PlaneCtx,
    mb: Macroblock,
    pred: MbPred,
    w: Seq<int>,
)
    requires
        !g.mbaff,
        g.w >= 1,
        (c.nb.addr as int) < g.info.len(),
        !g.info[c.nb.addr as int].transform_size_8x8_flag,
        g.info[c.nb.addr as int].intra_4x4_pred_modes.len() == 16,
        luma4_from(p, g, c, mb, pred, w, None, 0).2 is None,
    ensures
        ({
            let r = luma4_from(p, g, c, mb, pred, w, None, 0);
            chroma4_from(
                p,
                r.1,
                c,
                mb.residual_luma@,
                mb.coded_block_pattern as int % 16,
                r.1.info[c.nb.addr as int].intra_4x4_pred_modes,
                w,
                0,
            ) == (r.0, None::<ErrV>)
        }),
{
    lemma_as_luma(p, g, c, mb, pred, w, 0);
}

proof fn lemma_as_luma(
    p: PlaneV,
    g: GridV,
    c: PlaneCtx,
    mb: Macroblock,
    pred: MbPred,
    w: Seq<int>,
    blk: int,
)
    requires
        !g.mbaff,
        g.w >= 1,
        0 <= blk <= 16,
        (c.nb.addr as int) < g.info.len(),
        !g.info[c.nb.addr as int].transform_size_8x8_flag,
        g.info[c.nb.addr as int].intra_4x4_pred_modes.len() == 16,
        luma4_from(p, g, c, mb, pred, w, None, blk).2 is None,
    ensures
        ({
            let r = luma4_from(p, g, c, mb, pred, w, None, blk);
            chroma4_from(
                p,
                r.1,
                c,
                mb.residual_luma@,
                mb.coded_block_pattern as int % 16,
                r.1.info[c.nb.addr as int].intra_4x4_pred_modes,
                w,
                blk,
            ) == (r.0, None::<ErrV>)
        }),
    decreases 16 - blk,
{
    let addr = c.nb.addr as int;
    if blk < 16 {
        let mode = IntraNxNMode::of(
            crate::intra_modes::mode4(g, addr, blk, pred, c.nb.cip, c.nb.slice_id as int),
        );
        let levels = levels4(mb.residual_luma@, crate::residual::cbp_luma(mb), blk);
        let (q, e) = block4(p, g, c, blk, mode, levels, w, None);
        let h = g.with_mode4(addr, blk, mode.index());
        let r = luma4_from(p, g, c, mb, pred, w, None, blk);
        crate::mode_laws::lemma_modes_from(p, g, c, mb, pred, w, None, blk, 0);
        crate::mode_laws::lemma_modes_from(q, h, c, mb, pred, w, None, blk + 1, 0);
        assert(h.info[addr].intra_4x4_pred_modes[blk] == mode.index());
        assert(r.1.info[addr].intra_4x4_pred_modes[blk] == mode.index());
        assert(IntraNxNMode::of(mode.index() as int) == mode);
        let (x, y) = (LUMA_4X4_XY[blk].0 as int, LUMA_4X4_XY[blk].1 as int);
        lemma_same_neighbours(
            p,
            g,
            r.1,
            addr,
            blk,
            c.nb,
            c.gx + x,
            c.gy + y,
            x,
            y,
            crate::neighbours::tr_decoded4(blk),
        );
        assert(block4(p, r.1, c, blk, mode, levels, w, None) == (q, e)) by {
            reveal(block4);
        }
        lemma_as_luma(q, h, c, mb, pred, w, blk + 1);
    }
}

/// The residual of an inter macroblock is, block by block, the inverse transform of its own levels
/// in scan order.
pub proof fn law_inter_residual(
    c: PlaneCtx,
    blocks: Seq<[i32; 16]>,
    cbp: int,
    w4: Seq<int>,
    w8: Seq<int>,
    x: int,
    y: int,
)
    requires
        !c.bypass,
        0 <= x < 16,
        0 <= y < 16,
    ensures
        inter_residual(c, false, blocks, cbp, w4, w8)[16 * y + x] == residual4x4(
            ints(unscan4(levels4(blocks, cbp, z_order(x / 4, y / 4)), c.field_scan)),
            c.qp as int,
            w4,
        )[4 * (y % 4) + x % 4],
        inter_residual(c, true, blocks, cbp, w4, w8)[16 * y + x] == residual8x8(
            ints(unscan8(levels8(blocks, cbp, 2 * (y / 8) + x / 8), c.field_scan)),
            c.qp as int,
            w8,
        )[8 * (y % 8) + x % 8],
{
    crate::residual_laws::law_inter_blocks_are_placed(c, blocks, cbp, w4, w8, x, y);
}

} // verus!
