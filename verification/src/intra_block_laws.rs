//! Laws of intra macroblocks: how prediction and residual make samples.
use crate::geometry::{LUMA_4X4_XY, LUMA_8X8_XY};
use crate::intra_laws::{
    law_neighbours_available, law_neighbours_surround_the_block, law_straight_prediction,
    law_straight_prediction_of_planes, may_serve,
};
use crate::intra_pred::{
    error_4x4, error_8x8, predict_16x16_spec, predict_chroma_spec, predict_nxn_spec, smooth8,
    Intra16x16Mode, IntraChromaMode, IntraNxNMode,
};
use crate::math::{ints, p2};
use crate::mb_grid::GridV;
use crate::neighbours::{gather, tr_decoded4};
use crate::plane::PlaneV;
use crate::recon_blocks::{block4, block8, law_block_is_written, PlaneCtx};
use crate::recon_intra::{chroma_plane, chroma_residual, plane_16x16, residual_16x16};
use crate::residual::reconstructed;
use crate::scan::{unscan4, unscan8};
use crate::transform::{qp_ok, residual4x4, residual8x8};
use vstd::prelude::*;

verus! {

/// A value limited to the sample range.
pub open spec fn to_sample(v: int, bd: u32) -> int {
    if v < 0 {
        0
    } else if v >= p2(bd as int) {
        p2(bd as int) - 1
    } else {
        v
    }
}

/// The macroblock lies in a frame or in a field of its own, at the place where its samples are
/// written, and is not coded without loss.
pub open spec fn is_plain(g: GridV, c: PlaneCtx) -> bool {
    &&& !g.mbaff && g.w >= 1 && g.h >= 1 && g.info.len() == g.w * g.h
    &&& c.step == 1
    &&& c.gx == c.wx && c.gy == c.wy
    &&& 0 <= c.gx && c.gx + 16 <= 16 * g.w
    &&& 0 <= c.gy && c.gy + 16 <= 16 * g.h
    &&& !c.bypass
    &&& 8 <= c.bit_depth <= 14
    &&& qp_ok(c.qp as int, c.bit_depth)
}

proof fn lemma_range(bd: u32)
    requires
        8 <= bd <= 14,
    ensures
        256 <= p2(bd as int) <= 16384,
{
    crate::math::lemma_p2_mono(8, bd as int);
    crate::math::lemma_p2_mono(bd as int, 14);
    crate::math::lemma_p2_values();
}

proof fn lemma_written(p: PlaneV, c: PlaneCtx, x: int, y: int, n: int, v: Seq<int>, i: int, j: int)
    requires
        c.step == 1,
        n == 4 || n == 8 || n == 16,
        v.len() == n * n || (n == 8 && v.len() == 128),
        0 <= i < n,
        0 <= j < v.len() / (n as nat),
        8 <= c.bit_depth <= 14,
        p.has(c.wx + x + i, c.wy + y + j),
        0 <= v[n * j + i] < p2(c.bit_depth as int),
    ensures
        (crate::recon_blocks::put_block(p, c, x, y, n, v).at)(c.wx + x + i, c.wy + y + j) == v[n * j
            + i],
{
    lemma_range(c.bit_depth);
    if n == 4 {
        assert(n * n == 16);
    } else if n == 8 {
        assert(n * n == 64);
    } else {
        assert(n * n == 256);
    }
    law_block_is_written(p, c, x, y, n, v, c.wx + x + i, c.wy + y + j);
    assert(y * c.step == y && j / 1 == j && j % 1 == 0);
    assert(j * n == n * j) by (nonlinear_arith);
}

/// A 4x4 block becomes, sample by sample, prediction plus residual limited to the sample range; the
/// other samples of the plane stay.
pub proof fn law_4x4_block_is_prediction_plus_residual(
    p: PlaneV,
    g: GridV,
    c: PlaneCtx,
    blk: int,
    mode: IntraNxNMode,
    levels: Seq<i32>,
    w: Seq<int>,
    i: int,
    j: int,
)
    requires
        is_plain(g, c),
        0 <= blk < 16,
        0 <= i < 4,
        0 <= j < 4,
    ensures
        ({
            let (x, y) = (LUMA_4X4_XY[blk].0 as int, LUMA_4X4_XY[blk].1 as int);
            let s = gather(p, g, c.nb, c.gx + x, c.gy + y, x, y, 4, 4, tr_decoded4(blk), 1, 1);
            let pred = predict_nxn_spec(mode, s, 4, c.bit_depth)[4 * j + i];
            let res = residual4x4(ints(unscan4(levels, c.field_scan)), c.qp as int, w)[4 * j + i];
            let r = block4(p, g, c, blk, mode, levels, w, None);
            &&& r.1 == error_4x4(mode, s.av)
            &&& r.1 is None && p.has(c.gx + x + i, c.gy + y + j) ==> (r.0.at)(
                c.gx + x + i,
                c.gy + y + j,
            ) == to_sample(pred + res, c.bit_depth)
        }),
{
    reveal(block4);
    reveal(reconstructed);
    reveal(predict_nxn_spec);
    lemma_range(c.bit_depth);
    let (x, y) = (LUMA_4X4_XY[blk].0 as int, LUMA_4X4_XY[blk].1 as int);
    let s = gather(p, g, c.nb, c.gx + x, c.gy + y, x, y, 4, 4, tr_decoded4(blk), 1, 1);
    let v = reconstructed(
        predict_nxn_spec(mode, s, 4, c.bit_depth),
        residual4x4(ints(unscan4(levels, c.field_scan)), c.qp as int, w),
        c.bit_depth,
    );
    if p.has(c.gx + x + i, c.gy + y + j) {
        lemma_written(p, c, x, y, 4, v, i, j);
    }
}

/// An 8x8 block becomes, sample by sample, the prediction from its smoothed neighbours plus
/// residual, limited to the sample range.
pub proof fn law_8x8_block_is_prediction_plus_residual(
    p: PlaneV,
    g: GridV,
    c: PlaneCtx,
    blk: int,
    mode: IntraNxNMode,
    levels: Seq<i32>,
    w: Seq<int>,
    i: int,
    j: int,
)
    requires
        is_plain(g, c),
        0 <= blk < 4,
        0 <= i < 8,
        0 <= j < 8,
    ensures
        ({
            let (x, y) = (8 * (blk % 2), 8 * (blk / 2));
            let s = gather(p, g, c.nb, c.gx + x, c.gy + y, x, y, 8, 8, blk != 3, 1, 1);
            let pred = predict_nxn_spec(mode, smooth8(s), 8, c.bit_depth)[8 * j + i];
            let res = residual8x8(ints(unscan8(levels, c.field_scan)), c.qp as int, w)[8 * j + i];
            let r = block8(p, g, c, blk, mode, levels, w);
            &&& r.1 == error_8x8(mode, s.av)
            &&& r.1 is None && p.has(c.gx + x + i, c.gy + y + j) ==> (r.0.at)(
                c.gx + x + i,
                c.gy + y + j,
            ) == to_sample(pred + res, c.bit_depth)
        }),
{
    reveal(block8);
    reveal(reconstructed);
    reveal(predict_nxn_spec);
    lemma_range(c.bit_depth);
    let (x, y) = (LUMA_8X8_XY[blk].0 as int, LUMA_8X8_XY[blk].1 as int);
    assert(x == 8 * (blk % 2) && y == 8 * (blk / 2));
    let s = gather(p, g, c.nb, c.gx + x, c.gy + y, x, y, 8, 8, blk != 3, 1, 1);
    let v = reconstructed(
        predict_nxn_spec(mode, smooth8(s), 8, c.bit_depth),
        residual8x8(ints(unscan8(levels, c.field_scan)), c.qp as int, w),
        c.bit_depth,
    );
    if p.has(c.gx + x + i, c.gy + y + j) {
        lemma_written(p, c, x, y, 8, v, i, j);
    }
}

/// A 4x4 block without levels, predicted straight: horizontally, each row repeats the sample of the
/// plane just left of that row; vertically, each column the sample just above that column.
pub proof fn law_straight_4x4_block_repeats_its_border(
    p: PlaneV,
    g: GridV,
    c: PlaneCtx,
    blk: int,
    levels: Seq<i32>,
    w: Seq<int>,
    i: int,
    j: int,
)
    requires
        is_plain(g, c),
        0 <= blk < 16,
        levels.len() == 16,
        forall|k: int| 0 <= k < 16 ==> #[trigger] levels[k] == 0,
        0 <= i < 4,
        0 <= j < 4,
    ensures
        ({
            let (x, y) = (c.gx + LUMA_4X4_XY[blk].0 as int, c.gy + LUMA_4X4_XY[blk].1 as int);
            let (id, cip) = (c.nb.slice_id as int, c.nb.cip);
            let across = block4(p, g, c, blk, IntraNxNMode::Horizontal, levels, w, None);
            let down = block4(p, g, c, blk, IntraNxNMode::Vertical, levels, w, None);
            &&& x > 0 && may_serve(g, x - 1, y, id, cip) && p.has(x + i, y + j) ==> across.1 is None
                && (across.0.at)(x + i, y + j) == to_sample((p.at)(x - 1, y + j), c.bit_depth)
            &&& y > 0 && may_serve(g, x, y - 1, id, cip) && p.has(x + i, y + j) ==> down.1 is None
                && (down.0.at)(x + i, y + j) == to_sample((p.at)(x + i, y - 1), c.bit_depth)
        }),
{
    let (dx, dy) = (LUMA_4X4_XY[blk].0 as int, LUMA_4X4_XY[blk].1 as int);
    let (x, y) = (c.gx + dx, c.gy + dy);
    assert(0 <= dx <= 12 && 0 <= dy <= 12);
    let s = gather(p, g, c.nb, x, y, dx, dy, 4, 4, tr_decoded4(blk), 1, 1);
    law_neighbours_available(p, g, c.nb, x, y, dx, dy, 4, 4, tr_decoded4(blk), 1, 1);
    law_neighbours_surround_the_block(p, g, c.nb, x, y, dx, dy, 4, 4, tr_decoded4(blk), 1, 1, i);
    law_neighbours_surround_the_block(p, g, c.nb, x, y, dx, dy, 4, 4, tr_decoded4(blk), 1, 1, j);
    law_straight_prediction(s, 4, c.bit_depth, i, j);
    law_4x4_block_is_prediction_plus_residual(
        p,
        g,
        c,
        blk,
        IntraNxNMode::Horizontal,
        levels,
        w,
        i,
        j,
    );
    law_4x4_block_is_prediction_plus_residual(
        p,
        g,
        c,
        blk,
        IntraNxNMode::Vertical,
        levels,
        w,
        i,
        j,
    );
    assert(ints(unscan4(levels, c.field_scan)) =~= Seq::new(16, |k: int| 0int));
    crate::transform::law_zero_levels_have_no_residual(c.qp as int, w, w);
}

/// A 16x16 macroblock becomes, sample by sample, prediction plus residual limited to the sample
/// range.
pub proof fn law_16x16_is_prediction_plus_residual(
    p: PlaneV,
    g: GridV,
    c: PlaneCtx,
    mode_idx: u8,
    text: Seq<char>,
    dc: Seq<i32>,
    acs: Seq<[i32; 16]>,
    coded: bool,
    w: Seq<int>,
    i: int,
    j: int,
)
    requires
        is_plain(g, c),
        mode_idx < 4,
        0 <= i < 16,
        0 <= j < 16,
    ensures
        ({
            let s = gather(p, g, c.nb, c.gx as int, c.gy as int, 0, 0, 16, 16, false, 1, 1);
            let mode = Intra16x16Mode::of(mode_idx as int)->0;
            let pred = predict_16x16_spec(mode, s, c.bit_depth)[16 * j + i];
            let res = residual_16x16(c, mode_idx, dc, acs, coded, w)[16 * j + i];
            let r = plane_16x16(p, g, c, mode_idx, text, dc, acs, coded, w);
            &&& r.1 == crate::intra_pred::error_16x16(mode, s.av)
            &&& r.1 is None && p.has(c.gx + i, c.gy + j) ==> (r.0.at)(c.gx + i, c.gy + j)
                == to_sample(pred + res, c.bit_depth)
        }),
{
    reveal(plane_16x16);
    reveal(reconstructed);
    reveal(predict_16x16_spec);
    lemma_range(c.bit_depth);
    let s = gather(p, g, c.nb, c.gx as int, c.gy as int, 0, 0, 16, 16, false, 1, 1);
    let mode = Intra16x16Mode::of(mode_idx as int)->0;
    let v = reconstructed(
        predict_16x16_spec(mode, s, c.bit_depth),
        residual_16x16(c, mode_idx, dc, acs, coded, w),
        c.bit_depth,
    );
    if p.has(c.gx + i, c.gy + j) {
        lemma_written(p, c, 0, 0, 16, v, i, j);
    }
}

/// A 16x16 macroblock without levels, predicted straight: horizontally, each row repeats the sample
/// of the plane just left of that row; vertically, each column the sample just above that column.
pub proof fn law_straight_16x16_repeats_its_border(
    p: PlaneV,
    g: GridV,
    c: PlaneCtx,
    text: Seq<char>,
    dc: Seq<i32>,
    acs: Seq<[i32; 16]>,
    w: Seq<int>,
    i: int,
    j: int,
)
    requires
        is_plain(g, c),
        dc.len() == 16,
        forall|k: int| 0 <= k < 16 ==> #[trigger] dc[k] == 0,
        0 <= i < 16,
        0 <= j < 16,
    ensures
        ({
            let (x, y) = (c.gx as int, c.gy as int);
            let (id, cip) = (c.nb.slice_id as int, c.nb.cip);
            let down = plane_16x16(p, g, c, 0, text, dc, acs, false, w);
            let across = plane_16x16(p, g, c, 1, text, dc, acs, false, w);
            &&& x > 0 && may_serve(g, x - 1, y, id, cip) && p.has(x + i, y + j) ==> across.1 is None
                && (across.0.at)(x + i, y + j) == to_sample((p.at)(x - 1, y + j), c.bit_depth)
            &&& y > 0 && may_serve(g, x, y - 1, id, cip) && p.has(x + i, y + j) ==> down.1 is None
                && (down.0.at)(x + i, y + j) == to_sample((p.at)(x + i, y - 1), c.bit_depth)
        }),
{
    let (x, y) = (c.gx as int, c.gy as int);
    let s = gather(p, g, c.nb, x, y, 0, 0, 16, 16, false, 1, 1);
    law_neighbours_available(p, g, c.nb, x, y, 0, 0, 16, 16, false, 1, 1);
    law_neighbours_surround_the_block(p, g, c.nb, x, y, 0, 0, 16, 16, false, 1, 1, i);
    law_neighbours_surround_the_block(p, g, c.nb, x, y, 0, 0, 16, 16, false, 1, 1, j);
    law_straight_prediction_of_planes(s, 16, c.bit_depth, i, j);
    law_16x16_is_prediction_plus_residual(p, g, c, 0, text, dc, acs, false, w, i, j);
    law_16x16_is_prediction_plus_residual(p, g, c, 1, text, dc, acs, false, w, i, j);
    crate::residual_laws::law_dc_is_placed_by_row_and_column(c, 0, dc, acs, w, i, j);
    crate::residual_laws::law_dc_is_placed_by_row_and_column(c, 1, dc, acs, w, i, j);
    let m = ints(unscan4(dc, c.field_scan));
    assert(m =~= Seq::new(16, |k: int| 0int));
    lemma_no_dc(c.qp as int, w, 4 * (j / 4) + i / 4);
}

proof fn lemma_no_dc(qp: int, w: Seq<int>, k: int)
    requires
        0 <= qp,
        0 <= k < 16,
    ensures
        crate::transform::luma_dc(Seq::new(16, |k: int| 0int), qp, w)[k] == 0,
{
    reveal(crate::transform::luma_dc);
    let m = Seq::new(16, |k: int| 0int);
    let f = crate::transform::had_rows4(m);
    assert forall|k: int| 0 <= k < 16 implies #[trigger] f[k] == 0 by {
        let r = k / 4 * 4;
        assert(m[r] == 0 && m[r + 1] == 0 && m[r + 2] == 0 && m[r + 3] == 0);
        assert(crate::transform::had4(0, 0, 0, 0, k % 4) == 0);
    }
    let a = k % 4;
    assert(f[a] == 0 && f[4 + a] == 0 && f[8 + a] == 0 && f[12 + a] == 0);
    assert(crate::transform::had4(0, 0, 0, 0, k / 4) == 0);
    crate::transform::lemma_zero_scaled(w[0] * crate::transform::norm4(qp % 6, 0), qp, 6);
}

/// A chroma block of 8 by `h` samples becomes, sample by sample, prediction plus residual limited
/// to the sample range.
pub proof fn law_chroma_is_prediction_plus_residual(
    p: PlaneV,
    g: GridV,
    c: PlaneCtx,
    h: int,
    mode_idx: u8,
    cbp: int,
    dc: Seq<i32>,
    acs: Seq<[i32; 16]>,
    w: Seq<int>,
    i: int,
    j: int,
)
    requires
        h == 8 || h == 16,
        !c.bypass,
        c.step == 1,
        8 <= c.bit_depth <= 14,
        qp_ok(c.qp as int, c.bit_depth),
        0 <= i < 8,
        0 <= j < h,
    ensures
        ({
            let down: int = if h == 8 {
                2
            } else {
                1
            };
            let s = gather(p, g, c.nb, c.wx as int, c.wy as int, 0, 0, 8, h, false, 2, down);
            let mode = IntraChromaMode::of(mode_idx as int);
            let pred = predict_chroma_spec(mode, s, h, c.bit_depth)[8 * j + i];
            let res = chroma_residual(c, h, cbp, dc, acs, w)[8 * j + i];
            let r = chroma_plane(p, g, c, h, mode_idx, cbp, dc, acs, w, None);
            &&& r.1 == crate::intra_pred::error_chroma(mode, s.av)
            &&& r.1 is None && p.has(c.wx + i, c.wy + j) ==> (r.0.at)(c.wx + i, c.wy + j)
                == to_sample(pred + res, c.bit_depth)
        }),
{
    reveal(chroma_plane);
    reveal(reconstructed);
    reveal(predict_chroma_spec);
    lemma_range(c.bit_depth);
    let down: int = if h == 8 {
        2
    } else {
        1
    };
    let s = gather(p, g, c.nb, c.wx as int, c.wy as int, 0, 0, 8, h, false, 2, down);
    let mode = IntraChromaMode::of(mode_idx as int);
    let v = reconstructed(
        predict_chroma_spec(mode, s, h, c.bit_depth),
        chroma_residual(c, h, cbp, dc, acs, w),
        c.bit_depth,
    );
    if p.has(c.wx + i, c.wy + j) {
        lemma_written(p, c, 0, 0, 8, v, i, j);
    }
}

/// A chroma block without levels, predicted straight: horizontally, each row repeats the sample of
/// the plane just left of that row; vertically, each column the sample just above that column.
pub proof fn law_straight_chroma_repeats_its_border(
    p: PlaneV,
    g: GridV,
    c: PlaneCtx,
    h: int,
    dc: Seq<i32>,
    acs: Seq<[i32; 16]>,
    w: Seq<int>,
    i: int,
    j: int,
)
    requires
        h == 8 || h == 16,
        !g.mbaff && g.w >= 1 && g.h >= 1 && g.info.len() == g.w * g.h,
        !c.bypass,
        c.step == 1,
        8 <= c.bit_depth <= 14,
        qp_ok(c.qp as int, c.bit_depth),
        0 <= c.wx && c.wx + 8 <= 8 * g.w,
        0 <= c.wy && c.wy + h <= h * g.h,
        0 <= i < 8,
        0 <= j < h,
    ensures
        ({
            let d = 16int / h;
            let (x, y) = (c.wx as int, c.wy as int);
            let (id, cip) = (c.nb.slice_id as int, c.nb.cip);
            let across = chroma_plane(p, g, c, h, 1, 0, dc, acs, w, None);
            let down = chroma_plane(p, g, c, h, 2, 0, dc, acs, w, None);
            &&& x > 0 && may_serve(g, (x - 1) * 2, y * d, id, cip) && p.has(x + i, y + j)
                ==> across.1 is None && (across.0.at)(x + i, y + j) == to_sample(
                (p.at)(x - 1, y + j),
                c.bit_depth,
            )
            &&& y > 0 && may_serve(g, x * 2, (y - 1) * d, id, cip) && p.has(x + i, y + j)
                ==> down.1 is None && (down.0.at)(x + i, y + j) == to_sample(
                (p.at)(x + i, y - 1),
                c.bit_depth,
            )
        }),
{
    let (x, y) = (c.wx as int, c.wy as int);
    let d: int = if h == 8 {
        2
    } else {
        1
    };
    assert(d == 16int / h);
    assert(y * d < 16 * g.h) by {
        if h == 8 {
            assert(h * g.h == 8 * g.h);
            assert(y * d == y * 2);
        } else {
            assert(h * g.h == 16 * g.h);
            assert(y * d == y);
        }
    }
    let s = gather(p, g, c.nb, x, y, 0, 0, 8, h, false, 2, d);
    law_neighbours_available(p, g, c.nb, x, y, 0, 0, 8, h, false, 2, d);
    law_neighbours_surround_the_block(p, g, c.nb, x, y, 0, 0, 8, h, false, 2, d, i);
    law_neighbours_surround_the_block(p, g, c.nb, x, y, 0, 0, 8, h, false, 2, d, j);
    law_straight_prediction_of_planes(s, h, c.bit_depth, i, j);
    law_chroma_is_prediction_plus_residual(p, g, c, h, 1, 0, dc, acs, w, i, j);
    law_chroma_is_prediction_plus_residual(p, g, c, h, 2, 0, dc, acs, w, i, j);
    crate::residual_laws::law_chroma_without_levels(c, h, dc, acs, w, i, j);
}

} // verus!
