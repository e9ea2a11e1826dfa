//! Laws of the transforms of switching pictures.
use crate::geometry::LUMA_4X4_XY;
use crate::intra_block_laws::to_sample;
use crate::intra_pred::{predict_nxn_spec, IntraNxNMode};
use crate::math::{ints, lemma_p2_mono, lemma_p2_values, p2};
use crate::mb_grid::GridV;
use crate::neighbours::{gather, tr_decoded4};
use crate::plane::PlaneV;
use crate::recon_blocks::{block4, law_block_is_written, PlaneCtx};
use crate::recon_intra::sp_chroma_samples;
use crate::recon_mb_intra::{si_chroma_qs, MbArgs};
use crate::scan::{unscan4, unscan4_ac};
use crate::sp_transform::{
    basis_norm, chroma_dcs, combined_coeff, forward4x4, fwd4, fwd_rows4, level, quant4, quantised,
    quarter8, sp_chroma, sp_chroma_dc, sp_luma, sp_luma_switch,
};
use crate::transform::{chroma_dc_420, chroma_qp, had2x2, norm4, qp_ok, residual4x4, residual4x4_ac};
use vstd::prelude::*;

verus! {

/// The rows and columns of a 4x4 block exchanged.
pub open spec fn transposed(p: Seq<int>) -> Seq<int> {
    Seq::new(16, |k: int| p[4 * (k % 4) + k / 4])
}

/// The forward transform commutes with exchanging rows and columns.
pub proof fn law_forward_transposes(p: Seq<int>, i: int, j: int)
    requires
        p.len() == 16,
        0 <= i < 4,
        0 <= j < 4,
    ensures
        forward4x4(transposed(p))[4 * i + j] == forward4x4(p)[4 * j + i],
{
    lemma_forward(p, j, i);
    lemma_forward(transposed(p), i, j);
}

proof fn lemma_forward(p: Seq<int>, i: int, j: int)
    requires
        p.len() == 16,
        0 <= i < 4,
        0 <= j < 4,
    ensures
        forward4x4(p)[4 * i + j] == fwd4(
            fwd4(p[0], p[1], p[2], p[3], j),
            fwd4(p[4], p[5], p[6], p[7], j),
            fwd4(p[8], p[9], p[10], p[11], j),
            fwd4(p[12], p[13], p[14], p[15], j),
            i,
        ),
{
    let f = fwd_rows4(p);
    let k = 4 * i + j;
    assert(k % 4 == j && k / 4 == i);
    assert(j / 4 == 0 && (4 + j) / 4 == 1 && (8 + j) / 4 == 2 && (12 + j) / 4 == 3);
    assert((4 + j) % 4 == j && (8 + j) % 4 == j && (12 + j) % 4 == j);
}

/// A block whose rows are all alike has coefficients in the first row only: four times those of the
/// row, which weigh its samples 1 1 1 1, 2 1 -1 -2, 1 -1 -1 1 and 1 -2 2 -1.
pub proof fn law_forward_of_rows(p: Seq<int>, j: int)
    requires
        p.len() == 16,
        0 <= j < 4,
        forall|k: int| 4 <= k < 16 ==> #[trigger] p[k] == p[k % 4],
    ensures
        ({
            let r = forward4x4(p);
            let sum = p[0] + p[1] + p[2] + p[3];
            &&& r[0] == 4 * sum
            &&& r[1] == 4 * (2 * p[0] + p[1] - p[2] - 2 * p[3])
            &&& r[2] == 4 * (p[0] - p[1] - p[2] + p[3])
            &&& r[3] == 4 * (p[0] - 2 * p[1] + 2 * p[2] - p[3])
            &&& r[4 + j] == 0 && r[8 + j] == 0 && r[12 + j] == 0
        }),
{
    lemma_forward(p, 0, 0);
    lemma_forward(p, 0, 1);
    lemma_forward(p, 0, 2);
    lemma_forward(p, 0, 3);
    lemma_forward(p, 1, j);
    lemma_forward(p, 2, j);
    lemma_forward(p, 3, j);
    assert(p[4] == p[0] && p[5] == p[1] && p[6] == p[2] && p[7] == p[3]);
    assert(p[8] == p[0] && p[9] == p[1] && p[10] == p[2] && p[11] == p[3]);
    assert(p[12] == p[0] && p[13] == p[1] && p[14] == p[2] && p[15] == p[3]);
}

/// The forward transform is additive.
pub proof fn law_forward_adds(p: Seq<int>, q: Seq<int>, s: Seq<int>, i: int, j: int)
    requires
        p.len() == 16,
        q.len() == 16,
        s.len() == 16,
        forall|k: int| 0 <= k < 16 ==> #[trigger] s[k] == p[k] + q[k],
        0 <= i < 4,
        0 <= j < 4,
    ensures
        forward4x4(s)[4 * i + j] == forward4x4(p)[4 * i + j] + forward4x4(q)[4 * i + j],
{
    lemma_forward(p, i, j);
    lemma_forward(q, i, j);
    lemma_forward(s, i, j);
}

/// Quantisation rounds to the nearest level, halves away from zero, and treats both signs alike.
pub proof fn law_quantised_is_nearest(v: int, qs: int, scale: int, extra: int)
    requires
        0 <= v,
        0 <= qs,
        0 <= scale,
        extra == 0 || extra == 1,
    ensures
        ({
            let q = quantised(v, qs, scale, extra);
            let unit = p2(15 + qs / 6 + extra);
            &&& 2 * unit * q <= 2 * (v * scale) + unit < 2 * unit * (q + 1)
            &&& quantised(-v, qs, scale, extra) == -q
        }),
{
    let n = 14 + qs / 6 + extra;
    lemma_p2_mono(0, n);
    let half = p2(n);
    let unit = p2(n + 1);
    assert(unit == 2 * half);
    let t = v * scale + half;
    vstd::arithmetic::div_mod::lemma_fundamental_div_mod(t, unit);
    let q = t / unit;
    assert(0 <= t % unit < unit);
    assert(2 * unit * q <= 2 * (v * scale) + unit < 2 * unit * (q + 1)) by (nonlinear_arith)
        requires
            v * scale + half == unit * q + t % unit,
            0 <= t % unit < unit,
            unit == 2 * half,
    ;
    if v == 0 {
        assert(0 * scale == 0);
        assert(half / unit == 0) by (nonlinear_arith)
            requires
                half >= 1,
                unit == 2 * half,
        ;
    }
}

/// Quantisation and scaling undo each other: their factors and the norm of the basis function make
/// two to the power 21, nearly.
pub proof fn law_quantisation_undoes_scaling(m: int, k: int)
    requires
        0 <= m < 6,
        0 <= k < 16,
    ensures
        2097152 - 512 <= quant4(m, k) * norm4(m, k) * basis_norm(k) <= 2097152 + 512,
{
    let (a, b, c) = (quant4(m, k), norm4(m, k), basis_norm(k));
    assert(are_factors(a, b, c));
    lemma_factors(a, b, c);
}

spec fn are_factors(a: int, b: int, c: int) -> bool {
    ||| (a, b, c) == (13107int, 10int, 16int)
    ||| (a, b, c) == (5243int, 16int, 25int)
    ||| (a, b, c) == (8066int, 13int, 20int)
    ||| (a, b, c) == (11916int, 11int, 16int)
    ||| (a, b, c) == (4660int, 18int, 25int)
    ||| (a, b, c) == (7490int, 14int, 20int)
    ||| (a, b, c) == (10082int, 13int, 16int)
    ||| (a, b, c) == (4194int, 20int, 25int)
    ||| (a, b, c) == (6554int, 16int, 20int)
    ||| (a, b, c) == (9362int, 14int, 16int)
    ||| (a, b, c) == (3647int, 23int, 25int)
    ||| (a, b, c) == (5825int, 18int, 20int)
    ||| (a, b, c) == (8192int, 16int, 16int)
    ||| (a, b, c) == (3355int, 25int, 25int)
    ||| (a, b, c) == (5243int, 20int, 20int)
    ||| (a, b, c) == (7282int, 18int, 16int)
    ||| (a, b, c) == (2893int, 29int, 25int)
    ||| (a, b, c) == (4559int, 23int, 20int)
}

proof fn lemma_factors(a: int, b: int, c: int)
    requires
        are_factors(a, b, c),
    ensures
        2097152 - 512 <= a * b * c <= 2097152 + 512,
{
    assert(2097152 - 512 <= a * b * c <= 2097152 + 512) by (nonlinear_arith)
        requires
            are_factors(a, b, c),
    ;
}

/// Without levels, switching makes no difference: either way the transformed prediction is
/// quantised.
pub proof fn law_no_levels_no_switch(
    pred: Seq<int>,
    c: Seq<int>,
    qp: int,
    qs: int,
    w: Seq<int>,
    k: int,
)
    requires
        0 <= k < 16,
        c[k] == 0,
    ensures
        sp_luma(pred, c, qp, qs, w)[k] == sp_luma_switch(pred, c, qs)[k],
        sp_luma_switch(pred, c, qs)[k] == level(
            quantised(forward4x4(pred)[k], qs, quant4(qs % 6, k), 0),
        ),
{
    reveal(sp_luma);
    reveal(sp_luma_switch);
    let scale = w[k] * norm4(qp % 6, k) * basis_norm(k);
    assert(0 * scale * p2(qp / 6) == 0) by (nonlinear_arith);
    lemma_p2_values();
    assert(combined_coeff(forward4x4(pred)[k], 0, qp, scale, 10) == forward4x4(pred)[k]);
}

/// In a switching macroblock the levels are added to those of the prediction.
pub proof fn law_switched_levels_add(pred: Seq<int>, c: Seq<int>, z: Seq<int>, qs: int, k: int)
    requires
        0 <= k < 16,
        z[k] == 0,
        -0x3fff_ffff <= c[k] <= 0x3fff_ffff,
        -0x3fff_ffff <= sp_luma_switch(pred, z, qs)[k] <= 0x3fff_ffff,
    ensures
        sp_luma_switch(pred, c, qs)[k] == c[k] + sp_luma_switch(pred, z, qs)[k],
{
    reveal(sp_luma_switch);
}

/// Six steps of the parameter QP double what a level counts.
pub proof fn law_six_steps_double_levels(
    pred: Seq<int>,
    c: Seq<int>,
    d: Seq<int>,
    qp: int,
    qs: int,
    w: Seq<int>,
    k: int,
)
    requires
        0 <= qp,
        0 <= k < 16,
        d[k] == 2 * c[k],
    ensures
        sp_luma(pred, c, qp + 6, qs, w)[k] == sp_luma(pred, d, qp, qs, w)[k],
{
    reveal(sp_luma);
    assert((qp + 6) / 6 == qp / 6 + 1 && (qp + 6) % 6 == qp % 6);
    lemma_p2_mono(0, qp / 6);
    let scale = w[k] * norm4(qp % 6, k) * basis_norm(k);
    let (u, n) = (c[k], p2(qp / 6));
    assert(p2(qp / 6 + 1) == 2 * n);
    assert(u * scale * (2 * n) == (2 * u) * scale * n) by (nonlinear_arith);
}

/// A level that makes a whole coefficient is added to the transformed prediction before both are
/// quantised.
pub proof fn law_levels_join_prediction(
    pred: Seq<int>,
    c: Seq<int>,
    qp: int,
    qs: int,
    w: Seq<int>,
    k: int,
    v: int,
)
    requires
        0 <= k < 16,
        c[k] * (w[k] * norm4(qp % 6, k) * basis_norm(k)) * p2(qp / 6) == 1024 * v,
    ensures
        sp_luma(pred, c, qp, qs, w)[k] == level(
            quantised(forward4x4(pred)[k] + v, qs, quant4(qs % 6, k), 0),
        ),
{
    reveal(sp_luma);
    lemma_p2_values();
    assert(p2(10) == 1024);
    assert(1024 * v / 1024 == v);
}

/// The blocks of an 8x8 chroma block are its quarters; their coefficients but the first are those
/// of a luma block.
pub proof fn law_chroma_blocks_are_quarters(
    p: Seq<int>,
    dc: Seq<int>,
    ac: Seq<int>,
    q: Seq<int>,
    b: int,
    switching: bool,
    qp: int,
    qs: int,
    w: Seq<int>,
    k: int,
)
    requires
        p.len() == 64,
        q.len() == 16,
        0 <= b < 4,
        1 <= k < 16,
        forall|x: int, y: int|
            0 <= x < 4 && 0 <= y < 4 ==> #[trigger] q[4 * y + x] == p[8 * (b / 2 * 4 + y) + (b % 2 * 4
                + x)],
    ensures
        sp_chroma(p, dc, ac, b, switching, qp, qs, w)[k] == if switching {
            sp_luma_switch(q, ac, qs)[k]
        } else {
            sp_luma(q, ac, qp, qs, w)[k]
        },
{
    reveal(sp_chroma);
    let r = quarter8(p, b);
    assert forall|n: int| 0 <= n < 16 implies #[trigger] r[n] == q[n] by {
        let (x, y) = (n % 4, n / 4);
        assert(q[4 * y + x] == p[8 * (b / 2 * 4 + y) + (b % 2 * 4 + x)]);
    }
    assert(r =~= q);
}

/// Sum of the sixteen samples of quarter `b` of an 8x8 block.
pub open spec fn quarter_sum(p: Seq<int>, b: int) -> int {
    let at = |x: int, y: int| p[8 * (b / 2 * 4 + y) + (b % 2 * 4 + x)];
    let row = |y: int| at(0, y) + at(1, y) + at(2, y) + at(3, y);
    row(0) + row(1) + row(2) + row(3)
}

/// The four transformed DC coefficients of an 8x8 chroma block: sums and differences, along rows
/// and columns, of the sums of its quarters.
pub open spec fn dc_of_quarters(p: Seq<int>, k: int) -> int {
    let (a, b, c, d) = (quarter_sum(p, 0), quarter_sum(p, 1), quarter_sum(p, 2), quarter_sum(p, 3));
    if k == 0 {
        a + b + c + d
    } else if k == 1 {
        a - b + c - d
    } else if k == 2 {
        a + b - c - d
    } else {
        a - b - c + d
    }
}

proof fn lemma_quarter_dc(p: Seq<int>, b: int)
    requires
        p.len() == 64,
        0 <= b < 4,
    ensures
        chroma_dcs(p)[b] == quarter_sum(p, b),
{
    let q = quarter8(p, b);
    lemma_forward(q, 0, 0);
    let (u, v) = (b % 2 * 4, b / 2 * 4);
    assert(q[0] + q[1] + q[2] + q[3] == p[8 * v + u] + p[8 * v + u + 1] + p[8 * v + u + 2] + p[8 * v
        + u + 3]);
    let n = 8 * (v + 1) + u;
    assert(q[4] + q[5] + q[6] + q[7] == p[n] + p[n + 1] + p[n + 2] + p[n + 3]);
    let n = 8 * (v + 2) + u;
    assert(q[8] + q[9] + q[10] + q[11] == p[n] + p[n + 1] + p[n + 2] + p[n + 3]);
    let n = 8 * (v + 3) + u;
    assert(q[12] + q[13] + q[14] + q[15] == p[n] + p[n + 1] + p[n + 2] + p[n + 3]);
}

/// Chroma DC levels of switching pictures: the DC of the quarters of the prediction, quantised with
/// one bit more than other coefficients; the coded level is added to it in a switching macroblock,
/// and before quantisation in others.
pub proof fn law_sp_chroma_dc(
    p: Seq<int>,
    dc: Seq<int>,
    switching: bool,
    qp: int,
    qs: int,
    w: Seq<int>,
    k: int,
    v: int,
)
    requires
        p.len() == 64,
        0 <= k < 4,
        !switching ==> dc[k] * (w[0] * norm4(qp % 6, 0) * 16) * p2(qp / 6) == 512 * v,
    ensures
        sp_chroma_dc(p, dc, switching, qp, qs, w)[k] == if switching {
            level(dc[k] + quantised(dc_of_quarters(p, k), qs, quant4(qs % 6, 0), 1))
        } else {
            level(quantised(dc_of_quarters(p, k) + v, qs, quant4(qs % 6, 0), 1))
        },
{
    lemma_quarter_dc(p, 0);
    lemma_quarter_dc(p, 1);
    lemma_quarter_dc(p, 2);
    lemma_quarter_dc(p, 3);
    lemma_p2_values();
    assert(p2(9) == 512);
    assert(512 * v / 512 == v);
    assert(had2x2(chroma_dcs(p), k) == dc_of_quarters(p, k));
}

/// The first coefficient of a chroma block of a switching picture is its entry of the inverse
/// transform of the DC levels, which are scaled with QS; switching macroblocks scale them with flat
/// weights.
pub proof fn law_sp_chroma_first(
    p: Seq<int>,
    dc: Seq<int>,
    ac: Seq<int>,
    b: int,
    qp: int,
    qs: int,
    w: Seq<int>,
)
    requires
        0 <= b < 4,
    ensures
        sp_chroma(p, dc, ac, b, true, qp, qs, w)[0] == chroma_dc_420(
            sp_chroma_dc(p, dc, true, qp, qs, w),
            qs,
            Seq::new(16, |k: int| 16),
        )[b],
        sp_chroma(p, dc, ac, b, false, qp, qs, w)[0] == chroma_dc_420(
            sp_chroma_dc(p, dc, false, qp, qs, w),
            qs,
            w,
        )[b],
{
    reveal(sp_chroma);
    assert(crate::transform::flat(16) =~= Seq::new(16, |k: int| 16int));
}

/// Chroma of a switching picture: in each 4x4 block the inverse transform of the joint
/// coefficients, limited to the sample range; nothing is added to it.
pub proof fn law_sp_chroma_samples(
    c: PlaneCtx,
    cbp: int,
    dc: Seq<i32>,
    acs: Seq<[i32; 16]>,
    pred: Seq<int>,
    switching: bool,
    qs: int,
    w: Seq<int>,
    x: int,
    y: int,
)
    requires
        8 <= c.bit_depth <= 14,
        0 <= x < 8,
        0 <= y < 8,
        dc.len() == 4,
        acs.len() == 4,
    ensures
        ({
            let b = 2 * (y / 4) + x / 4;
            let dcs = if cbp > 0 {
                ints(dc)
            } else {
                Seq::new(4, |i: int| 0int)
            };
            let ac = if cbp == 2 {
                ints(unscan4_ac(acs[b]@, c.field_scan))
            } else {
                Seq::new(16, |i: int| 0int)
            };
            let joint = sp_chroma(pred, dcs, ac, b, switching, c.qp as int, qs, w);
            sp_chroma_samples(c, cbp, dc, acs, pred, switching, qs, w)[8 * y + x] == to_sample(
                residual4x4_ac(joint, qs, w)[4 * (y % 4) + x % 4],
                c.bit_depth,
            )
        }),
{
    reveal(sp_chroma_samples);
    reveal(crate::residual::clipped);
    reveal(crate::recon_blocks::mosaic);
    crate::math::lemma_p2_mono(0, c.bit_depth as int);
    let k = 8 * y + x;
    assert(k % 8 == x && k / 8 == y);
    let b = 2 * (y / 4) + x / 4;
    let dcs = if cbp > 0 {
        ints(dc)
    } else {
        Seq::new(4, |i: int| 0int)
    };
    let ac = if cbp == 2 {
        ints(unscan4_ac(acs[b]@, c.field_scan))
    } else {
        Seq::new(16, |i: int| 0int)
    };
    assert(crate::recon_intra::dc_list(dc, cbp > 0, 4) =~= dcs);
    assert(crate::recon_intra::ac_block(c, acs, cbp == 2, b) =~= ac);
}

/// A 4x4 intra block of a switching macroblock: the levels are added to those of the transformed
/// prediction, and the inverse transform of the sum, scaled with QS, is the block.
pub proof fn law_si_4x4_block(
    p: PlaneV,
    g: GridV,
    c: PlaneCtx,
    blk: int,
    mode: IntraNxNMode,
    levels: Seq<i32>,
    w: Seq<int>,
    qs: i64,
    i: int,
    j: int,
)
    requires
        c.step == 1,
        c.gx == c.wx && c.gy == c.wy,
        8 <= c.bit_depth <= 14,
        qp_ok(qs as int, c.bit_depth),
        0 <= blk < 16,
        0 <= i < 4,
        0 <= j < 4,
    ensures
        ({
            let (x, y) = (LUMA_4X4_XY[blk].0 as int, LUMA_4X4_XY[blk].1 as int);
            let s = gather(p, g, c.nb, c.gx + x, c.gy + y, x, y, 4, 4, tr_decoded4(blk), 1, 1);
            let pred = predict_nxn_spec(mode, s, 4, c.bit_depth);
            let sum = sp_luma_switch(pred, ints(unscan4(levels, c.field_scan)), qs as int);
            let r = block4(p, g, c, blk, mode, levels, w, Some(qs));
            r.1 is None && p.has(c.gx + x + i, c.gy + y + j) ==> (r.0.at)(
                c.gx + x + i,
                c.gy + y + j,
            ) == to_sample(residual4x4(sum, qs as int, w)[4 * j + i], c.bit_depth)
        }),
{
    reveal(block4);
    reveal(crate::residual::clipped);
    crate::math::lemma_p2_mono(8, c.bit_depth as int);
    crate::math::lemma_p2_mono(c.bit_depth as int, 14);
    crate::math::lemma_p2_values();
    let (x, y) = (LUMA_4X4_XY[blk].0 as int, LUMA_4X4_XY[blk].1 as int);
    let s = gather(p, g, c.nb, c.gx + x, c.gy + y, x, y, 4, 4, tr_decoded4(blk), 1, 1);
    let pred = predict_nxn_spec(mode, s, 4, c.bit_depth);
    let sum = sp_luma_switch(pred, ints(unscan4(levels, c.field_scan)), qs as int);
    let res = residual4x4(sum, qs as int, w);
    assert(res.len() == 16) by {
        reveal(residual4x4);
    }
    let v = crate::residual::clipped(res, c.bit_depth);
    law_block_is_written(p, c, x, y, 4, v, c.wx + x + i, c.wy + y + j);
    assert(y * c.step == y && j / 1 == j && j % 1 == 0);
    assert(j * 4 + i == 4 * j + i);
}

/// The parameter of chroma in a switching intra macroblock: QS, mapped with the offset of the
/// plane.
pub proof fn law_si_chroma_parameter(a: MbArgs, qs: i64, cr: bool)
    requires
        a.sps.bit_depth_chroma_minus8 == 0,
        0 <= qs <= 51,
    ensures
        ({
            let offset = if cr && a.pps.extension is Some {
                (a.pps.extension->0).second_chroma_qp_index_offset
            } else {
                a.pps.chroma_qp_index_offset
            };
            si_chroma_qs(a, Some(qs), cr) == Some(chroma_qp(qs as int, offset as int, 0) as i64)
        }),
        si_chroma_qs(a, None, cr) is None,
{
}

} // verus!
