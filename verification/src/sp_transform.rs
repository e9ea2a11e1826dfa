//! Transform-domain reconstruction of SP and SI macroblocks.
//!
//! The prediction is transformed, combined with the coded levels and quantised again with the
//! parameter QS, so that different predictions can lead to the same samples.
use crate::intra_pred::samples_ok;
use crate::math::{
    abs_of, clip3, clip3_i64, floor_div, ints, lemma_mul_bound, lemma_p2_mono, lemma_p2_values,
    longs, p2, pow2, within,
};
use crate::transform::{
    chroma_dc_420, had2x2, inverse_hadamard_chroma_dc_420, norm4, norm4_at, norm4_class, weights_ok,
    DC_BOUND, LEVEL_BOUND,
};
use vstd::prelude::*;

verus! {

/// One output of the four-point forward transform.
pub open spec fn fwd4(a: int, b: int, c: int, d: int, j: int) -> int {
    if j == 0 {
        a + b + c + d
    } else if j == 1 {
        2 * a + b - c - 2 * d
    } else if j == 2 {
        a - b - c + d
    } else {
        a - 2 * b + 2 * c - d
    }
}

pub open spec fn fwd_rows4(p: Seq<int>) -> Seq<int> {
    Seq::new(
        16,
        |k: int|
            fwd4(
                p[k / 4 * 4],
                p[k / 4 * 4 + 1],
                p[k / 4 * 4 + 2],
                p[k / 4 * 4 + 3],
                k % 4,
            ),
    )
}

/// Forward transform of a 4x4 block of samples.
pub open spec fn forward4x4(p: Seq<int>) -> Seq<int> {
    let f = fwd_rows4(p);
    Seq::new(16, |k: int| fwd4(f[k % 4], f[4 + k % 4], f[8 + k % 4], f[12 + k % 4], k / 4))
}

fn fwd4_at(a: i64, b: i64, c: i64, d: i64, j: usize, Ghost(m): Ghost<int>) -> (r: i64)
    requires
        0 <= m <= 0x1_0000_0000,
        -m <= a <= m,
        -m <= b <= m,
        -m <= c <= m,
        -m <= d <= m,
        j < 4,
    ensures
        r == fwd4(a as int, b as int, c as int, d as int, j as int),
        -6 * m <= r <= 6 * m,
{
    if j == 0 {
        a + b + c + d
    } else if j == 1 {
        2 * a + b - c - 2 * d
    } else if j == 2 {
        a - b - c + d
    } else {
        a - 2 * b + 2 * c - d
    }
}

/// Bound on transformed samples.
pub const COEFF_BOUND: i64 = 2359260;

fn forward_4x4(p: &Vec<i32>) -> (r: Vec<i64>)
    requires
        p.len() == 16,
        samples_ok(p@),
    ensures
        longs(r@) == forward4x4(ints(p@)),
        r.len() == 16,
        within(r@, COEFF_BOUND as int),
{
    let ghost pp = ints(p@);
    let mut f: Vec<i64> = Vec::new();
    for k in 0..16usize
        invariant
            p.len() == 16,
            samples_ok(p@),
            pp == ints(p@),
            f.len() == k,
            forall|i: int| 0 <= i < k ==> f@[i] == #[trigger] fwd_rows4(pp)[i],
            within(f@, 393210),
    {
        let b: usize = k / 4 * 4;
        let v = fwd4_at(
            p[b] as i64,
            p[b + 1] as i64,
            p[b + 2] as i64,
            p[b + 3] as i64,
            k % 4,
            Ghost(65535),
        );
        f.push(v);
    }
    assert(longs(f@) =~= fwd_rows4(pp));
    let mut r: Vec<i64> = Vec::new();
    for k in 0..16usize
        invariant
            f.len() == 16,
            longs(f@) == fwd_rows4(pp),
            within(f@, 393210),
            r.len() == k,
            forall|i: int| 0 <= i < k ==> r@[i] == #[trigger] forward4x4(pp)[i],
            within(r@, COEFF_BOUND as int),
    {
        let b: usize = k % 4;
        let v = fwd4_at(f[b], f[4 + b], f[8 + b], f[12 + b], k / 4, Ghost(393210));
        proof {
            let g = fwd_rows4(pp);
            assert(g[b as int] == f@[b as int]);
            assert(g[4 + b] == f@[4 + b]);
            assert(g[8 + b] == f@[8 + b]);
            assert(g[12 + b] == f@[12 + b]);
        }
        r.push(v);
    }
    assert(longs(r@) =~= forward4x4(pp));
    r
}

pub const QUANT4: [i64; 18] = [
    13107, 5243, 8066, 11916, 4660, 7490, 10082, 4194, 6554, 9362, 3647, 5825, 8192, 3355, 5243,
    7282, 2893, 4559,
];

/// Quantisation scale of position `k` for `QS % 6 == m`.
pub open spec fn quant4(m: int, k: int) -> int {
    QUANT4[3 * m + norm4_class(k)] as int
}

/// Norm of the basis function of position `k`.
pub open spec fn basis_norm(k: int) -> int {
    if norm4_class(k) == 0 {
        16
    } else if norm4_class(k) == 1 {
        25
    } else {
        20
    }
}

fn class_of(k: usize) -> (r: usize)
    requires
        k < 16,
    ensures
        r == norm4_class(k as int),
        r < 3,
{
    let i: usize = k / 4;
    let j: usize = k % 4;
    if i % 2 == 0 && j % 2 == 0 {
        0
    } else if i % 2 == 1 && j % 2 == 1 {
        1
    } else {
        2
    }
}

/// A level: values beyond 32 bits saturate.
pub open spec fn level(v: int) -> int {
    clip3(-0x8000_0000, 0x7fff_ffff, v)
}

/// Quantisation of `v` with rounding to nearest; `extra` is 1 for chroma DC, else 0.
pub open spec fn quantised(v: int, qs: int, scale: int, extra: int) -> int {
    let q = (abs_of(v) * scale + p2(14 + qs / 6 + extra)) / p2(15 + qs / 6 + extra);
    if v < 0 {
        -q
    } else {
        q
    }
}

/// A coefficient of the prediction plus the scaled level; `shift` is 10, or 9 for chroma DC.
pub open spec fn combined_coeff(cp: int, cr: int, qp: int, scale: int, shift: int) -> int {
    cp + (cr * scale * p2(qp / 6)) / p2(shift)
}

fn quantise(v: i64, qs: i64, scale: i64, extra: u32) -> (r: i64)
    requires
        -0x1_0000_0000_0000 <= v <= 0x1_0000_0000_0000,
        0 <= qs <= 51,
        0 <= scale <= 13107,
        extra <= 1,
    ensures
        r == quantised(v as int, qs as int, scale as int, extra as int),
        -0x4000_0000_0000_0000 <= r <= 0x4000_0000_0000_0000,
{
    let a: i64 = if v < 0 {
        -v
    } else {
        v
    };
    let t: u32 = (qs / 6) as u32;
    proof {
        lemma_mul_bound(a as int, 0x1_0000_0000_0000, scale as int, 13107);
        assert(0 <= a * scale) by (nonlinear_arith)
            requires
                a >= 0,
                scale >= 0,
        ;
    }
    let h = pow2(14 + t + extra);
    let d = pow2(15 + t + extra);
    let n: i64 = a * scale + h;
    let q = floor_div(n, d);
    proof {
        assert(0 <= q <= n) by (nonlinear_arith)
            requires
                q == n as int / d as int,
                n >= 0,
                d >= 1,
        ;
    }
    if v < 0 {
        -q
    } else {
        q
    }
}

fn combine_coeff(cp: i64, cr: i64, qp: i64, scale: i64, shift: u32) -> (r: i64)
    requires
        -0x1000_0000 <= cp <= 0x1000_0000,
        -LEVEL_BOUND <= cr <= LEVEL_BOUND,
        0 <= qp <= 51,
        0 <= scale <= 184875,
        shift == 9 || shift == 10,
    ensures
        r == combined_coeff(cp as int, cr as int, qp as int, scale as int, shift as int),
        -0x1_0000_0000_0000 <= r <= 0x1_0000_0000_0000,
{
    proof {
        lemma_p2_values();
        lemma_p2_mono(qp as int / 6, 8);
        lemma_mul_bound(cr as int, LEVEL_BOUND as int, scale as int, 184875);
    }
    let up = pow2((qp / 6) as u32);
    proof {
        lemma_mul_bound(cr * scale, LEVEL_BOUND * 184875, up as int, 256);
    }
    let n: i64 = cr * scale * up;
    let d = pow2(shift);
    proof {
        assert(p2(9) == 512) by {
            reveal_with_fuel(p2, 10);
        }
        assert(d >= 512);
        let q = n as int / d as int;
        assert(-0xc000_0000_0000 <= q <= 0xc000_0000_0000) by (nonlinear_arith)
            requires
                q == n as int / d as int,
                d >= 512,
                -101636106092544000 <= n <= 101636106092544000,
        ;
    }
    cp + floor_div(n, d)
}

/// Levels of a luma block of an SP macroblock.
#[verifier::opaque]
pub open spec fn sp_luma(pred: Seq<int>, c: Seq<int>, qp: int, qs: int, w: Seq<int>) -> Seq<int> {
    let cp = forward4x4(pred);
    Seq::new(
        16,
        |k: int|
            level(
                quantised(
                    combined_coeff(
                        cp[k],
                        c[k],
                        qp,
                        w[k] * norm4(qp % 6, k) * basis_norm(k),
                        10,
                    ),
                    qs,
                    quant4(qs % 6, k),
                    0,
                ),
            ),
    )
}

/// Levels of a luma block of a switching macroblock: the coded levels plus the quantised
/// prediction.
#[verifier::opaque]
pub open spec fn sp_luma_switch(pred: Seq<int>, c: Seq<int>, qs: int) -> Seq<int> {
    let cp = forward4x4(pred);
    Seq::new(16, |k: int| level(c[k] + quantised(cp[k], qs, quant4(qs % 6, k), 0)))
}

fn sp_scale(w: i64, qp: i64, k: usize) -> (r: i64)
    requires
        0 <= w <= 255,
        0 <= qp <= 51,
        k < 16,
    ensures
        r == w * norm4(qp as int % 6, k as int) * basis_norm(k as int),
        0 <= r <= 184875,
{
    let n = norm4_at(qp % 6, k);
    let c = class_of(k);
    let a: i64 = if c == 0 {
        16
    } else if c == 1 {
        25
    } else {
        20
    };
    proof {
        lemma_mul_bound(w as int, 255, n as int, 29);
        assert(0 <= w * n) by (nonlinear_arith)
            requires
                0 <= w,
                0 <= n,
        ;
        lemma_mul_bound(w * n, 7395, a as int, 25);
        assert(0 <= w * n * a) by (nonlinear_arith)
            requires
                0 <= w * n,
                0 <= a,
        ;
    }
    w * n * a
}

/// Levels of a luma block of an SP macroblock.
pub fn sp_luma_non_switching(pred: &Vec<i32>, c: &Vec<i64>, qp: i64, qs: i64, w: &Vec<i64>) -> (r:
    Vec<i64>)
    requires
        pred.len() == 16,
        samples_ok(pred@),
        c.len() == 16,
        within(c@, LEVEL_BOUND as int),
        weights_ok(w@, 16),
        0 <= qp <= 51,
        0 <= qs <= 51,
    ensures
        longs(r@) == sp_luma(ints(pred@), longs(c@), qp as int, qs as int, longs(w@)),
        r.len() == 16,
        within(r@, LEVEL_BOUND as int),
{
    let cp = forward_4x4(pred);
    let mut r: Vec<i64> = Vec::new();
    for k in 0..16usize
        invariant
            cp.len() == 16,
            longs(cp@) == forward4x4(ints(pred@)),
            within(cp@, COEFF_BOUND as int),
            c.len() == 16,
            within(c@, LEVEL_BOUND as int),
            weights_ok(w@, 16),
            0 <= qp <= 51,
            0 <= qs <= 51,
            r.len() == k,
            forall|i: int|
                0 <= i < k ==> r@[i] == #[trigger] sp_luma(
                    ints(pred@),
                    longs(c@),
                    qp as int,
                    qs as int,
                    longs(w@),
                )[i],
            within(r@, LEVEL_BOUND as int),
    {
        proof {
            reveal(sp_luma);
            assert(forward4x4(ints(pred@))[k as int] == cp@[k as int]);
        }
        let s = sp_scale(w[k], qp, k);
        let v = combine_coeff(cp[k], c[k], qp, s, 10);
        let q = quantise(v, qs, QUANT4[3 * (qs % 6) as usize + class_of(k)], 0);
        r.push(clip3_i64(-0x8000_0000, 0x7fff_ffff, q));
    }
    proof {
        reveal(sp_luma);
        assert(longs(r@) =~= sp_luma(ints(pred@), longs(c@), qp as int, qs as int, longs(w@)));
    }
    r
}

/// Levels of a luma block of a switching macroblock.
pub fn sp_luma_switching(pred: &Vec<i32>, c: &Vec<i64>, qs: i64) -> (r: Vec<i64>)
    requires
        pred.len() == 16,
        samples_ok(pred@),
        c.len() == 16,
        within(c@, LEVEL_BOUND as int),
        0 <= qs <= 51,
    ensures
        longs(r@) == sp_luma_switch(ints(pred@), longs(c@), qs as int),
        r.len() == 16,
        within(r@, LEVEL_BOUND as int),
{
    let cp = forward_4x4(pred);
    let mut r: Vec<i64> = Vec::new();
    for k in 0..16usize
        invariant
            cp.len() == 16,
            longs(cp@) == forward4x4(ints(pred@)),
            within(cp@, COEFF_BOUND as int),
            c.len() == 16,
            within(c@, LEVEL_BOUND as int),
            0 <= qs <= 51,
            r.len() == k,
            forall|i: int|
                0 <= i < k ==> r@[i] == #[trigger] sp_luma_switch(
                    ints(pred@),
                    longs(c@),
                    qs as int,
                )[i],
            within(r@, LEVEL_BOUND as int),
    {
        proof {
            reveal(sp_luma_switch);
            assert(forward4x4(ints(pred@))[k as int] == cp@[k as int]);
        }
        let q = quantise(cp[k], qs, QUANT4[3 * (qs % 6) as usize + class_of(k)], 0);
        r.push(clip3_i64(-0x8000_0000, 0x7fff_ffff, c[k] + q));
    }
    proof {
        reveal(sp_luma_switch);
        assert(longs(r@) =~= sp_luma_switch(ints(pred@), longs(c@), qs as int));
    }
    r
}

/// Samples of 4x4 block `b` of an 8x8 block.
pub open spec fn quarter8(p: Seq<int>, b: int) -> Seq<int> {
    Seq::new(16, |k: int| p[(b / 2 * 4 + k / 4) * 8 + b % 2 * 4 + k % 4])
}

/// Transformed DC coefficients of the four blocks of an 8x8 chroma block.
pub open spec fn chroma_dcs(p: Seq<int>) -> Seq<int> {
    Seq::new(4, |b: int| forward4x4(quarter8(p, b))[0])
}

/// DC levels of a chroma block of an SP macroblock.
pub open spec fn sp_chroma_dc(
    p: Seq<int>,
    dc: Seq<int>,
    switching: bool,
    qp: int,
    qs: int,
    w: Seq<int>,
) -> Seq<int> {
    Seq::new(
        4,
        |k: int|
            if switching {
                level(dc[k] + quantised(had2x2(chroma_dcs(p), k), qs, quant4(qs % 6, 0), 1))
            } else {
                level(
                    quantised(
                        combined_coeff(
                            had2x2(chroma_dcs(p), k),
                            dc[k],
                            qp,
                            w[0] * norm4(qp % 6, 0) * basis_norm(0),
                            9,
                        ),
                        qs,
                        quant4(qs % 6, 0),
                        1,
                    ),
                )
            },
    )
}

/// Weights for scaling chroma DC levels: switching macroblocks use flat ones.
pub open spec fn sp_dc_weights(switching: bool, w: Seq<int>) -> Seq<int> {
    if switching {
        crate::transform::flat(16)
    } else {
        w
    }
}

/// Coefficients of block `b` of a chroma block of an SP macroblock, the DC one already scaled.
#[verifier::opaque]
pub open spec fn sp_chroma(
    p: Seq<int>,
    dc: Seq<int>,
    ac: Seq<int>,
    b: int,
    switching: bool,
    qp: int,
    qs: int,
    w: Seq<int>,
) -> Seq<int> {
    let q = quarter8(p, b);
    let rest = if switching {
        sp_luma_switch(q, ac, qs)
    } else {
        sp_luma(q, ac, qp, qs, w)
    };
    Seq::new(
        16,
        |k: int|
            if k == 0 {
                chroma_dc_420(
                    sp_chroma_dc(p, dc, switching, qp, qs, w),
                    qs,
                    sp_dc_weights(switching, w),
                )[b]
            } else {
                rest[k]
            },
    )
}

fn quarter_of(p: &Vec<i32>, b: usize) -> (r: Vec<i32>)
    requires
        p.len() == 64,
        samples_ok(p@),
        b < 4,
    ensures
        ints(r@) == quarter8(ints(p@), b as int),
        r.len() == 16,
        samples_ok(r@),
{
    let mut r: Vec<i32> = Vec::new();
    for k in 0..16usize
        invariant
            p.len() == 64,
            samples_ok(p@),
            b < 4,
            r.len() == k,
            samples_ok(r@),
            forall|i: int| 0 <= i < k ==> r@[i] == #[trigger] quarter8(ints(p@), b as int)[i],
    {
        r.push(p[(b / 2 * 4 + k / 4) * 8 + b % 2 * 4 + k % 4]);
    }
    assert(ints(r@) =~= quarter8(ints(p@), b as int));
    r
}

/// DC levels of a chroma block of an SP macroblock.
fn sp_chroma_dc_levels(
    p: &Vec<i32>,
    dc: &Vec<i64>,
    switching: bool,
    qp: i64,
    qs: i64,
    w: &Vec<i64>,
) -> (r: Vec<i64>)
    requires
        p.len() == 64,
        samples_ok(p@),
        dc.len() == 4,
        within(dc@, LEVEL_BOUND as int),
        weights_ok(w@, 16),
        0 <= qp <= 51,
        0 <= qs <= 51,
    ensures
        longs(r@) == sp_chroma_dc(ints(p@), longs(dc@), switching, qp as int, qs as int, longs(w@)),
        r.len() == 4,
        within(r@, LEVEL_BOUND as int),
{
    let mut t: Vec<i64> = Vec::new();
    for b in 0..4usize
        invariant
            p.len() == 64,
            samples_ok(p@),
            t.len() == b,
            within(t@, COEFF_BOUND as int),
            forall|i: int| 0 <= i < b ==> t@[i] == #[trigger] chroma_dcs(ints(p@))[i],
    {
        let f = forward_4x4(&quarter_of(p, b));
        assert(longs(f@)[0] == f@[0]);
        t.push(f[0]);
    }
    assert(longs(t@) =~= chroma_dcs(ints(p@)));
    let (t0, t1, t2, t3) = (t[0], t[1], t[2], t[3]);
    let mut r: Vec<i64> = Vec::new();
    for k in 0..4usize
        invariant
            p.len() == 64,
            dc.len() == 4,
            within(dc@, LEVEL_BOUND as int),
            weights_ok(w@, 16),
            0 <= qp <= 51,
            0 <= qs <= 51,
            longs(t@) == chroma_dcs(ints(p@)),
            t.len() == 4,
            within(t@, COEFF_BOUND as int),
            t0 == t@[0],
            t1 == t@[1],
            t2 == t@[2],
            t3 == t@[3],
            r.len() == k,
            within(r@, LEVEL_BOUND as int),
            forall|i: int|
                0 <= i < k ==> r@[i] == #[trigger] sp_chroma_dc(
                    ints(p@),
                    longs(dc@),
                    switching,
                    qp as int,
                    qs as int,
                    longs(w@),
                )[i],
    {
        let h: i64 = if k == 0 {
            t0 + t1 + t2 + t3
        } else if k == 1 {
            t0 - t1 + t2 - t3
        } else if k == 2 {
            t0 + t1 - t2 - t3
        } else {
            t0 - t1 - t2 + t3
        };
        proof {
            let c = chroma_dcs(ints(p@));
            assert(c[0] == longs(t@)[0] && c[1] == longs(t@)[1] && c[2] == longs(t@)[2] && c[3]
                == longs(t@)[3]);
            assert(h == had2x2(c, k as int));
        }
        let scale = QUANT4[3 * (qs % 6) as usize];
        let v = if switching {
            dc[k] + quantise(h, qs, scale, 1)
        } else {
            let s = sp_scale(w[0], qp, 0);
            quantise(combine_coeff(h, dc[k], qp, s, 9), qs, scale, 1)
        };
        r.push(clip3_i64(-0x8000_0000, 0x7fff_ffff, v));
    }
    assert(longs(r@) =~= sp_chroma_dc(
        ints(p@),
        longs(dc@),
        switching,
        qp as int,
        qs as int,
        longs(w@),
    ));
    r
}

/// Scaled DC coefficients of the four blocks of a chroma block of an SP macroblock.
pub fn sp_chroma_dc_scaled(
    p: &Vec<i32>,
    dc: &Vec<i64>,
    switching: bool,
    qp: i64,
    qs: i64,
    w: &Vec<i64>,
) -> (r: Vec<i64>)
    requires
        p.len() == 64,
        samples_ok(p@),
        dc.len() == 4,
        within(dc@, LEVEL_BOUND as int),
        weights_ok(w@, 16),
        0 <= qp <= 51,
        0 <= qs <= 51,
    ensures
        longs(r@) == chroma_dc_420(
            sp_chroma_dc(ints(p@), longs(dc@), switching, qp as int, qs as int, longs(w@)),
            qs as int,
            sp_dc_weights(switching, longs(w@)),
        ),
        r.len() == 4,
        within(r@, DC_BOUND as int),
{
    let levels = sp_chroma_dc_levels(p, dc, switching, qp, qs, w);
    let res = if switching {
        let flat: Vec<i64> = vec![16i64; 16];
        assert(longs(flat@) =~= crate::transform::flat(16));
        inverse_hadamard_chroma_dc_420(&levels, qs, &flat, 8)
    } else {
        inverse_hadamard_chroma_dc_420(&levels, qs, w, 8)
    };
    match res {
        Ok(v) => v,
        Err(_) => levels,
    }
}

/// Coefficients of block `b` of a chroma block of an SP macroblock; `dc_scaled` are those of
/// [`sp_chroma_dc_scaled`].
pub fn sp_chroma_block(
    p: &Vec<i32>,
    dc: &Vec<i64>,
    dc_scaled: &Vec<i64>,
    ac: &Vec<i64>,
    b: usize,
    switching: bool,
    qp: i64,
    qs: i64,
    w: &Vec<i64>,
) -> (r: Vec<i64>)
    requires
        p.len() == 64,
        samples_ok(p@),
        dc.len() == 4,
        dc_scaled.len() == 4,
        within(dc_scaled@, DC_BOUND as int),
        longs(dc_scaled@) == chroma_dc_420(
            sp_chroma_dc(ints(p@), longs(dc@), switching, qp as int, qs as int, longs(w@)),
            qs as int,
            sp_dc_weights(switching, longs(w@)),
        ),
        ac.len() == 16,
        within(ac@, LEVEL_BOUND as int),
        b < 4,
        weights_ok(w@, 16),
        0 <= qp <= 51,
        0 <= qs <= 51,
    ensures
        longs(r@) == sp_chroma(
            ints(p@),
            longs(dc@),
            longs(ac@),
            b as int,
            switching,
            qp as int,
            qs as int,
            longs(w@),
        ),
        r.len() == 16,
        -DC_BOUND <= r@[0] <= DC_BOUND,
        forall|i: int| 1 <= i < 16 ==> -LEVEL_BOUND <= #[trigger] r@[i] <= LEVEL_BOUND,
{
    let q = quarter_of(p, b);
    let mut r = if switching {
        sp_luma_switching(&q, ac, qs)
    } else {
        sp_luma_non_switching(&q, ac, qp, qs, w)
    };
    let ghost rest = r@;
    r[0] = dc_scaled[b];
    proof {
        reveal(sp_chroma);
        assert(longs(dc_scaled@)[b as int] == dc_scaled@[b as int]);
        let want = sp_chroma(
            ints(p@),
            longs(dc@),
            longs(ac@),
            b as int,
            switching,
            qp as int,
            qs as int,
            longs(w@),
        );
        assert forall|k: int| 0 <= k < 16 implies longs(r@)[k] == #[trigger] want[k] by {
            if k > 0 {
                assert(longs(rest)[k] == rest[k]);
            }
        }
        assert(longs(r@) =~= want);
    }
    r
}

/// The parameter QP of an SP macroblock scales its levels only: without levels the result depends on
/// the prediction and QS alone.
pub proof fn law_sp_parameter_scales_levels_only(
    pred: Seq<int>,
    c: Seq<int>,
    qp1: int,
    qp2: int,
    qs: int,
    w: Seq<int>,
)
    requires
        forall|k: int| 0 <= k < 16 ==> #[trigger] c[k] == 0,
    ensures
        sp_luma(pred, c, qp1, qs, w) == sp_luma(pred, c, qp2, qs, w),
{
    reveal(sp_luma);
    assert forall|k: int| 0 <= k < 16 implies #[trigger] sp_luma(pred, c, qp1, qs, w)[k]
        == sp_luma(pred, c, qp2, qs, w)[k] by {
        assert(c[k] == 0);
        lemma_no_level(forward4x4(pred)[k], qp1, w[k] * norm4(qp1 % 6, k) * basis_norm(k));
        lemma_no_level(forward4x4(pred)[k], qp2, w[k] * norm4(qp2 % 6, k) * basis_norm(k));
    }
    assert(sp_luma(pred, c, qp1, qs, w) =~= sp_luma(pred, c, qp2, qs, w));
}

proof fn lemma_no_level(cp: int, qp: int, scale: int)
    ensures
        combined_coeff(cp, 0, qp, scale, 10) == cp,
{
    lemma_p2_values();
    assert(0 * scale * p2(qp / 6) == 0) by (nonlinear_arith);
}

} // verus!
