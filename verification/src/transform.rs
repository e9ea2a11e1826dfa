//! Scaling and inverse transforms of residual blocks.
//!
//! Blocks are kept row by row. Levels are 32-bit values; products and sums are formed in 64 bits,
//! which hold every intermediate value.
use crate::error::TransformError;
use crate::math::{
    clip3, clip3_i64, floor_div, lemma_mul_bound, lemma_p2_mono, lemma_p2_values, longs, p2, pow2,
    within,
};
use crate::pps::Pps;
use crate::sps::{ScalingLists, Sps};
use vstd::prelude::*;

verus! {

/// Bound on transform coefficient levels.
pub const LEVEL_BOUND: i64 = 0x8000_0000;

/// Bound on scaled DC coefficients.
pub const DC_BOUND: i64 = 0x0400_0000_0000_0000;

/// Bound on residual samples.
pub const RESIDUAL_BOUND: i64 = 0x0400_0000_0000_0000;

/// `QpBdOffset`.
pub open spec fn bd_offset(bit_depth_minus8: u32) -> int {
    6 * bit_depth_minus8
}

pub fn qp_bd_offset(bit_depth_minus8: u32) -> (r: i64)
    ensures
        r == bd_offset(bit_depth_minus8),
{
    6 * bit_depth_minus8 as i64
}

/// Largest quantisation parameter at a bit depth.
pub open spec fn max_qp(bit_depth: u32) -> int {
    51 + 6 * (bit_depth - 8)
}

pub const CHROMA_QP: [u8; 22] = [
    29, 30, 31, 32, 32, 33, 34, 34, 35, 35, 36, 36, 37, 37, 37, 38, 38, 38, 39, 39, 39, 39,
];

/// Chroma quantisation parameter for an index: the index itself up to 29, then a table.
pub open spec fn chroma_qp_of_index(i: int) -> int {
    if i < 30 {
        i
    } else {
        CHROMA_QP[i - 30] as int
    }
}

/// Chroma quantisation parameter for a luma parameter and a chroma offset.
pub open spec fn chroma_qp(qp_y: int, offset: int, bd: int) -> int {
    chroma_qp_of_index(clip3(-bd, 51, qp_y + offset))
}

pub fn qp_y_to_qp_c_with_bd_offset(qp_y: i64, offset: i32, bd: i64) -> (r: i64)
    requires
        -0x1_0000_0000 <= qp_y <= 0x1_0000_0000,
        0 <= bd <= 36,
    ensures
        r == chroma_qp(qp_y as int, offset as int, bd as int),
        -bd <= r <= 39,
{
    let i = clip3_i64(-bd, 51, qp_y + offset as i64);
    if i < 30 {
        i
    } else {
        CHROMA_QP[(i - 30) as usize] as i64
    }
}

/// Scaling weights in raster order, sixteen or sixty-four of them.
pub open spec fn flat(n: nat) -> Seq<int> {
    Seq::new(n, |i: int| 16)
}

pub open spec fn bytes_as_ints(s: Seq<u8>) -> Seq<int> {
    Seq::new(s.len(), |i: int| s[i] as int)
}

/// The scaling matrices in force: those of the picture, else those of the sequence.
pub open spec fn lists_in_force(sps: Sps, pps: Pps) -> Option<ScalingLists> {
    match pps.extension {
        Some(e) => match e.pic_scaling_lists {
            Some(l) => Some(l),
            None => sps.seq_scaling_lists,
        },
        None => sps.seq_scaling_lists,
    }
}

/// Weights for the 4x4 blocks of class `i`; flat where no matrix was sent.
pub open spec fn weights4(i: int, sps: Sps, pps: Pps) -> Seq<int> {
    match lists_in_force(sps, pps) {
        Some(l) => if 0 <= i < l.lists_4x4.len() {
            bytes_as_ints(l.lists_4x4@[i]@)
        } else {
            flat(16)
        },
        None => flat(16),
    }
}

/// Weights for the 8x8 blocks of class `i`; flat where no matrix was sent.
pub open spec fn weights8(i: int, sps: Sps, pps: Pps) -> Seq<int> {
    match lists_in_force(sps, pps) {
        Some(l) => if 0 <= i < l.lists_8x8.len() {
            bytes_as_ints(l.lists_8x8@[i]@)
        } else {
            flat(64)
        },
        None => flat(64),
    }
}

/// A scaling matrix: values of one byte.
pub open spec fn weights_ok(w: Seq<i64>, n: nat) -> bool {
    w.len() == n && forall|i: int| 0 <= i < n ==> 0 <= #[trigger] w[i] <= 255
}

fn lists_for<'a>(sps: &'a Sps, pps: &'a Pps) -> (r: Option<&'a ScalingLists>)
    ensures
        match r {
            Some(l) => lists_in_force(*sps, *pps) == Some(*l),
            None => lists_in_force(*sps, *pps) is None,
        },
{
    if let Some(e) = &pps.extension {
        if let Some(l) = &e.pic_scaling_lists {
            return Some(l);
        }
    }
    sps.seq_scaling_lists.as_ref()
}

pub fn select_scaling_list_4x4(i: usize, sps: &Sps, pps: &Pps) -> (r: Vec<i64>)
    ensures
        longs(r@) == weights4(i as int, *sps, *pps),
        weights_ok(r@, 16),
{
    let mut r: Vec<i64> = Vec::new();
    match lists_for(sps, pps) {
        Some(l) if i < l.lists_4x4.len() => {
            for k in 0..16usize
                invariant
                    r.len() == k,
                    i < l.lists_4x4.len(),
                    forall|j: int| 0 <= j < k ==> r@[j] == l.lists_4x4@[i as int]@[j],
            {
                r.push(l.lists_4x4[i][k] as i64);
            }
        },
        _ => {
            for k in 0..16usize
                invariant
                    r.len() == k,
                    forall|j: int| 0 <= j < k ==> r@[j] == 16,
            {
                r.push(16);
            }
        },
    }
    assert(longs(r@) =~= weights4(i as int, *sps, *pps));
    r
}

pub fn select_scaling_list_8x8(i: usize, sps: &Sps, pps: &Pps) -> (r: Vec<i64>)
    ensures
        longs(r@) == weights8(i as int, *sps, *pps),
        weights_ok(r@, 64),
{
    let mut r: Vec<i64> = Vec::new();
    match lists_for(sps, pps) {
        Some(l) if i < l.lists_8x8.len() => {
            for k in 0..64usize
                invariant
                    r.len() == k,
                    i < l.lists_8x8.len(),
                    forall|j: int| 0 <= j < k ==> r@[j] == l.lists_8x8@[i as int]@[j],
            {
                r.push(l.lists_8x8[i][k] as i64);
            }
        },
        _ => {
            for k in 0..64usize
                invariant
                    r.len() == k,
                    forall|j: int| 0 <= j < k ==> r@[j] == 16,
            {
                r.push(16);
            }
        },
    }
    assert(longs(r@) =~= weights8(i as int, *sps, *pps));
    r
}

pub const NORM4: [i64; 18] = [
    10, 16, 13, 11, 18, 14, 13, 20, 16, 14, 23, 18, 16, 25, 20, 18, 29, 23,
];

/// Class of a position of a 4x4 block for the norm adjustment.
pub open spec fn norm4_class(k: int) -> int {
    let i = k / 4;
    let j = k % 4;
    if i % 2 == 0 && j % 2 == 0 {
        0
    } else if i % 2 == 1 && j % 2 == 1 {
        1
    } else {
        2
    }
}

/// Norm adjustment of position `k` of a 4x4 block for `qP % 6 == m`.
pub open spec fn norm4(m: int, k: int) -> int {
    NORM4[3 * m + norm4_class(k)] as int
}

pub fn norm4_at(m: i64, k: usize) -> (r: i64)
    requires
        0 <= m < 6,
        k < 16,
    ensures
        r == norm4(m as int, k as int),
        0 < r <= 29,
{
    let i: usize = k / 4;
    let j: usize = k % 4;
    let c: usize = if i % 2 == 0 && j % 2 == 0 {
        0
    } else if i % 2 == 1 && j % 2 == 1 {
        1
    } else {
        2
    };
    NORM4[3 * m as usize + c]
}

pub const NORM8: [i64; 36] = [
    20, 18, 32, 19, 25, 24, 22, 19, 35, 21, 28, 26, 26, 23, 42, 24, 33, 31, 28, 25, 45, 26, 35, 33,
    32, 28, 51, 30, 40, 38, 36, 32, 58, 34, 46, 43,
];

/// Class of a position of an 8x8 block for the norm adjustment.
pub open spec fn norm8_class(k: int) -> int {
    let i = k / 8;
    let j = k % 8;
    if i % 4 == 0 && j % 4 == 0 {
        0
    } else if i % 2 == 1 && j % 2 == 1 {
        1
    } else if i % 4 == 2 && j % 4 == 2 {
        2
    } else if (i % 4 == 0 && j % 2 == 1) || (i % 2 == 1 && j % 4 == 0) {
        3
    } else if (i % 4 == 0 && j % 4 == 2) || (i % 4 == 2 && j % 4 == 0) {
        4
    } else {
        5
    }
}

pub open spec fn norm8(m: int, k: int) -> int {
    NORM8[6 * m + norm8_class(k)] as int
}

fn norm8_at(m: i64, k: usize) -> (r: i64)
    requires
        0 <= m < 6,
        k < 64,
    ensures
        r == norm8(m as int, k as int),
        0 < r <= 58,
{
    let i: usize = k / 8;
    let j: usize = k % 8;
    let c: usize = if i % 4 == 0 && j % 4 == 0 {
        0
    } else if i % 2 == 1 && j % 2 == 1 {
        1
    } else if i % 4 == 2 && j % 4 == 2 {
        2
    } else if (i % 4 == 0 && j % 2 == 1) || (i % 2 == 1 && j % 4 == 0) {
        3
    } else if (i % 4 == 0 && j % 4 == 2) || (i % 4 == 2 && j % 4 == 0) {
        4
    } else {
        5
    };
    NORM8[6 * m as usize + c]
}

/// `c * scale * 2^(qp / 6 - s)`, rounded to nearest where the exponent is negative.
pub open spec fn scaled(c: int, scale: int, qp: int, s: int) -> int {
    if qp >= 6 * s {
        c * scale * p2(qp / 6 - s)
    } else {
        (c * scale + p2(s - 1 - qp / 6)) / p2(s - qp / 6)
    }
}

/// Bound on the product of a level, a weight and a norm adjustment.
fn scale_value(c: i64, scale: i64, qp: i64, s: i64, Ghost(bound): Ghost<int>) -> (r: i64)
    requires
        -bound <= c <= bound,
        0 <= bound <= 0x10_0000_0000,
        0 <= scale <= 0x4000,
        0 <= qp <= 87,
        s == 4 || s == 6,
    ensures
        r == scaled(c as int, scale as int, qp as int, s as int),
        -(bound * 0x4000 * p2(14 - s) + 1) <= r <= bound * 0x4000 * p2(14 - s) + 1,
{
    let t = qp / 6;
    proof {
        lemma_p2_values();
        lemma_mul_bound(c as int, bound, scale as int, 0x4000);
        lemma_p2_mono(0, 14 - s);
        lemma_p2_mono(14 - s, 10);
        assert(0 <= bound * 0x4000);
        assert(bound * 0x4000 <= bound * 0x4000 * p2(14 - s)) by (nonlinear_arith)
            requires
                0 <= bound * 0x4000,
                1 <= p2(14 - s),
        ;
    }
    let p: i64 = c * scale;
    if qp >= 6 * s {
        let m = pow2((t - s) as u32);
        proof {
            lemma_p2_mono(t - s, 14 - s);
            lemma_mul_bound(p as int, bound * 0x4000, m as int, p2(14 - s));
            assert(bound * 0x4000 * p2(14 - s) <= 0x10_0000_0000 * 0x4000 * 1024)
                by (nonlinear_arith)
                requires
                    0 <= bound <= 0x10_0000_0000,
                    0 <= p2(14 - s) <= 1024,
            ;
        }
        p * m
    } else {
        let h = pow2((s - 1 - t) as u32);
        let d = pow2((s - t) as u32);
        proof {
            lemma_p2_mono(s - 1 - t, 8);
            assert(d == 2 * h);
            let pb = bound * 0x4000;
            assert(-(pb + 1) <= (p + h) / d as int <= pb + 1) by (nonlinear_arith)
                requires
                    -pb <= p <= pb,
                    d == 2 * h,
                    h >= 1,
                    pb >= 0,
            ;
        }
        floor_div(p + h, d)
    }
}

/// Scaled coefficients of a 4x4 block.
pub open spec fn scale4x4(c: Seq<int>, qp: int, w: Seq<int>) -> Seq<int> {
    Seq::new(16, |k: int| scaled(c[k], w[k] * norm4(qp % 6, k), qp, 4))
}

/// Scaled coefficients of a 4x4 block whose DC coefficient was scaled before.
pub open spec fn scale4x4_ac(c: Seq<int>, qp: int, w: Seq<int>) -> Seq<int> {
    Seq::new(
        16,
        |k: int|
            if k == 0 {
                c[0]
            } else {
                scaled(c[k], w[k] * norm4(qp % 6, k), qp, 4)
            },
    )
}

/// One output of the four-point inverse transform.
pub open spec fn inv4(a: int, b: int, c: int, d: int, j: int) -> int {
    if j == 0 {
        (a + c) + (b + d / 2)
    } else if j == 1 {
        (a - c) + (b / 2 - d)
    } else if j == 2 {
        (a - c) - (b / 2 - d)
    } else {
        (a + c) - (b + d / 2)
    }
}

/// Row transforms, then column transforms, then rounding to sample units.
pub open spec fn rows4(d: Seq<int>) -> Seq<int> {
    Seq::new(
        16,
        |k: int|
            inv4(
                d[k / 4 * 4],
                d[k / 4 * 4 + 1],
                d[k / 4 * 4 + 2],
                d[k / 4 * 4 + 3],
                k % 4,
            ),
    )
}

pub open spec fn core4x4(d: Seq<int>) -> Seq<int> {
    let f = rows4(d);
    Seq::new(
        16,
        |k: int| (inv4(f[k % 4], f[4 + k % 4], f[8 + k % 4], f[12 + k % 4], k / 4) + 32) / 64,
    )
}

/// Residual samples of a 4x4 block.
#[verifier::opaque]
pub open spec fn residual4x4(c: Seq<int>, qp: int, w: Seq<int>) -> Seq<int> {
    core4x4(scale4x4(c, qp, w))
}

/// Residual samples of a 4x4 block whose DC coefficient was scaled before.
#[verifier::opaque]
pub open spec fn residual4x4_ac(c: Seq<int>, qp: int, w: Seq<int>) -> Seq<int> {
    core4x4(scale4x4_ac(c, qp, w))
}

fn inv4_at(a: i64, b: i64, c: i64, d: i64, j: usize, Ghost(m): Ghost<int>) -> (r: i64)
    requires
        0 <= m <= 0x1000_0000_0000_0000,
        -m <= a <= m,
        -m <= b <= m,
        -m <= c <= m,
        -m <= d <= m,
        j < 4,
    ensures
        r == inv4(a as int, b as int, c as int, d as int, j as int),
        -4 * m <= r <= 4 * m,
{
    if j == 0 {
        (a + c) + (b + floor_div(d, 2))
    } else if j == 1 {
        (a - c) + (floor_div(b, 2) - d)
    } else if j == 2 {
        (a - c) - (floor_div(b, 2) - d)
    } else {
        (a + c) - (b + floor_div(d, 2))
    }
}

fn transform_core4x4(d: &Vec<i64>) -> (r: Vec<i64>)
    requires
        d.len() == 16,
        within(d@, 0x0400_0000_0000_0000),
    ensures
        longs(r@) == core4x4(longs(d@)),
        within(r@, RESIDUAL_BOUND as int),
        r.len() == 16,
{
    let ghost dd = longs(d@);
    let ghost m = 0x0400_0000_0000_0000int;
    let mut f: Vec<i64> = Vec::new();
    for k in 0..16usize
        invariant
            d.len() == 16,
            dd == longs(d@),
            m == 0x0400_0000_0000_0000int,
            within(d@, m),
            f.len() == k,
            forall|i: int| 0 <= i < k ==> f@[i] == #[trigger] rows4(dd)[i],
            within(f@, 4 * m),
    {
        let b: usize = k / 4 * 4;
        let v = inv4_at(d[b], d[b + 1], d[b + 2], d[b + 3], k % 4, Ghost(m));
        f.push(v);
    }
    assert(longs(f@) =~= rows4(dd));
    let mut r: Vec<i64> = Vec::new();
    for k in 0..16usize
        invariant
            f.len() == 16,
            longs(f@) == rows4(dd),
            m == 0x0400_0000_0000_0000int,
            within(f@, 4 * m),
            r.len() == k,
            forall|i: int| 0 <= i < k ==> r@[i] == #[trigger] core4x4(dd)[i],
            within(r@, m),
    {
        let b: usize = k % 4;
        let v = inv4_at(f[b], f[4 + b], f[8 + b], f[12 + b], k / 4, Ghost(4 * m));
        proof {
            let g = rows4(dd);
            assert(g[b as int] == f@[b as int]);
            assert(g[4 + b] == f@[4 + b]);
            assert(g[8 + b] == f@[8 + b]);
            assert(g[12 + b] == f@[12 + b]);
        }
        r.push(floor_div(v + 32, 64));
    }
    assert(longs(r@) =~= core4x4(dd));
    r
}

/// The quantisation parameter fits the bit depth.
pub open spec fn qp_ok(qp: int, bit_depth: u32) -> bool {
    0 <= qp <= max_qp(bit_depth)
}

fn check_qp(qp: i64, bit_depth: u32) -> (r: Result<(), TransformError>)
    requires
        8 <= bit_depth <= 14,
    ensures
        r is Ok == qp_ok(qp as int, bit_depth),
        r matches Err(e) ==> e == TransformError::QpOutOfRange(qp),
        r is Ok ==> 0 <= qp <= 87,
{
    if qp < 0 || qp > 51 + 6 * (bit_depth as i64 - 8) {
        Err(TransformError::QpOutOfRange(qp))
    } else {
        Ok(())
    }
}

/// Contract shared by the transforms: the expected samples for a parameter in range, else an error.
pub open spec fn transform_result(
    r: Result<Vec<i64>, TransformError>,
    qp: int,
    bit_depth: u32,
    want: Seq<int>,
) -> bool {
    match r {
        Ok(v) => qp_ok(qp, bit_depth) && longs(v@) == want && v.len() == want.len(),
        Err(e) => !qp_ok(qp, bit_depth) && e == TransformError::QpOutOfRange(qp as i64),
    }
}

/// Inverse quantisation and transform of a 4x4 block.
pub fn inverse_transform_4x4(c: &Vec<i64>, qp: i64, w: &Vec<i64>, bit_depth: u32) -> (r: Result<
    Vec<i64>,
    TransformError,
>)
    requires
        c.len() == 16,
        within(c@, LEVEL_BOUND as int),
        weights_ok(w@, 16),
        8 <= bit_depth <= 14,
    ensures
        transform_result(r, qp as int, bit_depth, residual4x4(longs(c@), qp as int, longs(w@))),
        r matches Ok(v) ==> within(v@, RESIDUAL_BOUND as int) && v.len() == 16,
{
    proof {
        reveal(residual4x4);
        lemma_p2_values();
    }
    match check_qp(qp, bit_depth) {
        Ok(_) => {},
        Err(e) => {
            return Err(e);
        },
    }
    let mut d: Vec<i64> = Vec::new();
    for k in 0..16usize
        invariant
            c.len() == 16,
            within(c@, LEVEL_BOUND as int),
            weights_ok(w@, 16),
            0 <= qp <= 87,
            p2(10) == 1024,
            d.len() == k,
            forall|i: int|
                0 <= i < k ==> d@[i] == #[trigger] scale4x4(longs(c@), qp as int, longs(w@))[i],
            within(d@, 0x0400_0000_0000_0000),
    {
        let n = norm4_at(qp % 6, k);
        proof {
            lemma_mul_bound(w@[k as int] as int, 255, n as int, 29);
            assert(0 <= w@[k as int] * n) by (nonlinear_arith)
                requires
                    0 <= w@[k as int],
                    0 <= n,
            ;
        }
        let v = scale_value(c[k], w[k] * n, qp, 4, Ghost(LEVEL_BOUND as int));
        d.push(v);
    }
    assert(longs(d@) =~= scale4x4(longs(c@), qp as int, longs(w@)));
    Ok(transform_core4x4(&d))
}

/// Inverse quantisation and transform of a 4x4 block whose DC coefficient was scaled before.
pub fn inverse_transform_4x4_dc_preserved(
    c: &Vec<i64>,
    qp: i64,
    w: &Vec<i64>,
    bit_depth: u32,
) -> (r: Result<Vec<i64>, TransformError>)
    requires
        c.len() == 16,
        -DC_BOUND <= c@[0] <= DC_BOUND,
        forall|i: int| 1 <= i < 16 ==> -LEVEL_BOUND <= #[trigger] c@[i] <= LEVEL_BOUND,
        weights_ok(w@, 16),
        8 <= bit_depth <= 14,
    ensures
        transform_result(r, qp as int, bit_depth, residual4x4_ac(longs(c@), qp as int, longs(w@))),
        r matches Ok(v) ==> within(v@, RESIDUAL_BOUND as int) && v.len() == 16,
{
    proof {
        reveal(residual4x4_ac);
        lemma_p2_values();
    }
    match check_qp(qp, bit_depth) {
        Ok(_) => {},
        Err(e) => {
            return Err(e);
        },
    }
    let mut d: Vec<i64> = Vec::new();
    for k in 0..16usize
        invariant
            c.len() == 16,
            -DC_BOUND <= c@[0] <= DC_BOUND,
            forall|i: int| 1 <= i < 16 ==> -LEVEL_BOUND <= #[trigger] c@[i] <= LEVEL_BOUND,
            weights_ok(w@, 16),
            0 <= qp <= 87,
            p2(10) == 1024,
            d.len() == k,
            forall|i: int|
                0 <= i < k ==> d@[i] == #[trigger] scale4x4_ac(longs(c@), qp as int, longs(w@))[i],
            within(d@, 0x0400_0000_0000_0000),
    {
        if k == 0 {
            d.push(c[0]);
        } else {
            let n = norm4_at(qp % 6, k);
            proof {
                lemma_mul_bound(w@[k as int] as int, 255, n as int, 29);
                assert(0 <= w@[k as int] * n) by (nonlinear_arith)
                    requires
                        0 <= w@[k as int],
                        0 <= n,
                ;
            }
            let v = scale_value(c[k], w[k] * n, qp, 4, Ghost(LEVEL_BOUND as int));
            d.push(v);
        }
    }
    assert(longs(d@) =~= scale4x4_ac(longs(c@), qp as int, longs(w@)));
    Ok(transform_core4x4(&d))
}

/// One output of the eight-point inverse transform.
pub open spec fn inv8(d: Seq<int>, j: int) -> int {
    let a0 = d[0] + d[4];
    let a4 = d[0] - d[4];
    let a2 = d[2] / 2 - d[6];
    let a6 = d[2] + d[6] / 2;
    let b0 = a0 + a6;
    let b2 = a4 + a2;
    let b4 = a4 - a2;
    let b6 = a0 - a6;
    let a1 = -d[3] + d[5] - d[7] - d[7] / 2;
    let a3 = d[1] + d[7] - d[3] - d[3] / 2;
    let a5 = -d[1] + d[7] + d[5] + d[5] / 2;
    let a7 = d[3] + d[5] + d[1] + d[1] / 2;
    let b1 = a1 + a7 / 4;
    let b7 = a7 - a1 / 4;
    let b3 = a3 + a5 / 4;
    let b5 = a3 / 4 - a5;
    if j == 0 {
        b0 + b7
    } else if j == 1 {
        b2 + b5
    } else if j == 2 {
        b4 + b3
    } else if j == 3 {
        b6 + b1
    } else if j == 4 {
        b6 - b1
    } else if j == 5 {
        b4 - b3
    } else if j == 6 {
        b2 - b5
    } else {
        b0 - b7
    }
}

pub open spec fn row8(d: Seq<int>, i: int) -> Seq<int> {
    Seq::new(8, |x: int| d[8 * i + x])
}

pub open spec fn col8(d: Seq<int>, j: int) -> Seq<int> {
    Seq::new(8, |y: int| d[8 * y + j])
}

/// Row transforms of an 8x8 block.
pub open spec fn rows8(d: Seq<int>) -> Seq<int> {
    Seq::new(64, |k: int| inv8(row8(d, k / 8), k % 8))
}

/// Row transforms, then column transforms, then rounding to sample units.
pub open spec fn core8x8(d: Seq<int>) -> Seq<int> {
    Seq::new(64, |k: int| (inv8(col8(rows8(d), k % 8), k / 8) + 32) / 64)
}

/// Scaled coefficients of an 8x8 block.
pub open spec fn scale8x8(c: Seq<int>, qp: int, w: Seq<int>) -> Seq<int> {
    Seq::new(64, |k: int| scaled(c[k], w[k] * norm8(qp % 6, k), qp, 6))
}

/// Residual samples of an 8x8 block.
#[verifier::opaque]
pub open spec fn residual8x8(c: Seq<int>, qp: int, w: Seq<int>) -> Seq<int> {
    core8x8(scale8x8(c, qp, w))
}

fn inv8_at(d: &Vec<i64>, j: usize, Ghost(m): Ghost<int>) -> (r: i64)
    requires
        0 <= m <= 0x0400_0000_0000_0000,
        d.len() == 8,
        within(d@, m),
        j < 8,
    ensures
        r == inv8(longs(d@), j as int),
        -9 * m - 9 <= r <= 9 * m + 9,
{
    let (d0, d1, d2, d3, d4, d5, d6, d7) = (d[0], d[1], d[2], d[3], d[4], d[5], d[6], d[7]);
    let a0: i64 = d0 + d4;
    let a4: i64 = d0 - d4;
    let a2: i64 = floor_div(d2, 2) - d6;
    let a6: i64 = d2 + floor_div(d6, 2);
    let a1: i64 = -d3 + d5 - d7 - floor_div(d7, 2);
    let a3: i64 = d1 + d7 - d3 - floor_div(d3, 2);
    let a5: i64 = -d1 + d7 + d5 + floor_div(d5, 2);
    let a7: i64 = d3 + d5 + d1 + floor_div(d1, 2);
    if j == 0 {
        (a0 + a6) + (a7 - floor_div(a1, 4))
    } else if j == 1 {
        (a4 + a2) + (floor_div(a3, 4) - a5)
    } else if j == 2 {
        (a4 - a2) + (a3 + floor_div(a5, 4))
    } else if j == 3 {
        (a0 - a6) + (a1 + floor_div(a7, 4))
    } else if j == 4 {
        (a0 - a6) - (a1 + floor_div(a7, 4))
    } else if j == 5 {
        (a4 - a2) - (a3 + floor_div(a5, 4))
    } else if j == 6 {
        (a4 + a2) - (floor_div(a3, 4) - a5)
    } else {
        (a0 + a6) - (a7 - floor_div(a1, 4))
    }
}

fn line_of8(d: &Vec<i64>, start: usize, step: usize, Ghost(m): Ghost<int>) -> (r: Vec<i64>)
    requires
        d.len() == 64,
        (step == 1 && start <= 56) || (step == 8 && start < 8),
        within(d@, m),
    ensures
        r.len() == 8,
        within(r@, m),
        forall|i: int| 0 <= i < 8 ==> r@[i] == d@[start + step * i],
{
    let mut r: Vec<i64> = Vec::new();
    for i in 0..8usize
        invariant
            d.len() == 64,
            (step == 1 && start <= 56) || (step == 8 && start < 8),
            within(d@, m),
            r.len() == i,
            within(r@, m),
            forall|k: int| 0 <= k < i ==> r@[k] == d@[start + step * k],
    {
        r.push(d[start + step * i]);
    }
    r
}

fn transform_core8x8(d: &Vec<i64>) -> (r: Vec<i64>)
    requires
        d.len() == 64,
        within(d@, 0x0040_0000_0000_0000),
    ensures
        longs(r@) == core8x8(longs(d@)),
        within(r@, RESIDUAL_BOUND as int),
        r.len() == 64,
{
    let ghost dd = longs(d@);
    let ghost m = 0x0040_0000_0000_0000int;
    let mut f: Vec<i64> = Vec::new();
    for k in 0..64usize
        invariant
            d.len() == 64,
            dd == longs(d@),
            m == 0x0040_0000_0000_0000int,
            within(d@, m),
            f.len() == k,
            forall|i: int| 0 <= i < k ==> f@[i] == #[trigger] rows8(dd)[i],
            within(f@, 9 * m + 9),
    {
        let line = line_of8(d, 8 * (k / 8), 1, Ghost(m));
        assert(longs(line@) =~= row8(dd, k as int / 8));
        let v = inv8_at(&line, k % 8, Ghost(m));
        f.push(v);
    }
    assert(longs(f@) =~= rows8(dd));
    let mut r: Vec<i64> = Vec::new();
    for k in 0..64usize
        invariant
            f.len() == 64,
            longs(f@) == rows8(dd),
            m == 0x0040_0000_0000_0000int,
            within(f@, 9 * m + 9),
            r.len() == k,
            forall|i: int| 0 <= i < k ==> r@[i] == #[trigger] core8x8(dd)[i],
            within(r@, RESIDUAL_BOUND as int),
    {
        let line = line_of8(&f, k % 8, 8, Ghost(9 * m + 9));
        assert(longs(line@) =~= col8(rows8(dd), k as int % 8)) by {
            assert forall|i: int| 0 <= i < 8 implies #[trigger] longs(line@)[i] == col8(
                rows8(dd),
                k as int % 8,
            )[i] by {
                assert(longs(f@)[8 * i + k as int % 8] == f@[8 * i + k as int % 8]);
            }
        }
        let v = inv8_at(&line, k / 8, Ghost(9 * m + 9));
        r.push(floor_div(v + 32, 64));
    }
    assert(longs(r@) =~= core8x8(dd));
    r
}

/// Inverse quantisation and transform of an 8x8 block.
pub fn inverse_transform_8x8(c: &Vec<i64>, qp: i64, w: &Vec<i64>, bit_depth: u32) -> (r: Result<
    Vec<i64>,
    TransformError,
>)
    requires
        c.len() == 64,
        within(c@, LEVEL_BOUND as int),
        weights_ok(w@, 64),
        8 <= bit_depth <= 14,
    ensures
        transform_result(r, qp as int, bit_depth, residual8x8(longs(c@), qp as int, longs(w@))),
        r matches Ok(v) ==> within(v@, RESIDUAL_BOUND as int) && v.len() == 64,
{
    proof {
        reveal(residual8x8);
        lemma_p2_values();
    }
    match check_qp(qp, bit_depth) {
        Ok(_) => {},
        Err(e) => {
            return Err(e);
        },
    }
    let mut d: Vec<i64> = Vec::new();
    for k in 0..64usize
        invariant
            c.len() == 64,
            within(c@, LEVEL_BOUND as int),
            weights_ok(w@, 64),
            0 <= qp <= 87,
            p2(8) == 256,
            d.len() == k,
            forall|i: int|
                0 <= i < k ==> d@[i] == #[trigger] scale8x8(longs(c@), qp as int, longs(w@))[i],
            within(d@, 0x0040_0000_0000_0000),
    {
        let n = norm8_at(qp % 6, k);
        proof {
            lemma_mul_bound(w@[k as int] as int, 255, n as int, 58);
            assert(0 <= w@[k as int] * n) by (nonlinear_arith)
                requires
                    0 <= w@[k as int],
                    0 <= n,
            ;
        }
        let v = scale_value(c[k], w[k] * n, qp, 6, Ghost(LEVEL_BOUND as int));
        d.push(v);
    }
    assert(longs(d@) =~= scale8x8(longs(c@), qp as int, longs(w@)));
    Ok(transform_core8x8(&d))
}

/// One output of the four-point Hadamard transform.
pub open spec fn had4(a: int, b: int, c: int, d: int, j: int) -> int {
    if j == 0 {
        a + b + c + d
    } else if j == 1 {
        a + b - c - d
    } else if j == 2 {
        a - b - c + d
    } else {
        a - b + c - d
    }
}

pub open spec fn had_rows4(c: Seq<int>) -> Seq<int> {
    Seq::new(
        16,
        |k: int|
            had4(
                c[k / 4 * 4],
                c[k / 4 * 4 + 1],
                c[k / 4 * 4 + 2],
                c[k / 4 * 4 + 3],
                k % 4,
            ),
    )
}

/// Luma DC coefficients of an Intra_16x16 macroblock: Hadamard transform, then scaling.
#[verifier::opaque]
pub open spec fn luma_dc(c: Seq<int>, qp: int, w: Seq<int>) -> Seq<int> {
    let f = had_rows4(c);
    Seq::new(
        16,
        |k: int|
            scaled(
                had4(f[k % 4], f[4 + k % 4], f[8 + k % 4], f[12 + k % 4], k / 4),
                w[0] * norm4(qp % 6, 0),
                qp,
                6,
            ),
    )
}

fn had4_at(a: i64, b: i64, c: i64, d: i64, j: usize, Ghost(m): Ghost<int>) -> (r: i64)
    requires
        0 <= m <= 0x1000_0000_0000_0000,
        -m <= a <= m,
        -m <= b <= m,
        -m <= c <= m,
        -m <= d <= m,
        j < 4,
    ensures
        r == had4(a as int, b as int, c as int, d as int, j as int),
        -4 * m <= r <= 4 * m,
{
    if j == 0 {
        a + b + c + d
    } else if j == 1 {
        a + b - c - d
    } else if j == 2 {
        a - b - c + d
    } else {
        a - b + c - d
    }
}

/// Inverse transform and scaling of the luma DC coefficients of an Intra_16x16 macroblock.
pub fn inverse_hadamard_luma_dc_16x16(
    c: &Vec<i64>,
    qp: i64,
    w: &Vec<i64>,
    bit_depth: u32,
) -> (r: Result<Vec<i64>, TransformError>)
    requires
        c.len() == 16,
        within(c@, LEVEL_BOUND as int),
        weights_ok(w@, 16),
        8 <= bit_depth <= 14,
    ensures
        transform_result(r, qp as int, bit_depth, luma_dc(longs(c@), qp as int, longs(w@))),
        r matches Ok(v) ==> within(v@, DC_BOUND as int) && v.len() == 16,
{
    proof {
        reveal(luma_dc);
        lemma_p2_values();
    }
    match check_qp(qp, bit_depth) {
        Ok(_) => {},
        Err(e) => {
            return Err(e);
        },
    }
    let ghost cc = longs(c@);
    let ghost m = LEVEL_BOUND as int;
    let mut f: Vec<i64> = Vec::new();
    for k in 0..16usize
        invariant
            c.len() == 16,
            cc == longs(c@),
            m == LEVEL_BOUND as int,
            within(c@, m),
            f.len() == k,
            forall|i: int| 0 <= i < k ==> f@[i] == #[trigger] had_rows4(cc)[i],
            within(f@, 4 * m),
    {
        let b: usize = k / 4 * 4;
        let v = had4_at(c[b], c[b + 1], c[b + 2], c[b + 3], k % 4, Ghost(m));
        f.push(v);
    }
    assert(longs(f@) =~= had_rows4(cc));
    let n = norm4_at(qp % 6, 0);
    proof {
        lemma_mul_bound(w@[0] as int, 255, n as int, 29);
        assert(0 <= w@[0] * n) by (nonlinear_arith)
            requires
                0 <= w@[0],
                0 <= n,
        ;
    }
    let scale: i64 = w[0] * n;
    let mut r: Vec<i64> = Vec::new();
    for k in 0..16usize
        invariant
            f.len() == 16,
            longs(f@) == had_rows4(cc),
            m == LEVEL_BOUND as int,
            within(f@, 4 * m),
            weights_ok(w@, 16),
            0 <= qp <= 87,
            0 <= scale <= 0x4000,
            scale == longs(w@)[0] * norm4(qp as int % 6, 0),
            p2(8) == 256,
            r.len() == k,
            forall|i: int|
                0 <= i < k ==> r@[i] == #[trigger] luma_dc(cc, qp as int, longs(w@))[i],
            within(r@, DC_BOUND as int),
    {
        let b: usize = k % 4;
        let h = had4_at(f[b], f[4 + b], f[8 + b], f[12 + b], k / 4, Ghost(4 * m));
        proof {
            let g = had_rows4(cc);
            assert(g[b as int] == f@[b as int]);
            assert(g[4 + b] == f@[4 + b]);
            assert(g[8 + b] == f@[8 + b]);
            assert(g[12 + b] == f@[12 + b]);
            reveal(luma_dc);
        }
        let v = scale_value(h, scale, qp, 6, Ghost(16 * m));
        r.push(v);
    }
    assert(longs(r@) =~= luma_dc(cc, qp as int, longs(w@)));
    Ok(r)
}

/// Chroma DC coefficients for 4:2:0: a two by two Hadamard transform, then scaling.
#[verifier::opaque]
pub open spec fn chroma_dc_420(c: Seq<int>, qp: int, w: Seq<int>) -> Seq<int> {
    Seq::new(
        4,
        |k: int|
            (had2x2(c, k) * (w[0] * norm4(qp % 6, 0)) * p2(qp / 6)) / 32,
    )
}

/// One output of the two by two Hadamard transform.
pub open spec fn had2x2(c: Seq<int>, k: int) -> int {
    if k == 0 {
        c[0] + c[1] + c[2] + c[3]
    } else if k == 1 {
        c[0] - c[1] + c[2] - c[3]
    } else if k == 2 {
        c[0] + c[1] - c[2] - c[3]
    } else {
        c[0] - c[1] - c[2] + c[3]
    }
}

/// Inverse transform and scaling of the chroma DC coefficients for 4:2:0.
pub fn inverse_hadamard_chroma_dc_420(
    c: &Vec<i64>,
    qp: i64,
    w: &Vec<i64>,
    bit_depth: u32,
) -> (r: Result<Vec<i64>, TransformError>)
    requires
        c.len() == 4,
        within(c@, LEVEL_BOUND as int),
        weights_ok(w@, 16),
        8 <= bit_depth <= 14,
    ensures
        transform_result(r, qp as int, bit_depth, chroma_dc_420(longs(c@), qp as int, longs(w@))),
        r matches Ok(v) ==> within(v@, DC_BOUND as int) && v.len() == 4,
{
    proof {
        reveal(chroma_dc_420);
        lemma_p2_values();
    }
    match check_qp(qp, bit_depth) {
        Ok(_) => {},
        Err(e) => {
            return Err(e);
        },
    }
    let n = norm4_at(qp % 6, 0);
    proof {
        lemma_mul_bound(w@[0] as int, 255, n as int, 29);
        assert(0 <= w@[0] * n) by (nonlinear_arith)
            requires
                0 <= w@[0],
                0 <= n,
        ;
    }
    let scale: i64 = w[0] * n;
    proof {
        lemma_p2_mono(qp as int / 6, 14);
    }
    let up = pow2((qp / 6) as u32);
    let mut r: Vec<i64> = Vec::new();
    for k in 0..4usize
        invariant
            c.len() == 4,
            within(c@, LEVEL_BOUND as int),
            weights_ok(w@, 16),
            0 <= scale <= 7395,
            scale == longs(w@)[0] * norm4(qp as int % 6, 0),
            up == p2(qp as int / 6),
            1 <= up <= 16384,
            r.len() == k,
            forall|i: int|
                0 <= i < k ==> r@[i] == #[trigger] chroma_dc_420(
                    longs(c@),
                    qp as int,
                    longs(w@),
                )[i],
            within(r@, DC_BOUND as int),
    {
        let (c0, c1, c2, c3) = (c[0], c[1], c[2], c[3]);
        let h: i64 = if k == 0 {
            c0 + c1 + c2 + c3
        } else if k == 1 {
            c0 - c1 + c2 - c3
        } else if k == 2 {
            c0 + c1 - c2 - c3
        } else {
            c0 - c1 - c2 + c3
        };
        proof {
            reveal(chroma_dc_420);
            lemma_mul_bound(h as int, 0x2_0000_0000, scale as int, 7395);
            lemma_mul_bound(h * scale, 0x2_0000_0000int * 7395int, up as int, 16384);
        }
        r.push(floor_div(h * scale * up, 32));
    }
    assert(longs(r@) =~= chroma_dc_420(longs(c@), qp as int, longs(w@)));
    Ok(r)
}

/// Place in the coded order of the chroma DC level for row `k / 2`, column `k % 2` (4:2:2).
pub open spec fn dc422_pos(k: int) -> int {
    if k == 0 {
        0
    } else if k == 1 {
        2
    } else if k == 2 {
        1
    } else if k == 3 {
        5
    } else if k == 4 {
        3
    } else if k == 5 {
        6
    } else if k == 6 {
        4
    } else {
        7
    }
}

/// The four by two array of chroma DC levels for 4:2:2, row by row.
pub open spec fn dc422_matrix(levels: Seq<int>) -> Seq<int> {
    Seq::new(8, |k: int| levels[dc422_pos(k)])
}

/// Brings the chroma DC levels for 4:2:2 into a four by two array.
pub fn chroma_dc_422_matrix(c: &Vec<i64>, Ghost(m): Ghost<int>) -> (r: Vec<i64>)
    requires
        c.len() == 8,
        within(c@, m),
    ensures
        longs(r@) == dc422_matrix(longs(c@)),
        r.len() == 8,
        within(r@, m),
{
    let r: Vec<i64> = vec![c[0], c[2], c[1], c[5], c[3], c[6], c[4], c[7]];
    assert(longs(r@) =~= dc422_matrix(longs(c@)));
    r
}

/// One output of the four by two Hadamard transform.
pub open spec fn had4x2(m: Seq<int>, k: int) -> int {
    let sum = had4(m[0] + m[1], m[2] + m[3], m[4] + m[5], m[6] + m[7], k / 2);
    let diff = had4(m[0] - m[1], m[2] - m[3], m[4] - m[5], m[6] - m[7], k / 2);
    if k % 2 == 0 {
        sum
    } else {
        diff
    }
}

/// Chroma DC coefficients for 4:2:2: Hadamard transform, then scaling at `qP + 3`.
#[verifier::opaque]
pub open spec fn chroma_dc_422(c: Seq<int>, qp: int, w: Seq<int>) -> Seq<int> {
    Seq::new(
        8,
        |k: int|
            scaled(had4x2(dc422_matrix(c), k), w[0] * norm4((qp + 3) % 6, 0), qp + 3, 6),
    )
}

/// Inverse transform and scaling of the chroma DC coefficients for 4:2:2, given in coded order.
pub fn inverse_hadamard_chroma_dc_422(
    c: &Vec<i64>,
    qp: i64,
    w: &Vec<i64>,
    bit_depth: u32,
) -> (r: Result<Vec<i64>, TransformError>)
    requires
        c.len() == 8,
        within(c@, LEVEL_BOUND as int),
        weights_ok(w@, 16),
        8 <= bit_depth <= 14,
        qp <= 84,
    ensures
        transform_result(r, qp as int, bit_depth, chroma_dc_422(longs(c@), qp as int, longs(w@))),
        r matches Ok(v) ==> within(v@, DC_BOUND as int) && v.len() == 8,
{
    proof {
        reveal(chroma_dc_422);
        lemma_p2_values();
    }
    match check_qp(qp, bit_depth) {
        Ok(_) => {},
        Err(e) => {
            return Err(e);
        },
    }
    let ghost lim = LEVEL_BOUND as int;
    let m = chroma_dc_422_matrix(c, Ghost(lim));
    let ghost mm = dc422_matrix(longs(c@));
    let n = norm4_at((qp + 3) % 6, 0);
    proof {
        lemma_mul_bound(w@[0] as int, 255, n as int, 29);
        assert(0 <= w@[0] * n) by (nonlinear_arith)
            requires
                0 <= w@[0],
                0 <= n,
        ;
    }
    let scale: i64 = w[0] * n;
    let mut r: Vec<i64> = Vec::new();
    for k in 0..8usize
        invariant
            m.len() == 8,
            lim == LEVEL_BOUND as int,
            within(m@, lim),
            longs(m@) == mm,
            mm == dc422_matrix(longs(c@)),
            weights_ok(w@, 16),
            0 <= qp <= 84,
            0 <= scale <= 0x4000,
            scale == longs(w@)[0] * norm4((qp as int + 3) % 6, 0),
            p2(8) == 256,
            r.len() == k,
            forall|i: int|
                0 <= i < k ==> r@[i] == #[trigger] chroma_dc_422(
                    longs(c@),
                    qp as int,
                    longs(w@),
                )[i],
            within(r@, DC_BOUND as int),
    {
        let (m0, m1, m2, m3) = (m[0], m[1], m[2], m[3]);
        let (m4, m5, m6, m7) = (m[4], m[5], m[6], m[7]);
        proof {
            assert(mm[0] == m0 && mm[1] == m1 && mm[2] == m2 && mm[3] == m3);
            assert(mm[4] == m4 && mm[5] == m5 && mm[6] == m6 && mm[7] == m7);
            reveal(chroma_dc_422);
        }
        let h = if k % 2 == 0 {
            had4_at(m0 + m1, m2 + m3, m4 + m5, m6 + m7, k / 2, Ghost(2 * lim))
        } else {
            had4_at(m0 - m1, m2 - m3, m4 - m5, m6 - m7, k / 2, Ghost(2 * lim))
        };
        let v = scale_value(h, scale, qp + 3, 6, Ghost(8 * lim));
        r.push(v);
    }
    assert(longs(r@) =~= chroma_dc_422(longs(c@), qp as int, longs(w@)));
    Ok(r)
}

/// Sum of the entries at `start`, `start - step`, ..., `n` steps back.
pub open spec fn back_sum(r: Seq<int>, start: int, step: int, n: int) -> int
    decreases n,
{
    if n <= 0 {
        r[start]
    } else {
        r[start] + back_sum(r, start - step, step, n - 1)
    }
}

/// Number of entries before position `k` along its row or column.
pub open spec fn run_length(k: int, w: int, hor: bool) -> int {
    if hor {
        k % w
    } else {
        k / w
    }
}

/// Lossless residual of a block predicted along rows or columns: running sums in that direction.
#[verifier::opaque]
pub open spec fn dpcm(r: Seq<int>, w: int, hor: bool) -> Seq<int> {
    Seq::new(
        r.len(),
        |k: int|
            back_sum(
                r,
                k,
                if hor {
                    1
                } else {
                    w
                },
                run_length(k, w, hor),
            ),
    )
}

pub proof fn lemma_run_length(k: int, w: int, h: int, hor: bool)
    requires
        w == 4 || w == 8 || w == 16,
        0 <= k < w * h,
        h <= 16,
    ensures
        0 <= run_length(k, w, hor) < 16,
        hor && k % w != 0 ==> k >= 1 && run_length(k - 1, w, hor) == run_length(k, w, hor) - 1,
        hor && k % w == 0 ==> run_length(k, w, hor) == 0,
        !hor && k >= w ==> run_length(k - w, w, hor) == run_length(k, w, hor) - 1,
        !hor && k < w ==> run_length(k, w, hor) == 0,
{
    if w == 4 {
    } else if w == 8 {
    } else {
    }
}

/// Replaces the coded differences of a losslessly coded block by running sums along its rows
/// (`hor`) or columns.
pub fn intra_bypass_dpcm(r: &Vec<i64>, w: usize, h: usize, hor: bool) -> (out: Vec<i64>)
    requires
        w == 4 || w == 8 || w == 16,
        h <= 16,
        r.len() == w * h,
        within(r@, LEVEL_BOUND as int),
    ensures
        longs(out@) == dpcm(longs(r@), w as int, hor),
        within(out@, 16 * LEVEL_BOUND),
        out.len() == r.len(),
{
    let mut out: Vec<i64> = Vec::new();
    let n = r.len();
    let ghost rr = longs(r@);
    let ghost step = if hor {
        1int
    } else {
        w as int
    };
    for k in 0..n
        invariant
            w == 4 || w == 8 || w == 16,
            h <= 16,
            n == r.len(),
            n == w * h,
            rr == longs(r@),
            step == (if hor {
                1int
            } else {
                w as int
            }),
            within(r@, LEVEL_BOUND as int),
            out.len() == k,
            forall|i: int|
                0 <= i < k ==> #[trigger] out@[i] == back_sum(
                    rr,
                    i,
                    step,
                    run_length(i, w as int, hor),
                ),
            forall|i: int|
                0 <= i < k ==> -LEVEL_BOUND * (1 + run_length(i, w as int, hor))
                    <= #[trigger] out@[i] <= LEVEL_BOUND * (1 + run_length(i, w as int, hor)),
    {
        proof {
            lemma_run_length(k as int, w as int, h as int, hor);
        }
        let first = if hor {
            k % w == 0
        } else {
            k < w
        };
        let v: i64 = if first {
            r[k]
        } else if hor {
            out[k - 1] + r[k]
        } else {
            out[k - w] + r[k]
        };
        out.push(v);
    }
    proof {
        reveal(dpcm);
        assert(longs(out@) =~= dpcm(rr, w as int, hor));
        assert forall|i: int| 0 <= i < out.len() implies -16 * LEVEL_BOUND <= #[trigger] out@[i]
            <= 16 * LEVEL_BOUND by {
            lemma_run_length(i, w as int, h as int, hor);
        }
    }
    out
}

pub proof fn lemma_zero_scaled(scale: int, qp: int, s: int)
    requires
        0 <= qp,
        0 <= s,
    ensures
        scaled(0, scale, qp, s) == 0,
{
    if qp < 6 * s {
        let n = s - qp / 6;
        lemma_p2_mono(0, n - 1);
        let half = p2(n - 1);
        assert(p2(n) == 2 * half);
        assert(half / (2 * half) == 0) by (nonlinear_arith)
            requires
                half >= 1,
        ;
        assert(0 * scale == 0);
    } else {
        assert(0 * scale * p2(qp / 6 - s) == 0) by (nonlinear_arith);
    }
}

proof fn lemma_zero_row4(d: Seq<int>, k: int)
    requires
        d.len() == 16,
        forall|i: int| 0 <= i < 16 ==> #[trigger] d[i] == 0,
        0 <= k < 16,
    ensures
        rows4(d)[k] == 0,
{
    let r = k / 4 * 4;
    assert(d[r] == 0 && d[r + 1] == 0 && d[r + 2] == 0 && d[r + 3] == 0);
    assert(inv4(0, 0, 0, 0, k % 4) == 0);
}

proof fn lemma_zero_col4(d: Seq<int>, k: int)
    requires
        d.len() == 16,
        forall|i: int| 0 <= i < 16 ==> #[trigger] d[i] == 0,
        0 <= k < 16,
    ensures
        core4x4(d)[k] == 0,
{
    let f = rows4(d);
    let c = k % 4;
    lemma_zero_row4(d, c);
    lemma_zero_row4(d, 4 + c);
    lemma_zero_row4(d, 8 + c);
    lemma_zero_row4(d, 12 + c);
    assert(f[c] == 0 && f[4 + c] == 0 && f[8 + c] == 0 && f[12 + c] == 0);
    assert(inv4(0, 0, 0, 0, k / 4) == 0);
}

proof fn lemma_zero_core4(d: Seq<int>)
    requires
        d.len() == 16,
        forall|i: int| 0 <= i < 16 ==> #[trigger] d[i] == 0,
    ensures
        core4x4(d) == d,
{
    assert forall|k: int| 0 <= k < 16 implies #[trigger] core4x4(d)[k] == d[k] by {
        lemma_zero_col4(d, k);
    }
    assert(core4x4(d) =~= d);
}

proof fn lemma_zero_4x4(qp: int, w: Seq<int>)
    requires
        0 <= qp,
    ensures
        scale4x4(Seq::new(16, |i: int| 0), qp, w) == Seq::new(16, |i: int| 0int),
        scale4x4_ac(Seq::new(16, |i: int| 0), qp, w) == Seq::new(16, |i: int| 0int),
{
    let z = Seq::new(16, |i: int| 0int);
    assert forall|k: int| 0 <= k < 16 implies #[trigger] scale4x4(z, qp, w)[k] == 0 by {
        lemma_zero_scaled(w[k] * norm4(qp % 6, k), qp, 4);
    }
    assert forall|k: int| 0 <= k < 16 implies #[trigger] scale4x4_ac(z, qp, w)[k] == 0 by {
        lemma_zero_scaled(w[k] * norm4(qp % 6, k), qp, 4);
    }
    assert(scale4x4(z, qp, w) =~= z);
    assert(scale4x4_ac(z, qp, w) =~= z);
}

proof fn lemma_zero_inv8(d: Seq<int>, j: int)
    requires
        d.len() == 8,
        forall|i: int| 0 <= i < 8 ==> #[trigger] d[i] == 0,
    ensures
        inv8(d, j) == 0,
{
}

proof fn lemma_zero_8x8(qp: int, w: Seq<int>)
    requires
        0 <= qp,
    ensures
        residual8x8(Seq::new(64, |i: int| 0), qp, w) == Seq::new(64, |i: int| 0int),
{
    reveal(residual8x8);
    let z = Seq::new(64, |i: int| 0int);
    assert forall|k: int| 0 <= k < 64 implies #[trigger] scale8x8(z, qp, w)[k] == 0 by {
        lemma_zero_scaled(w[k] * norm8(qp % 6, k), qp, 6);
    }
    assert(scale8x8(z, qp, w) =~= z);
    assert forall|k: int| 0 <= k < 64 implies #[trigger] rows8(z)[k] == 0 by {
        lemma_zero_inv8(row8(z, k / 8), k % 8);
    }
    assert(rows8(z) =~= z);
    assert forall|k: int| 0 <= k < 64 implies #[trigger] core8x8(z)[k] == 0 by {
        lemma_zero_inv8(col8(z, k % 8), k / 8);
    }
    assert(core8x8(z) =~= z);
}

/// A block without coefficients has no residual.
pub proof fn law_zero_levels_have_no_residual(qp: int, w4: Seq<int>, w8: Seq<int>)
    requires
        0 <= qp,
    ensures
        residual4x4(Seq::new(16, |i: int| 0), qp, w4) == Seq::new(16, |i: int| 0int),
        residual4x4_ac(Seq::new(16, |i: int| 0), qp, w4) == Seq::new(16, |i: int| 0int),
        residual8x8(Seq::new(64, |i: int| 0), qp, w8) == Seq::new(64, |i: int| 0int),
{
    reveal(residual4x4);
    reveal(residual4x4_ac);
    lemma_zero_4x4(qp, w4);
    lemma_zero_core4(Seq::new(16, |i: int| 0int));
    lemma_zero_8x8(qp, w8);
}

} // verus!
