//! Motion compensation and weighted prediction.
use crate::error::{ErrV, ReconstructError};
use crate::intra_pred::samples_ok;
use crate::math::{
    clip1, clip3, clip3_i64, clip_sample, floor_div, floor_mod, ints, lemma_p2_mono,
    lemma_p2_values, p2, pow2,
};
use crate::mv_deriv::Mv;
use crate::picture::Picture;
use crate::plane::{Plane, PlaneV};
use crate::pps::Pps;
use crate::slice_header::{PredWeightTable, SliceHeader, SliceType};
use vstd::prelude::*;

verus! {

/// Sample of a reference plane, or of one field of it, with clamped coordinates.
pub open spec fn ref_sample(p: PlaneV, field: Option<u8>, x: int, y: int) -> int {
    match field {
        Some(parity) => p.get(x, parity + 2 * clip3(0, p.h / 2 - 1, y)),
        None => p.get(x, y),
    }
}

fn ref_at(p: &Plane, field: Option<u8>, x: i64, y: i64) -> (r: i64)
    ensures
        r == ref_sample(p@, field, x as int, y as int),
        0 <= r <= 65535,
{
    match field {
        Some(parity) => {
            let row = clip3_i64(0, p.height() as i64 / 2 - 1, y);
            p.get(x, parity as i64 + 2 * row) as i64
        },
        None => p.get(x, y) as i64,
    }
}

/// The six-tap half-sample filter.
pub open spec fn tap6(a: int, b: int, c: int, d: int, e: int, f: int) -> int {
    a - 5 * b + 20 * c + 20 * d - 5 * e + f
}

/// Horizontal half-sample sum at `(x, y)`, before rounding.
pub open spec fn h_sum(p: PlaneV, f: Option<u8>, x: int, y: int) -> int {
    tap6(
        ref_sample(p, f, x - 2, y),
        ref_sample(p, f, x - 1, y),
        ref_sample(p, f, x, y),
        ref_sample(p, f, x + 1, y),
        ref_sample(p, f, x + 2, y),
        ref_sample(p, f, x + 3, y),
    )
}

/// Vertical half-sample sum at `(x, y)`, before rounding.
pub open spec fn v_sum(p: PlaneV, f: Option<u8>, x: int, y: int) -> int {
    tap6(
        ref_sample(p, f, x, y - 2),
        ref_sample(p, f, x, y - 1),
        ref_sample(p, f, x, y),
        ref_sample(p, f, x, y + 1),
        ref_sample(p, f, x, y + 2),
        ref_sample(p, f, x, y + 3),
    )
}

/// Half-sample value between horizontal neighbours.
pub open spec fn half_h(p: PlaneV, f: Option<u8>, bd: u32, x: int, y: int) -> int {
    clip1((h_sum(p, f, x, y) + 16) / 32, bd)
}

/// Half-sample value between vertical neighbours.
pub open spec fn half_v(p: PlaneV, f: Option<u8>, bd: u32, x: int, y: int) -> int {
    clip1((v_sum(p, f, x, y) + 16) / 32, bd)
}

/// Half-sample value in the middle of four samples.
pub open spec fn half_c(p: PlaneV, f: Option<u8>, bd: u32, x: int, y: int) -> int {
    clip1(
        (tap6(
            h_sum(p, f, x, y - 2),
            h_sum(p, f, x, y - 1),
            h_sum(p, f, x, y),
            h_sum(p, f, x, y + 1),
            h_sum(p, f, x, y + 2),
            h_sum(p, f, x, y + 3),
        ) + 512) / 1024,
        bd,
    )
}

pub open spec fn avg(a: int, b: int) -> int {
    (a + b + 1) / 2
}

/// Luma sample at quarter-sample offset `(xf, yf)` from `(x, y)`.
///
/// Half-sample positions are filtered; each quarter-sample position is the average of its two
/// nearest integer or half-sample positions.
pub open spec fn luma_quarter(
    p: PlaneV,
    f: Option<u8>,
    bd: u32,
    x: int,
    y: int,
    xf: int,
    yf: int,
) -> int {
    if yf == 0 {
        if xf == 0 {
            ref_sample(p, f, x, y)
        } else if xf == 2 {
            half_h(p, f, bd, x, y)
        } else {
            avg(ref_sample(p, f, x + xf / 2, y), half_h(p, f, bd, x, y))
        }
    } else if xf == 0 {
        if yf == 2 {
            half_v(p, f, bd, x, y)
        } else {
            avg(ref_sample(p, f, x, y + yf / 2), half_v(p, f, bd, x, y))
        }
    } else if xf == 2 {
        if yf == 2 {
            half_c(p, f, bd, x, y)
        } else {
            avg(half_h(p, f, bd, x, y + yf / 2), half_c(p, f, bd, x, y))
        }
    } else if yf == 2 {
        avg(half_v(p, f, bd, x + xf / 2, y), half_c(p, f, bd, x, y))
    } else {
        avg(half_h(p, f, bd, x, y + yf / 2), half_v(p, f, bd, x + xf / 2, y))
    }
}

/// Bound on the coordinates that interpolation is asked for.
pub const COORD: i64 = 0x2_0000_0000;

pub open spec fn near(x: int) -> bool {
    -COORD <= x <= COORD
}

fn tap6_of(a: i64, b: i64, c: i64, d: i64, e: i64, f: i64, Ghost(m): Ghost<int>) -> (r: i64)
    requires
        0 <= m <= 0x1_0000_0000,
        -m <= a <= m,
        -m <= b <= m,
        -m <= c <= m,
        -m <= d <= m,
        -m <= e <= m,
        -m <= f <= m,
    ensures
        r == tap6(a as int, b as int, c as int, d as int, e as int, f as int),
        -52 * m <= r <= 52 * m,
{
    a - 5 * b + 20 * c + 20 * d - 5 * e + f
}

fn h_sum_at(p: &Plane, f: Option<u8>, x: i64, y: i64) -> (r: i64)
    requires
        near(x as int),
        near(y as int),
    ensures
        r == h_sum(p@, f, x as int, y as int),
        -3407820 <= r <= 3407820,
{
    tap6_of(
        ref_at(p, f, x - 2, y),
        ref_at(p, f, x - 1, y),
        ref_at(p, f, x, y),
        ref_at(p, f, x + 1, y),
        ref_at(p, f, x + 2, y),
        ref_at(p, f, x + 3, y),
        Ghost(65535),
    )
}

fn half_h_at(p: &Plane, f: Option<u8>, bd: u32, x: i64, y: i64) -> (r: i64)
    requires
        near(x as int),
        near(y as int),
        bd <= 14,
    ensures
        r == half_h(p@, f, bd, x as int, y as int),
        0 <= r <= 65535,
{
    clip_sample(floor_div(h_sum_at(p, f, x, y) + 16, 32), bd) as i64
}

fn half_v_at(p: &Plane, f: Option<u8>, bd: u32, x: i64, y: i64) -> (r: i64)
    requires
        near(x as int),
        near(y as int),
        bd <= 14,
    ensures
        r == half_v(p@, f, bd, x as int, y as int),
        0 <= r <= 65535,
{
    let v = tap6_of(
        ref_at(p, f, x, y - 2),
        ref_at(p, f, x, y - 1),
        ref_at(p, f, x, y),
        ref_at(p, f, x, y + 1),
        ref_at(p, f, x, y + 2),
        ref_at(p, f, x, y + 3),
        Ghost(65535),
    );
    clip_sample(floor_div(v + 16, 32), bd) as i64
}

fn half_c_at(p: &Plane, f: Option<u8>, bd: u32, x: i64, y: i64) -> (r: i64)
    requires
        near(x as int),
        near(y - 2),
        near(y + 3),
        bd <= 14,
    ensures
        r == half_c(p@, f, bd, x as int, y as int),
        0 <= r <= 65535,
{
    let v = tap6_of(
        h_sum_at(p, f, x, y - 2),
        h_sum_at(p, f, x, y - 1),
        h_sum_at(p, f, x, y),
        h_sum_at(p, f, x, y + 1),
        h_sum_at(p, f, x, y + 2),
        h_sum_at(p, f, x, y + 3),
        Ghost(3407820),
    );
    clip_sample(floor_div(v + 512, 1024), bd) as i64
}

fn luma_quarter_at(p: &Plane, f: Option<u8>, bd: u32, x: i64, y: i64, xf: i64, yf: i64) -> (r: i32)
    requires
        near(x - 8),
        near(x + 8),
        near(y - 8),
        near(y + 8),
        0 <= xf < 4,
        0 <= yf < 4,
        bd <= 14,
    ensures
        r == luma_quarter(p@, f, bd, x as int, y as int, xf as int, yf as int),
        0 <= r <= 65535,
{
    let (a, b): (i64, i64) = if yf == 0 {
        if xf == 0 {
            let v = ref_at(p, f, x, y);
            (v, v)
        } else if xf == 2 {
            let v = half_h_at(p, f, bd, x, y);
            (v, v)
        } else {
            (ref_at(p, f, x + xf / 2, y), half_h_at(p, f, bd, x, y))
        }
    } else if xf == 0 {
        if yf == 2 {
            let v = half_v_at(p, f, bd, x, y);
            (v, v)
        } else {
            (ref_at(p, f, x, y + yf / 2), half_v_at(p, f, bd, x, y))
        }
    } else if xf == 2 {
        if yf == 2 {
            let v = half_c_at(p, f, bd, x, y);
            (v, v)
        } else {
            (half_h_at(p, f, bd, x, y + yf / 2), half_c_at(p, f, bd, x, y))
        }
    } else if yf == 2 {
        (half_v_at(p, f, bd, x + xf / 2, y), half_c_at(p, f, bd, x, y))
    } else {
        (half_h_at(p, f, bd, x, y + yf / 2), half_v_at(p, f, bd, x + xf / 2, y))
    };
    ((a + b + 1) / 2) as i32
}

/// Chroma sample at eighth-sample offset `(xf, yf)` from `(x, y)`: a bilinear mean.
pub open spec fn chroma_eighth(p: PlaneV, f: Option<u8>, x: int, y: int, xf: int, yf: int) -> int {
    ((8 - yf) * ((8 - xf) * ref_sample(p, f, x, y) + xf * ref_sample(p, f, x + 1, y)) + yf * ((8
        - xf) * ref_sample(p, f, x, y + 1) + xf * ref_sample(p, f, x + 1, y + 1)) + 32) / 64
}

fn blend8(a: i64, b: i64, t: i64, Ghost(m): Ghost<int>) -> (r: i64)
    requires
        0 <= a <= m,
        0 <= b <= m,
        0 <= t < 8,
        m <= 0x10_0000,
    ensures
        r == (8 - t) * a + t * b,
        0 <= r <= 8 * m,
{
    proof {
        assert(0 <= (8 - t) * a <= (8 - t) * m) by (nonlinear_arith)
            requires
                0 <= a <= m,
                0 <= t < 8,
        ;
        assert(0 <= t * b <= t * m) by (nonlinear_arith)
            requires
                0 <= b <= m,
                0 <= t < 8,
        ;
        assert((8 - t) * m + t * m == 8 * m) by (nonlinear_arith);
        assert((8 - t) * m <= 8 * m && t * m <= 8 * m) by (nonlinear_arith)
            requires
                0 <= t < 8,
                m >= 0,
        ;
    }
    (8 - t) * a + t * b
}

fn chroma_eighth_at(p: &Plane, f: Option<u8>, x: i64, y: i64, xf: i64, yf: i64) -> (r: i32)
    requires
        near(x as int),
        near(y as int),
        0 <= xf < 8,
        0 <= yf < 8,
    ensures
        r == chroma_eighth(p@, f, x as int, y as int, xf as int, yf as int),
        0 <= r <= 65535,
{
    let top = blend8(ref_at(p, f, x, y), ref_at(p, f, x + 1, y), xf, Ghost(65535));
    let bottom = blend8(ref_at(p, f, x, y + 1), ref_at(p, f, x + 1, y + 1), xf, Ghost(65535));
    let v = blend8(top, bottom, yf, Ghost(524280));
    ((v + 32) / 64) as i32
}

/// Luma prediction of a block of `w` by `h` samples at `(ax, ay)`, displaced by `mv`.
#[verifier::opaque]
pub open spec fn luma_block(
    p: PlaneV,
    f: Option<u8>,
    bd: u32,
    ax: int,
    ay: int,
    mx: int,
    my: int,
    w: int,
    h: int,
) -> Seq<int> {
    Seq::new(
        (w * h) as nat,
        |k: int|
            luma_quarter(p, f, bd, ax + mx / 4 + k % w, ay + my / 4 + k / w, mx % 4, my % 4),
    )
}

/// Chroma prediction of a block of `w` by `h` samples at `(ax, ay)`, displaced by `(mx, my)` eighths
/// of a sample.
#[verifier::opaque]
pub open spec fn chroma_block(
    p: PlaneV,
    f: Option<u8>,
    ax: int,
    ay: int,
    mx: int,
    my: int,
    w: int,
    h: int,
) -> Seq<int> {
    Seq::new(
        (w * h) as nat,
        |k: int| chroma_eighth(p, f, ax + mx / 8 + k % w, ay + my / 8 + k / w, mx % 8, my % 8),
    )
}

/// Position at which a block is predicted.
pub open spec fn pos_ok(x: int) -> bool {
    -0x4000_0000 <= x <= 0x7000_0000
}

fn interpolate_luma(
    p: &Plane,
    f: Option<u8>,
    bd: u32,
    ax: i64,
    ay: i64,
    mx: i64,
    my: i64,
    w: usize,
    h: usize,
) -> (r: Vec<i32>)
    requires
        pos_ok(ax as int),
        pos_ok(ay as int),
        -0x1_0000_0000 <= mx <= 0x1_0000_0000,
        -0x1_0000_0000 <= my <= 0x1_0000_0000,
        1 <= w <= 16,
        h <= 16,
        bd <= 14,
    ensures
        ints(r@) == luma_block(
            p@,
            f,
            bd,
            ax as int,
            ay as int,
            mx as int,
            my as int,
            w as int,
            h as int,
        ),
        samples_ok(r@),
        r.len() == w * h,
{
    assert(w * h <= 256) by (nonlinear_arith)
        requires
            1 <= w <= 16,
            h <= 16,
    ;
    let n: usize = w * h;
    let bx: i64 = ax + floor_div(mx, 4);
    let by: i64 = ay + floor_div(my, 4);
    let xf = floor_mod(mx, 4);
    let yf = floor_mod(my, 4);
    let mut r: Vec<i32> = Vec::new();
    for k in 0..n
        invariant
            n == w * h,
            n <= 256,
            1 <= w <= 16,
            bx == ax + mx as int / 4,
            by == ay + my as int / 4,
            xf == mx as int % 4,
            yf == my as int % 4,
            0 <= xf < 4,
            0 <= yf < 4,
            bd <= 14,
            -0x1_0000_0000 <= bx <= 0x1_0000_0000,
            -0x1_0000_0000 <= by <= 0x1_0000_0000,
            r.len() == k,
            samples_ok(r@),
            forall|i: int|
                0 <= i < k ==> #[trigger] r@[i] == luma_quarter(
                    p@,
                    f,
                    bd,
                    bx + i % w as int,
                    by + i / w as int,
                    xf as int,
                    yf as int,
                ),
    {
        proof {
            crate::mb_address::lemma_div_mod_bound(k as int, w as int);
        }
        let v = luma_quarter_at(p, f, bd, bx + (k % w) as i64, by + (k / w) as i64, xf, yf);
        r.push(v);
    }
    proof {
        reveal(luma_block);
        assert(ints(r@) =~= luma_block(
            p@,
            f,
            bd,
            ax as int,
            ay as int,
            mx as int,
            my as int,
            w as int,
            h as int,
        ));
    }
    r
}

fn interpolate_chroma(
    p: &Plane,
    f: Option<u8>,
    ax: i64,
    ay: i64,
    mx: i64,
    my: i64,
    w: usize,
    h: usize,
) -> (r: Vec<i32>)
    requires
        pos_ok(ax as int),
        pos_ok(ay as int),
        -0x1_0000_0000 <= mx <= 0x1_0000_0000,
        -0x1_0000_0000 <= my <= 0x1_0000_0000,
        1 <= w <= 16,
        h <= 16,
    ensures
        ints(r@) == chroma_block(
            p@,
            f,
            ax as int,
            ay as int,
            mx as int,
            my as int,
            w as int,
            h as int,
        ),
        samples_ok(r@),
        r.len() == w * h,
{
    assert(w * h <= 256) by (nonlinear_arith)
        requires
            1 <= w <= 16,
            h <= 16,
    ;
    let n: usize = w * h;
    let bx: i64 = ax + floor_div(mx, 8);
    let by: i64 = ay + floor_div(my, 8);
    let xf = floor_mod(mx, 8);
    let yf = floor_mod(my, 8);
    let mut r: Vec<i32> = Vec::new();
    for k in 0..n
        invariant
            n == w * h,
            n <= 256,
            1 <= w <= 16,
            bx == ax + mx as int / 8,
            by == ay + my as int / 8,
            xf == mx as int % 8,
            yf == my as int % 8,
            0 <= xf < 8,
            0 <= yf < 8,
            -0x1_0000_0000 <= bx <= 0x1_0000_0000,
            -0x1_0000_0000 <= by <= 0x1_0000_0000,
            r.len() == k,
            samples_ok(r@),
            forall|i: int|
                0 <= i < k ==> #[trigger] r@[i] == chroma_eighth(
                    p@,
                    f,
                    bx + i % w as int,
                    by + i / w as int,
                    xf as int,
                    yf as int,
                ),
    {
        proof {
            crate::mb_address::lemma_div_mod_bound(k as int, w as int);
        }
        let v = chroma_eighth_at(p, f, bx + (k % w) as i64, by + (k / w) as i64, xf, yf);
        r.push(v);
    }
    proof {
        reveal(chroma_block);
        assert(ints(r@) =~= chroma_block(
            p@,
            f,
            ax as int,
            ay as int,
            mx as int,
            my as int,
            w as int,
            h as int,
        ));
    }
    r
}

/// A plane, or one field of it, that has no samples to predict from.
pub open spec fn dims_error(p: PlaneV, field: Option<u8>) -> Option<ErrV> {
    if p.w == 0 || p.h == 0 {
        Some(ErrV::InvalidRefDims { width: p.w as u32, height: p.h as u32 })
    } else if field is Some && p.h / 2 == 0 {
        Some(ErrV::InvalidRefDims { width: p.w as u32, height: 0 })
    } else {
        None
    }
}

fn check_dims(p: &Plane, field: Option<u8>) -> (r: Result<(), ReconstructError>)
    ensures
        crate::error::outcome(r) == dims_error(p@, field),
{
    let width = p.width();
    let height = p.height();
    if width == 0 || height == 0 {
        Err(ReconstructError::InvalidRefDims { width, height })
    } else if field.is_some() && height / 2 == 0 {
        Err(ReconstructError::InvalidRefDims { width, height: 0 })
    } else {
        Ok(())
    }
}

/// Luma prediction of a partition from a reference picture, or why there is none.
pub open spec fn mc_luma(
    p: Picture,
    ax: int,
    ay: int,
    mv: Mv,
    w: int,
    h: int,
    bd: u32,
    field: Option<u8>,
) -> Result<Seq<int>, ErrV> {
    if p.luma@.w == 0 || p.luma@.h == 0 {
        Err(ErrV::InvalidRefDims { width: p.luma@.w as u32, height: p.luma@.h as u32 })
    } else if p.non_existing {
        Err(ErrV::NonExistingRef)
    } else {
        match dims_error(p.luma@, field) {
            Some(e) => Err(e),
            None => Ok(luma_block(p.luma@, field, bd, ax, ay, mv.x as int, mv.y as int, w, h)),
        }
    }
}

/// What a motion compensation returned, as a value.
pub open spec fn block_result(r: Result<Vec<i32>, ReconstructError>) -> Result<Seq<int>, ErrV> {
    match r {
        Ok(v) => Ok(ints(v@)),
        Err(e) => Err(e@),
    }
}

/// Predicts the luma samples of a partition at `(part_abs_x, part_abs_y)`.
///
/// With `field` set, the rows of that parity (0 top, 1 bottom) form the reference, and
/// `part_abs_y` counts field rows.
pub fn mc_luma_partition(
    ref_pic: &Picture,
    part_abs_x: i32,
    part_abs_y: i32,
    mv: Mv,
    w: u32,
    h: u32,
    bit_depth: u32,
    field: Option<u8>,
) -> (r: Result<Vec<i32>, ReconstructError>)
    requires
        pos_ok(part_abs_x as int),
        pos_ok(part_abs_y as int),
        1 <= w <= 16,
        1 <= h <= 16,
        bit_depth <= 14,
    ensures
        block_result(r) == mc_luma(
            *ref_pic,
            part_abs_x as int,
            part_abs_y as int,
            mv,
            w as int,
            h as int,
            bit_depth,
            field,
        ),
        r matches Ok(v) ==> samples_ok(v@) && v.len() == w * h,
{
    let width = ref_pic.luma.width();
    let height = ref_pic.luma.height();
    if width == 0 || height == 0 {
        return Err(ReconstructError::InvalidRefDims { width, height });
    }
    if ref_pic.non_existing {
        return Err(ReconstructError::NonExistingRef);
    }
    match check_dims(&ref_pic.luma, field) {
        Ok(_) => {},
        Err(e) => {
            return Err(e);
        },
    }
    Ok(
        interpolate_luma(
            &ref_pic.luma,
            field,
            bit_depth,
            part_abs_x as i64,
            part_abs_y as i64,
            mv.x as i64,
            mv.y as i64,
            w as usize,
            h as usize,
        ),
    )
}

/// Chroma prediction of a partition from a 4:2:0 or 4:2:2 picture: Cb and Cr.
///
/// A luma quarter sample is an eighth of a chroma sample where chroma is subsampled by two; in
/// 4:2:2 the vertical resolution is not halved, so vertical vectors count double.
pub open spec fn mc_chroma(
    p: Picture,
    ax: int,
    ay: int,
    mv: Mv,
    w: int,
    h: int,
    cat: u32,
    field: Option<u8>,
) -> Result<(Seq<int>, Seq<int>), ErrV> {
    let my = if cat == 2 {
        mv.y * 2
    } else {
        mv.y as int
    };
    match dims_error(p.cb@, field) {
        Some(e) => Err(e),
        None => Ok(
            (
                chroma_block(p.cb@, field, ax, ay, mv.x as int, my, w, h),
                chroma_block(p.cr@, field, ax, ay, mv.x as int, my, w, h),
            ),
        ),
    }
}

/// Chroma prediction of a partition from a 4:4:4 picture: each plane as luma.
pub open spec fn mc_chroma_444(
    p: Picture,
    ax: int,
    ay: int,
    mv: Mv,
    w: int,
    h: int,
    bd: u32,
    field: Option<u8>,
) -> Result<(Seq<int>, Seq<int>), ErrV> {
    match dims_error(p.cb@, field) {
        Some(e) => Err(e),
        None => Ok(
            (
                luma_block(p.cb@, field, bd, ax, ay, mv.x as int, mv.y as int, w, h),
                luma_block(p.cr@, field, bd, ax, ay, mv.x as int, mv.y as int, w, h),
            ),
        ),
    }
}

pub open spec fn pair_result(r: Result<(Vec<i32>, Vec<i32>), ReconstructError>) -> Result<
    (Seq<int>, Seq<int>),
    ErrV,
> {
    match r {
        Ok((a, b)) => Ok((ints(a@), ints(b@))),
        Err(e) => Err(e@),
    }
}

/// Predicts the Cb and Cr samples of a partition of a 4:2:0 or 4:2:2 picture.
pub fn mc_chroma_partition(
    ref_pic: &Picture,
    part_abs_x: i32,
    part_abs_y: i32,
    mv: Mv,
    w: u32,
    h: u32,
    chroma_array_type: u32,
    field: Option<u8>,
) -> (r: Result<(Vec<i32>, Vec<i32>), ReconstructError>)
    requires
        pos_ok(part_abs_x as int),
        pos_ok(part_abs_y as int),
        1 <= w <= 16,
        1 <= h <= 16,
    ensures
        pair_result(r) == mc_chroma(
            *ref_pic,
            part_abs_x as int,
            part_abs_y as int,
            mv,
            w as int,
            h as int,
            chroma_array_type,
            field,
        ),
        r matches Ok((a, b)) ==> samples_ok(a@) && samples_ok(b@) && a.len() == w * h && b.len()
            == w * h,
{
    match check_dims(&ref_pic.cb, field) {
        Ok(_) => {},
        Err(e) => {
            return Err(e);
        },
    }
    let (ax, ay): (i64, i64) = (part_abs_x as i64, part_abs_y as i64);
    let mx: i64 = mv.x as i64;
    let my: i64 = if chroma_array_type == 2 {
        mv.y as i64 * 2
    } else {
        mv.y as i64
    };
    let cb = interpolate_chroma(&ref_pic.cb, field, ax, ay, mx, my, w as usize, h as usize);
    let cr = interpolate_chroma(&ref_pic.cr, field, ax, ay, mx, my, w as usize, h as usize);
    Ok((cb, cr))
}

/// Predicts the Cb and Cr samples of a partition of a 4:4:4 picture.
pub fn mc_chroma_partition_444(
    ref_pic: &Picture,
    part_abs_x: i32,
    part_abs_y: i32,
    mv: Mv,
    w: u32,
    h: u32,
    bit_depth: u32,
    field: Option<u8>,
) -> (r: Result<(Vec<i32>, Vec<i32>), ReconstructError>)
    requires
        pos_ok(part_abs_x as int),
        pos_ok(part_abs_y as int),
        1 <= w <= 16,
        1 <= h <= 16,
        bit_depth <= 14,
    ensures
        pair_result(r) == mc_chroma_444(
            *ref_pic,
            part_abs_x as int,
            part_abs_y as int,
            mv,
            w as int,
            h as int,
            bit_depth,
            field,
        ),
        r matches Ok((a, b)) ==> samples_ok(a@) && samples_ok(b@) && a.len() == w * h && b.len()
            == w * h,
{
    match check_dims(&ref_pic.cb, field) {
        Ok(_) => {},
        Err(e) => {
            return Err(e);
        },
    }
    let (ax, ay): (i64, i64) = (part_abs_x as i64, part_abs_y as i64);
    let (mx, my): (i64, i64) = (mv.x as i64, mv.y as i64);
    let (wu, hu): (usize, usize) = (w as usize, h as usize);
    let cb = interpolate_luma(&ref_pic.cb, field, bit_depth, ax, ay, mx, my, wu, hu);
    let cr = interpolate_luma(&ref_pic.cr, field, bit_depth, ax, ay, mx, my, wu, hu);
    Ok((cb, cr))
}

/// In 4:4:4 chroma is predicted exactly as luma: on a picture whose chroma planes hold what its
/// luma plane holds, the predictions are the same.
pub proof fn law_mc_444_as_luma(
    p: Picture,
    ax: int,
    ay: int,
    mv: Mv,
    w: int,
    h: int,
    bd: u32,
    field: Option<u8>,
)
    requires
        p.cb@ == p.luma@,
        p.cr@ == p.luma@,
        !p.non_existing,
    ensures
        match mc_luma(p, ax, ay, mv, w, h, bd, field) {
            Ok(y) => mc_chroma_444(p, ax, ay, mv, w, h, bd, field) == Ok::<_, ErrV>((y, y)),
            Err(e) => mc_chroma_444(p, ax, ay, mv, w, h, bd, field)
                == Err::<(Seq<int>, Seq<int>), ErrV>(e),
        },
{
}

/// The results of 4:4:4 chroma and luma motion compensation are the same, sample for sample, on a
/// picture whose chroma planes hold what its luma plane holds.
pub proof fn law_mc_444_results_as_luma(
    p: Picture,
    ax: int,
    ay: int,
    mv: Mv,
    w: int,
    h: int,
    bd: u32,
    field: Option<u8>,
    luma: Result<Vec<i32>, ReconstructError>,
    chroma: Result<(Vec<i32>, Vec<i32>), ReconstructError>,
)
    requires
        p.cb@ == p.luma@,
        p.cr@ == p.luma@,
        !p.non_existing,
        block_result(luma) == mc_luma(p, ax, ay, mv, w, h, bd, field),
        pair_result(chroma) == mc_chroma_444(p, ax, ay, mv, w, h, bd, field),
    ensures
        luma is Ok == chroma is Ok,
        luma is Ok ==> chroma->Ok_0.0@ == luma->Ok_0@ && chroma->Ok_0.1@ == luma->Ok_0@,
{
    law_mc_444_as_luma(p, ax, ay, mv, w, h, bd, field);
    if let Ok(y) = luma {
        if let Ok((cb, cr)) = chroma {
            lemma_ints_injective(cb@, y@);
            lemma_ints_injective(cr@, y@);
        }
    }
}

proof fn lemma_ints_injective(a: Seq<i32>, b: Seq<i32>)
    requires
        ints(a) == ints(b),
    ensures
        a == b,
{
    assert(ints(a).len() == a.len() && ints(b).len() == b.len());
    assert forall|i: int| 0 <= i < a.len() implies a[i] == b[i] by {
        assert(ints(a)[i] == a[i] as int);
        assert(ints(b)[i] == b[i] as int);
    }
    assert(a =~= b);
}

// Weighted prediction.

#[derive(Debug, Clone, Copy, PartialEq, Eq, Structural)]
pub struct WeightedEntry {
    pub weight: i32,
    pub offset: i32,
}

/// How the predictions of the two lists are combined.
#[derive(Debug, Clone, Copy, PartialEq, Eq, Structural)]
pub enum Weighting {
    /// Copy of one prediction, or mean of two.
    Plain,
    /// Weights and offsets per list with a common binary denominator.
    Weighted { l0: WeightedEntry, l1: WeightedEntry, log2_wd: u32 },
}

/// One prediction, weighted.
pub open spec fn weighted_uni(v: int, e: WeightedEntry, d: u32, bd: u32) -> int {
    if d >= 1 {
        clip1((v * e.weight + p2(d - 1)) / p2(d as int) + e.offset, bd)
    } else {
        clip1(v * e.weight + e.offset, bd)
    }
}

/// Two predictions, weighted.
pub open spec fn weighted_bi(
    a: int,
    b: int,
    e: WeightedEntry,
    f: WeightedEntry,
    d: u32,
    bd: u32,
) -> int {
    clip1(
        (a * e.weight + b * f.weight + p2(d as int)) / p2(d + 1) + (e.offset + f.offset + 1) / 2,
        bd,
    )
}

/// Combined prediction of one sample from those of the two lists.
pub open spec fn combined_at(a: Option<int>, b: Option<int>, wt: Weighting, bd: u32) -> int {
    match (a, b) {
        (Some(x), Some(y)) => match wt {
            Weighting::Plain => (x + y + 1) / 2,
            Weighting::Weighted { l0, l1, log2_wd } => weighted_bi(x, y, l0, l1, log2_wd, bd),
        },
        (Some(x), None) => match wt {
            Weighting::Plain => x,
            Weighting::Weighted { l0, l1, log2_wd } => weighted_uni(x, l0, log2_wd, bd),
        },
        (None, Some(y)) => match wt {
            Weighting::Plain => y,
            Weighting::Weighted { l0, l1, log2_wd } => weighted_uni(y, l1, log2_wd, bd),
        },
        (None, None) => 0,
    }
}

pub open spec fn sample_of(s: Option<Seq<int>>, k: int) -> Option<int> {
    match s {
        Some(v) => Some(v[k]),
        None => None,
    }
}

/// Combined prediction of a block of `n` samples.
#[verifier::opaque]
pub open spec fn combined(
    a: Option<Seq<int>>,
    b: Option<Seq<int>>,
    wt: Weighting,
    bd: u32,
    n: int,
) -> Seq<int> {
    Seq::new(n as nat, |k: int| combined_at(sample_of(a, k), sample_of(b, k), wt, bd))
}

fn weighted_uni_of(v: i32, e: &WeightedEntry, d: u32, bd: u32) -> (r: i32)
    requires
        0 <= v <= 65535,
        d <= 30,
        bd <= 14,
    ensures
        r == weighted_uni(v as int, *e, d, bd),
        0 <= r <= 65535,
{
    let w: i64 = e.weight as i64;
    let x: i64 = v as i64;
    proof {
        assert(-0x8000_0000_0000 <= x * w <= 0x8000_0000_0000) by (nonlinear_arith)
            requires
                0 <= x <= 65535,
                -0x8000_0000 <= w <= 0x8000_0000,
        ;
    }
    if d >= 1 {
        let t: i64 = x * w + pow2(d - 1);
        let q = pow2(d);
        let f = floor_div(t, q);
        proof {
            assert(-0x1_0000_0000_0000 <= f <= 0x1_0000_0000_0000) by (nonlinear_arith)
                requires
                    f == (t as int) / (q as int),
                    q >= 1,
                    -0x1_0000_0000_0000 <= t <= 0x1_0000_0000_0000,
            ;
        }
        clip_sample(f + e.offset as i64, bd)
    } else {
        clip_sample(x * w + e.offset as i64, bd)
    }
}

fn weighted_bi_of(a: i32, b: i32, e: &WeightedEntry, f: &WeightedEntry, d: u32, bd: u32) -> (r: i32)
    requires
        0 <= a <= 65535,
        0 <= b <= 65535,
        d <= 30,
        bd <= 14,
    ensures
        r == weighted_bi(a as int, b as int, *e, *f, d, bd),
        0 <= r <= 65535,
{
    let (x, y): (i64, i64) = (a as i64, b as i64);
    let (w, u): (i64, i64) = (e.weight as i64, f.weight as i64);
    proof {
        assert(-0x8000_0000_0000 <= x * w <= 0x8000_0000_0000) by (nonlinear_arith)
            requires
                0 <= x <= 65535,
                -0x8000_0000 <= w <= 0x8000_0000,
        ;
        assert(-0x8000_0000_0000 <= y * u <= 0x8000_0000_0000) by (nonlinear_arith)
            requires
                0 <= y <= 65535,
                -0x8000_0000 <= u <= 0x8000_0000,
        ;
    }
    let t: i64 = x * w + y * u + pow2(d);
    let q = pow2(d + 1);
    let v = floor_div(t, q);
    proof {
        assert(-0x2_0000_0000_0000 <= v <= 0x2_0000_0000_0000) by (nonlinear_arith)
            requires
                v == (t as int) / (q as int),
                q >= 1,
                -0x2_0000_0000_0000 <= t <= 0x2_0000_0000_0000,
        ;
    }
    clip_sample(v + floor_div(e.offset as i64 + f.offset as i64 + 1, 2), bd)
}

pub open spec fn opt_ints(s: Option<Vec<i32>>) -> Option<Seq<int>> {
    match s {
        Some(v) => Some(ints(v@)),
        None => None,
    }
}

/// A prediction of `n` samples, if any.
pub open spec fn pred_ok(s: Option<Vec<i32>>, n: int) -> bool {
    s matches Some(v) ==> v.len() == n && samples_ok(v@)
}

/// Combines the predictions of the two lists; without any, the prediction is zero.
pub fn combine(
    l0: &Option<Vec<i32>>,
    l1: &Option<Vec<i32>>,
    wt: &Weighting,
    bit_depth: u32,
    n: usize,
) -> (r: Vec<i32>)
    requires
        pred_ok(*l0, n as int),
        pred_ok(*l1, n as int),
        wt matches Weighting::Weighted { l0: e, l1: f, log2_wd } ==> log2_wd <= 30,
        bit_depth <= 14,
    ensures
        ints(r@) == combined(opt_ints(*l0), opt_ints(*l1), *wt, bit_depth, n as int),
        samples_ok(r@),
        r.len() == n,
{
    let mut r: Vec<i32> = Vec::new();
    for k in 0..n
        invariant
            pred_ok(*l0, n as int),
            pred_ok(*l1, n as int),
            wt matches Weighting::Weighted { l0: e, l1: f, log2_wd } ==> log2_wd <= 30,
            bit_depth <= 14,
            r.len() == k,
            samples_ok(r@),
            forall|i: int|
                0 <= i < k ==> #[trigger] r@[i] == combined_at(
                    sample_of(opt_ints(*l0), i),
                    sample_of(opt_ints(*l1), i),
                    *wt,
                    bit_depth,
                ),
    {
        let v: i32 = match (l0, l1) {
            (Some(a), Some(b)) => match wt {
                Weighting::Plain => (a[k] + b[k] + 1) / 2,
                Weighting::Weighted { l0: e, l1: f, log2_wd } => weighted_bi_of(
                    a[k],
                    b[k],
                    e,
                    f,
                    *log2_wd,
                    bit_depth,
                ),
            },
            (Some(a), None) => match wt {
                Weighting::Plain => a[k],
                Weighting::Weighted { l0: e, l1: _, log2_wd } => weighted_uni_of(
                    a[k],
                    e,
                    *log2_wd,
                    bit_depth,
                ),
            },
            (None, Some(b)) => match wt {
                Weighting::Plain => b[k],
                Weighting::Weighted { l0: _, l1: f, log2_wd } => weighted_uni_of(
                    b[k],
                    f,
                    *log2_wd,
                    bit_depth,
                ),
            },
            (None, None) => 0,
        };
        r.push(v);
    }
    proof {
        reveal(combined);
        assert(ints(r@) =~= combined(opt_ints(*l0), opt_ints(*l1), *wt, bit_depth, n as int));
    }
    r
}

/// Explicit weights are in force for the slice.
pub open spec fn explicit_active(sh: SliceHeader, pps: Pps) -> bool {
    sh.pred_weight_table is Some && match sh.slice_type {
        SliceType::P | SliceType::SP => pps.weighted_pred_flag,
        SliceType::B => pps.weighted_bipred_idc == 1,
        _ => false,
    }
}

pub fn weighted_explicit_active(slice_header: &SliceHeader, pps: &Pps) -> (r: bool)
    ensures
        r == explicit_active(*slice_header, *pps),
{
    if slice_header.pred_weight_table.is_none() {
        return false;
    }
    match slice_header.slice_type {
        SliceType::P | SliceType::SP => pps.weighted_pred_flag,
        SliceType::B => pps.weighted_bipred_idc == 1,
        _ => false,
    }
}

/// Weights from picture distances are in force for bi-predicted partitions of the slice.
pub open spec fn implicit_active(sh: SliceHeader, pps: Pps) -> bool {
    sh.slice_type is B && pps.weighted_bipred_idc == 2
}

pub fn weighted_implicit_active(slice_header: &SliceHeader, pps: &Pps) -> (r: bool)
    ensures
        r == implicit_active(*slice_header, *pps),
{
    matches!(slice_header.slice_type, SliceType::B) && pps.weighted_bipred_idc == 2
}

/// Division that rounds towards zero.
pub open spec fn div_to_zero(a: int, b: int) -> int {
    if b > 0 {
        if a >= 0 {
            a / b
        } else {
            -((-a) / b)
        }
    } else {
        if a >= 0 {
            -(a / (-b))
        } else {
            (-a) / (-b)
        }
    }
}

/// Ratio of two picture distances, `tb / td`, in units of 1/256.
pub open spec fn dist_scale(tb: int, td: int) -> int {
    let tx = div_to_zero(16384 + crate::math::abs_of(div_to_zero(td, 2)), td);
    clip3(-1024, 1023, (tb * tx + 32) / 64)
}

pub fn dist_scale_factor(tb: i64, td: i64) -> (r: i64)
    requires
        -128 <= tb <= 127,
        -128 <= td <= 127,
        td != 0,
    ensures
        r == dist_scale(tb as int, td as int),
        -1024 <= r <= 1023,
{
    let half: i64 = if td >= 0 {
        td / 2
    } else {
        (-td) / 2
    };
    let n: i64 = 16384 + half;
    let tx: i64 = if td > 0 {
        n / td
    } else {
        -(n / (-td))
    };
    proof {
        if td > 0 {
            assert(0 <= n as int / td as int <= n) by (nonlinear_arith)
                requires
                    n >= 0,
                    td > 0,
            ;
        } else {
            let u = -td;
            assert(0 <= n as int / u as int <= n) by (nonlinear_arith)
                requires
                    n >= 0,
                    u > 0,
            ;
        }
        assert(-0x40_0000 <= tb * tx <= 0x40_0000) by (nonlinear_arith)
            requires
                -128 <= tb <= 127,
                -16448 <= tx <= 16448,
        ;
    }
    clip3_i64(-1024, 1023, floor_div(tb * tx + 32, 64))
}

/// Weights of the two predictions from picture order counts, in units of 1/64.
pub open spec fn implicit_weights(cur: int, poc0: int, poc1: int, long_term: bool) -> (int, int) {
    let td = clip3(-128, 127, poc1 - poc0);
    let tb = clip3(-128, 127, cur - poc0);
    let w1 = dist_scale(tb, td) / 4;
    if td == 0 || long_term || w1 < -64 || w1 > 128 {
        (32, 32)
    } else {
        (64 - w1, w1)
    }
}

/// Weights of the two predictions and the binary logarithm of their denominator.
///
/// Equal weights apply when the two references have the same distance, when one of them is a
/// long-term reference, and when the ratio of the distances is out of range.
pub fn implicit_bipred_weights(
    curr_poc: i32,
    poc_l0: i32,
    poc_l1: i32,
    long_term_either: bool,
) -> (r: (i32, i32, u32))
    ensures
        (r.0 as int, r.1 as int) == implicit_weights(
            curr_poc as int,
            poc_l0 as int,
            poc_l1 as int,
            long_term_either,
        ),
        r.2 == 5,
        r.0 + r.1 == 64,
{
    let td = clip3_i64(-128, 127, poc_l1 as i64 - poc_l0 as i64);
    if td == 0 || long_term_either {
        return (32, 32, 5);
    }
    let tb = clip3_i64(-128, 127, curr_poc as i64 - poc_l0 as i64);
    let w1 = floor_div(dist_scale_factor(tb, td), 4);
    if w1 < -64 || w1 > 128 {
        return (32, 32, 5);
    }
    ((64 - w1) as i32, w1 as i32, 5)
}

/// The inferred entry of a weight table: weight one, no offset.
pub open spec fn unit_entry(d: u32) -> WeightedEntry {
    WeightedEntry { weight: p2(d as int) as i32, offset: 0 }
}

pub open spec fn zero_entry() -> WeightedEntry {
    WeightedEntry { weight: 0, offset: 0 }
}

/// Luma weight of a reference.
pub open spec fn luma_weight(t: PredWeightTable, list: u8, ref_idx: int) -> WeightedEntry {
    let table = if list == 0 {
        t.luma_weights_l0@
    } else {
        t.luma_weights_l1@
    };
    if ref_idx < 0 {
        zero_entry()
    } else if ref_idx < table.len() && table[ref_idx] is Some {
        let (weight, offset) = table[ref_idx]->0;
        WeightedEntry { weight, offset }
    } else {
        unit_entry(t.luma_log2_weight_denom)
    }
}

/// Chroma weight of a reference; `c` is 0 for Cb and 1 for Cr.
pub open spec fn chroma_weight(t: PredWeightTable, list: u8, c: int, ref_idx: int) -> WeightedEntry {
    let table = if list == 0 {
        t.chroma_weights_l0@
    } else {
        t.chroma_weights_l1@
    };
    if ref_idx < 0 {
        zero_entry()
    } else if ref_idx < table.len() && table[ref_idx] is Some {
        let (weight, offset) = (table[ref_idx]->0)@[c];
        WeightedEntry { weight, offset }
    } else {
        unit_entry(t.chroma_log2_weight_denom)
    }
}

fn unit_of(d: u32) -> (r: WeightedEntry)
    requires
        d <= 30,
    ensures
        r == unit_entry(d),
{
    proof {
        lemma_p2_mono(d as int, 30);
        lemma_p2_values();
    }
    WeightedEntry { weight: pow2(d) as i32, offset: 0 }
}

pub fn luma_weight_entry(pwt: &PredWeightTable, list: u8, ref_idx: i8) -> (r: WeightedEntry)
    requires
        pwt.luma_log2_weight_denom <= 30,
    ensures
        r == luma_weight(*pwt, list, ref_idx as int),
{
    if ref_idx < 0 {
        return WeightedEntry { weight: 0, offset: 0 };
    }
    let table = if list == 0 {
        &pwt.luma_weights_l0
    } else {
        &pwt.luma_weights_l1
    };
    let i: usize = ref_idx as usize;
    if i < table.len() {
        if let Some((weight, offset)) = table[i] {
            return WeightedEntry { weight, offset };
        }
    }
    unit_of(pwt.luma_log2_weight_denom)
}

pub fn chroma_weight_entry(pwt: &PredWeightTable, list: u8, i_cb_cr: usize, ref_idx: i8) -> (r:
    WeightedEntry)
    requires
        pwt.chroma_log2_weight_denom <= 30,
        i_cb_cr < 2,
    ensures
        r == chroma_weight(*pwt, list, i_cb_cr as int, ref_idx as int),
{
    if ref_idx < 0 {
        return WeightedEntry { weight: 0, offset: 0 };
    }
    let table = if list == 0 {
        &pwt.chroma_weights_l0
    } else {
        &pwt.chroma_weights_l1
    };
    let i: usize = ref_idx as usize;
    if i < table.len() {
        if let Some(pair) = table[i] {
            let (weight, offset) = pair[i_cb_cr];
            return WeightedEntry { weight, offset };
        }
    }
    unit_of(pwt.chroma_log2_weight_denom)
}

/// A vector of whole samples copies luma samples of the reference.
pub proof fn law_whole_sample_motion_copies_luma(
    p: PlaneV,
    f: Option<u8>,
    bd: u32,
    ax: int,
    ay: int,
    mx: int,
    my: int,
    w: int,
    h: int,
    x: int,
    y: int,
)
    requires
        mx % 4 == 0,
        my % 4 == 0,
        0 <= x < w,
        0 <= y < h,
    ensures
        luma_block(p, f, bd, ax, ay, mx, my, w, h)[y * w + x] == ref_sample(
            p,
            f,
            ax + mx / 4 + x,
            ay + my / 4 + y,
        ),
{
    reveal(luma_block);
    lemma_raster(x, y, w, h);
}

/// A vector of whole samples copies chroma samples of the reference.
pub proof fn law_whole_sample_motion_copies_chroma(
    p: PlaneV,
    f: Option<u8>,
    ax: int,
    ay: int,
    mx: int,
    my: int,
    w: int,
    h: int,
    x: int,
    y: int,
)
    requires
        mx % 8 == 0,
        my % 8 == 0,
        0 <= x < w,
        0 <= y < h,
    ensures
        chroma_block(p, f, ax, ay, mx, my, w, h)[y * w + x] == ref_sample(
            p,
            f,
            ax + mx / 8 + x,
            ay + my / 8 + y,
        ),
{
    reveal(chroma_block);
    lemma_raster(x, y, w, h);
}

proof fn lemma_raster(x: int, y: int, w: int, h: int)
    requires
        0 <= x < w,
        0 <= y < h,
    ensures
        0 <= y * w + x < w * h,
        (y * w + x) % w == x,
        (y * w + x) / w == y,
{
    vstd::arithmetic::div_mod::lemma_fundamental_div_mod_converse(y * w + x, w, y, x);
    assert(0 <= y * w && y * w + w <= w * h) by (nonlinear_arith)
        requires
            0 <= y < h,
            0 < w,
    ;
}

/// Every sample of the plane, or of the field of it, is `v`.
pub open spec fn flat(p: PlaneV, f: Option<u8>, v: int) -> bool {
    forall|x: int, y: int| ref_sample(p, f, x, y) == v
}

/// Prediction from a flat reference is flat, whatever the vector.
pub proof fn law_flat_reference_predicts_flat(
    p: PlaneV,
    f: Option<u8>,
    bd: u32,
    v: int,
    ax: int,
    ay: int,
    mx: int,
    my: int,
    w: int,
    h: int,
    k: int,
)
    requires
        flat(p, f, v),
        0 <= v < p2(bd as int),
        0 <= k < w * h,
    ensures
        luma_block(p, f, bd, ax, ay, mx, my, w, h)[k] == v,
        chroma_block(p, f, ax, ay, mx, my, w, h)[k] == v,
{
    reveal(luma_block);
    reveal(chroma_block);
    let (xf, yf) = (mx % 8, my % 8);
    assert(((8 - yf) * ((8 - xf) * v + xf * v) + yf * ((8 - xf) * v + xf * v) + 32) / 64 == v) by {
        assert((8 - xf) * v + xf * v == 8 * v) by (nonlinear_arith);
        assert((8 - yf) * (8 * v) + yf * (8 * v) == 64 * v) by (nonlinear_arith);
    }
}

/// Unit weights without offsets predict as no weights do.
pub proof fn law_unit_weights_change_nothing(a: int, b: int, d: u32, bd: u32)
    requires
        d <= 30,
        0 <= a < p2(bd as int),
        0 <= b < p2(bd as int),
    ensures
        weighted_uni(a, unit_entry(d), d, bd) == a,
        weighted_bi(a, b, unit_entry(d), unit_entry(d), d, bd) == (a + b + 1) / 2,
{
    lemma_p2_mono(0, d as int);
    lemma_p2_mono(d as int, 30);
    lemma_p2_values();
    let u = p2(d as int);
    assert(p2(d + 1) == 2 * u);
    let n = a + b + 1;
    assert((a * u + b * u + u) / (2 * u) == n / 2) by {
        let (q, r) = (n / 2, n % 2);
        assert(a * u + b * u + u == q * (2 * u) + r * u) by (nonlinear_arith)
            requires
                a + b + 1 == 2 * q + r,
        ;
        assert(0 <= r * u < 2 * u) by (nonlinear_arith)
            requires
                0 <= r < 2,
                u >= 1,
        ;
        vstd::arithmetic::div_mod::lemma_fundamental_div_mod_converse(
            a * u + b * u + u,
            2 * u,
            q,
            r * u,
        );
    }
    if d >= 1 {
        let half = p2(d - 1);
        assert(u == 2 * half);
        vstd::arithmetic::div_mod::lemma_fundamental_div_mod_converse(a * u + half, u, a, half);
    } else {
        assert(a * u == a) by (nonlinear_arith)
            requires
                u == 1,
        ;
    }
}

/// The implicit weights of equally distant references predict as no weights do.
pub proof fn law_equal_implicit_weights_average(a: int, b: int, bd: u32)
    requires
        0 <= a < p2(bd as int),
        0 <= b < p2(bd as int),
    ensures
        ({
            let e = WeightedEntry { weight: 32, offset: 0 };
            weighted_bi(a, b, e, e, 5, bd) == (a + b + 1) / 2
        }),
{
    assert(p2(5) == 32 && p2(6) == 64) by {
        reveal_with_fuel(p2, 8);
    }
    assert((32 * a + 32 * b + 32) / 64 == (a + b + 1) / 2);
}

/// Implicit weights add up to one, and neither goes beyond twice that.
pub proof fn law_implicit_weights_bounded(cur: int, poc0: int, poc1: int, long_term: bool)
    ensures
        ({
            let (w0, w1) = implicit_weights(cur, poc0, poc1, long_term);
            w0 + w1 == 64 && -64 <= w0 <= 128 && -64 <= w1 <= 128
        }),
{
}

/// A placeholder for a picture that was never decoded, and a picture without samples, are never
/// predicted from.
pub proof fn law_no_prediction_from_nothing(
    p: Picture,
    ax: int,
    ay: int,
    mv: Mv,
    w: int,
    h: int,
    bd: u32,
    field: Option<u8>,
)
    requires
        p.non_existing || p.luma@.w == 0 || p.luma@.h == 0,
    ensures
        mc_luma(p, ax, ay, mv, w, h, bd, field) is Err,
{
}

} // verus!
