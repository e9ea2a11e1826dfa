//! Reconstruction of the blocks of one plane from prediction and residual.
use crate::error::{outcome, ErrV, ReconstructError, TransformError};
use crate::geometry::{blk4_of, LUMA_4X4_XY, LUMA_8X8_XY};
use crate::intra_pred::{
    error_4x4, error_8x8, filter_samples_8x8, predict_nxn, predict_nxn_spec, require_intra_4x4_mode,
    require_intra_8x8_mode, samples_ok, smooth8, IntraNxNMode,
};
use crate::math::{ints, longs, within};
use crate::mb_address::MAX_ADDR;
use crate::mb_grid::{GridV, MbGrid};
use crate::neighbours::{gather, gather_samples, tr_decoded4, NbCtx};
use crate::plane::{Plane, PlaneV};
use crate::residual::{add_residual, clip_residual, clipped, reconstructed};
use crate::scan::{inv_scan_4x4, inv_scan_8x8, unscan4, unscan8, widen};
use crate::sp_transform::{sp_luma_switch, sp_luma_switching};
use crate::transform::{
    dpcm, intra_bypass_dpcm, inverse_transform_4x4, inverse_transform_8x8, qp_ok, residual4x4,
    residual8x8, weights_ok, LEVEL_BOUND, RESIDUAL_BOUND,
};
use vstd::prelude::*;

verus! {

/// How the blocks of one plane of a macroblock are reconstructed.
#[derive(Debug, Clone, Copy)]
pub struct PlaneCtx {
    pub nb: NbCtx,
    pub bit_depth: u32,
    /// Quantisation parameter, offset for the bit depth.
    pub qp: i64,
    /// The macroblock is coded without loss.
    pub bypass: bool,
    /// Levels are in field scan order.
    pub field_scan: bool,
    /// First luma sample of the macroblock, from which neighbours are located.
    pub gx: i32,
    pub gy: i32,
    /// First sample of the macroblock in the plane.
    pub wx: i32,
    pub wy: i32,
    /// Picture rows from one row of the macroblock to the next.
    pub step: i32,
}

impl PlaneCtx {
    pub open spec fn wf(&self) -> bool {
        &&& self.nb.addr <= MAX_ADDR
        &&& 8 <= self.bit_depth <= 14
        &&& 0 <= self.gx <= 0x4000_0100
        &&& 0 <= self.gy <= 0x4000_0100
        &&& 0 <= self.wx <= 0x4000_0100
        &&& 0 <= self.wy <= 0x4000_0100
        &&& self.step == 1 || self.step == 2
    }
}

/// The plane after a block of the macroblock was written.
pub open spec fn put_block(p: PlaneV, c: PlaneCtx, x: int, y: int, w: int, vals: Seq<int>) -> PlaneV {
    p.put(c.wx + x, c.wy + y * c.step, c.step as int, w, vals.len() as int, vals)
}

/// A written block holds the values in raster order, as far as it lies inside the plane; every
/// other sample stays as it was.
pub proof fn law_block_is_written(
    p: PlaneV,
    c: PlaneCtx,
    x: int,
    y: int,
    w: int,
    vals: Seq<int>,
    a: int,
    b: int,
)
    requires
        c.step == 1 || c.step == 2,
        0 < w,
        vals.len() % (w as nat) == 0,
    ensures
        ({
            let r = put_block(p, c, x, y, w, vals);
            let (dx, dy) = (a - c.wx - x, b - c.wy - y * c.step);
            let row = dy / (c.step as int);
            (r.at)(a, b) == if p.has(a, b) && 0 <= dx < w && 0 <= dy && dy % (c.step as int) == 0
                && row < vals.len() / (w as nat) {
                crate::plane::stored(vals[row * w + dx])
            } else {
                (p.at)(a, b)
            }
        }),
{
    let (dx, dy) = (a - c.wx - x, b - c.wy - y * c.step);
    let row = dy / (c.step as int);
    let n = vals.len() as int;
    let q = n / w;
    vstd::arithmetic::div_mod::lemma_fundamental_div_mod(n, w);
    if 0 <= dx < w && 0 <= dy {
        if row < q {
            assert(row * w + dx < w * q) by (nonlinear_arith)
                requires
                    row + 1 <= q,
                    dx < w,
                    w > 0,
            ;
        } else {
            assert(row * w + dx >= w * q) by (nonlinear_arith)
                requires
                    row >= q,
                    dx >= 0,
                    w > 0,
            ;
        }
    }
}

pub fn write_block(p: &mut Plane, c: &PlaneCtx, x: i32, y: i32, w: usize, vals: &Vec<i32>)
    requires
        c.wf(),
        0 <= x <= 16,
        0 <= y <= 16,
        1 <= w <= 16,
        vals.len() <= 256,
    ensures
        final(p)@ == put_block(old(p)@, *c, x as int, y as int, w as int, ints(vals@)),
        final(p)@.same_size(old(p)@),
{
    let dy: i64 = if c.step == 2 {
        2 * y as i64
    } else {
        y as i64
    };
    assert(dy == y * c.step) by (nonlinear_arith)
        requires
            c.step == 1 || c.step == 2,
            dy == (if c.step == 2 {
                2 * y
            } else {
                y as int
            }),
    ;
    p.put(c.wx as i64 + x as i64, c.wy as i64 + dy, c.step as i64, w, vals);
}

pub open spec fn transform_error(qp: int) -> ErrV {
    ErrV::Transform(TransformError::QpOutOfRange(qp as i64))
}

/// The mode predicts along columns or rows.
pub open spec fn is_directional(mode: IntraNxNMode) -> bool {
    mode is Vertical || mode is Horizontal
}

/// Lossless residual of an intra block: coded differences accumulate along the prediction
/// direction.
pub open spec fn lossless_residual(c: Seq<int>, n: int, mode: IntraNxNMode) -> Seq<int> {
    if is_directional(mode) {
        dpcm(c, n, mode is Horizontal)
    } else {
        c
    }
}

/// Samples of an intra 4x4 block, given its prediction.
pub open spec fn samples4(
    c: PlaneCtx,
    mode: IntraNxNMode,
    pred: Seq<int>,
    levels: Seq<i32>,
    w: Seq<int>,
    si_qs: Option<i64>,
) -> Result<Seq<int>, ErrV> {
    let coeffs = ints(unscan4(levels, c.field_scan));
    match si_qs {
        Some(qs) => if qp_ok(qs as int, c.bit_depth) {
            Ok(
                clipped(
                    residual4x4(sp_luma_switch(pred, coeffs, qs as int), qs as int, w),
                    c.bit_depth,
                ),
            )
        } else {
            Err(transform_error(qs as int))
        },
        None => if c.bypass {
            Ok(reconstructed(pred, lossless_residual(coeffs, 4, mode), c.bit_depth))
        } else if qp_ok(c.qp as int, c.bit_depth) {
            Ok(reconstructed(pred, residual4x4(coeffs, c.qp as int, w), c.bit_depth))
        } else {
            Err(transform_error(c.qp as int))
        },
    }
}

/// Samples of an intra 8x8 block, given its prediction.
pub open spec fn samples8(
    c: PlaneCtx,
    mode: IntraNxNMode,
    pred: Seq<int>,
    levels: Seq<i32>,
    w: Seq<int>,
) -> Result<Seq<int>, ErrV> {
    let coeffs = ints(unscan8(levels, c.field_scan));
    if c.bypass {
        Ok(reconstructed(pred, lossless_residual(coeffs, 8, mode), c.bit_depth))
    } else if qp_ok(c.qp as int, c.bit_depth) {
        Ok(reconstructed(pred, residual8x8(coeffs, c.qp as int, w), c.bit_depth))
    } else {
        Err(transform_error(c.qp as int))
    }
}

pub open spec fn vec_result(r: Result<Vec<i32>, ReconstructError>) -> Result<Seq<int>, ErrV> {
    match r {
        Ok(v) => Ok(ints(v@)),
        Err(e) => Err(e@),
    }
}

fn lossless_of(c: Vec<i64>, n: usize, mode: IntraNxNMode) -> (r: Vec<i64>)
    requires
        n == 4 || n == 8,
        c.len() == n * n,
        within(c@, LEVEL_BOUND as int),
    ensures
        longs(r@) == lossless_residual(longs(c@), n as int, mode),
        r.len() == c.len(),
        within(r@, RESIDUAL_BOUND as int),
{
    match mode {
        IntraNxNMode::Vertical => intra_bypass_dpcm(&c, n, n, false),
        IntraNxNMode::Horizontal => intra_bypass_dpcm(&c, n, n, true),
        _ => c,
    }
}

fn samples_of_4x4(
    c: &PlaneCtx,
    mode: IntraNxNMode,
    pred: &Vec<i32>,
    levels: &[i32; 16],
    w: &Vec<i64>,
    si_qs: Option<i64>,
) -> (r: Result<Vec<i32>, ReconstructError>)
    requires
        c.wf(),
        pred.len() == 16,
        samples_ok(pred@),
        weights_ok(w@, 16),
        si_qs matches Some(qs) ==> 0 <= qs <= 51,
    ensures
        vec_result(r) == samples4(*c, mode, ints(pred@), levels@, longs(w@), si_qs),
        r matches Ok(v) ==> v.len() == 16,
{
    let block = inv_scan_4x4(levels, c.field_scan);
    let coeffs = widen(&block);
    match si_qs {
        Some(qs) => {
            let l = sp_luma_switching(pred, &coeffs, qs);
            match inverse_transform_4x4(&l, qs, w, c.bit_depth) {
                Ok(v) => Ok(clip_residual(&v, c.bit_depth)),
                Err(e) => Err(ReconstructError::Transform(e)),
            }
        },
        None => {
            if c.bypass {
                let v = lossless_of(coeffs, 4, mode);
                Ok(add_residual(pred, &v, c.bit_depth))
            } else {
                match inverse_transform_4x4(&coeffs, c.qp, w, c.bit_depth) {
                    Ok(v) => Ok(add_residual(pred, &v, c.bit_depth)),
                    Err(e) => Err(ReconstructError::Transform(e)),
                }
            }
        },
    }
}

fn samples_of_8x8(
    c: &PlaneCtx,
    mode: IntraNxNMode,
    pred: &Vec<i32>,
    levels: &[i32; 64],
    w: &Vec<i64>,
) -> (r: Result<Vec<i32>, ReconstructError>)
    requires
        c.wf(),
        pred.len() == 64,
        samples_ok(pred@),
        weights_ok(w@, 64),
    ensures
        vec_result(r) == samples8(*c, mode, ints(pred@), levels@, longs(w@)),
        r matches Ok(v) ==> v.len() == 64,
{
    let block = inv_scan_8x8(levels, c.field_scan);
    let coeffs = widen(&block);
    if c.bypass {
        let v = lossless_of(coeffs, 8, mode);
        Ok(add_residual(pred, &v, c.bit_depth))
    } else {
        match inverse_transform_8x8(&coeffs, c.qp, w, c.bit_depth) {
            Ok(v) => Ok(add_residual(pred, &v, c.bit_depth)),
            Err(e) => Err(ReconstructError::Transform(e)),
        }
    }
}

/// Result of reconstructing part of a plane: the plane, and an error if one ended the work.
pub type PlaneStep = (PlaneV, Option<ErrV>);

/// The plane after an intra 4x4 block was reconstructed.
#[verifier::opaque]
pub open spec fn block4(
    p: PlaneV,
    g: GridV,
    c: PlaneCtx,
    blk: int,
    mode: IntraNxNMode,
    levels: Seq<i32>,
    w: Seq<int>,
    si_qs: Option<i64>,
) -> PlaneStep {
    let x = LUMA_4X4_XY[blk].0 as int;
    let y = LUMA_4X4_XY[blk].1 as int;
    let s = gather(p, g, c.nb, c.gx + x, c.gy + y, x, y, 4, 4, tr_decoded4(blk), 1, 1);
    match error_4x4(mode, s.av) {
        Some(e) => (p, Some(e)),
        None => match samples4(
            c,
            mode,
            predict_nxn_spec(mode, s, 4, c.bit_depth),
            levels,
            w,
            si_qs,
        ) {
            Ok(v) => (put_block(p, c, x, y, 4, v), None),
            Err(e) => (p, Some(e)),
        },
    }
}

/// The plane after an intra 8x8 block was reconstructed.
#[verifier::opaque]
pub open spec fn block8(
    p: PlaneV,
    g: GridV,
    c: PlaneCtx,
    blk: int,
    mode: IntraNxNMode,
    levels: Seq<i32>,
    w: Seq<int>,
) -> PlaneStep {
    let x = LUMA_8X8_XY[blk].0 as int;
    let y = LUMA_8X8_XY[blk].1 as int;
    let s = gather(p, g, c.nb, c.gx + x, c.gy + y, x, y, 8, 8, blk != 3, 1, 1);
    match error_8x8(mode, s.av) {
        Some(e) => (p, Some(e)),
        None => match samples8(
            c,
            mode,
            predict_nxn_spec(mode, smooth8(s), 8, c.bit_depth),
            levels,
            w,
        ) {
            Ok(v) => (put_block(p, c, x, y, 8, v), None),
            Err(e) => (p, Some(e)),
        },
    }
}

/// Reconstructs an intra 4x4 block.
pub fn reconstruct_block4(
    p: &mut Plane,
    grid: &MbGrid,
    c: &PlaneCtx,
    blk: usize,
    mode: IntraNxNMode,
    levels: &[i32; 16],
    w: &Vec<i64>,
    si_qs: Option<i64>,
) -> (r: Result<(), ReconstructError>)
    requires
        c.wf(),
        grid.wf(),
        blk < 16,
        weights_ok(w@, 16),
        si_qs matches Some(qs) ==> 0 <= qs <= 51,
    ensures
        (final(p)@, outcome(r)) == block4(
            old(p)@,
            grid@,
            *c,
            blk as int,
            mode,
            levels@,
            longs(w@),
            si_qs,
        ),
        final(p)@.same_size(old(p)@),
{
    proof {
        reveal(block4);
    }
    let (x, y) = LUMA_4X4_XY[blk];
    let tr = !matches!(blk, 3 | 7 | 11 | 13 | 15);
    let s = gather_samples(p, grid, &c.nb, c.gx + x, c.gy + y, x, y, 4, 4, tr, 1, 1);
    match require_intra_4x4_mode(mode, &s.availability) {
        Ok(_) => {},
        Err(e) => {
            return Err(e);
        },
    }
    let pred = predict_nxn(mode, &s, 4, c.bit_depth);
    match samples_of_4x4(c, mode, &pred, levels, w, si_qs) {
        Ok(v) => {
            write_block(p, c, x, y, 4, &v);
            Ok(())
        },
        Err(e) => Err(e),
    }
}

/// Reconstructs an intra 8x8 block.
pub fn reconstruct_block8(
    p: &mut Plane,
    grid: &MbGrid,
    c: &PlaneCtx,
    blk: usize,
    mode: IntraNxNMode,
    levels: &[i32; 64],
    w: &Vec<i64>,
) -> (r: Result<(), ReconstructError>)
    requires
        c.wf(),
        grid.wf(),
        blk < 4,
        weights_ok(w@, 64),
    ensures
        (final(p)@, outcome(r)) == block8(
            old(p)@,
            grid@,
            *c,
            blk as int,
            mode,
            levels@,
            longs(w@),
        ),
        final(p)@.same_size(old(p)@),
{
    proof {
        reveal(block8);
    }
    let (x, y) = LUMA_8X8_XY[blk];
    let s = gather_samples(p, grid, &c.nb, c.gx + x, c.gy + y, x, y, 8, 8, blk != 3, 1, 1);
    match require_intra_8x8_mode(mode, &s.availability) {
        Ok(_) => {},
        Err(e) => {
            return Err(e);
        },
    }
    let pred = predict_nxn(mode, &filter_samples_8x8(&s), 8, c.bit_depth);
    match samples_of_8x8(c, mode, &pred, levels, w) {
        Ok(v) => {
            write_block(p, c, x, y, 8, &v);
            Ok(())
        },
        Err(e) => Err(e),
    }
}

/// Block and position in it of sample `k` of an area that is `w` samples wide and made of 4x4
/// blocks: in luma order for 16 columns, row by row for 8.
pub open spec fn mosaic_block(w: int, k: int) -> int {
    let x = k % w;
    let y = k / w;
    if w == 16 {
        blk4_of(x / 4, y / 4)
    } else {
        2 * (y / 4) + x / 4
    }
}

/// The area made of the given 4x4 blocks.
#[verifier::opaque]
pub open spec fn mosaic(blocks: Seq<Seq<int>>, w: int, n: int) -> Seq<int> {
    Seq::new(n as nat, |k: int| blocks[mosaic_block(w, k)][((k / w) % 4) * 4 + (k % w) % 4])
}

/// The values of a list of blocks.
pub open spec fn block_list(b: Seq<Vec<i64>>) -> Seq<Seq<int>> {
    Seq::new(b.len(), |i: int| longs(b[i]@))
}

/// Block and position in it of sample `k` of an area of `w` by `h` samples.
fn mosaic_place(w: usize, h: usize, k: usize) -> (r: (usize, usize))
    requires
        (w == 16 && h == 16) || (w == 8 && (h == 8 || h == 16)),
        k < w * h,
    ensures
        r.0 == mosaic_block(w as int, k as int),
        r.1 == ((k as int / w as int) % 4) * 4 + (k as int % w as int) % 4,
        0 <= r.0,
        r.0 * 16 < w * h,
        r.1 < 16,
{
    if w == 16 {
        let x: usize = k % 16;
        let y: usize = k / 16;
        (4 * (2 * (y / 4 / 2) + x / 4 / 2) + 2 * (y / 4 % 2) + x / 4 % 2, (y % 4) * 4 + x % 4)
    } else {
        let x: usize = k % 8;
        let y: usize = k / 8;
        (2 * (y / 4) + x / 4, (y % 4) * 4 + x % 4)
    }
}

/// Joins 4x4 blocks to an area of `w` by `h` samples.
pub fn assemble(blocks: &Vec<Vec<i64>>, w: usize, h: usize, Ghost(bound): Ghost<int>) -> (r: Vec<
    i64,
>)
    requires
        (w == 16 && h == 16) || (w == 8 && (h == 8 || h == 16)),
        blocks.len() * 16 == w * h,
        forall|i: int|
            0 <= i < blocks.len() ==> (#[trigger] blocks@[i]).len() == 16 && within(
                blocks@[i]@,
                bound,
            ),
    ensures
        longs(r@) == mosaic(block_list(blocks@), w as int, (w * h) as int),
        r.len() == w * h,
        within(r@, bound),
{
    let mut r: Vec<i64> = Vec::new();
    let n: usize = w * h;
    for k in 0..n
        invariant
            (w == 16 && h == 16) || (w == 8 && (h == 8 || h == 16)),
            n == w * h,
            blocks.len() * 16 == n,
            forall|i: int|
                0 <= i < blocks.len() ==> (#[trigger] blocks@[i]).len() == 16 && within(
                    blocks@[i]@,
                    bound,
                ),
            r.len() == k,
            within(r@, bound),
            forall|i: int|
                0 <= i < k ==> r@[i] == #[trigger] mosaic(
                    block_list(blocks@),
                    w as int,
                    n as int,
                )[i],
    {
        let (b, at): (usize, usize) = mosaic_place(w, h, k);
        let v = blocks[b][at];
        proof {
            reveal(mosaic);
            assert(within(blocks@[b as int]@, bound));
            assert(block_list(blocks@)[b as int] == longs(blocks@[b as int]@));
        }
        r.push(v);
    }
    proof {
        reveal(mosaic);
        assert(longs(r@) =~= mosaic(block_list(blocks@), w as int, n as int));
    }
    r
}

} // verus!
