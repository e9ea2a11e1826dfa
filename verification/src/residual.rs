//! Picking the coded levels of a macroblock, and adding residuals to predictions.
use crate::macroblock_layer::Macroblock;
use crate::math::{clip1, clip_sample, ints, longs, p2, within};
use crate::sps::Sps;
use crate::transform::RESIDUAL_BOUND;
use vstd::prelude::*;

verus! {

/// Coded block pattern of luma: one bit per 8x8 block.
pub open spec fn cbp_luma(mb: Macroblock) -> int {
    mb.coded_block_pattern as int % 16
}

/// Coded block pattern of chroma: 0 none, 1 DC only, 2 DC and AC.
pub open spec fn cbp_chroma(mb: Macroblock) -> int {
    (mb.coded_block_pattern as int / 16) % 4
}

/// The 8x8 block has coded levels.
pub open spec fn coded8(cbp: int, blk8: int) -> bool {
    (cbp / p2(blk8)) % 2 == 1
}

/// Number of coded 8x8 blocks before `blk8`.
pub open spec fn coded_before(cbp: int, blk8: int) -> int
    decreases blk8,
{
    if blk8 <= 0 {
        0
    } else {
        coded_before(cbp, blk8 - 1) + if coded8(cbp, blk8 - 1) {
            1int
        } else {
            0int
        }
    }
}

pub open spec fn zeros(n: nat) -> Seq<i32> {
    Seq::new(n, |i: int| 0i32)
}

/// Entry `i` of a list of level blocks; zeros past its end.
pub open spec fn block_levels(blocks: Seq<[i32; 16]>, i: int) -> Seq<i32> {
    if 0 <= i < blocks.len() {
        blocks[i]@
    } else {
        zeros(16)
    }
}

/// Levels of 4x4 block `blk`, from a list that holds only the coded 8x8 blocks.
pub open spec fn levels4(blocks: Seq<[i32; 16]>, cbp: int, blk: int) -> Seq<i32> {
    if coded8(cbp, blk / 4) {
        block_levels(blocks, 4 * coded_before(cbp, blk / 4) + blk % 4)
    } else {
        zeros(16)
    }
}

/// Levels of 8x8 block `blk8`, from a list that holds only the coded 8x8 blocks, each as four
/// parts.
pub open spec fn levels8(blocks: Seq<[i32; 16]>, cbp: int, blk8: int) -> Seq<i32> {
    Seq::new(
        64,
        |k: int|
            if coded8(cbp, blk8) {
                block_levels(blocks, 4 * coded_before(cbp, blk8) + k / 16)[k % 16]
            } else {
                0i32
            },
    )
}

/// The optional DC block of a macroblock; zeros where it is absent.
pub open spec fn dc_levels(b: Option<[i32; 16]>) -> Seq<i32> {
    match b {
        Some(a) => a@,
        None => zeros(16),
    }
}

pub fn cbp_luma_of(mb: &Macroblock) -> (r: u32)
    ensures
        r == cbp_luma(*mb),
        r < 16,
{
    mb.coded_block_pattern % 16
}

pub fn cbp_chroma_of(mb: &Macroblock) -> (r: u32)
    ensures
        r == cbp_chroma(*mb),
        r < 4,
{
    (mb.coded_block_pattern / 16) % 4
}

pub fn is_coded8(cbp: u32, blk8: u32) -> (r: bool)
    requires
        blk8 < 4,
    ensures
        r == coded8(cbp as int, blk8 as int),
{
    proof {
        reveal_with_fuel(p2, 5);
    }
    let d: u32 = if blk8 == 0 {
        1
    } else if blk8 == 1 {
        2
    } else if blk8 == 2 {
        4
    } else {
        8
    };
    (cbp / d) % 2 == 1
}

pub fn count_coded_before(cbp: u32, blk8: u32) -> (r: usize)
    requires
        blk8 < 4,
    ensures
        r == coded_before(cbp as int, blk8 as int),
        r <= blk8,
{
    let mut r: usize = 0;
    let mut i: u32 = 0;
    while i < blk8
        invariant
            i <= blk8 < 4,
            r == coded_before(cbp as int, i as int),
            r <= i,
        decreases blk8 - i,
    {
        if is_coded8(cbp, i) {
            r += 1;
        }
        i += 1;
    }
    r
}

pub fn block_or_zeros(blocks: &Vec<[i32; 16]>, i: usize) -> (r: [i32; 16])
    ensures
        r@ == block_levels(blocks@, i as int),
{
    if i < blocks.len() {
        blocks[i]
    } else {
        let z = [0i32; 16];
        assert(z@ =~= zeros(16));
        z
    }
}

pub fn levels_of_4x4(blocks: &Vec<[i32; 16]>, cbp: u32, blk: usize) -> (r: [i32; 16])
    requires
        blk < 16,
    ensures
        r@ == levels4(blocks@, cbp as int, blk as int),
{
    if is_coded8(cbp, (blk / 4) as u32) {
        block_or_zeros(blocks, 4 * count_coded_before(cbp, (blk / 4) as u32) + blk % 4)
    } else {
        let z = [0i32; 16];
        assert(z@ =~= zeros(16));
        z
    }
}

pub fn levels_of_8x8(blocks: &Vec<[i32; 16]>, cbp: u32, blk8: usize) -> (r: [i32; 64])
    requires
        blk8 < 4,
    ensures
        r@ == levels8(blocks@, cbp as int, blk8 as int),
{
    let mut r = [0i32; 64];
    if is_coded8(cbp, blk8 as u32) {
        let base: usize = 4 * count_coded_before(cbp, blk8 as u32);
        for k in 0..64usize
            invariant
                blk8 < 4,
                coded8(cbp as int, blk8 as int),
                base == 4 * coded_before(cbp as int, blk8 as int),
                base <= 12,
                forall|i: int|
                    0 <= i < k ==> r@[i] == #[trigger] levels8(blocks@, cbp as int, blk8 as int)[i],
        {
            let b = block_or_zeros(blocks, base + k / 16);
            r[k] = b[k % 16];
        }
    }
    assert(r@ =~= levels8(blocks@, cbp as int, blk8 as int));
    r
}

pub fn dc_or_zeros(b: &Option<[i32; 16]>) -> (r: [i32; 16])
    ensures
        r@ == dc_levels(*b),
{
    match b {
        Some(a) => *a,
        None => {
            let z = [0i32; 16];
            assert(z@ =~= zeros(16));
            z
        },
    }
}

/// Prediction plus residual, clipped to the sample range.
#[verifier::opaque]
pub open spec fn reconstructed(pred: Seq<int>, res: Seq<int>, bit_depth: u32) -> Seq<int> {
    Seq::new(pred.len(), |k: int| clip1(pred[k] + res[k], bit_depth))
}

/// Residual alone, clipped to the sample range.
#[verifier::opaque]
pub open spec fn clipped(res: Seq<int>, bit_depth: u32) -> Seq<int> {
    Seq::new(res.len(), |k: int| clip1(res[k], bit_depth))
}

pub fn add_residual(pred: &Vec<i32>, res: &Vec<i64>, bit_depth: u32) -> (r: Vec<i32>)
    requires
        pred.len() == res.len(),
        within(res@, RESIDUAL_BOUND as int),
        bit_depth <= 14,
    ensures
        ints(r@) == reconstructed(ints(pred@), longs(res@), bit_depth),
        r.len() == pred.len(),
{
    let mut r: Vec<i32> = Vec::new();
    for k in 0..pred.len()
        invariant
            pred.len() == res.len(),
            within(res@, RESIDUAL_BOUND as int),
            bit_depth <= 14,
            r.len() == k,
            forall|i: int| 0 <= i < k ==> #[trigger] r@[i] == clip1(pred@[i] + res@[i], bit_depth),
    {
        r.push(clip_sample(pred[k] as i64 + res[k], bit_depth));
    }
    proof {
        reveal(reconstructed);
        assert(ints(r@) =~= reconstructed(ints(pred@), longs(res@), bit_depth));
    }
    r
}

pub fn clip_residual(res: &Vec<i64>, bit_depth: u32) -> (r: Vec<i32>)
    requires
        bit_depth <= 14,
    ensures
        ints(r@) == clipped(longs(res@), bit_depth),
        r.len() == res.len(),
{
    let mut r: Vec<i32> = Vec::new();
    for k in 0..res.len()
        invariant
            bit_depth <= 14,
            r.len() == k,
            forall|i: int| 0 <= i < k ==> #[trigger] r@[i] == clip1(res@[i] as int, bit_depth),
    {
        r.push(clip_sample(res[k], bit_depth));
    }
    proof {
        reveal(clipped);
        assert(ints(r@) =~= clipped(longs(res@), bit_depth));
    }
    r
}

/// Samples are coded without loss: no transform and no quantisation.
pub open spec fn lossless(sps: Sps, qp_prime_y: int) -> bool {
    sps.qpprime_y_zero_transform_bypass_flag && qp_prime_y == 0
}

pub fn transform_bypass_active(sps: &Sps, qp_prime_y: i64) -> (r: bool)
    ensures
        r == lossless(*sps, qp_prime_y as int),
{
    sps.qpprime_y_zero_transform_bypass_flag && qp_prime_y == 0
}

/// Without a residual the prediction is the result.
pub proof fn law_no_residual_keeps_prediction(pred: Seq<int>, bit_depth: u32)
    requires
        forall|i: int| 0 <= i < pred.len() ==> 0 <= #[trigger] pred[i] < p2(bit_depth as int),
    ensures
        reconstructed(pred, Seq::new(pred.len(), |i: int| 0), bit_depth) == pred,
{
    reveal(reconstructed);
    assert(reconstructed(pred, Seq::new(pred.len(), |i: int| 0), bit_depth) =~= pred);
}

/// Reconstructed samples have the bit depth of their plane.
pub proof fn law_reconstructed_in_range(pred: Seq<int>, res: Seq<int>, bit_depth: u32, i: int)
    requires
        0 <= i < pred.len(),
    ensures
        0 <= reconstructed(pred, res, bit_depth)[i] < p2(bit_depth as int),
{
    reveal(reconstructed);
    crate::math::lemma_p2_mono(0, bit_depth as int);
}

pub proof fn lemma_uncoded(blk: int)
    ensures
        !coded8(0, blk),
{
    crate::math::lemma_p2_mono(blk, blk);
    vstd::arithmetic::div_mod::lemma_div_basics_1(p2(blk));
}

} // verus!
