//! Which blocks of a macroblock have coded coefficients.
use crate::macroblock_layer::{Macroblock, MbType};
use crate::math::{lemma_p2_mono, lemma_p2_values, p2, pow2};
use crate::residual::{
    cbp_chroma, cbp_chroma_of, cbp_luma, cbp_luma_of, levels4, levels8, levels_of_4x4,
    levels_of_8x8,
};
use vstd::prelude::*;

verus! {

/// One of the first `n` levels is not zero.
pub open spec fn any_nonzero(s: Seq<i32>, n: int) -> bool {
    exists|i: int| 0 <= i < n && #[trigger] s[i] != 0
}

fn has_nonzero(s: &[i32], n: usize) -> (r: bool)
    requires
        n <= s@.len(),
    ensures
        r == any_nonzero(s@, n as int),
{
    let mut i: usize = 0;
    while i < n
        invariant
            i <= n <= s@.len(),
            forall|k: int| 0 <= k < i ==> s@[k] == 0,
        decreases n - i,
    {
        if s[i] != 0 {
            return true;
        }
        i += 1;
    }
    false
}

/// 4x4 luma block `z` has coded coefficients; of an 8x8 transform, any of its coefficients count.
/// DC coefficients that are coded apart do not.
pub open spec fn luma_coded(mb: Macroblock, z: int) -> bool {
    match mb.mb_type {
        MbType::Intra16x16(cfg) => cfg.cbp_luma == 15 && z < mb.residual_luma@.len()
            && any_nonzero(mb.residual_luma@[z]@, 15),
        _ => if mb.transform_size_8x8_flag {
            any_nonzero(levels8(mb.residual_luma@, cbp_luma(mb), z / 4), 64)
        } else {
            any_nonzero(levels4(mb.residual_luma@, cbp_luma(mb), z), 16)
        },
    }
}

/// 4x4 chroma block `z` has coded AC coefficients: Cb from 0 on, Cr from 8 on.
pub open spec fn chroma_coded(mb: Macroblock, cat: u32, z: int) -> bool {
    let n = if cat == 1 {
        4int
    } else {
        8int
    };
    let acs = if z < 8 {
        mb.residual_chroma_ac_cb@
    } else {
        mb.residual_chroma_ac_cr@
    };
    z % 8 < n && z % 8 < acs.len() && any_nonzero(acs[z % 8]@, 16)
}

/// The number with bit `i` set for each of the first `n` true flags.
pub open spec fn bits(f: spec_fn(int) -> bool, n: int) -> int
    decreases n,
{
    if n <= 0 {
        0
    } else {
        bits(f, n - 1) + if f(n - 1) {
            p2(n - 1)
        } else {
            0
        }
    }
}

/// Bit `z` tells whether 4x4 luma block `z` has coded coefficients; all are set for uncompressed
/// macroblocks.
#[verifier::opaque]
pub open spec fn luma_mask(mb: Macroblock) -> int {
    if mb.mb_type is IPcm {
        0xffff
    } else {
        bits(|z: int| luma_coded(mb, z), 16)
    }
}

/// The low byte tells which Cb blocks have coded AC coefficients, the high byte which Cr blocks do:
/// four blocks each in 4:2:0, eight in 4:2:2.
///
/// All blocks of uncompressed macroblocks count as coded. Other chroma formats have no such blocks:
/// the mask is then zero, but for uncompressed macroblocks, of which all bits are set.
#[verifier::opaque]
pub open spec fn chroma_mask(mb: Macroblock, cat: u32) -> int {
    if mb.mb_type is IPcm {
        if cat == 1 {
            0x0f0f
        } else {
            0xffff
        }
    } else if (cat != 1 && cat != 2) || cbp_chroma(mb) < 2 {
        0
    } else {
        bits(|z: int| chroma_coded(mb, cat, z), 16)
    }
}

fn is_luma_coded(mb: &Macroblock, z: usize) -> (r: bool)
    requires
        z < 16,
    ensures
        r == luma_coded(*mb, z as int),
{
    let cbp = cbp_luma_of(mb);
    match &mb.mb_type {
        MbType::Intra16x16(cfg) => cfg.cbp_luma == 15 && z < mb.residual_luma.len() && has_nonzero(
            &mb.residual_luma[z],
            15,
        ),
        _ => if mb.transform_size_8x8_flag {
            let l = levels_of_8x8(&mb.residual_luma, cbp, z / 4);
            has_nonzero(&l, 64)
        } else {
            let l = levels_of_4x4(&mb.residual_luma, cbp, z);
            has_nonzero(&l, 16)
        },
    }
}

fn is_chroma_coded(mb: &Macroblock, cat: u32, z: usize) -> (r: bool)
    requires
        z < 16,
    ensures
        r == chroma_coded(*mb, cat, z as int),
{
    let n: usize = if cat == 1 {
        4
    } else {
        8
    };
    let acs = if z < 8 {
        &mb.residual_chroma_ac_cb
    } else {
        &mb.residual_chroma_ac_cr
    };
    let b: usize = z % 8;
    b < n && b < acs.len() && has_nonzero(&acs[b], 16)
}

proof fn lemma_bits_bound(f: spec_fn(int) -> bool, n: int)
    requires
        0 <= n,
    ensures
        0 <= bits(f, n) < p2(n),
    decreases n,
{
    if n > 0 {
        lemma_bits_bound(f, n - 1);
        lemma_p2_mono(0, n - 1);
    }
}

/// With no flag but the first four and those from 8 to 11, the bits are two groups of four.
proof fn lemma_bits_by_nibbles(f: spec_fn(int) -> bool) -> (r: (int, int))
    requires
        forall|z: int| 0 <= z < 16 && z % 8 >= 4 ==> !#[trigger] f(z),
    ensures
        bits(f, 16) == r.0 + 256 * r.1,
        0 <= r.0 < 16,
        0 <= r.1 < 16,
{
    let b = |z: int|
        if f(z) {
            1int
        } else {
            0int
        };
    reveal_with_fuel(bits, 17);
    reveal_with_fuel(p2, 17);
    (b(0) + 2 * b(1) + 4 * b(2) + 8 * b(3), b(8) + 2 * b(9) + 4 * b(10) + 8 * b(11))
}

pub fn compute_luma_nonzero_mask(mb: &Macroblock) -> (r: u16)
    ensures
        r == luma_mask(*mb),
{
    proof {
        reveal(luma_mask);
        lemma_p2_values();
    }
    if mb.mb_type.is_i_pcm() {
        return 0xffff;
    }
    let ghost f = |z: int| luma_coded(*mb, z);
    let mut mask: i64 = 0;
    let mut z: usize = 0;
    while z < 16
        invariant
            z <= 16,
            f == (|z: int| luma_coded(*mb, z)),
            mask == bits(f, z as int),
            0 <= mask < p2(z as int),
            p2(16) == 65536,
        decreases 16 - z,
    {
        proof {
            lemma_bits_bound(f, z + 1);
            lemma_p2_mono(z + 1, 16);
        }
        if is_luma_coded(mb, z) {
            mask = mask + pow2(z as u32);
        }
        z += 1;
    }
    mask as u16
}

pub fn compute_chroma_nonzero_mask(mb: &Macroblock, chroma_array_type: u32) -> (r: u16)
    ensures
        r == chroma_mask(*mb, chroma_array_type),
        chroma_array_type == 1 ==> r & 0xf0f0 == 0,
{
    let cat = chroma_array_type;
    proof {
        reveal(chroma_mask);
        lemma_p2_values();
        assert(0x0f0fu16 & 0xf0f0 == 0) by (bit_vector);
        assert(0u16 & 0xf0f0 == 0) by (bit_vector);
    }
    if mb.mb_type.is_i_pcm() {
        return if cat == 1 {
            0x0f0f
        } else {
            0xffff
        };
    }
    if (cat != 1 && cat != 2) || cbp_chroma_of(mb) < 2 {
        return 0;
    }
    let ghost f = |z: int| chroma_coded(*mb, cat, z);
    let mut mask: i64 = 0;
    let mut z: usize = 0;
    while z < 16
        invariant
            z <= 16,
            f == (|z: int| chroma_coded(*mb, cat, z)),
            mask == bits(f, z as int),
            0 <= mask < p2(z as int),
            p2(16) == 65536,
        decreases 16 - z,
    {
        proof {
            lemma_bits_bound(f, z + 1);
            lemma_p2_mono(z + 1, 16);
        }
        if is_chroma_coded(mb, cat, z) {
            mask = mask + pow2(z as u32);
        }
        z += 1;
    }
    let r: u16 = mask as u16;
    proof {
        if cat == 1 {
            let (m, k) = lemma_bits_by_nibbles(f);
            let (u, v) = (m as u16, k as u16);
            assert(r & 0xf0f0 == 0) by (bit_vector)
                requires
                    u < 16,
                    v < 16,
                    r == u + 256 * v,
            ;
        }
    }
    r
}

/// A bit of the mask is set exactly where the flag is true.
pub proof fn law_bits_tell_flags(f: spec_fn(int) -> bool, n: int, i: int)
    requires
        0 <= i < n,
    ensures
        ((bits(f, n) / p2(i)) % 2 == 1) == f(i),
    decreases n,
{
    lemma_bits_bound(f, n - 1);
    lemma_p2_mono(0, i);
    if i == n - 1 {
        let b = bits(f, n - 1);
        let d = p2(i);
        if f(i) {
            assert((b + d) / d == 1) by (nonlinear_arith)
                requires
                    0 <= b < d,
            ;
        } else {
            assert(b / d == 0) by (nonlinear_arith)
                requires
                    0 <= b < d,
            ;
        }
    } else {
        law_bits_tell_flags(f, n - 1, i);
        if f(n - 1) {
            lemma_p2_split(n - 1, i);
            let b = bits(f, n - 1);
            let d = p2(i);
            let k = p2(n - 2 - i);
            assert((b + 2 * k * d) / d == b / d + 2 * k) by (nonlinear_arith)
                requires
                    d > 0,
            ;
        }
    }
}

proof fn lemma_p2_split(m: int, i: int)
    requires
        0 <= i < m,
    ensures
        p2(m) == 2 * p2(m - 1 - i) * p2(i),
    decreases m - i,
{
    if m == i + 1 {
    } else {
        lemma_p2_split(m - 1, i);
        assert(2 * (2 * p2(m - 2 - i) * p2(i)) == 2 * (2 * p2(m - 2 - i)) * p2(i))
            by (nonlinear_arith);
    }
}

} // verus!
