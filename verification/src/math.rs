//! Integer helpers shared by the whole crate.
use vstd::prelude::*;

verus! {

/// `Clip3(lo, hi, x)`.
pub open spec fn clip3(lo: int, hi: int, x: int) -> int {
    if x < lo {
        lo
    } else if x > hi {
        hi
    } else {
        x
    }
}

pub open spec fn min_of(a: int, b: int) -> int {
    if a <= b {
        a
    } else {
        b
    }
}

pub open spec fn max_of(a: int, b: int) -> int {
    if a >= b {
        a
    } else {
        b
    }
}

pub open spec fn abs_of(a: int) -> int {
    if a < 0 {
        -a
    } else {
        a
    }
}

pub fn clip3_i64(lo: i64, hi: i64, x: i64) -> (r: i64)
    ensures
        r == clip3(lo as int, hi as int, x as int),
{
    if x < lo {
        lo
    } else if x > hi {
        hi
    } else {
        x
    }
}

/// `Clip3` on 32-bit values.
pub fn clip3_i32(lo: i32, hi: i32, v: i32) -> (r: i32)
    ensures
        r == clip3(lo as int, hi as int, v as int),
{
    if v < lo {
        lo
    } else if v > hi {
        hi
    } else {
        v
    }
}

proof fn lemma_floor_div_range(x: int, d: int)
    requires
        d > 0,
    ensures
        x >= 0 ==> 0 <= x / d <= x,
        x < 0 ==> x <= x / d < 0,
{
    vstd::arithmetic::div_mod::lemma_fundamental_div_mod(x, d);
    assert(x >= 0 ==> 0 <= x / d <= x) by (nonlinear_arith)
        requires
            x == d * (x / d) + x % d,
            0 <= x % d < d,
            d > 0,
    ;
    assert(x < 0 ==> x <= x / d < 0) by (nonlinear_arith)
        requires
            x == d * (x / d) + x % d,
            0 <= x % d < d,
            d > 0,
    ;
}

/// Division that rounds towards minus infinity, by a positive divisor.
pub fn floor_div(x: i64, d: i64) -> (r: i64)
    requires
        d > 0,
    ensures
        r == (x as int) / (d as int),
{
    proof {
        lemma_floor_div_range(x as int, d as int);
    }
    x.checked_div_euclid(d).unwrap()
}

/// The non-negative remainder that goes with [`floor_div`].
pub fn floor_mod(x: i64, d: i64) -> (r: i64)
    requires
        d > 0,
    ensures
        r == (x as int) % (d as int),
        0 <= r < d,
{
    x.checked_rem_euclid(d).unwrap()
}

/// Powers of two.
pub open spec fn p2(n: int) -> int
    decreases n,
{
    if n <= 0 {
        1
    } else {
        2 * p2(n - 1)
    }
}

pub proof fn lemma_p2_mono(a: int, b: int)
    requires
        a <= b,
    ensures
        1 <= p2(a) <= p2(b),
    decreases b - a, a,
{
    if a < b && b > 0 {
        lemma_p2_mono(a, b - 1);
    } else if a > 0 {
        lemma_p2_mono(a - 1, b - 1);
    }
}

pub proof fn lemma_p2_values()
    ensures
        p2(4) == 16,
        p2(8) == 256,
        p2(10) == 1024,
        p2(14) == 16384,
        p2(16) == 65536,
        p2(20) == 0x10_0000,
        p2(30) == 0x4000_0000,
        p2(32) == 0x1_0000_0000,
{
    reveal_with_fuel(p2, 17);
    assert(p2(16) == 65536);
    assert(p2(32) == 65536 * p2(16)) by {
        reveal_with_fuel(p2, 17);
    }
    assert(p2(30) == 16384 * p2(16)) by {
        reveal_with_fuel(p2, 17);
    }
    assert(p2(20) == 16 * p2(16));
}

/// `2^n`.
pub fn pow2(n: u32) -> (r: i64)
    requires
        n <= 32,
    ensures
        r == p2(n as int),
        1 <= r <= 0x1_0000_0000,
{
    let mut r: i64 = 1;
    let mut i: u32 = 0;
    while i < n
        invariant
            i <= n <= 32,
            r == p2(i as int),
            1 <= r <= 0x1_0000_0000,
        decreases n - i,
    {
        proof {
            lemma_p2_mono(i + 1, 32);
            lemma_p2_values();
        }
        r = r * 2;
        i += 1;
    }
    r
}

/// The 32-bit values of a sequence as integers.
pub open spec fn ints(s: Seq<i32>) -> Seq<int> {
    Seq::new(s.len(), |i: int| s[i] as int)
}

/// The 64-bit values of a sequence as integers.
pub open spec fn longs(s: Seq<i64>) -> Seq<int> {
    Seq::new(s.len(), |i: int| s[i] as int)
}

/// Every value lies within `-b..=b`.
pub open spec fn within(s: Seq<i64>, b: int) -> bool {
    forall|i: int| 0 <= i < s.len() ==> -b <= #[trigger] s[i] <= b
}

pub proof fn lemma_mul_bound(a: int, ab: int, b: int, bb: int)
    requires
        -ab <= a <= ab,
        0 <= b <= bb,
    ensures
        -(ab * bb) <= a * b <= ab * bb,
{
    assert(-(ab * bb) <= a * b <= ab * bb) by (nonlinear_arith)
        requires
            -ab <= a <= ab,
            0 <= b <= bb,
    ;
}

/// The 32-bit value that is congruent to `x`.
pub open spec fn wrap32(x: int) -> int {
    (x + 0x8000_0000) % 0x1_0000_0000 - 0x8000_0000
}

/// Addition modulo `2^32`.
pub fn add_wrapping(a: i32, b: i32) -> (r: i32)
    ensures
        r == wrap32(a + b),
{
    a.wrapping_add(b)
}

/// The 32-bit value that is congruent to `x`.
pub fn wrap_to_32(x: i64) -> (r: i32)
    requires
        -0x10_0000_0000 <= x <= 0x10_0000_0000,
    ensures
        r == wrap32(x as int),
{
    (floor_mod(x + 0x8000_0000, 0x1_0000_0000) - 0x8000_0000) as i32
}

/// Division by two that rounds towards zero.
pub open spec fn half_to_zero(x: int) -> int {
    if x < 0 {
        -((-x) / 2)
    } else {
        x / 2
    }
}

/// `Clip1`: a sample value of the given bit depth.
pub open spec fn clip1(v: int, bit_depth: u32) -> int {
    clip3(0, p2(bit_depth as int) - 1, v)
}

/// Clips a value to the range of samples of the given bit depth.
pub fn clip_sample(v: i64, bit_depth: u32) -> (r: i32)
    requires
        bit_depth <= 16,
    ensures
        r == clip1(v as int, bit_depth),
        0 <= r <= 65535,
{
    proof {
        lemma_p2_mono(bit_depth as int, 16);
        lemma_p2_values();
    }
    clip3_i64(0, pow2(bit_depth) - 1, v) as i32
}

} // verus!
