//! Inverse scans: from the order in which levels are coded to block positions.
//!
//! Each table gives, row by row of the block, the place in the coded order of the level that
//! belongs there.
use crate::math::{ints, longs};
use crate::transform::LEVEL_BOUND;
use vstd::prelude::*;

verus! {

pub const ZIGZAG_POS_4X4: [u8; 16] = [
    0, 1, 5, 6,
    2, 4, 7, 12,
    3, 8, 11, 13,
    9, 10, 14, 15,
];

pub const FIELD_POS_4X4: [u8; 16] = [
    0, 2, 8, 12,
    1, 5, 9, 13,
    3, 6, 10, 14,
    4, 7, 11, 15,
];

pub const ZIGZAG_POS_8X8: [u8; 64] = [
    0, 1, 5, 6, 14, 15, 27, 28,
    2, 4, 7, 13, 16, 26, 29, 42,
    3, 8, 12, 17, 25, 30, 41, 43,
    9, 11, 18, 24, 31, 40, 44, 53,
    10, 19, 23, 32, 39, 45, 52, 54,
    20, 22, 33, 38, 46, 51, 55, 60,
    21, 34, 37, 47, 50, 56, 59, 61,
    35, 36, 48, 49, 57, 58, 62, 63,
];

pub const FIELD_SCAN_POS_8X8: [u8; 64] = [
    0, 3, 8, 15, 22, 30, 38, 52,
    1, 4, 14, 21, 29, 37, 45, 53,
    2, 7, 16, 23, 31, 39, 46, 58,
    5, 9, 20, 28, 36, 44, 51, 59,
    6, 13, 24, 32, 40, 47, 54, 60,
    10, 17, 25, 33, 41, 48, 55, 61,
    11, 18, 26, 34, 42, 49, 56, 62,
    12, 19, 27, 35, 43, 50, 57, 63,
];

/// Place in the coded order of the level for position `p` of a 4x4 block.
pub open spec fn scan_pos4(field: bool, p: int) -> int {
    if field {
        FIELD_POS_4X4[p] as int
    } else {
        ZIGZAG_POS_4X4[p] as int
    }
}

/// Place in the coded order of the level for position `p` of an 8x8 block.
pub open spec fn scan_pos8(field: bool, p: int) -> int {
    if field {
        FIELD_SCAN_POS_8X8[p] as int
    } else {
        ZIGZAG_POS_8X8[p] as int
    }
}

/// The 4x4 block of a list of coded levels.
pub open spec fn unscan4(levels: Seq<i32>, field: bool) -> Seq<i32> {
    Seq::new(16, |p: int| levels[scan_pos4(field, p)])
}

/// The 4x4 block of a list of coded AC levels, which starts at the second place of the order; the
/// DC position is zero.
pub open spec fn unscan4_ac(levels: Seq<i32>, field: bool) -> Seq<i32> {
    Seq::new(
        16,
        |p: int|
            if p == 0 {
                0i32
            } else {
                levels[scan_pos4(field, p) - 1]
            },
    )
}

/// The 8x8 block of a list of coded levels.
pub open spec fn unscan8(levels: Seq<i32>, field: bool) -> Seq<i32> {
    Seq::new(64, |p: int| levels[scan_pos8(field, p)])
}

/// Inverse scan of a 4x4 block: zig-zag for frame macroblocks, field scan for field macroblocks.
pub fn inv_scan_4x4(levels: &[i32; 16], field: bool) -> (r: [i32; 16])
    ensures
        r@ == unscan4(levels@, field),
{
    let mut out = [0i32; 16];
    for p in 0..16usize
        invariant
            forall|q: int| 0 <= q < p ==> out@[q] == levels@[#[trigger] scan_pos4(field, q)],
    {
        let k: u8 = if field {
            FIELD_POS_4X4[p]
        } else {
            ZIGZAG_POS_4X4[p]
        };
        out[p] = levels[k as usize];
    }
    assert(out@ =~= unscan4(levels@, field));
    out
}

/// Inverse scan of the AC levels of a 4x4 block.
pub fn inv_scan_4x4_ac(levels: &[i32; 16], field: bool) -> (r: [i32; 16])
    ensures
        r@ == unscan4_ac(levels@, field),
{
    let mut out = [0i32; 16];
    for p in 1..16usize
        invariant
            out@[0] == 0,
            forall|q: int| 1 <= q < p ==> out@[q] == levels@[#[trigger] scan_pos4(field, q) - 1],
    {
        let k: u8 = if field {
            FIELD_POS_4X4[p]
        } else {
            ZIGZAG_POS_4X4[p]
        };
        out[p] = levels[(k - 1) as usize];
    }
    assert(out@ =~= unscan4_ac(levels@, field));
    out
}

/// Inverse zig-zag scan of an 8x8 block.
pub fn inverse_scan_8x8_zigzag(levels: &[i32; 64]) -> (r: [i32; 64])
    ensures
        r@ == unscan8(levels@, false),
{
    let mut out = [0i32; 64];
    for p in 0..64usize
        invariant
            forall|q: int| 0 <= q < p ==> out@[q] == levels@[#[trigger] scan_pos8(false, q)],
    {
        out[p] = levels[ZIGZAG_POS_8X8[p] as usize];
    }
    assert(out@ =~= unscan8(levels@, false));
    out
}

/// Inverse field scan of an 8x8 block.
pub fn inverse_scan_8x8_field(levels: &[i32; 64]) -> (r: [i32; 64])
    ensures
        r@ == unscan8(levels@, true),
{
    let mut out = [0i32; 64];
    for p in 0..64usize
        invariant
            forall|q: int| 0 <= q < p ==> out@[q] == levels@[#[trigger] scan_pos8(true, q)],
    {
        out[p] = levels[FIELD_SCAN_POS_8X8[p] as usize];
    }
    assert(out@ =~= unscan8(levels@, true));
    out
}

/// Inverse scan of an 8x8 block: zig-zag for frame macroblocks, field scan for field macroblocks.
pub fn inv_scan_8x8(levels: &[i32; 64], field: bool) -> (r: [i32; 64])
    ensures
        r@ == unscan8(levels@, field),
{
    if field {
        inverse_scan_8x8_field(levels)
    } else {
        inverse_scan_8x8_zigzag(levels)
    }
}

/// The levels of a block in 64-bit form.
pub fn widen(levels: &[i32]) -> (r: Vec<i64>)
    ensures
        longs(r@) == ints(levels@),
        r.len() == levels@.len(),
        crate::math::within(r@, LEVEL_BOUND as int),
{
    let mut r: Vec<i64> = Vec::new();
    for i in 0..levels.len()
        invariant
            r.len() == i,
            forall|k: int| 0 <= k < i ==> r@[k] == levels@[k],
            crate::math::within(r@, LEVEL_BOUND as int),
    {
        r.push(levels[i] as i64);
    }
    assert(longs(r@) =~= ints(levels@));
    r
}

/// Positions of a 4x4 block in zig-zag order.
pub const ZIGZAG_ORDER_4X4: [u8; 16] = [
    0, 1, 4, 8,
    5, 2, 3, 6,
    9, 12, 13, 10,
    7, 11, 14, 15,
];

/// Positions of a 4x4 block in field scan order.
pub const FIELD_ORDER_4X4: [u8; 16] = [
    0, 4, 1, 8,
    12, 5, 9, 13,
    2, 6, 10, 14,
    3, 7, 11, 15,
];

/// Positions of an 8x8 block in zig-zag order.
pub const ZIGZAG_ORDER_8X8: [u8; 64] = [
    0, 1, 8, 16, 9, 2, 3, 10,
    17, 24, 32, 25, 18, 11, 4, 5,
    12, 19, 26, 33, 40, 48, 41, 34,
    27, 20, 13, 6, 7, 14, 21, 28,
    35, 42, 49, 56, 57, 50, 43, 36,
    29, 22, 15, 23, 30, 37, 44, 51,
    58, 59, 52, 45, 38, 31, 39, 46,
    53, 60, 61, 54, 47, 55, 62, 63,
];

/// Positions of an 8x8 block in field scan order.
pub const FIELD_ORDER_8X8: [u8; 64] = [
    0, 8, 16, 1, 9, 24, 32, 17,
    2, 25, 40, 48, 56, 33, 10, 3,
    18, 41, 49, 57, 26, 11, 4, 19,
    34, 42, 50, 58, 27, 12, 5, 20,
    35, 43, 51, 59, 28, 13, 6, 21,
    36, 44, 52, 60, 29, 14, 22, 37,
    45, 53, 61, 30, 7, 15, 38, 46,
    54, 62, 23, 31, 39, 47, 55, 63,
];

/// Position of the `k`-th coded level of a 4x4 block.
pub open spec fn order4(field: bool, k: int) -> int {
    if field {
        FIELD_ORDER_4X4[k] as int
    } else {
        ZIGZAG_ORDER_4X4[k] as int
    }
}

/// Position of the `k`-th coded level of an 8x8 block.
pub open spec fn order8(field: bool, k: int) -> int {
    if field {
        FIELD_ORDER_8X8[k] as int
    } else {
        ZIGZAG_ORDER_8X8[k] as int
    }
}

/// The inverse scan of a 4x4 block moves every coded level to a position of its own, and fills
/// every position.
pub proof fn law_scan4_is_bijective(field: bool, i: int)
    requires
        0 <= i < 16,
    ensures
        0 <= scan_pos4(field, i) < 16,
        0 <= order4(field, i) < 16,
        order4(field, scan_pos4(field, i)) == i,
        scan_pos4(field, order4(field, i)) == i,
{
}

/// The inverse scan of an 8x8 block moves every coded level to a position of its own, and fills
/// every position.
pub proof fn law_scan8_is_bijective(field: bool, i: int)
    requires
        0 <= i < 64,
    ensures
        0 <= scan_pos8(field, i) < 64,
        0 <= order8(field, i) < 64,
        order8(field, scan_pos8(field, i)) == i,
        scan_pos8(field, order8(field, i)) == i,
{
}

/// The inverse scan undoes the scan.
pub proof fn law_unscan_undoes_scan(block4: Seq<i32>, block8: Seq<i32>, field: bool)
    requires
        block4.len() == 16,
        block8.len() == 64,
    ensures
        unscan4(Seq::new(16, |k: int| block4[order4(field, k)]), field) == block4,
        unscan8(Seq::new(64, |k: int| block8[order8(field, k)]), field) == block8,
{
    let l4 = Seq::new(16, |k: int| block4[order4(field, k)]);
    let l8 = Seq::new(64, |k: int| block8[order8(field, k)]);
    assert forall|p: int| 0 <= p < 16 implies unscan4(l4, field)[p] == block4[p] by {
        law_scan4_is_bijective(field, p);
    }
    assert forall|p: int| 0 <= p < 64 implies unscan8(l8, field)[p] == block8[p] by {
        law_scan8_is_bijective(field, p);
    }
    assert(unscan4(l4, field) =~= block4);
    assert(unscan8(l8, field) =~= block8);
}

/// The first coded level stays first: it is the DC level.
pub proof fn law_dc_level_stays(levels4: Seq<i32>, levels8: Seq<i32>, field: bool)
    ensures
        unscan4(levels4, field)[0] == levels4[0],
        unscan8(levels8, field)[0] == levels8[0],
        unscan4_ac(levels4, field)[0] == 0,
{
}

} // verus!
