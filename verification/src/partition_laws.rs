//! Laws of the division of inter macroblocks into partitions.
use crate::geometry::LUMA_4X4_XY;
use crate::macroblock_layer::{MbType, SubMbPred, SubMbType};
use crate::mb_grid::GridV;
use crate::motion_laws::middle;
use crate::mv_deriv::{Mv, Neighbours};
use crate::partition_mvs::{InterPartition, PartMode};
use crate::partitions::{
    b8x8_from, b_sub, col_block, col_zero_flag, direct_parts, p8x8_from, p_sub, partitions,
    spatial_part, sub_parts, PartArgs,
};
use crate::ref_store::RefsV;
use vstd::prelude::*;

verus! {

/// The partition covers the luma sample at `(x, y)` of its macroblock.
pub open spec fn holds(part: InterPartition, x: int, y: int) -> bool {
    part.x <= x < part.x + part.w && part.y <= y < part.y + part.h
}

/// How many of the partitions cover a sample.
pub open spec fn times_held(s: Seq<InterPartition>, x: int, y: int) -> int
    decreases s.len(),
{
    if s.len() == 0 {
        0
    } else {
        times_held(s.drop_last(), x, y) + if holds(s.last(), x, y) {
            1int
        } else {
            0int
        }
    }
}

proof fn lemma_held_sum(a: Seq<InterPartition>, b: Seq<InterPartition>, x: int, y: int)
    ensures
        times_held(a + b, x, y) == times_held(a, x, y) + times_held(b, x, y),
    decreases b.len(),
{
    if b.len() == 0 {
        assert(a + b =~= a);
    } else {
        assert((a + b).drop_last() =~= a + b.drop_last());
        lemma_held_sum(a, b.drop_last(), x, y);
    }
}

proof fn lemma_held_few(s: Seq<InterPartition>, x: int, y: int)
    requires
        s.len() <= 4,
    ensures
        times_held(s, x, y) == (if s.len() > 0 && holds(s[0], x, y) {
            1int
        } else {
            0
        }) + (if s.len() > 1 && holds(s[1], x, y) {
            1int
        } else {
            0
        }) + (if s.len() > 2 && holds(s[2], x, y) {
            1int
        } else {
            0
        }) + (if s.len() > 3 && holds(s[3], x, y) {
            1int
        } else {
            0
        }),
{
    reveal_with_fuel(times_held, 6);
    let a = s.drop_last();
    let b = a.drop_last();
    let c = b.drop_last();
}

spec fn one_if(c: bool) -> int {
    if c {
        1
    } else {
        0
    }
}

spec fn in_quarter(q: int, x: int, y: int) -> bool {
    8 * (q % 2) <= x < 8 * (q % 2) + 8 && 8 * (q / 2) <= y < 8 * (q / 2) + 8
}

proof fn lemma_sub_parts(
    sm: SubMbPred,
    q: int,
    mode: PartMode,
    r0: i8,
    r1: i8,
    b: bool,
    x: int,
    y: int,
)
    requires
        0 <= q < 4,
    ensures
        times_held(sub_parts(sm, q, mode, r0, r1, b), x, y) == one_if(in_quarter(q, x, y)),
{
    let s = sub_parts(sm, q, mode, r0, r1, b);
    let h = crate::partitions::sub_size(sm.sub_mb_type@[q]).1;
    assert(0 * h == 0 && 1 * h == h);
    lemma_held_few(s, x, y);
}

proof fn lemma_square(s: Seq<InterPartition>, x0: int, y0: int, n: int, size: int, x: int, y: int)
    requires
        s.len() == n * n,
        (size == 4 && (n == 2 || n == 4)) || (size == 8 && (n == 1 || n == 2)),
        0 <= x0 && x0 + n * size <= 16,
        0 <= y0 && y0 + n * size <= 16,
        forall|k: int|
            0 <= k < s.len() ==> (#[trigger] s[k]).x == x0 + k % n * size && s[k].y == y0 + k / n
                * size && s[k].w == size && s[k].h == size,
    ensures
        times_held(s, x, y) == one_if(
            x0 <= x < x0 + n * size && y0 <= y < y0 + n * size,
        ),
{
    let c = (x - x0) / size;
    let r = (y - y0) / size;
    lemma_square_part(s, x0, y0, n, size, x, y, s.len() as int);
}

/// Partitions of a grid before number `m` cover the sample if and only if its cell is among them.
proof fn lemma_square_part(
    s: Seq<InterPartition>,
    x0: int,
    y0: int,
    n: int,
    size: int,
    x: int,
    y: int,
    m: int,
)
    requires
        s.len() == n * n,
        (size == 4 && (n == 2 || n == 4)) || (size == 8 && (n == 1 || n == 2)),
        0 <= m <= s.len(),
        forall|k: int|
            0 <= k < s.len() ==> (#[trigger] s[k]).x == x0 + k % n * size && s[k].y == y0 + k / n
                * size && s[k].w == size && s[k].h == size,
    ensures
        ({
            let inside = x0 <= x < x0 + n * size && y0 <= y < y0 + n * size;
            let cell = (y - y0) / size * n + (x - x0) / size;
            times_held(s.take(m), x, y) == one_if(inside && cell < m)
        }),
        m == s.len() ==> s.take(m) == s,
        ({
            let inside = x0 <= x < x0 + n * size && y0 <= y < y0 + n * size;
            let cell = (y - y0) / size * n + (x - x0) / size;
            inside ==> 0 <= cell < n * n
        }),
    decreases m,
{
    if m == s.len() {
        assert(s.take(m) =~= s);
    }
    lemma_cells(n, size, x - x0, y - y0, m - 1);
    if m > 0 {
        assert(s.take(m).drop_last() =~= s.take(m - 1));
        lemma_square_part(s, x0, y0, n, size, x, y, m - 1);
        assert(s.take(m).last() == s[m - 1]);
    }
}

#[verifier::spinoff_prover]
proof fn lemma_cells(n: int, size: int, dx: int, dy: int, k: int)
    requires
        (size == 4 && (n == 2 || n == 4)) || (size == 8 && (n == 1 || n == 2)),
        k < n * n,
    ensures
        ({
            let inside = 0 <= dx < n * size && 0 <= dy < n * size;
            let cell = dy / size * n + dx / size;
            let (u, v) = (k % n * size, k / n * size);
            &&& inside ==> 0 <= cell < n * n
            &&& k >= 0 ==> ((u <= dx < u + size && v <= dy < v + size) == (inside && cell == k))
        }),
{
    if size == 4 && n == 2 {
        assert(n * size == 8 && n * n == 4 && k % n * size == 4 * (k % 2) && k / n * size == 4 * (k
            / 2) && dy / size * n == 2 * (dy / 4));
    } else if size == 4 {
        assert(n * size == 16 && n * n == 16 && k % n * size == 4 * (k % 4) && k / n * size == 4 * (k
            / 4) && dy / size * n == 4 * (dy / 4));
    } else if n == 1 {
        assert(n * size == 8 && n * n == 1 && k % n * size == 8 * (k % 1) && k / n * size == 8 * (k
            / 1) && dy / size * n == dy / 8);
    } else {
        assert(n * size == 16 && n * n == 4 && k % n * size == 8 * (k % 2) && k / n * size == 8 * (k
            / 2) && dy / size * n == 2 * (dy / 8));
    }
}

proof fn lemma_direct(a: PartArgs, x0: int, y0: int, region: int, is_skip: bool, x: int, y: int)
    requires
        (region == 16 && x0 == 0 && y0 == 0) || (region == 8 && (x0 == 0 || x0 == 8) && (y0 == 0
            || y0 == 8)),
    ensures
        times_held(direct_parts(a, x0, y0, region, is_skip), x, y) == one_if(
            x0 <= x < x0 + region && y0 <= y < y0 + region,
        ),
{
    let size: int = if a.infer8 {
        8
    } else {
        4
    };
    let n = region / size;
    assert(n * size == region && (n == 1 || n == 2 || n == 4));
    let s = direct_parts(a, x0, y0, region, is_skip);
    assert(n * n >= 0) by (nonlinear_arith);
    assert forall|k: int| 0 <= k < s.len() implies (#[trigger] s[k]).x == x0 + k % n * size && s[k].y
        == y0 + k / n * size && s[k].w == size && s[k].h == size by {
        lemma_offsets(n, size, k);
    }
    lemma_square(s, x0, y0, n, size, x, y);
}

proof fn lemma_offsets(n: int, size: int, k: int)
    requires
        n == 1 || n == 2 || n == 4,
        size == 4 || size == 8,
        n * size <= 16,
        0 <= k < n * n,
    ensures
        0 <= k % n * size <= 12,
        0 <= k / n * size <= 12,
        size == 8 ==> k % n * size <= 8 && k / n * size <= 8,
        n * size == 8 ==> k % n * size <= 4 && k / n * size <= 4,
{
    assert(n * n == if n == 1 {
        1int
    } else if n == 2 {
        4int
    } else {
        16int
    });
    if n == 1 {
        assert(k % n * size == 0 && k / n * size == 0);
    } else if n == 2 {
        assert(n * size == 2 * size);
        assert(k % n * size == if k % 2 == 0 {
            0
        } else {
            size
        });
        assert(k / n * size == if k / 2 == 0 {
            0
        } else {
            size
        });
    } else {
        assert(n * size == 4 * size && size == 4);
        assert(k % n * size == 4 * (k % 4) && k / n * size == 4 * (k / 4));
    }
}

/// The partitions of an inter macroblock tile it: every luma sample lies in exactly one of them.
pub proof fn law_partitions_tile_the_macroblock(a: PartArgs, x: int, y: int)
    requires
        0 <= x < 16,
        0 <= y < 16,
    ensures
        partitions(a) matches Ok(s) ==> times_held(s, x, y) == 1,
{
    reveal(partitions);
    match a.mb.mb_type {
        MbType::P8x8 | MbType::P8x8Ref0 => {
            if let Some(sm) = a.mb.sub_mb_pred {
                lemma_p8x8(sm, a.mb.mb_type is P8x8Ref0, 0, x, y);
            }
        },
        MbType::B8x8 => {
            if let Some(sm) = a.mb.sub_mb_pred {
                lemma_b8x8(a, sm, 0, x, y);
            }
        },
        MbType::BSkip | MbType::BDirect16x16 => {
            lemma_direct(a, 0, 0, 16, a.mb.mb_type is BSkip, x, y);
        },
        _ => {
            if let Ok(s) = partitions(a) {
                lemma_held_few(s, x, y);
            }
        },
    }
}

proof fn lemma_p8x8(sm: SubMbPred, ref0: bool, q: int, x: int, y: int)
    requires
        0 <= q <= 4,
        0 <= x < 16,
        0 <= y < 16,
    ensures
        times_held(p8x8_from(sm, ref0, q), x, y) == one_if(2 * (y / 8) + x / 8 >= q),
    decreases 4 - q,
{
    if q < 4 {
        let (mode, r0) = p_sub(sm, q, ref0);
        let own = sub_parts(sm, q, mode, r0, (-1) as i8, false);
        lemma_sub_parts(sm, q, mode, r0, (-1) as i8, false, x, y);
        lemma_p8x8(sm, ref0, q + 1, x, y);
        lemma_held_sum(own, p8x8_from(sm, ref0, q + 1), x, y);
    }
}

proof fn lemma_b8x8(a: PartArgs, sm: SubMbPred, q: int, x: int, y: int)
    requires
        0 <= q <= 4,
        0 <= x < 16,
        0 <= y < 16,
    ensures
        times_held(b8x8_from(a, sm, q), x, y) == one_if(2 * (y / 8) + x / 8 >= q),
    decreases 4 - q,
{
    if q < 4 {
        let t = sm.sub_mb_type@[q];
        let (mode, r0, r1) = b_sub(t, sm.ref_idx_l0@[q] as i8, sm.ref_idx_l1@[q] as i8);
        let own = if t is BDirect8x8 {
            direct_parts(a, 8 * (q % 2), 8 * (q / 2), 8, false)
        } else {
            sub_parts(sm, q, mode, r0, r1, true)
        };
        lemma_sub_parts(sm, q, mode, r0, r1, true, x, y);
        lemma_direct(a, 8 * (q % 2), 8 * (q / 2), 8, false, x, y);
        lemma_b8x8(a, sm, q + 1, x, y);
        lemma_held_sum(own, b8x8_from(a, sm, q + 1), x, y);
    }
}

/// The partition predicts from a list: from the first list with a reference index of its own, and
/// -1 in a list it does not use.
pub open spec fn predicts_from(
    part: InterPartition,
    l0: bool,
    l1: bool,
    refs0: Seq<u32>,
    refs1: Seq<u32>,
    i: int,
) -> bool {
    &&& part.mode == if l0 && l1 {
        PartMode::BiPred
    } else if l0 {
        PartMode::L0Only
    } else {
        PartMode::L1Only
    }
    &&& l0 && i < refs0.len() ==> part.ref_idx_l0 == refs0[i] as i8
    &&& l1 && i < refs1.len() ==> part.ref_idx_l1 == refs1[i] as i8
    &&& !l0 ==> part.ref_idx_l0 == -1
    &&& !l1 ==> part.ref_idx_l1 == -1
}

/// Macroblock types with two halves, one above the other.
pub open spec fn has_rows(t: MbType) -> bool {
    ||| t is PL0L016x8
    ||| t is BL0L016x8
    ||| t is BL1L116x8
    ||| t is BL0L116x8
    ||| t is BL1L016x8
    ||| t is BL0Bi16x8
    ||| t is BL1Bi16x8
    ||| t is BBiL016x8
    ||| t is BBiL116x8
    ||| t is BBiBi16x8
}

/// Macroblock types with two halves side by side.
pub open spec fn has_columns(t: MbType) -> bool {
    ||| t is PL0L08x16
    ||| t is BL0L08x16
    ||| t is BL1L18x16
    ||| t is BL0L18x16
    ||| t is BL1L08x16
    ||| t is BL0Bi8x16
    ||| t is BL1Bi8x16
    ||| t is BBiL08x16
    ||| t is BBiL18x16
    ||| t is BBiBi8x16
}

/// The first half predicts from the second list only.
pub open spec fn first_without_l0(t: MbType) -> bool {
    ||| t is BL1L116x8
    ||| t is BL1L016x8
    ||| t is BL1Bi16x8
    ||| t is BL1L18x16
    ||| t is BL1L08x16
    ||| t is BL1Bi8x16
}

/// The first half predicts from both lists.
pub open spec fn first_from_both(t: MbType) -> bool {
    ||| t is BBiL016x8
    ||| t is BBiL116x8
    ||| t is BBiBi16x8
    ||| t is BBiL08x16
    ||| t is BBiL18x16
    ||| t is BBiBi8x16
}

/// The second half predicts from the second list only.
pub open spec fn second_without_l0(t: MbType) -> bool {
    ||| t is BL1L116x8
    ||| t is BL0L116x8
    ||| t is BBiL116x8
    ||| t is BL1L18x16
    ||| t is BL0L18x16
    ||| t is BBiL18x16
}

/// The second half predicts from both lists.
pub open spec fn second_from_both(t: MbType) -> bool {
    ||| t is BL0Bi16x8
    ||| t is BL1Bi16x8
    ||| t is BBiBi16x8
    ||| t is BL0Bi8x16
    ||| t is BL1Bi8x16
    ||| t is BBiBi8x16
}

/// The parts of a macroblock in halves: the upper and the lower, or the left and the right; each
/// with the references and vector differences of its own number, in the lists its type names.
pub proof fn law_halves(a: PartArgs)
    requires
        has_rows(a.mb.mb_type) || has_columns(a.mb.mb_type),
        a.mb.mb_pred is Some,
    ensures
        partitions(a) matches Ok(s) && s.len() == 2 && ({
            let t = a.mb.mb_type;
            let p = a.mb.mb_pred->0;
            let (w, h): (int, int) = if has_rows(t) {
                (16, 8)
            } else {
                (8, 16)
            };
            let rows = has_rows(t);
            &&& s[0].x == 0 && s[0].y == 0 && s[0].w == w && s[0].h == h
            &&& s[1].x == 16 - w && s[1].y == 16 - h && s[1].w == w && s[1].h == h
            &&& predicts_from(
                s[0],
                !first_without_l0(t),
                first_without_l0(t) || first_from_both(t),
                p.ref_idx_l0@,
                p.ref_idx_l1@,
                0,
            )
            &&& predicts_from(
                s[1],
                !second_without_l0(t),
                second_without_l0(t) || second_from_both(t),
                p.ref_idx_l0@,
                p.ref_idx_l1@,
                1,
            )
            &&& forall|i: int|
                0 <= i < 2 ==> (i < p.mvd_l0.len() ==> (#[trigger] s[i]).mvd_l0 == (
                    p.mvd_l0@[i]@[0],
                    p.mvd_l0@[i]@[1],
                )) && (i < p.mvd_l1.len() && !(t is PL0L016x8) && !(t is PL0L08x16) ==> s[i].mvd_l1
                    == (p.mvd_l1@[i]@[0], p.mvd_l1@[i]@[1])) && s[i].precomputed_mv is None
                    && !s[i].is_skip
        }),
{
    reveal(partitions);
}

/// The part of a macroblock that is not divided: the first references and vector differences.
pub proof fn law_whole(a: PartArgs)
    requires
        a.mb.mb_type is PL016x16 || a.mb.mb_type is BL016x16 || a.mb.mb_type is BL116x16
            || a.mb.mb_type is BBi16x16,
        a.mb.mb_pred is Some,
    ensures
        partitions(a) matches Ok(s) && s.len() == 1 && ({
            let t = a.mb.mb_type;
            let p = a.mb.mb_pred->0;
            &&& s[0].x == 0 && s[0].y == 0 && s[0].w == 16 && s[0].h == 16
            &&& predicts_from(
                s[0],
                !(t is BL116x16),
                t is BL116x16 || t is BBi16x16,
                p.ref_idx_l0@,
                p.ref_idx_l1@,
                0,
            )
            &&& p.mvd_l0.len() > 0 ==> s[0].mvd_l0 == (p.mvd_l0@[0]@[0], p.mvd_l0@[0]@[1])
            &&& p.mvd_l1.len() > 0 && !(t is PL016x16) ==> s[0].mvd_l1 == (
                p.mvd_l1@[0]@[0],
                p.mvd_l1@[0]@[1],
            )
            &&& s[0].precomputed_mv is None && !s[0].is_skip
        }),
{
    reveal(partitions);
}

/// A skipped macroblock of a P slice is one part that predicts from the first picture of the first
/// list, with nothing coded.
pub proof fn law_skipped(a: PartArgs)
    requires
        a.mb.mb_type is PSkip,
    ensures
        partitions(a) matches Ok(s) && s.len() == 1 && s[0].x == 0 && s[0].y == 0 && s[0].w == 16
            && s[0].h == 16 && s[0].mode is L0Only && s[0].ref_idx_l0 == 0 && s[0].ref_idx_l1 == -1
            && s[0].mvd_l0 == (0i32, 0i32) && s[0].is_skip && s[0].precomputed_mv is None,
{
    reveal(partitions);
}

/// Number of columns and rows of parts of a sub-macroblock.
pub open spec fn sub_grid(t: SubMbType) -> (int, int) {
    (
        if t is PL04x8 || t is BL04x8 || t is BL14x8 || t is BBi4x8 || t is PL04x4 || t is BL04x4
            || t is BL14x4 || t is BBi4x4 {
            2
        } else {
            1
        },
        if t is PL08x4 || t is BL08x4 || t is BL18x4 || t is BBi8x4 || t is PL04x4 || t is BL04x4
            || t is BL14x4 || t is BBi4x4 {
            2
        } else {
            1
        },
    )
}

/// The parts of a sub-macroblock lie row by row in its quarter; each has the vector differences of
/// its own number, all have the references of the quarter.
pub proof fn law_sub_macroblock(
    sm: SubMbPred,
    q: int,
    mode: PartMode,
    r0: i8,
    r1: i8,
    b: bool,
    k: int,
)
    requires
        0 <= q < 4,
    ensures
        ({
            let s = sub_parts(sm, q, mode, r0, r1, b);
            let (columns, rows) = sub_grid(sm.sub_mb_type@[q]);
            let (w, h) = (8int / columns, 8int / rows);
            &&& s.len() == columns * rows
            &&& 0 <= k < s.len() ==> s[k].x == 8 * (q % 2) + k % columns * w && s[k].y == 8 * (q / 2)
                + k / columns * h && s[k].w == w && s[k].h == h
            &&& 0 <= k < s.len() ==> s[k].mode == mode && s[k].ref_idx_l0 == r0 && s[k].ref_idx_l1
                == r1 && s[k].precomputed_mv is None
            &&& 0 <= k < s.len() && k < sm.mvd_l0@[q].len() ==> s[k].mvd_l0 == (
                sm.mvd_l0@[q]@[k]@[0],
                sm.mvd_l0@[q]@[k]@[1],
            )
            &&& 0 <= k < s.len() && k < sm.mvd_l1@[q].len() && b ==> s[k].mvd_l1 == (
                sm.mvd_l1@[q]@[k]@[0],
                sm.mvd_l1@[q]@[k]@[1],
            )
        }),
{
    let (columns, rows) = sub_grid(sm.sub_mb_type@[q]);
    let (w, h) = (8int / columns, 8int / rows);
    let t = sm.sub_mb_type@[q];
    assert(crate::partitions::sub_size(t) == (w, h));
    assert(columns * rows == crate::partitions::sub_count(t)) by {
        if columns == 1 {
            assert(columns * rows == rows);
        } else {
            assert(columns * rows == 2 * rows);
        }
    }
    if 0 <= k < columns * rows {
        if columns == 1 {
            assert(k % columns == 0 && k / columns == k);
            assert(0 * w == 0);
            assert(k == 0 || k == 1);
            assert(k * h == if k == 0 {
                0
            } else {
                h
            }) by (nonlinear_arith)
                requires
                    k == 0 || k == 1,
            ;
        } else {
            assert(k % columns * w == 4 * (k % 2));
            assert(k / columns == k / 2);
            assert(k / columns * h == if k / 2 == 0 {
                0
            } else {
                h
            });
        }
    }
}

/// The parts of a macroblock of four sub-macroblocks of a P slice: those of the quarters in turn,
/// with the reference of the quarter from the first list, or the first picture of it.
#[verifier::spinoff_prover]
pub proof fn law_p_quarters(a: PartArgs)
    requires
        a.mb.mb_type is P8x8 || a.mb.mb_type is P8x8Ref0,
        a.mb.sub_mb_pred is Some,
    ensures
        ({
            let sm = a.mb.sub_mb_pred->0;
            let own = |q: int|
                sub_parts(
                    sm,
                    q,
                    if sm.sub_mb_type@[q] is BDirect8x8 {
                        PartMode::Direct
                    } else {
                        PartMode::L0Only
                    },
                    if a.mb.mb_type is P8x8 {
                        sm.ref_idx_l0@[q] as i8
                    } else {
                        0i8
                    },
                    -1i8,
                    false,
                );
            partitions(a) matches Ok(s) && s == own(0) + own(1) + own(2) + own(3)
        }),
{
    reveal(partitions);
    let sm = a.mb.sub_mb_pred->0;
    let own = |q: int|
        sub_parts(
            sm,
            q,
            if sm.sub_mb_type@[q] is BDirect8x8 {
                PartMode::Direct
            } else {
                PartMode::L0Only
            },
            if a.mb.mb_type is P8x8 {
                sm.ref_idx_l0@[q] as i8
            } else {
                0i8
            },
            -1i8,
            false,
        );
    let ref0 = a.mb.mb_type is P8x8Ref0;
    assert(p8x8_from(sm, ref0, 4) == Seq::<InterPartition>::empty());
    assert(p8x8_from(sm, ref0, 3) == own(3) + p8x8_from(sm, ref0, 4));
    assert(p8x8_from(sm, ref0, 2) == own(2) + p8x8_from(sm, ref0, 3));
    assert(p8x8_from(sm, ref0, 1) == own(1) + p8x8_from(sm, ref0, 2));
    assert(p8x8_from(sm, ref0, 0) == own(0) + p8x8_from(sm, ref0, 1));
    lemma_joined(own(0), own(1), own(2), own(3));
}

/// Lists a sub-macroblock of a B slice predicts from.
pub open spec fn sub_lists(t: SubMbType) -> (bool, bool) {
    let second_only = t is BL18x8 || t is BL18x4 || t is BL14x8 || t is BL14x4;
    let both = t is BBi8x8 || t is BBi8x4 || t is BBi4x8 || t is BBi4x4;
    (!second_only, second_only || both)
}

/// The parts of a macroblock of four sub-macroblocks of a B slice: those of the quarters in turn,
/// under direct prediction or with the references of the quarter in the lists its type names.
#[verifier::spinoff_prover]
pub proof fn law_b_quarters(a: PartArgs)
    requires
        a.mb.mb_type is B8x8,
        a.mb.sub_mb_pred is Some,
    ensures
        ({
            let sm = a.mb.sub_mb_pred->0;
            let own = |q: int|
                if sm.sub_mb_type@[q] is BDirect8x8 {
                    direct_parts(a, q % 2 * 8, q / 2 * 8, 8, false)
                } else {
                    let (l0, l1) = sub_lists(sm.sub_mb_type@[q]);
                    sub_parts(
                        sm,
                        q,
                        if l0 && l1 {
                            PartMode::BiPred
                        } else if l0 {
                            PartMode::L0Only
                        } else {
                            PartMode::L1Only
                        },
                        if l0 {
                            sm.ref_idx_l0@[q] as i8
                        } else {
                            -1i8
                        },
                        if l1 {
                            sm.ref_idx_l1@[q] as i8
                        } else {
                            -1i8
                        },
                        true,
                    )
                };
            partitions(a) matches Ok(s) && s == own(0) + own(1) + own(2) + own(3)
        }),
{
    reveal(partitions);
    let sm = a.mb.sub_mb_pred->0;
    let own = |q: int|
        if sm.sub_mb_type@[q] is BDirect8x8 {
            direct_parts(a, q % 2 * 8, q / 2 * 8, 8, false)
        } else {
            let (l0, l1) = sub_lists(sm.sub_mb_type@[q]);
            sub_parts(
                sm,
                q,
                if l0 && l1 {
                    PartMode::BiPred
                } else if l0 {
                    PartMode::L0Only
                } else {
                    PartMode::L1Only
                },
                if l0 {
                    sm.ref_idx_l0@[q] as i8
                } else {
                    -1i8
                },
                if l1 {
                    sm.ref_idx_l1@[q] as i8
                } else {
                    -1i8
                },
                true,
            )
        };
    assert(b8x8_from(a, sm, 4) == Seq::<InterPartition>::empty());
    assert(b8x8_from(a, sm, 3) == own(3) + b8x8_from(a, sm, 4));
    assert(b8x8_from(a, sm, 2) == own(2) + b8x8_from(a, sm, 3));
    assert(b8x8_from(a, sm, 1) == own(1) + b8x8_from(a, sm, 2));
    assert(b8x8_from(a, sm, 0) == own(0) + b8x8_from(a, sm, 1));
    lemma_joined(own(0), own(1), own(2), own(3));
}

proof fn lemma_joined(
    a: Seq<InterPartition>,
    b: Seq<InterPartition>,
    c: Seq<InterPartition>,
    d: Seq<InterPartition>,
)
    ensures
        a + (b + (c + (d + Seq::<InterPartition>::empty()))) == a + b + c + d,
{
    assert(a + (b + (c + (d + Seq::<InterPartition>::empty()))) =~= a + b + c + d);
}

/// Where direct prediction works on quarters of a macroblock, it takes the motion of the co-located
/// macroblock at the corner that the quarter touches; else that of the same 4x4 block.
pub proof fn law_direct_looks_at_corners(x: int, y: int)
    requires
        0 <= x < 16,
        0 <= y < 16,
    ensures
        ({
            let corner = LUMA_4X4_XY[col_block(true, x, y)];
            let own = LUMA_4X4_XY[col_block(false, x, y)];
            &&& corner.0 == if x < 8 {
                0int
            } else {
                12int
            }
            &&& corner.1 == if y < 8 {
                0int
            } else {
                12int
            }
            &&& own.0 == x / 4 * 4 && own.1 == y / 4 * 4
        }),
{
}

/// The smallest reference index a list has among the left, upper and upper right neighbours; the
/// upper left stands in for an upper right that is not decoded. -1 where none has one.
pub open spec fn is_smallest(n: Neighbours, m: int) -> bool {
    let c = if n.c.partition_available || !n.d.partition_available {
        n.c.ref_idx
    } else {
        n.d.ref_idx
    };
    &&& n.a.ref_idx >= 0 ==> 0 <= m <= n.a.ref_idx
    &&& n.b.ref_idx >= 0 ==> 0 <= m <= n.b.ref_idx
    &&& c >= 0 ==> 0 <= m <= c
    &&& m >= 0 ==> m == n.a.ref_idx || m == n.b.ref_idx || m == c
}

/// Spatial direct prediction refers, in each list, to the smallest index of the neighbours; without
/// any in either list, to the first pictures of both lists, at rest. A block over one that rests in
/// the first picture of the second list rests, where the index is 0.
pub proof fn law_spatial_direct(
    refs: RefsV,
    g: GridV,
    addr: int,
    slice_id: int,
    infer8: bool,
    x: int,
    y: int,
    is_skip: bool,
    m0: int,
    m1: int,
)
    requires
        0 <= x < 16,
        0 <= y < 16,
        m0 >= -1,
        m1 >= -1,
        is_smallest(crate::partition_mvs::neighbours_of(g, addr, 0, 0, 16, 0, slice_id), m0),
        is_smallest(crate::partition_mvs::neighbours_of(g, addr, 0, 0, 16, 1, slice_id), m1),
        m0 <= 127,
        m1 <= 127,
    ensures
        ({
            let part = spatial_part(refs, g, addr, slice_id, infer8, x, y, is_skip);
            let (v0, v1) = part.precomputed_mv->0;
            let rest = col_zero_flag(refs, addr, col_block(infer8, x, y));
            &&& part.precomputed_mv is Some
            &&& part.x == x && part.y == y && part.is_skip == is_skip
            &&& part.w == part.h && part.w == if infer8 {
                8int
            } else {
                4int
            }
            &&& m0 < 0 && m1 < 0 ==> part.ref_idx_l0 == 0 && part.ref_idx_l1 == 0 && v0
                == (Mv { x: 0, y: 0 }) && v1 == (Mv { x: 0, y: 0 }) && part.mode is Direct
            &&& m0 >= 0 || m1 >= 0 ==> part.ref_idx_l0 == m0 && part.ref_idx_l1 == m1
            &&& m0 >= 0 && m1 < 0 ==> part.mode is L0Only
            &&& m0 < 0 && m1 >= 0 ==> part.mode is L1Only
            &&& m0 >= 0 && m1 >= 0 ==> part.mode is Direct
            &&& m0 == 0 && rest ==> v0 == (Mv { x: 0, y: 0 })
            &&& m1 == 0 && rest ==> v1 == (Mv { x: 0, y: 0 })
        }),
{
}

/// Spatial direct prediction of a block that does not rest: in a list with an index, the vector of
/// the only neighbour with that index, of the left neighbour where it is the only one decoded, or
/// else the middle of the three; the upper left stands in for an upper right that is not decoded.
pub proof fn law_spatial_direct_vector(
    refs: RefsV,
    g: GridV,
    addr: int,
    slice_id: int,
    infer8: bool,
    x: int,
    y: int,
    is_skip: bool,
    second: bool,
)
    requires
        ({
            let part = spatial_part(refs, g, addr, slice_id, infer8, x, y, is_skip);
            let r = if second {
                part.ref_idx_l1
            } else {
                part.ref_idx_l0
            };
            let l0 = crate::partition_mvs::neighbours_of(g, addr, 0, 0, 16, 0, slice_id);
            let l1 = crate::partition_mvs::neighbours_of(g, addr, 0, 0, 16, 1, slice_id);
            &&& r >= 0
            &&& r > 0 || !col_zero_flag(refs, addr, col_block(infer8, x, y))
            &&& exists_index(l0) || exists_index(l1)
        }),
    ensures
        ({
            let part = spatial_part(refs, g, addr, slice_id, infer8, x, y, is_skip);
            let n = crate::partition_mvs::neighbours_of(
                g,
                addr,
                0,
                0,
                16,
                if second {
                    1u8
                } else {
                    0u8
                },
                slice_id,
            );
            let (r, v) = if second {
                (part.ref_idx_l1 as int, (part.precomputed_mv->0).1)
            } else {
                (part.ref_idx_l0 as int, (part.precomputed_mv->0).0)
            };
            let (a, b) = (n.a, n.b);
            let c = if n.c.partition_available || !n.d.partition_available {
                n.c
            } else {
                n.d
            };
            let only_a = a.partition_available && !b.partition_available && !c.partition_available;
            let (ma, mb, mc) = (a.ref_idx == r, b.ref_idx == r, c.ref_idx == r);
            &&& only_a ==> v == a.mv
            &&& !only_a && ma && !mb && !mc ==> v == a.mv
            &&& !only_a && !ma && mb && !mc ==> v == b.mv
            &&& !only_a && !ma && !mb && mc ==> v == c.mv
            &&& !only_a && ((ma && mb) || (ma && mc) || (mb && mc)) ==> v.x == middle(
                a.mv.x as int,
                b.mv.x as int,
                c.mv.x as int,
            ) && v.y == middle(a.mv.y as int, b.mv.y as int, c.mv.y as int)
        }),
{
}

/// A neighbour has a reference index.
pub open spec fn exists_index(n: Neighbours) -> bool {
    let c = if n.c.partition_available || !n.d.partition_available {
        n.c.ref_idx
    } else {
        n.d.ref_idx
    };
    n.a.ref_idx >= 0 || n.b.ref_idx >= 0 || c >= 0
}

/// A block rests where the co-located block of the first picture of the second list, not a
/// long-term reference, refers to its first picture with a vector of at most one quarter sample
/// either way.
pub proof fn law_resting_block(refs: RefsV, addr: int, blk: int)
    requires
        (refs.pic)(1, 0) is Some,
        crate::picture::colocated_of((refs.pic)(1, 0)->0, 0, addr, blk) is Some,
        crate::picture::colocated_of((refs.pic)(1, 0)->0, 1, addr, blk) is Some,
    ensures
        ({
            let c = (refs.pic)(1, 0)->0;
            let (m0, r0, intra) = crate::picture::colocated_of(c, 0, addr, blk)->0;
            let (m1, r1, _) = crate::picture::colocated_of(c, 1, addr, blk)->0;
            let (m, r) = if r0 >= 0 {
                (m0, r0)
            } else {
                (m1, r1)
            };
            let long = refs.list_1_longterm.len() > 0 && refs.list_1_longterm[0];
            col_zero_flag(refs, addr, blk) == (!long && !intra && r == 0 && -1 <= m.0 <= 1 && -1
                <= m.1 <= 1)
        }),
{
}

} // verus!
