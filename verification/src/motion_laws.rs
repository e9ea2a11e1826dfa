//! Laws of motion vectors.
use crate::direct::{
    col_motion, cur_mb_field, direct_pocs, direct_ref, scaled_col_mv, scaled_mvs, temporal_direct,
    CurPic,
};
use crate::inter_partition::{
    covers4, covers8, mvs_entered, partition_step, ref_key, with_motion, InterArgs, PredV,
};
use crate::inter_pred::{dist_scale, div_to_zero};
use crate::math::wrap32;
use crate::mb_address::MAX_ADDR;
use crate::mb_grid::GridV;
use crate::mv_deriv::{p_skip_mv, Mv, NeighbourMv};
use crate::partition_mvs::{
    list_mvp, mv_plus, neighbour_mv, neighbours_of, partition_mvs, InterPartition,
};
use crate::ref_store::RefsV;
use vstd::prelude::*;

verus! {

/// Vector of a partition in list 0 or list 1.
pub open spec fn vector(
    part: InterPartition,
    g: GridV,
    addr: int,
    slice_id: int,
    list: u8,
) -> Mv {
    if list == 0 {
        partition_mvs(part, g, addr, slice_id).0
    } else {
        partition_mvs(part, g, addr, slice_id).1
    }
}

/// Coded difference of a partition in a list.
pub open spec fn difference(part: InterPartition, list: u8) -> (i32, i32) {
    if list == 0 {
        part.mvd_l0
    } else {
        part.mvd_l1
    }
}

/// Two partitions that differ in their coded differences at most.
pub open spec fn same_but_difference(a: InterPartition, b: InterPartition) -> bool {
    &&& a.x == b.x && a.y == b.y && a.w == b.w && a.h == b.h
    &&& a.mode == b.mode && a.shape == b.shape && a.is_skip == b.is_skip
    &&& a.ref_idx_l0 == b.ref_idx_l0 && a.ref_idx_l1 == b.ref_idx_l1
    &&& a.precomputed_mv is None && b.precomputed_mv is None
}

/// A vector before its coded difference is added.
#[verifier::opaque]
spec fn base(part: InterPartition, g: GridV, addr: int, slice_id: int, list: u8) -> Mv {
    let n = neighbours_of(g, addr, part.x as int, part.y as int, part.w as int, list, slice_id);
    if list == 0 && part.is_skip && part.mode is L0Only && part.w == 16 && part.h == 16 {
        p_skip_mv(n)
    } else if list == 0 {
        list_mvp(n, part.uses_l0(), part.ref_idx_l0, part.shape)
    } else {
        list_mvp(n, part.uses_l1(), part.ref_idx_l1, part.shape)
    }
}

proof fn lemma_base(part: InterPartition, g: GridV, addr: int, slice_id: int)
    requires
        part.precomputed_mv is None,
        part.mode !is Direct,
    ensures
        vector(part, g, addr, slice_id, 0) == mv_plus(
            base(part, g, addr, slice_id, 0),
            part.mvd_l0,
        ),
        vector(part, g, addr, slice_id, 1) == mv_plus(
            base(part, g, addr, slice_id, 1),
            part.mvd_l1,
        ),
{
    reveal(partition_mvs);
    reveal(base);
}

proof fn lemma_same_base(
    a: InterPartition,
    b: InterPartition,
    g: GridV,
    addr: int,
    slice_id: int,
    list: u8,
)
    requires
        same_but_difference(a, b),
    ensures
        base(a, g, addr, slice_id, list) == base(b, g, addr, slice_id, list),
{
    reveal(base);
}

/// Changing the coded difference of a list by some amount changes the vector of that list by the
/// same amount, modulo `2^32`; the rest of the vector depends on the neighbours only.
pub proof fn law_difference_moves_vector(
    a: InterPartition,
    b: InterPartition,
    g: GridV,
    addr: int,
    slice_id: int,
    list: u8,
)
    requires
        list <= 1,
        same_but_difference(a, b),
        a.mode !is Direct,
    ensures
        ({
            let (v, u) = (vector(a, g, addr, slice_id, list), vector(b, g, addr, slice_id, list));
            let (d, e) = (difference(a, list), difference(b, list));
            &&& ((v.x - u.x) - (d.0 - e.0)) % 0x1_0000_0000 == 0
            &&& ((v.y - u.y) - (d.1 - e.1)) % 0x1_0000_0000 == 0
        }),
{
    lemma_base(a, g, addr, slice_id);
    lemma_base(b, g, addr, slice_id);
    lemma_same_base(a, b, g, addr, slice_id, list);
    let p = base(a, g, addr, slice_id, list);
    let (d, e) = (difference(a, list), difference(b, list));
    lemma_wraps(p.x + d.0, p.x + e.0);
    lemma_wraps(p.y + d.1, p.y + e.1);
}

proof fn lemma_wraps(a: int, b: int)
    ensures
        ((wrap32(a) - wrap32(b)) - (a - b)) % 0x1_0000_0000 == 0,
        i32::MIN <= wrap32(a) <= i32::MAX,
        i32::MIN <= wrap32(b) <= i32::MAX,
{
    let k = (a + 0x8000_0000) / 0x1_0000_0000 - (b + 0x8000_0000) / 0x1_0000_0000;
    assert((wrap32(a) - wrap32(b)) - (a - b) == -k * 0x1_0000_0000);
}

/// Without wrapping around, the vector of a partition is that of the partition without a coded
/// difference, plus the difference.
pub proof fn law_vector_is_prediction_plus_difference(
    a: InterPartition,
    b: InterPartition,
    g: GridV,
    addr: int,
    slice_id: int,
    list: u8,
)
    requires
        list <= 1,
        same_but_difference(a, b),
        a.mode !is Direct,
        difference(b, list) == (0i32, 0i32),
        ({
            let (u, d) = (vector(b, g, addr, slice_id, list), difference(a, list));
            &&& i32::MIN <= u.x + d.0 <= i32::MAX
            &&& i32::MIN <= u.y + d.1 <= i32::MAX
        }),
    ensures
        ({
            let (v, u) = (vector(a, g, addr, slice_id, list), vector(b, g, addr, slice_id, list));
            let d = difference(a, list);
            v.x == u.x + d.0 && v.y == u.y + d.1
        }),
{
    lemma_base(a, g, addr, slice_id);
    lemma_base(b, g, addr, slice_id);
    lemma_same_base(a, b, g, addr, slice_id, list);
    let p = base(a, g, addr, slice_id, list);
    let d = difference(a, list);
    lemma_no_wrap(p.x as int);
    lemma_no_wrap(p.y as int);
    assert(vector(b, g, addr, slice_id, list) == p);
    lemma_no_wrap(p.x + d.0);
    lemma_no_wrap(p.y + d.1);
}

proof fn lemma_no_wrap(a: int)
    requires
        i32::MIN <= a <= i32::MAX,
    ensures
        wrap32(a) == a,
{
}

/// The list takes part in the prediction of a partition.
pub open spec fn in_use(part: InterPartition, list: u8) -> bool {
    if list == 0 {
        part.mode !is L1Only && part.ref_idx_l0 >= 0
    } else {
        part.mode !is L0Only && part.ref_idx_l1 >= 0
    }
}

/// The middle one of three values.
pub open spec fn middle(a: int, b: int, c: int) -> int {
    let lo = if a <= b && a <= c {
        a
    } else if b <= c {
        b
    } else {
        c
    };
    let hi = if a >= b && a >= c {
        a
    } else if b >= c {
        b
    } else {
        c
    };
    a + b + c - lo - hi
}

/// The prediction of a vector: halves of a macroblock take that of the neighbour on their outer
/// side where it has the same reference; else a neighbour that is the only one available or the
/// only one with the same reference decides, else the middle of the three vectors, left, above and
/// above-right, with above-left in place of above-right where that is not available.
pub proof fn law_vector_from_neighbours(
    part: InterPartition,
    g: GridV,
    addr: int,
    slice_id: int,
    list: u8,
)
    requires
        list <= 1,
        part.precomputed_mv is None,
        part.mode !is Direct,
        !part.is_skip,
        in_use(part, list),
        difference(part, list) == (0i32, 0i32),
    ensures
        ({
            let (x, y, w) = (part.x as int, part.y as int, part.w as int);
            let a = neighbour_mv(g, addr, x - 1, y, list, slice_id);
            let b = neighbour_mv(g, addr, x, y - 1, list, slice_id);
            let right = neighbour_mv(g, addr, x + w, y - 1, list, slice_id);
            let left = neighbour_mv(g, addr, x - 1, y - 1, list, slice_id);
            let c = if right.partition_available {
                right
            } else {
                left
            };
            let r = if list == 0 {
                part.ref_idx_l0 as int
            } else {
                part.ref_idx_l1 as int
            };
            let v = vector(part, g, addr, slice_id, list);
            let top = part.shape is Partition16x8Top && b.ref_idx == r;
            let bottom = part.shape is Partition16x8Bottom && a.ref_idx == r;
            let west = part.shape is Partition8x16Left && a.ref_idx == r;
            let east = part.shape is Partition8x16Right && c.ref_idx == r;
            &&& top ==> v == b.mv
            &&& bottom ==> v == a.mv
            &&& west ==> v == a.mv
            &&& east ==> v == c.mv
            &&& !top && !bottom && !west && !east ==> {
                let only_a = a.partition_available && !b.partition_available
                    && !c.partition_available;
                let (ma, mb, mc) = (a.ref_idx == r, b.ref_idx == r, c.ref_idx == r);
                &&& only_a ==> v == a.mv
                &&& !only_a && ma && !mb && !mc ==> v == a.mv
                &&& !only_a && !ma && mb && !mc ==> v == b.mv
                &&& !only_a && !ma && !mb && mc ==> v == c.mv
                &&& !only_a && ((ma && mb) || (ma && mc) || (mb && mc) || (!ma && !mb && !mc)) ==> {
                    &&& v.x == middle(a.mv.x as int, b.mv.x as int, c.mv.x as int)
                    &&& v.y == middle(a.mv.y as int, b.mv.y as int, c.mv.y as int)
                }
            }
        }),
{
    reveal(partition_mvs);
}

/// A list that a partition does not use has the coded difference alone for its vector.
pub proof fn law_unused_list_has_no_prediction(
    part: InterPartition,
    g: GridV,
    addr: int,
    slice_id: int,
    list: u8,
)
    requires
        list <= 1,
        part.precomputed_mv is None,
        part.mode !is Direct,
        !part.is_skip,
        !in_use(part, list),
    ensures
        vector(part, g, addr, slice_id, list).x == difference(part, list).0,
        vector(part, g, addr, slice_id, list).y == difference(part, list).1,
{
    reveal(partition_mvs);
}

/// The vector of a skipped macroblock of a P slice: none at the border of the slice or next to a
/// neighbour at rest, else that of a 16x16 partition with the first reference.
pub proof fn law_skip_vector(
    part: InterPartition,
    plain: InterPartition,
    g: GridV,
    addr: int,
    slice_id: int,
)
    requires
        part.is_skip,
        part.mode is L0Only,
        part.w == 16 && part.h == 16 && part.x == 0 && part.y == 0,
        part.precomputed_mv is None,
        part.ref_idx_l0 == 0,
        part.shape is Default,
        part.mvd_l0 == (0i32, 0i32),
        plain == (InterPartition { is_skip: false, ..part }),
    ensures
        ({
            let a = neighbour_mv(g, addr, -1, 0, 0, slice_id);
            let b = neighbour_mv(g, addr, 0, -1, 0, slice_id);
            let rests = |n: NeighbourMv| n.ref_idx == 0 && n.mv.x == 0 && n.mv.y == 0;
            let v = vector(part, g, addr, slice_id, 0);
            if !a.mb_available || !b.mb_available || rests(a) || rests(b) {
                v.x == 0 && v.y == 0
            } else {
                v == vector(plain, g, addr, slice_id, 0)
            }
        }),
{
    reveal(partition_mvs);
}

/// Vectors that were derived before are taken as they are.
pub proof fn law_derived_vectors_are_kept(
    part: InterPartition,
    g: GridV,
    addr: int,
    slice_id: int,
)
    requires
        part.precomputed_mv is Some,
    ensures
        partition_mvs(part, g, addr, slice_id) == part.precomputed_mv->0,
{
    reveal(partition_mvs);
}

/// Number of the 4x4 block in a block column and row: four in each quarter of the macroblock.
pub open spec fn z_order(column: int, row: int) -> int {
    8 * (row / 2) + 4 * (column / 2) + 2 * (row % 2) + column % 2
}

/// In a picture that is not MBAFF, the motion at a luma position beside a macroblock is that of the
/// block of the picture that covers it, if its macroblock was decoded, belongs to the slice, is
/// not intra and uses the list.
pub proof fn law_neighbour_motion(
    g: GridV,
    addr: int,
    dx: int,
    dy: int,
    list: u8,
    slice_id: int,
)
    requires
        !g.mbaff,
        g.w >= 1,
        0 <= addr < g.info.len(),
        -16 <= dx < 32,
        -16 <= dy < 16,
        list <= 1,
        ({
            let (x, y) = (16 * (addr % g.w) + dx, 16 * (addr / g.w) + dy);
            let n = (y / 16) * g.w + x / 16;
            let i = g.info[n];
            &&& 0 <= x < 16 * g.w && 0 <= y
            &&& 0 <= n < g.info.len()
            &&& n != addr ==> i.available && (slice_id < 0 || i.slice_id < 0 || i.slice_id
                == slice_id)
            &&& !i.is_intra
            &&& z_order((x % 16) / 4, (y % 16) / 4) >= 0
            &&& (if list == 0 {
                i.ref_idx_l0[2 * ((y % 16) / 8) + (x % 16) / 8]
            } else {
                i.ref_idx_l1[2 * ((y % 16) / 8) + (x % 16) / 8]
            }) >= 0
        }),
    ensures
        ({
            let (x, y) = (16 * (addr % g.w) + dx, 16 * (addr / g.w) + dy);
            let n = (y / 16) * g.w + x / 16;
            let i = g.info[n];
            let z = z_order((x % 16) / 4, (y % 16) / 4);
            let q = 2 * ((y % 16) / 8) + (x % 16) / 8;
            let r = neighbour_mv(g, addr, dx, dy, list, slice_id);
            let (mv, ref_idx) = if list == 0 {
                (i.mv_l0[z], i.ref_idx_l0[q])
            } else {
                (i.mv_l1[z], i.ref_idx_l1[q])
            };
            &&& r.mb_available && r.partition_available
            &&& r.ref_idx == ref_idx
            &&& r.mv.x == mv.0 && r.mv.y == mv.1
        }),
{
    reveal(neighbour_mv);
    let (x, y) = (16 * (addr % g.w) + dx, 16 * (addr / g.w) + dy);
    assert(x / 16 == addr % g.w + dx / 16 && y / 16 == addr / g.w + dy / 16);
    assert(x % 16 == dx % 16 && y % 16 == dy % 16);
}

/// There is no motion beyond the left, upper and right border of the picture, nor in macroblocks
/// of other slices or not decoded.
pub proof fn law_no_motion_outside(
    g: GridV,
    addr: int,
    dx: int,
    dy: int,
    list: u8,
    slice_id: int,
)
    requires
        !g.mbaff,
        g.w >= 1,
        0 <= addr < g.info.len(),
        -16 <= dx < 32,
        -16 <= dy < 16,
        ({
            let (x, y) = (16 * (addr % g.w) + dx, 16 * (addr / g.w) + dy);
            let n = (y / 16) * g.w + x / 16;
            x < 0 || y < 0 || x >= 16 * g.w || n >= g.info.len() || (n != addr && (
            !g.info[n].available || (slice_id >= 0 && g.info[n].slice_id >= 0
                && g.info[n].slice_id != slice_id)))
        }),
    ensures
        ({
            let r = neighbour_mv(g, addr, dx, dy, list, slice_id);
            &&& !r.mb_available && !r.partition_available
            &&& r.ref_idx == -1
            &&& r.mv.x == 0 && r.mv.y == 0
        }),
{
    reveal(neighbour_mv);
    let (x, y) = (16 * (addr % g.w) + dx, 16 * (addr / g.w) + dy);
    assert(x / 16 == addr % g.w + dx / 16 && y / 16 == addr / g.w + dy / 16);
    assert(x % 16 == dx % 16 && y % 16 == dy % 16);
    crate::mb_address::lemma_div_mod_bound(addr, g.w);
    if x >= 0 && y >= 0 && x < 16 * g.w {
        let n = (y / 16) * g.w + x / 16;
        assert(n >= 0) by (nonlinear_arith)
            requires
                n == (y / 16) * g.w + x / 16,
                y / 16 >= 0,
                x / 16 >= 0,
                g.w >= 1,
        ;
    }
}

/// An intra macroblock is available as a neighbour, but has no motion.
pub proof fn law_intra_neighbour_has_no_motion(
    g: GridV,
    addr: int,
    dx: int,
    dy: int,
    list: u8,
    slice_id: int,
)
    requires
        !g.mbaff,
        g.w >= 1,
        0 <= addr < g.info.len(),
        -16 <= dx < 32,
        -16 <= dy < 16,
        ({
            let (x, y) = (16 * (addr % g.w) + dx, 16 * (addr / g.w) + dy);
            let n = (y / 16) * g.w + x / 16;
            let i = g.info[n];
            &&& 0 <= x < 16 * g.w && 0 <= y
            &&& 0 <= n < g.info.len()
            &&& n != addr ==> i.available && (slice_id < 0 || i.slice_id < 0 || i.slice_id
                == slice_id)
            &&& i.is_intra
        }),
    ensures
        ({
            let r = neighbour_mv(g, addr, dx, dy, list, slice_id);
            &&& r.mb_available && r.partition_available
            &&& r.ref_idx == -1
            &&& r.mv.x == 0 && r.mv.y == 0
        }),
{
    reveal(neighbour_mv);
    let (x, y) = (16 * (addr % g.w) + dx, 16 * (addr / g.w) + dy);
    assert(x / 16 == addr % g.w + dx / 16 && y / 16 == addr / g.w + dy / 16);
    assert(x % 16 == dx % 16 && y % 16 == dy % 16);
}

/// A partition leaves its vectors and references in the record of its macroblock, in every 4x4 and
/// 8x8 block that it covers, and nothing elsewhere.
pub proof fn law_motion_is_recorded(
    g: GridV,
    p: PredV,
    a: InterArgs,
    part: InterPartition,
    column: int,
    row: int,
)
    requires
        part.wf(),
        part.w >= 8 ==> part.x % 8 == 0,
        part.h >= 8 ==> part.y % 8 == 0,
        a.addr < g.info.len(),
        0 <= column < 4,
        0 <= row < 4,
        ({
            let i = g.info[a.addr as int];
            i.mv_l0.len() == 16 && i.mv_l1.len() == 16 && i.ref_idx_l0.len() == 4
                && i.ref_idx_l1.len() == 4
        }),
    ensures
        ({
            let before = g.info[a.addr as int];
            let after = partition_step(g, p, a, part).0.info[a.addr as int];
            let z = z_order(column, row);
            let q = 2 * (row / 2) + column / 2;
            let covered = part.x <= 4 * column < part.x + part.w && part.y <= 4 * row < part.y
                + part.h;
            let v0 = vector(part, g, a.addr as int, a.slice_id as int, 0);
            let v1 = vector(part, g, a.addr as int, a.slice_id as int, 1);
            &&& after.mv_l0[z] == if covered && part.mode !is L1Only {
                (v0.x as i16, v0.y as i16)
            } else {
                before.mv_l0[z]
            }
            &&& after.mv_l1[z] == if covered && part.mode !is L0Only {
                (v1.x as i16, v1.y as i16)
            } else {
                before.mv_l1[z]
            }
            &&& covered && part.mode !is L1Only ==> after.ref_idx_l0[q] == part.ref_idx_l0
            &&& covered && part.mode !is L0Only ==> after.ref_idx_l1[q] == part.ref_idx_l1
            &&& covered && part.mode !is L1Only && part.ref_idx_l0 >= 0 ==> after.ref_poc_l0[q]
                == ref_key(a, 0, part.ref_idx_l0)
            &&& covered && part.mode !is L0Only && part.ref_idx_l1 >= 0 ==> after.ref_poc_l1[q]
                == ref_key(a, 1, part.ref_idx_l1)
            &&& {
                let (x, y) = (8 * (column / 2), 8 * (row / 2));
                let beside = part.x >= x + 8 || part.x + part.w <= x || part.y >= y + 8 || part.y
                    + part.h <= y;
                beside ==> after.ref_idx_l0[q] == before.ref_idx_l0[q] && after.ref_idx_l1[q]
                    == before.ref_idx_l1[q] && after.ref_poc_l0[q] == before.ref_poc_l0[q]
                    && after.ref_poc_l1[q] == before.ref_poc_l1[q]
            }
        }),
{
    reveal(partition_step);
    crate::geometry::law_blk4_inverts_positions(z_order(column, row));
    let z = z_order(column, row);
    assert(crate::geometry::LUMA_4X4_XY[z].0 == 4 * column);
    assert(crate::geometry::LUMA_4X4_XY[z].1 == 4 * row);
    assert(0 <= z < 16);
    let q = 2 * (row / 2) + column / 2;
    assert(0 <= q < 4 && q % 2 == column / 2 && q / 2 == row / 2);
    let covered = part.x <= 4 * column < part.x + part.w && part.y <= 4 * row < part.y + part.h;
    assert(covers4(part, z) == covered);
    assert(covered ==> covers8(part, q));
    let i = g.info[a.addr as int];
    let mvs = partition_mvs(part, g, a.addr as int, a.slice_id as int);
    let r = with_motion(i, a, part, mvs);
    assert(partition_step(g, p, a, part).0.info[a.addr as int] == r);
    let m = mvs_entered(i, part, mvs);
    assert(r.mv_l0 == m.mv_l0 && r.mv_l1 == m.mv_l1);
}

/// In temporal direct prediction the two vectors of a block differ by the vector of the co-located
/// block: the motion is split between the references, in proportion to their distances.
pub proof fn law_temporal_vectors_split_motion(
    refs: RefsV,
    cur: CurPic,
    g: GridV,
    addr: int,
    blk: int,
)
    requires
        cur.coding_struct is Frm,
        0 <= addr <= MAX_ADDR,
        0 <= blk < 16,
        (refs.pair_field)(1, 0, false) is None,
        (refs.pic)(1, 0) is Some,
        (refs.pic)(1, 0)->0.coding_struct !is Fld,
        temporal_direct(refs, cur, g, addr, blk) is Some,
    ensures
        ({
            let c = (refs.pic)(1, 0)->0;
            let (r, a, b) = temporal_direct(refs, cur, g, addr, blk)->0;
            let l0 = crate::picture::colocated_of(c, 0, addr, blk);
            let l1 = crate::picture::colocated_of(c, 1, addr, blk);
            match (l0, l1) {
                (Some((m0, r0, intra)), Some((m1, r1, _))) => {
                    let m = if intra {
                        (0i16, 0i16)
                    } else if r0 >= 0 {
                        m0
                    } else if r1 >= 0 {
                        m1
                    } else {
                        (0i16, 0i16)
                    };
                    a.x - b.x == m.0 && a.y - b.y == m.1
                },
                _ => a.x == b.x && a.y == b.y,
            }
        }),
{
    reveal(temporal_direct);
    let xy = crate::geometry::LUMA_4X4_XY[blk];
    crate::geometry::law_blk4_inverts_positions(blk);
    let c = (refs.pic)(1, 0)->0;
    let (mv0, ref_idx, used_l1) = col_motion(c, addr, blk);
    let mv = scaled_col_mv(mv0, crate::direct::VertMvScale::OneToOne);
    let field = cur_mb_field(cur, g, addr);
    let cs = c.coding_struct;
    let rr = direct_ref(
        refs,
        cur,
        field,
        addr,
        crate::direct::VertMvScale::OneToOne,
        c,
        cs,
        addr,
        ref_idx,
        used_l1,
    );
    if let Some((p, poc1, poc0, lt)) = direct_pocs(refs, cur, field, addr, c, rr) {
        lemma_scaled(mv, p, poc1, poc0, lt);
    }
}

/// The first vector is the motion times the ratio of the distances, in units of 1/256, rounded.
proof fn lemma_scaled(mv: Mv, cur: int, poc1: int, poc0: int, lt: bool)
    requires
        -0x1_0000 <= mv.x <= 0x1_0000,
        -0x1_0000 <= mv.y <= 0x1_0000,
    ensures
        ({
            let (a, b) = scaled_mvs(mv, cur, poc1, poc0, lt);
            a.x - b.x == mv.x && a.y - b.y == mv.y
        }),
{
    if !lt && poc1 != poc0 {
        let tb = crate::math::clip3(-128, 127, cur - poc0);
        let td = crate::math::clip3(-128, 127, poc1 - poc0);
        let s = dist_scale(tb, td);
        assert(-1024 <= s <= 1023);
        assert(-0x800_0000 <= s * mv.x <= 0x800_0000) by (nonlinear_arith)
            requires
                -1024 <= s <= 1023,
                -0x1_0000 <= mv.x <= 0x1_0000,
        ;
        assert(-0x800_0000 <= s * mv.y <= 0x800_0000) by (nonlinear_arith)
            requires
                -1024 <= s <= 1023,
                -0x1_0000 <= mv.y <= 0x1_0000,
        ;
    }
}

/// The scale of temporal direct vectors and of implicit weights: `tb / td` in units of 1/256, from
/// a rounded reciprocal of `td` in units of `1/2^14`, limited to four either way.
pub proof fn law_distance_ratio(tb: int, td: int, inverse: int)
    requires
        1 <= td <= 127,
        -128 <= tb <= 127,
        inverse * td <= 16384 + td / 2 < (inverse + 1) * td,
    ensures
        ({
            let ratio = (tb * inverse + 32) / 64;
            dist_scale(tb, td) == if ratio < -1024 {
                -1024
            } else if ratio > 1023 {
                1023
            } else {
                ratio
            }
        }),
{
    let n = 16384 + td / 2;
    assert((inverse + 1) * td == inverse * td + td) by (nonlinear_arith);
    vstd::arithmetic::div_mod::lemma_fundamental_div_mod_converse(
        n,
        td,
        inverse,
        n - inverse * td,
    );
}

/// Going the other way in time changes the sign of the reciprocal.
pub proof fn law_distance_ratio_backwards(tb: int, td: int)
    requires
        1 <= td <= 127,
    ensures
        div_to_zero(16384 + crate::math::abs_of(div_to_zero(-td, 2)), -td) == -div_to_zero(
            16384 + crate::math::abs_of(div_to_zero(td, 2)),
            td,
        ),
{
}

/// In an MBAFF frame, the motion at a location beside a macroblock is that of the block that covers
/// it, in units of the macroblock: over a field macroblock a frame macroblock doubles the vertical
/// part of the vector and halves the index, over a frame macroblock a field macroblock halves the
/// vertical part, towards zero, and doubles the index.
pub proof fn law_mbaff_neighbour_motion(
    g: GridV,
    addr: int,
    dx: int,
    dy: int,
    list: u8,
    slice_id: int,
    n: int,
    x: int,
    y: int,
)
    requires
        g.mbaff,
        list <= 1,
        g.mbaff_location(addr, dx, dy, 16, 16) == Some((n, x, y)),
        0 <= n < g.info.len(),
        n != addr,
        0 <= x < 16,
        0 <= y < 16,
        g.info[n].available,
        !g.info[n].is_intra,
        slice_id < 0 || g.info[n].slice_id < 0 || g.info[n].slice_id == slice_id,
    ensures
        ({
            let i = g.info[n];
            let z = z_order(x / 4, y / 4);
            let q = 2 * (y / 8) + x / 8;
            let r = neighbour_mv(g, addr, dx, dy, list, slice_id);
            let (mv, ref_idx) = if list == 0 {
                (i.mv_l0[z], i.ref_idx_l0[q])
            } else {
                (i.mv_l1[z], i.ref_idx_l1[q])
            };
            let (field, fields) = (g.field_at(addr), i.mb_field_decoding_flag);
            &&& r.mb_available && r.partition_available
            &&& ref_idx < 0 ==> r.ref_idx < 0 && r.mv == (Mv { x: 0, y: 0 })
            &&& ref_idx >= 0 ==> r.mv.x == mv.0
            &&& ref_idx >= 0 && field == fields ==> r.mv.y == mv.1 && r.ref_idx == ref_idx
            &&& ref_idx >= 0 && !field && fields ==> r.mv.y == 2 * mv.1 && r.ref_idx == ref_idx as int
                / 2
            &&& ref_idx >= 0 && field && !fields ==> r.ref_idx == 2 * ref_idx && if mv.1 >= 0 {
                2 * r.mv.y <= mv.1 <= 2 * r.mv.y + 1
            } else {
                2 * r.mv.y - 1 <= mv.1 <= 2 * r.mv.y
            }
        }),
{
    reveal(neighbour_mv);
    assert(z_order(x / 4, y / 4) / 4 == 2 * (y / 8) + x / 8);
}

} // verus!
