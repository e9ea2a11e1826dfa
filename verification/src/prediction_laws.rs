//! Laws of inter prediction: references, weights and the place of partitions.
use crate::error::ErrV;
use crate::filter_laws::luma_of;
use crate::geometry::sub_h;
use crate::inter_partition::{
    chroma_from, chroma_mv, chroma_rect, luma_from, part_ref, partition_pred, placed, resolve,
    takes, weighting, InterArgs, PredV,
};
use crate::inter_pred::{
    combined, combined_at, dist_scale, implicit_weights, law_whole_sample_motion_copies_chroma,
    law_whole_sample_motion_copies_luma, mc_luma, WeightedEntry, Weighting,
};
use crate::intra_block_laws::to_sample;
use crate::math::p2;
use crate::mv_deriv::Mv;
use crate::partition_laws::holds;
use crate::partition_mvs::InterPartition;
use crate::slice_header::PredWeightTable;
use vstd::prelude::*;

verus! {

/// Without weights a prediction from one list is taken as it is, and of predictions from both lists
/// the mean is taken, rounded up.
pub proof fn law_plain_prediction(a: Seq<int>, b: Seq<int>, bd: u32, n: int, k: int)
    requires
        0 <= k < n,
    ensures
        combined(Some(a), None, Weighting::Plain, bd, n)[k] == a[k],
        combined(None, Some(b), Weighting::Plain, bd, n)[k] == b[k],
        combined(Some(a), Some(b), Weighting::Plain, bd, n)[k] == (a[k] + b[k] + 1) / 2,
{
    reveal(combined);
}

/// `v` divided by two to the power `d`, rounded to the nearest integer, is `r`; a half is rounded
/// up.
pub open spec fn is_rounded(r: int, v: int, d: int) -> bool {
    p2(d + 1) * r <= 2 * v + p2(d) < p2(d + 1) * (r + 1)
}

/// A weighted prediction from one list is the product with the weight of that list, divided by the
/// denominator and rounded, plus the offset, limited to the sample range.
pub proof fn law_weighted_prediction(
    a: Seq<int>,
    l0: WeightedEntry,
    l1: WeightedEntry,
    d: u32,
    bd: u32,
    n: int,
    k: int,
    r: int,
)
    requires
        0 <= k < n,
        d <= 30,
        bd >= 1,
        is_rounded(r, a[k] * l0.weight, d as int),
    ensures
        combined(Some(a), None, Weighting::Weighted { l0, l1, log2_wd: d }, bd, n)[k] == to_sample(
            r + l0.offset,
            bd,
        ),
{
    reveal(combined);
    let v = a[k] * l0.weight;
    crate::math::lemma_p2_mono(0, d as int);
    crate::math::lemma_p2_mono(0, bd as int);
    let h = p2(d as int);
    assert(p2(d + 1) == 2 * h);
    if d == 0 {
        assert(h == 1);
        assert(2 * h * r == 2 * r && 2 * h * (r + 1) == 2 * (r + 1));
        assert(v == r);
    } else {
        let half = p2(d - 1);
        assert(h == 2 * half);
        crate::math::lemma_p2_mono(0, d - 1);
        assert(h * r <= v + half < h * (r + 1)) by (nonlinear_arith)
            requires
                2 * h * r <= 2 * v + h < 2 * h * (r + 1),
                h == 2 * half,
        ;
        lemma_quotient(v + half, h, r);
    }
}

proof fn lemma_quotient(v: int, h: int, r: int)
    requires
        h > 0,
        h * r <= v < h * (r + 1),
    ensures
        v / h == r,
{
    assert(h * (r + 1) == h * r + h) by (nonlinear_arith);
    assert(h * r == r * h) by (nonlinear_arith);
    vstd::arithmetic::div_mod::lemma_fundamental_div_mod_converse(v, h, r, v - r * h);
}

/// A prediction from the second list alone is weighted by the entry of the second list.
pub proof fn law_second_list_has_its_weight(
    b: Seq<int>,
    l0: WeightedEntry,
    l1: WeightedEntry,
    d: u32,
    bd: u32,
    n: int,
)
    ensures
        combined(None, Some(b), Weighting::Weighted { l0, l1, log2_wd: d }, bd, n) == combined(
            Some(b),
            None,
            Weighting::Weighted { l0: l1, l1: l0, log2_wd: d },
            bd,
            n,
        ),
{
    reveal(combined);
    assert(combined(None, Some(b), Weighting::Weighted { l0, l1, log2_wd: d }, bd, n) =~= combined(
        Some(b),
        None,
        Weighting::Weighted { l0: l1, l1: l0, log2_wd: d },
        bd,
        n,
    ));
}

/// A weighted prediction from both lists is the sum of the products with the weights, divided by
/// twice the denominator and rounded, plus the mean of the offsets rounded up, limited to the
/// sample range.
pub proof fn law_weighted_mean(
    a: Seq<int>,
    b: Seq<int>,
    l0: WeightedEntry,
    l1: WeightedEntry,
    d: u32,
    bd: u32,
    n: int,
    k: int,
    r: int,
)
    requires
        0 <= k < n,
        d <= 30,
        bd >= 1,
        is_rounded(r, a[k] * l0.weight + b[k] * l1.weight, d + 1),
    ensures
        combined(Some(a), Some(b), Weighting::Weighted { l0, l1, log2_wd: d }, bd, n)[k]
            == to_sample(r + (l0.offset + l1.offset + 1) / 2, bd),
{
    reveal(combined);
    let v = a[k] * l0.weight + b[k] * l1.weight;
    crate::math::lemma_p2_mono(0, d as int);
    crate::math::lemma_p2_mono(0, bd as int);
    let half = p2(d as int);
    let h = p2(d + 1);
    assert(h == 2 * half);
    assert(p2(d + 1 + 1) == 2 * h);
    assert(h * r <= v + half < h * (r + 1)) by (nonlinear_arith)
        requires
            2 * h * r <= 2 * v + h < 2 * h * (r + 1),
            h == 2 * half,
    ;
    lemma_quotient(v + half, h, r);
}

/// Weights from distances: the two add up to the denominator; the second is a quarter of the
/// distance ratio; where that is out of range, where both pictures have the same order count or one
/// is a long-term reference, both are one half.
pub proof fn law_implicit_weights(cur: int, poc0: int, poc1: int, long_term: bool)
    requires
        -128 <= poc1 - poc0 <= 127,
        -128 <= cur - poc0 <= 127,
    ensures
        ({
            let (w0, w1) = implicit_weights(cur, poc0, poc1, long_term);
            let ratio = dist_scale(cur - poc0, poc1 - poc0);
            &&& w0 + w1 == 64
            &&& long_term || poc0 == poc1 ==> w0 == 32
            &&& !long_term && poc0 != poc1 && -256 <= ratio < 516 ==> 4 * w1 <= ratio < 4 * (w1 + 1)
            &&& !long_term && poc0 != poc1 && (ratio < -256 || ratio >= 516) ==> w1 == 32
        }),
{
}

/// An entry of the luma weight table: the coded weight and offset, or else weight one.
pub open spec fn is_luma_entry(e: WeightedEntry, t: PredWeightTable, second: bool, i: int) -> bool {
    let table = if second {
        t.luma_weights_l1@
    } else {
        t.luma_weights_l0@
    };
    &&& 0 <= i < table.len() && table[i] is Some ==> (e.weight, e.offset) == table[i]->0
    &&& 0 <= i < table.len() && table[i] is None ==> e.weight == p2(
        t.luma_log2_weight_denom as int,
    ) as i32 && e.offset == 0
}

/// An entry of the chroma weight table, for Cb (0) or Cr (1).
pub open spec fn is_chroma_entry(
    e: WeightedEntry,
    t: PredWeightTable,
    second: bool,
    c: int,
    i: int,
) -> bool {
    let table = if second {
        t.chroma_weights_l1@
    } else {
        t.chroma_weights_l0@
    };
    &&& 0 <= i < table.len() && table[i] is Some ==> (e.weight, e.offset) == (table[i]->0)@[c]
    &&& 0 <= i < table.len() && table[i] is None ==> e.weight == p2(
        t.chroma_log2_weight_denom as int,
    ) as i32 && e.offset == 0
}

/// Explicit weights come from the tables of the slice, each list and each plane from its own, at
/// the reference index of the partition; field macroblocks of a frame use the entry of the frame.
pub proof fn law_explicit_weights(a: InterArgs, part: InterPartition, plane: int)
    requires
        0 <= plane <= 2,
        a.sh.pred_weight_table is Some,
        ((a.sh.slice_type is P || a.sh.slice_type is SP) && a.pps.weighted_pred_flag) || (
        a.sh.slice_type is B && a.pps.weighted_bipred_idc == 1),
    ensures
        weighting(a, part, plane) matches Weighting::Weighted { l0, l1, log2_wd } && ({
            let t = a.sh.pred_weight_table->0;
            let (r0, r1) = (part.ref_idx_l0 as int, part.ref_idx_l1 as int);
            let (i0, i1) = if a.parity is Some {
                (r0 / 2, r1 / 2)
            } else {
                (r0, r1)
            };
            &&& log2_wd == if plane == 0 {
                t.luma_log2_weight_denom
            } else {
                t.chroma_log2_weight_denom
            }
            &&& plane == 0 && r0 >= 0 ==> is_luma_entry(l0, t, false, i0)
            &&& plane == 0 && r1 >= 0 ==> is_luma_entry(l1, t, true, i1)
            &&& plane > 0 && r0 >= 0 ==> is_chroma_entry(l0, t, false, plane - 1, i0)
            &&& plane > 0 && r1 >= 0 ==> is_chroma_entry(l1, t, true, plane - 1, i1)
        }),
{
}

/// Which weights are in force: explicit ones as the parameter set and slice say; weights from
/// distances only for partitions with both lists of B slices that ask for them; else none.
pub proof fn law_weights_in_force(a: InterArgs, part: InterPartition, plane: int)
    ensures
        ({
            let p = a.sh.slice_type is P || a.sh.slice_type is SP;
            let b = a.sh.slice_type is B;
            let explicit = (p && a.pps.weighted_pred_flag) || (b && a.pps.weighted_bipred_idc == 1);
            let both = !(part.mode is L0Only) && !(part.mode is L1Only) && part.ref_idx_l0 >= 0
                && part.ref_idx_l1 >= 0;
            let w = weighting(a, part, plane);
            &&& !(b && a.pps.weighted_bipred_idc == 2) && !explicit ==> w is Plain
            &&& !explicit && !both ==> w is Plain
            &&& b && a.pps.weighted_bipred_idc == 2 && both ==> match (
                resolve(a, 0, part.ref_idx_l0),
                resolve(a, 1, part.ref_idx_l1),
            ) {
                (Ok((p0, _)), Ok((p1, _))) => w matches Weighting::Weighted { l0, l1, log2_wd }
                    && log2_wd == 5 && l0.offset == 0 && l1.offset == 0 && ({
                    let (w0, w1) = implicit_weights(
                        a.cur.poc as int,
                        p0.pic_order_cnt as int,
                        p1.pic_order_cnt as int,
                        false,
                    );
                    l0.weight == w0 as i32 && l1.weight == w1 as i32
                }),
                _ => w is Plain,
            }
        }),
{
}

/// The picture a reference index names: that of the list at the index; a field macroblock of a
/// frame counts fields, those of its own parity at even indices.
pub proof fn law_reference_picture(a: InterArgs, list: u8, ref_idx: i8)
    requires
        ref_idx >= 0,
        a.parity matches Some(p) ==> p <= 1,
    ensures
        match a.parity {
            None => match (a.refs.pic)(list, ref_idx as u32) {
                Some(p) => resolve(a, list, ref_idx) matches Ok((q, f)) && q == p && f is None,
                None => resolve(a, list, ref_idx) is Err,
            },
            Some(own) => match (a.refs.pic)(list, (ref_idx as int / 2) as u32) {
                Some(p) => resolve(a, list, ref_idx) matches Ok((q, f)) && q == p && f is Some
                    && f->0 <= 1 && ((f->0 == own) == (ref_idx as int % 2 == 0)),
                None => resolve(a, list, ref_idx) is Err,
            },
        },
{
}

/// The luma prediction of a partition fills its rectangle, row by row, with the combination of what
/// the lists predict; the rest of the macroblock stays.
pub proof fn law_partition_fills_its_rectangle(
    a: InterArgs,
    part: InterPartition,
    mvs: (Mv, Mv),
    p: PredV,
    x: int,
    y: int,
)
    requires
        part.wf(),
        p.luma.len() == 256,
        0 <= x < 16,
        0 <= y < 16,
    ensures
        partition_pred(a, part, mvs, p) matches Ok(r) ==> r.luma.len() == 256 && (match (
            luma_from(a, part, mvs.0, 0),
            luma_from(a, part, mvs.1, 1),
        ) {
            (Ok(y0), Ok(y1)) => r.luma[16 * y + x] == if holds(part, x, y) {
                let k = (y - part.y) * part.w + (x - part.x);
                combined_at(
                    crate::inter_pred::sample_of(y0, k),
                    crate::inter_pred::sample_of(y1, k),
                    weighting(a, part, 0),
                    (8 + a.sps.bit_depth_luma_minus8) as u32,
                )
            } else {
                p.luma[16 * y + x]
            },
            _ => false,
        }),
{
    reveal(placed);
    reveal(combined);
    let k = 16 * y + x;
    assert(k % 16 == x && k / 16 == y);
    if holds(part, x, y) {
        let (dx, dy) = (x - part.x, y - part.y);
        crate::neighbours::lemma_raster(dx, dy, part.w as int, part.h as int);
        assert(part.w * part.h == part.h * part.w) by (nonlinear_arith);
    }
}

/// A chroma sample belongs to the partition that the luma sample at its place belongs to.
pub proof fn law_chroma_follows_luma(cat: u32, part: InterPartition, x: int, y: int)
    requires
        part.wf(),
        cat == 1 || cat == 2 || cat == 3,
    ensures
        ({
            let (cx, cy, w, h) = chroma_rect(cat, part);
            let lx = if cat == 3 {
                x
            } else {
                2 * x
            };
            let ly = if cat == 1 {
                2 * y
            } else {
                y
            };
            (cx <= x < cx + w && cy <= y < cy + h) == holds(part, lx, ly)
        }),
{
}

/// Chroma vectors: only in 4:2:0, and only between fields of different parity, they are moved
/// vertically, by a quarter of a chroma row: down towards a top field, up towards a bottom field.
pub proof fn law_chroma_vector(a: InterArgs, mv: Mv, list: u8, ref_idx: i8, field: Option<u8>)
    requires
        -0x4000_0000 <= mv.y <= 0x4000_0000,
        a.parity is Some ==> field is Some,
    ensures
        ({
            let r = chroma_mv(a, mv, list, ref_idx, field);
            let own = match a.parity {
                Some(p) => p as int,
                None => if a.sh.bottom_field_flag {
                    1int
                } else {
                    0int
                },
            };
            let fields = a.parity is Some || a.sh.field_pic_flag;
            &&& r.x == mv.x
            &&& a.sps.cat() != 1 || !fields ==> r == mv
            &&& field matches Some(t) ==> a.sps.cat() == 1 && fields ==> r.y - mv.y == if own == t {
                0int
            } else if t == 0 {
                2int
            } else {
                -2int
            }
        }),
{
}

/// An unweighted partition of a frame macroblock that predicts from one list without motion copies
/// the samples of its own place from the reference: from Cb for Cb, from Cr for Cr.
#[verifier::spinoff_prover]
#[verifier::rlimit(60)]
pub proof fn law_partition_at_rest_copies_chroma(
    a: InterArgs,
    part: InterPartition,
    mvs: (Mv, Mv),
    p: PredV,
    q: PredV,
    list: u8,
    x: int,
    y: int,
)
    requires
        part.wf(),
        list <= 1,
        takes(part, list),
        !takes(part, (1 - list) as u8),
        weighting(a, part, 1) is Plain,
        weighting(a, part, 2) is Plain,
        partition_pred(a, part, mvs, p) == Ok::<PredV, ErrV>(q),
        a.parity is None,
        !a.sh.field_pic_flag,
        a.sps.cat() == 1 || a.sps.cat() == 2 || a.sps.cat() == 3,
        (if list == 0 {
            mvs.0
        } else {
            mvs.1
        }) == (Mv { x: 0, y: 0 }),
        0 <= x < (if a.sps.cat() == 3 {
            16int
        } else {
            8int
        }),
        0 <= y < (if a.sps.cat() == 1 {
            8int
        } else {
            16int
        }),
        holds(part, luma_of(sub_w(a), x), luma_of(sub_h(a.sps.cat()), y)),
        p.cb.len() == (if a.sps.cat() == 1 {
            64int
        } else if a.sps.cat() == 2 {
            128int
        } else {
            256int
        }),
        p.cr.len() == p.cb.len(),
    ensures
        match resolve(a, list, part_ref(part, list)) {
            Ok((r, f)) => {
                let w: int = if a.sps.cat() == 3 {
                    16
                } else {
                    8
                };
                let (ax, ay) = (
                    if a.sps.cat() == 3 {
                        a.mb_px as int
                    } else {
                        a.mb_px as int / 2
                    },
                    if a.sps.cat() == 1 {
                        a.mb_py as int / 2
                    } else {
                        a.mb_py as int
                    },
                );
                let k = w * y + x;
                &&& q.cb[k] == r.cb@.get(ax + x, ay + y)
                &&& q.cr[k] == r.cr@.get(ax + x, ay + y)
            },
            Err(_) => false,
        },
{
    let cat = a.sps.cat();
    let (cx, cy, w, h) = chroma_rect(cat, part);
    let stride: int = if cat == 3 {
        16
    } else {
        8
    };
    law_chroma_follows_luma(cat, part, x, y);
    let (dx, dy) = (x - cx, y - cy);
    let j = dy * w + dx;
    crate::neighbours::lemma_raster(dx, dy, w, h);
    if let Ok((r, f)) = resolve(a, list, part_ref(part, list)) {
        let bd = (8 + a.sps.bit_depth_chroma_minus8) as u32;
        let c = crate::inter_partition::chroma_from(
            a,
            part,
            Mv { x: 0, y: 0 },
            list,
        )->Ok_0->0;
        lemma_at_rest(a, part, list, r, f, dx, dy);
        lemma_placed_alone(p.cb, stride, cx, cy, w, h, c.0, list, bd, x, y);
        lemma_placed_alone(p.cr, stride, cx, cy, w, h, c.1, list, bd, x, y);
    }
}

/// What one list predicts alone, unweighted, is placed row by row.
proof fn lemma_placed_alone(
    buf: Seq<int>,
    stride: int,
    x0: int,
    y0: int,
    w: int,
    h: int,
    vals: Seq<int>,
    list: u8,
    bd: u32,
    x: int,
    y: int,
)
    requires
        stride == 8 || stride == 16,
        0 <= x < stride,
        0 <= y && stride * y + x < buf.len(),
        x0 <= x < x0 + w,
        y0 <= y < y0 + h,
    ensures
        ({
            let (a, b) = if list == 0 {
                (Some(vals), None)
            } else {
                (None, Some(vals))
            };
            placed(buf, stride, x0, y0, w, h, combined(a, b, Weighting::Plain, bd, w * h))[stride * y
                + x] == vals[(y - y0) * w + (x - x0)]
        }),
{
    reveal(placed);
    reveal(combined);
    let k = stride * y + x;
    assert(k % stride == x && k / stride == y) by {
        if stride == 16 {
            assert(k == 16 * y + x);
        } else {
            assert(k == 8 * y + x);
        }
    }
    crate::neighbours::lemma_raster(x - x0, y - y0, w, h);
}

proof fn lemma_at_rest(
    a: InterArgs,
    part: InterPartition,
    list: u8,
    r: crate::picture::Picture,
    f: Option<u8>,
    dx: int,
    dy: int,
)
    requires
        takes(part, list),
        a.parity is None,
        !a.sh.field_pic_flag,
        a.sps.cat() == 1 || a.sps.cat() == 2 || a.sps.cat() == 3,
        resolve(a, list, part_ref(part, list)) == Ok::<(crate::picture::Picture, Option<u8>), ErrV>(
            (r, f),
        ),
        crate::inter_partition::chroma_from(a, part, Mv { x: 0, y: 0 }, list) is Ok,
        ({
            let (cx, cy, w, h) = chroma_rect(a.sps.cat(), part);
            0 <= dx < w && 0 <= dy < h
        }),
    ensures
        ({
            let (cx, cy, w, h) = chroma_rect(a.sps.cat(), part);
            let (ox, oy) = crate::inter_partition::chroma_origin(a);
            crate::inter_partition::chroma_from(
                a,
                part,
                Mv { x: 0, y: 0 },
                list,
            ) matches Ok(Some(c)) && c.0[dy * w + dx] == r.cb@.get(ox + cx + dx, oy + cy + dy)
                && c.1[dy * w + dx] == r.cr@.get(ox + cx + dx, oy + cy + dy)
        }),
{
    let cat = a.sps.cat();
    let (cx, cy, w, h) = chroma_rect(cat, part);
    let (ox, oy) = crate::inter_partition::chroma_origin(a);
    let (u, v) = (ox + cx, oy + cy);
    if cat == 3 {
        let bd = (8 + a.sps.bit_depth_chroma_minus8) as u32;
        law_whole_sample_motion_copies_luma(r.cb@, f, bd, u, v, 0, 0, w, h, dx, dy);
        law_whole_sample_motion_copies_luma(r.cr@, f, bd, u, v, 0, 0, w, h, dx, dy);
    } else {
        law_whole_sample_motion_copies_chroma(r.cb@, f, u, v, 0, 0, w, h, dx, dy);
        law_whole_sample_motion_copies_chroma(r.cr@, f, u, v, 0, 0, w, h, dx, dy);
    }
}

/// Luma samples to a chroma sample along a row.
pub open spec fn sub_w(a: InterArgs) -> int {
    if a.sps.cat() == 3 {
        1
    } else {
        2
    }
}

/// Field macroblocks of a frame are predicted in rows of the field: the row of the frame that a
/// macroblock of its parity starts at is twice that, plus its parity. Chroma starts at the same
/// place, in its own rows.
pub proof fn law_rows_of_field_macroblocks(a: InterArgs)
    requires
        a.parity matches Some(p) ==> p <= 1 && a.mb_py as int % 2 == p,
        a.parity is None ==> a.mb_py as int % 2 == 0,
        a.mb_px as int % 2 == 0,
    ensures
        ({
            let row = crate::inter_partition::mc_row(a);
            let (x, y) = crate::inter_partition::chroma_origin(a);
            let cat = a.sps.cat();
            &&& a.parity is None ==> row == a.mb_py
            &&& a.parity matches Some(p) ==> 2 * row + p == a.mb_py
            &&& cat == 3 ==> x == a.mb_px && y == row
            &&& cat == 2 ==> 2 * x == a.mb_px && y == row
            &&& cat == 1 && row % 2 == 0 ==> 2 * x == a.mb_px && 2 * y == row
        }),
{
}

/// References are told apart by their pictures: in a frame two indices have the same number exactly
/// if their pictures have the same order count.
pub proof fn law_reference_numbers(a: InterArgs, l: u8, i: i8, m: u8, j: i8)
    requires
        a.parity is None,
        !a.sh.field_pic_flag,
        i >= 0,
        j >= 0,
        a.refs.poc(l, i as u32) matches Some(p) && -0x1000_0000 <= p <= 0x1000_0000,
        a.refs.poc(m, j as u32) matches Some(p) && -0x1000_0000 <= p <= 0x1000_0000,
    ensures
        (crate::inter_partition::ref_key(a, l, i) == crate::inter_partition::ref_key(a, m, j)) == (
        a.refs.poc(l, i as u32) == a.refs.poc(m, j as u32)),
{
}

/// In a field macroblock of a frame two indices have the same number exactly if they name the same
/// field: pictures with the same order count, and the same parity.
pub proof fn law_field_reference_numbers(a: InterArgs, l: u8, i: i8, m: u8, j: i8)
    requires
        a.parity matches Some(p) && p <= 1,
        i >= 0,
        j >= 0,
        a.refs.poc(l, (i as int / 2) as u32) matches Some(p) && -0x1000_0000 <= p <= 0x1000_0000,
        a.refs.poc(m, (j as int / 2) as u32) matches Some(p) && -0x1000_0000 <= p <= 0x1000_0000,
    ensures
        (crate::inter_partition::ref_key(a, l, i) == crate::inter_partition::ref_key(a, m, j)) == (
        a.refs.poc(l, (i as int / 2) as u32) == a.refs.poc(m, (j as int / 2) as u32) && i as int % 2
            == j as int % 2),
{
}

/// A partition takes a prediction from a list where its mode uses the list and it has an index
/// there: from the picture that the index of that list names, at the place of the partition.
pub proof fn law_lists_have_their_references(
    a: InterArgs,
    part: InterPartition,
    mv: Mv,
    second: bool,
)
    ensures
        ({
            let list: u8 = if second {
                1
            } else {
                0
            };
            let r = if second {
                part.ref_idx_l1
            } else {
                part.ref_idx_l0
            };
            let used = r >= 0 && if second {
                !(part.mode is L0Only)
            } else {
                !(part.mode is L1Only)
            };
            let (luma, chroma) = (luma_from(a, part, mv, list), chroma_from(a, part, mv, list));
            let cat = a.sps.cat();
            &&& !used ==> luma is Ok && luma->Ok_0 is None && chroma is Ok && chroma->Ok_0 is None
            &&& used && resolve(a, list, r) is Err ==> luma is Err && chroma is Err
            &&& used ==> match resolve(a, list, r) {
                Ok((p, f)) => {
                    let y = mc_luma(
                        p,
                        a.mb_px + part.x,
                        crate::inter_partition::mc_row(a) + part.y,
                        mv,
                        part.w as int,
                        part.h as int,
                        (8 + a.sps.bit_depth_luma_minus8) as u32,
                        f,
                    );
                    &&& y is Ok == luma is Ok
                    &&& y is Ok ==> luma->Ok_0 == Some(y->Ok_0)
                    &&& (cat == 1 || cat == 2) && chroma is Ok ==> chroma->Ok_0 is Some
                },
                Err(_) => true,
            }
        }),
{
}

} // verus!
