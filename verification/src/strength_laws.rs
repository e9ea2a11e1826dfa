//! Laws of edge strengths and of the filter of one line.
use crate::boundary_strength::{edge_strength, moves_differ, BlockMotion, EdgeCtxV};
use crate::deblock::{filtered, ALPHA, BETA, LineParams, LineV, TC0_1, TC0_2, TC0_3};
use crate::deblock_picture::{
    deblocked, deblocked_chroma, deblocked_full, deblocked_mbaff_chroma, deblocked_mbaff_luma,
    side_qp, DeblockArgs, PlaneFilter,
};
use crate::math::p2;
use crate::mb_grid::MbInfoV;
use crate::motion_laws::z_order;
use crate::picture::PicV;
use crate::transform::chroma_qp;
use vstd::prelude::*;

verus! {

/// A block's prediction from one picture: the picture and the vector.
pub open spec fn uses(m: BlockMotion) -> Seq<(i32, (i16, i16))> {
    (match m.pic0 {
        Some(p) => seq![(p, m.mv0)],
        None => seq![],
    }) + (match m.pic1 {
        Some(p) => seq![(p, m.mv1)],
        None => seq![],
    })
}

/// The same picture, and vectors less than four quarter samples apart; vertically, less than two
/// where they are in units of field lines.
pub open spec fn alike(a: (i32, (i16, i16)), b: (i32, (i16, i16)), field: bool) -> bool {
    let v: int = if field {
        2
    } else {
        4
    };
    let (dx, dy) = (a.1.0 - b.1.0, a.1.1 - b.1.1);
    a.0 == b.0 && -4 < dx < 4 && -v < dy < v
}

/// Two blocks move alike exactly if they are predicted from as many pictures and the predictions
/// can be paired so that each pair is alike, whichever lists they come from.
pub proof fn law_motion_is_paired(p: BlockMotion, q: BlockMotion, field: bool)
    ensures
        ({
            let (a, b) = (uses(p), uses(q));
            moves_differ(p, q, field) == !(a.len() == b.len() && (a.len() == 0 || (a.len() == 1
                && alike(a[0], b[0], field)) || (a.len() == 2 && ((alike(a[0], b[0], field)
                && alike(a[1], b[1], field)) || (alike(a[0], b[1], field) && alike(
                a[1],
                b[0],
                field,
            ))))))
        }),
{
}

/// A bit of a mask of 4x4 blocks, by the block's place in the macroblock.
pub open spec fn bit_at(mask: int, column: int, row: int) -> bool {
    mask / p2(z_order(column, row)) % 2 == 1
}

/// The strength of an edge between decoded macroblocks: next to intra samples or in a switching
/// slice 4 between macroblocks and 3 inside them, but 3 across horizontal edges of fields; else 2
/// next to a block with coefficients, 1 where the blocks move differently or a frame macroblock
/// meets a field macroblock, and 0 otherwise.
pub proof fn law_edge_strength(
    c: EdgeCtxV,
    p: int,
    q: int,
    pin: (int, int),
    qin: (int, int),
    vertical: bool,
)
    requires
        0 <= p < c.g.info.len(),
        0 <= q < c.g.info.len(),
        0 <= pin.0 < 16 && 0 <= pin.1 < 16,
        0 <= qin.0 < 16 && 0 <= qin.1 < 16,
    ensures
        ({
            let bs = edge_strength(c, p, q, pin, qin, vertical);
            let (a, b) = (c.g.info[p], c.g.info[q]);
            let decoded = a.available && b.available;
            let strong = a.is_intra || b.is_intra || a.in_sp_si_slice || b.in_sp_si_slice;
            let coded = bit_at(a.luma_nonzero_4x4 as int, pin.0 / 4, pin.1 / 4) || bit_at(
                b.luma_nonzero_4x4 as int,
                qin.0 / 4,
                qin.1 / 4,
            );
            let (ma, mb) = (block_motion(a, pin), block_motion(b, qin));
            let frame_pair = !c.flag(p) && !c.flag(q);
            let field_pair = c.flag(p) && c.flag(q);
            let mixed = c.mbaff && !frame_pair && !field_pair && p / 2 != q / 2;
            &&& !decoded ==> bs == 0
            &&& decoded && strong && p == q ==> bs == 3
            &&& decoded && strong && p != q && vertical ==> bs == 4
            &&& decoded && strong && p != q && !vertical && !c.mbaff ==> bs == if c.field_pic {
                3int
            } else {
                4int
            }
            &&& decoded && strong && p != q && !vertical && c.mbaff ==> bs == if frame_pair {
                4int
            } else {
                3int
            }
            &&& decoded && !strong && coded ==> bs == 2
            &&& decoded && !strong && !coded && mixed ==> bs == 1
            &&& decoded && !strong && !coded && !mixed ==> bs == if moves_differ(
                ma,
                mb,
                if c.mbaff {
                    field_pair
                } else {
                    c.field_pic
                },
            ) {
                1int
            } else {
                0int
            }
        }),
{
    reveal(edge_strength);
}

/// The motion of the block at a luma position of a macroblock: the references of its quarter, the
/// vectors of its 4x4 block.
pub open spec fn block_motion(i: MbInfoV, at: (int, int)) -> BlockMotion {
    let quarter = at.1 / 8 * 2 + at.0 / 8;
    let block = z_order(at.0 / 4, at.1 / 4);
    BlockMotion {
        pic0: if i.ref_idx_l0[quarter] < 0 {
            None
        } else {
            Some(i.ref_poc_l0[quarter])
        },
        pic1: if i.ref_idx_l1[quarter] < 0 {
            None
        } else {
            Some(i.ref_poc_l1[quarter])
        },
        mv0: i.mv_l0[block],
        mv1: i.mv_l1[block],
    }
}

/// A line with its sides exchanged.
pub open spec fn mirrored(l: LineV) -> LineV {
    LineV {
        p3: l.q3,
        p2: l.q2,
        p1: l.q1,
        p0: l.q0,
        q0: l.p0,
        q1: l.p1,
        q2: l.p2,
        q3: l.p3,
    }
}

/// The strong filter treats both sides alike; the normal filter does so with the samples second to
/// the edge.
pub proof fn law_filter_is_symmetric(l: LineV, f: LineParams)
    ensures
        ({
            let (r, m) = (filtered(l, f), filtered(mirrored(l), f));
            &&& f.bs >= 4 || f.bs == 0 ==> m == mirrored(r)
            &&& m.p1 == r.q1 && m.q1 == r.p1
        }),
{
    reveal(filtered);
}

/// How far two samples are apart.
pub open spec fn distance(a: int, b: int) -> int {
    if a < b {
        b - a
    } else {
        a - b
    }
}

/// What the normal filter does to a line below the thresholds: both samples next to the edge move
/// towards each other by the same amount, a rounded eighth of four times their distance less that
/// of their neighbours, limited by the clipping bound; a neighbour moves where its side is smooth,
/// by half of its distance from the mean of the others.
pub proof fn law_normal_filter(l: LineV, f: LineParams)
    requires
        1 <= f.bs <= 3,
        crate::deblock::samples_in_range(l, f.bit_depth),
        distance(l.p0, l.q0) < f.alpha(),
        distance(l.p1, l.p0) < f.beta(),
        distance(l.q1, l.q0) < f.beta(),
    ensures
        ({
            let r = filtered(l, f);
            let smooth_p: int = if distance(l.p2, l.p0) < f.beta() {
                1
            } else {
                0
            };
            let smooth_q: int = if distance(l.q2, l.q0) < f.beta() {
                1
            } else {
                0
            };
            let bound = f.tc0() + if f.luma {
                smooth_p + smooth_q
            } else {
                1
            };
            let wish = (4 * (l.q0 - l.p0) + l.p1 - l.q1 + 4) / 8;
            let move_by = if wish > bound {
                bound
            } else if wish < -bound {
                -bound
            } else {
                wish
            };
            let top = p2(f.bit_depth as int) - 1;
            let limit = |v: int|
                if v < 0 {
                    0
                } else if v > top {
                    top
                } else {
                    v
                };
            let centre = (l.p0 + l.q0 + 1) / 2;
            let inner = |v: int|
                if v > f.tc0() {
                    f.tc0()
                } else if v < -f.tc0() {
                    -f.tc0()
                } else {
                    v
                };
            &&& r.p0 == limit(l.p0 + move_by)
            &&& r.q0 == limit(l.q0 - move_by)
            &&& f.luma && smooth_p == 1 ==> r.p1 - l.p1 == inner((l.p2 + centre - 2 * l.p1) / 2)
            &&& f.luma && smooth_q == 1 ==> r.q1 - l.q1 == inner((l.q2 + centre - 2 * l.q1) / 2)
            &&& !f.luma || smooth_p == 0 ==> r.p1 == l.p1
            &&& !f.luma || smooth_q == 0 ==> r.q1 == l.q1
            &&& r.p2 == l.p2 && r.p3 == l.p3 && r.q2 == l.q2 && r.q3 == l.q3
        }),
{
    reveal(filtered);
    crate::deblock::lemma_tc0_not_negative(f);
}

/// What the strong filter does to a line below the thresholds: on a smooth luma side next to a
/// small step three samples become means of five, four and five samples around them, else only the
/// sample at the edge becomes a mean, of itself and its neighbours off the edge.
pub proof fn law_strong_filter(l: LineV, f: LineParams)
    requires
        f.bs >= 4,
        distance(l.p0, l.q0) < f.alpha(),
        distance(l.p1, l.p0) < f.beta(),
        distance(l.q1, l.q0) < f.beta(),
    ensures
        ({
            let r = filtered(l, f);
            let small = f.luma && 4 * (distance(l.p0, l.q0) - 2) < f.alpha() / 4 * 4;
            let on_p = small && distance(l.p2, l.p0) < f.beta();
            let on_q = small && distance(l.q2, l.q0) < f.beta();
            &&& on_p ==> r.p0 == (l.p2 + 2 * (l.p1 + l.p0 + l.q0) + l.q1 + 4) / 8
            &&& on_p ==> r.p1 == (l.p2 + l.p1 + l.p0 + l.q0 + 2) / 4
            &&& on_p ==> r.p2 == (2 * l.p3 + 3 * l.p2 + l.p1 + l.p0 + l.q0 + 4) / 8
            &&& !on_p ==> r.p0 == (2 * l.p1 + l.p0 + l.q1 + 2) / 4 && r.p1 == l.p1 && r.p2 == l.p2
            &&& on_q ==> r.q0 == (l.q2 + 2 * (l.q1 + l.q0 + l.p0) + l.p1 + 4) / 8
            &&& on_q ==> r.q1 == (l.q2 + l.q1 + l.q0 + l.p0 + 2) / 4
            &&& on_q ==> r.q2 == (2 * l.q3 + 3 * l.q2 + l.q1 + l.q0 + l.p0 + 4) / 8
            &&& !on_q ==> r.q0 == (2 * l.q1 + l.q0 + l.p1 + 2) / 4 && r.q1 == l.q1 && r.q2 == l.q2
        }),
{
    reveal(filtered);
}

/// A line is left alone exactly where the strength is 0, the step is too large, or a side next to
/// the edge is not smooth; else it is filtered.
pub proof fn law_thresholds_decide(l: LineV, f: LineParams)
    ensures
        f.bs == 0 || distance(l.p0, l.q0) >= f.alpha() || distance(l.p1, l.p0) >= f.beta()
            || distance(l.q1, l.q0) >= f.beta() ==> filtered(l, f) == l,
{
    reveal(filtered);
}

/// An index of the threshold tables: the mean quantisation parameter plus the offset, limited.
pub open spec fn table_index(f: LineParams, offset: int) -> int {
    let v = f.qp_avg + offset;
    if v < 0 {
        0
    } else if v > 51 {
        51
    } else {
        v
    }
}

/// Thresholds at eight bits; each further bit doubles them.
pub proof fn law_thresholds(f: LineParams)
    ensures
        ({
            let (a, b) = (table_index(f, f.alpha_off as int), table_index(f, f.beta_off as int));
            let unit = p2(
                if f.bit_depth >= 8 {
                    f.bit_depth - 8
                } else {
                    0
                },
            );
            &&& f.alpha() == ALPHA[a] * unit
            &&& f.beta() == BETA[b] * unit
            &&& f.bs == 1 ==> f.tc0() == TC0_1[a] * unit
            &&& f.bs == 2 ==> f.tc0() == TC0_2[a] * unit
            &&& f.bs == 3 ==> f.tc0() == TC0_3[a] * unit
        }),
{
}

/// The tables of thresholds never fall, neither with the quantisation nor, for the clipping bounds,
/// with the strength; nothing is filtered below index 16; six steps of quantisation about double
/// the threshold of the step across the edge, and from index 26 on two add one to that of the
/// sides.
pub proof fn law_tables_grow(i: int)
    requires
        0 <= i < 51,
    ensures
        ALPHA[i] <= ALPHA[i + 1],
        BETA[i] <= BETA[i + 1] <= BETA[i] + 2,
        TC0_1[i] <= TC0_1[i + 1] <= TC0_1[i] + 2,
        TC0_2[i] <= TC0_2[i + 1] <= TC0_2[i] + 2,
        TC0_3[i] <= TC0_3[i + 1] <= TC0_3[i] + 3,
        TC0_1[i] <= TC0_2[i] <= TC0_3[i] <= 2 * TC0_1[i] + 1,
        (i < 16) == (ALPHA[i] == 0),
        (i < 16) == (BETA[i] == 0),
        16 <= i <= 44 ==> 2 * ALPHA[i] - 1 <= ALPHA[i + 6] <= 2 * ALPHA[i] + 2,
        i >= 26 ==> BETA[i] == i / 2 - 7,
{
}

/// The planes are filtered each with its own settings: luma with the luma parameters, Cb and Cr
/// with their own offsets of the chroma parameter, as luma where they have its resolution.
pub proof fn law_planes_have_their_settings(pv: PicV, a: DeblockArgs)
    ensures
        ({
            let r = deblocked(pv, a);
            let luma = PlaneFilter {
                alpha_off: a.alpha_off,
                beta_off: a.beta_off,
                bit_depth: a.bit_depth_y,
                chroma_offset: None,
                luma_style: true,
                pcm_is_zero: false,
            };
            let full = a.cat == 3;
            let cb = PlaneFilter {
                alpha_off: a.alpha_off,
                beta_off: a.beta_off,
                bit_depth: a.bit_depth_c,
                chroma_offset: Some(a.pps.chroma_qp_index_offset),
                luma_style: full,
                pcm_is_zero: full,
            };
            let cr = PlaneFilter {
                chroma_offset: Some(
                    if a.pps.extension is Some {
                        (a.pps.extension->0).second_chroma_qp_index_offset
                    } else {
                        a.pps.chroma_qp_index_offset
                    },
                ),
                ..cb
            };
            let rows: int = if a.cat == 1 {
                2
            } else {
                1
            };
            let (w, h) = (pv.luma.w, pv.luma.h);
            &&& !a.c.mbaff ==> r.luma == deblocked_full(pv.luma, a.c, luma, w, h)
            &&& a.c.mbaff ==> r.luma == deblocked_mbaff_luma(pv.luma, a.c, luma)
            &&& full ==> r.cb == deblocked_full(pv.cb, a.c, cb, w, h)
            &&& full ==> r.cr == deblocked_full(pv.cr, a.c, cr, w, h)
            &&& a.cat == 0 ==> r.cb == pv.cb && r.cr == pv.cr
            &&& (a.cat == 1 || a.cat == 2) && !a.c.mbaff ==> r.cb == deblocked_chroma(
                pv.cb,
                a.c,
                cb,
                a.cat,
                pv.cb.w,
                pv.cb.h,
            ) && r.cr == deblocked_chroma(pv.cr, a.c, cr, a.cat, pv.cb.w, pv.cb.h)
            &&& (a.cat == 1 || a.cat == 2) && a.c.mbaff ==> r.cb == deblocked_mbaff_chroma(
                pv.cb,
                a.c,
                cb,
                rows,
            ) && r.cr == deblocked_mbaff_chroma(pv.cr, a.c, cr, rows)
        }),
{
    reveal(deblocked);
}

/// The parameter of one side of an edge: that of its macroblock; for chroma, mapped with the offset
/// of the plane. Where a plane of luma resolution says so, uncompressed macroblocks count as
/// quantised with 0.
pub proof fn law_side_parameter(i: MbInfoV, s: PlaneFilter)
    requires
        8 <= s.bit_depth <= 14,
    ensures
        ({
            let qp = if i.is_i_pcm && s.pcm_is_zero {
                0
            } else {
                i.qp_y as int
            };
            &&& s.chroma_offset is None ==> side_qp(i, s) == qp
            &&& s.chroma_offset matches Some(off) ==> side_qp(i, s) == chroma_qp(
                qp,
                off as int,
                6 * (s.bit_depth - 8),
            )
        }),
{
}

} // verus!
