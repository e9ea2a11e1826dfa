//! Laws of macroblocks that are coded without loss, and of switching slices.
use crate::geometry::LUMA_4X4_XY;
use crate::intra_block_laws::to_sample;
use crate::intra_laws::total;
use crate::intra_pred::{predict_chroma_spec, predict_nxn_spec, IntraChromaMode, IntraNxNMode};
use crate::math::ints;
use crate::mb_grid::GridV;
use crate::motion_laws::z_order;
use crate::neighbours::{gather, tr_decoded4};
use crate::plane::PlaneV;
use crate::pps::Pps;
use crate::recon_blocks::{block4, law_block_is_written, PlaneCtx};
use crate::recon_intra::{chroma_plane, chroma_residual, residual_16x16};
use crate::recon_mb_inter::inter_residual;
use crate::reconstruct::{luma_list, sp_si_ctx};
use crate::residual::{levels4, levels8, reconstructed};
use crate::residual_laws::law_differences_accumulate;
use crate::scan::{scan_pos4, scan_pos8, unscan4};
use crate::slice_header::SliceHeader;
use crate::sps::Sps;
use crate::transform::dpcm;
use vstd::prelude::*;

verus! {

/// What the levels of a 4x4 block without loss add to the prediction of sample `(i, j)`: the level
/// there; under horizontal prediction all levels of the row up to it, under vertical prediction all
/// of the column down to it.
pub open spec fn kept_difference(c: Seq<int>, mode: IntraNxNMode, i: int, j: int) -> int {
    if mode is Horizontal {
        total(Seq::new(4, |k: int| c[4 * j + k]), i + 1)
    } else if mode is Vertical {
        total(Seq::new(4, |k: int| c[4 * k + i]), j + 1)
    } else {
        c[4 * j + i]
    }
}

proof fn lemma_accumulated(c: Seq<int>, mode: IntraNxNMode, i: int, j: int)
    requires
        c.len() == 16,
        0 <= i < 4,
        0 <= j < 4,
    ensures
        crate::recon_blocks::lossless_residual(c, 4, mode)[4 * j + i] == kept_difference(
            c,
            mode,
            i,
            j,
        ),
    decreases i + j,
{
    if mode is Horizontal {
        law_differences_accumulate(c, 4, true, i, j);
        assert(j * 4 + i == 4 * j + i);
        let row = Seq::new(4, |k: int| c[4 * j + k]);
        assert(total(row, i + 1) == total(row, i) + row[i]);
        if i > 0 {
            lemma_accumulated(c, mode, i - 1, j);
        } else {
            assert(total(row, 0) == 0);
        }
    } else if mode is Vertical {
        law_differences_accumulate(c, 4, false, i, j);
        assert(j * 4 + i == 4 * j + i);
        let column = Seq::new(4, |k: int| c[4 * k + i]);
        assert(total(column, j + 1) == total(column, j) + column[j]);
        if j > 0 {
            lemma_accumulated(c, mode, i, j - 1);
            assert(4 * (j - 1) + i == 4 * j + i - 4);
        } else {
            assert(total(column, 0) == 0);
        }
    }
}

/// A 4x4 block without loss becomes prediction plus levels; under straight prediction the levels
/// are differences along the direction of prediction, and add up.
pub proof fn law_lossless_4x4_block(
    p: PlaneV,
    g: GridV,
    c: PlaneCtx,
    blk: int,
    mode: IntraNxNMode,
    levels: Seq<i32>,
    w: Seq<int>,
    i: int,
    j: int,
)
    requires
        c.bypass,
        c.step == 1,
        c.gx == c.wx && c.gy == c.wy,
        8 <= c.bit_depth <= 14,
        0 <= blk < 16,
        0 <= i < 4,
        0 <= j < 4,
    ensures
        ({
            let (x, y) = (LUMA_4X4_XY[blk].0 as int, LUMA_4X4_XY[blk].1 as int);
            let s = gather(p, g, c.nb, c.gx + x, c.gy + y, x, y, 4, 4, tr_decoded4(blk), 1, 1);
            let pred = predict_nxn_spec(mode, s, 4, c.bit_depth)[4 * j + i];
            let d = kept_difference(ints(unscan4(levels, c.field_scan)), mode, i, j);
            let r = block4(p, g, c, blk, mode, levels, w, None);
            r.1 is None && p.has(c.gx + x + i, c.gy + y + j) ==> (r.0.at)(
                c.gx + x + i,
                c.gy + y + j,
            ) == to_sample(pred + d, c.bit_depth)
        }),
{
    reveal(block4);
    reveal(reconstructed);
    reveal(predict_nxn_spec);
    crate::math::lemma_p2_mono(8, c.bit_depth as int);
    crate::math::lemma_p2_mono(c.bit_depth as int, 14);
    crate::math::lemma_p2_values();
    let (x, y) = (LUMA_4X4_XY[blk].0 as int, LUMA_4X4_XY[blk].1 as int);
    let s = gather(p, g, c.nb, c.gx + x, c.gy + y, x, y, 4, 4, tr_decoded4(blk), 1, 1);
    let coeffs = ints(unscan4(levels, c.field_scan));
    let v = reconstructed(
        predict_nxn_spec(mode, s, 4, c.bit_depth),
        crate::recon_blocks::lossless_residual(coeffs, 4, mode),
        c.bit_depth,
    );
    lemma_accumulated(coeffs, mode, i, j);
    law_block_is_written(p, c, x, y, 4, v, c.wx + x + i, c.wy + y + j);
    assert(y * c.step == y && j / 1 == j && j % 1 == 0);
    assert(j * 4 + i == 4 * j + i);
}

/// The residual of a 16x16 macroblock without loss: under vertical and horizontal prediction each
/// sample adds its difference to the sample above it or to its left; other modes keep the
/// differences as they are.
pub proof fn law_lossless_16x16(
    c: PlaneCtx,
    dc: Seq<i32>,
    acs: Seq<[i32; 16]>,
    coded: bool,
    w: Seq<int>,
    x: int,
    y: int,
)
    requires
        c.bypass,
        0 <= x < 16,
        0 <= y < 16,
    ensures
        ({
            let down = residual_16x16(c, 0, dc, acs, coded, w);
            let across = residual_16x16(c, 1, dc, acs, coded, w);
            let plain = residual_16x16(c, 2, dc, acs, coded, w);
            let k = 16 * y + x;
            &&& residual_16x16(c, 3, dc, acs, coded, w) == plain
            &&& down[k] == plain[k] + if y > 0 {
                down[k - 16]
            } else {
                0
            }
            &&& across[k] == plain[k] + if x > 0 {
                across[k - 1]
            } else {
                0
            }
        }),
{
    reveal(residual_16x16);
    reveal(crate::recon_blocks::mosaic);
    let plain = residual_16x16(c, 2, dc, acs, coded, w);
    assert(y * 16 + x == 16 * y + x);
    assert(plain.len() == 256);
    law_differences_accumulate(plain, 16, false, x, y);
    law_differences_accumulate(plain, 16, true, x, y);
}

/// A chroma block without loss becomes prediction plus differences, which add up along rows under
/// horizontal prediction (mode 1) and along columns under vertical prediction (mode 2).
pub proof fn law_lossless_chroma(
    p: PlaneV,
    g: GridV,
    c: PlaneCtx,
    h: int,
    mode_idx: u8,
    cbp: int,
    dc: Seq<i32>,
    acs: Seq<[i32; 16]>,
    w: Seq<int>,
    i: int,
    j: int,
)
    requires
        h == 8 || h == 16,
        mode_idx < 4,
        c.bypass,
        c.step == 1,
        8 <= c.bit_depth <= 14,
        0 <= i < 8,
        0 <= j < h,
    ensures
        ({
            let down: int = if h == 8 {
                2
            } else {
                1
            };
            let s = gather(p, g, c.nb, c.wx as int, c.wy as int, 0, 0, 8, h, false, 2, down);
            let mode = IntraChromaMode::of(mode_idx as int);
            let pred = predict_chroma_spec(mode, s, h, c.bit_depth)[8 * j + i];
            let m = chroma_residual(c, h, cbp, dc, acs, w);
            let res = if mode is Horizontal {
                dpcm(m, 8, true)
            } else if mode is Vertical {
                dpcm(m, 8, false)
            } else {
                m
            };
            let r = chroma_plane(p, g, c, h, mode_idx, cbp, dc, acs, w, None);
            r.1 is None && p.has(c.wx + i, c.wy + j) ==> (r.0.at)(c.wx + i, c.wy + j) == to_sample(
                pred + res[8 * j + i],
                c.bit_depth,
            )
        }),
{
    reveal(chroma_plane);
    reveal(reconstructed);
    reveal(predict_chroma_spec);
    crate::math::lemma_p2_mono(8, c.bit_depth as int);
    crate::math::lemma_p2_mono(c.bit_depth as int, 14);
    crate::math::lemma_p2_values();
    let down: int = if h == 8 {
        2
    } else {
        1
    };
    let s = gather(p, g, c.nb, c.wx as int, c.wy as int, 0, 0, 8, h, false, 2, down);
    let mode = IntraChromaMode::of(mode_idx as int);
    let m = chroma_residual(c, h, cbp, dc, acs, w);
    let res = if mode_idx == 1 || mode_idx == 2 {
        dpcm(m, 8, mode_idx == 1)
    } else {
        m
    };
    let v = reconstructed(predict_chroma_spec(mode, s, h, c.bit_depth), res, c.bit_depth);
    assert(v.len() == 8 * h);
    law_block_is_written(p, c, 0, 0, 8, v, c.wx + i, c.wy + j);
    assert(0 * c.step == 0 && j / 1 == j && j % 1 == 0);
    assert(j * 8 + i == 8 * j + i);
}

/// The residual of an inter macroblock without loss is its levels, each at the position that the
/// scan gives it.
pub proof fn law_lossless_inter(
    c: PlaneCtx,
    blocks: Seq<[i32; 16]>,
    cbp: int,
    w4: Seq<int>,
    w8: Seq<int>,
    x: int,
    y: int,
)
    requires
        c.bypass,
        0 <= x < 16,
        0 <= y < 16,
    ensures
        inter_residual(c, false, blocks, cbp, w4, w8)[16 * y + x] == levels4(
            blocks,
            cbp,
            z_order(x / 4, y / 4),
        )[scan_pos4(c.field_scan, 4 * (y % 4) + x % 4)],
        inter_residual(c, true, blocks, cbp, w4, w8)[16 * y + x] == levels8(
            blocks,
            cbp,
            2 * (y / 8) + x / 8,
        )[scan_pos8(c.field_scan, 8 * (y % 8) + x % 8)],
{
    crate::residual_laws::law_inter_blocks_are_placed(c, blocks, cbp, w4, w8, x, y);
    let (k4, k8) = (4 * (y % 4) + x % 4, 8 * (y % 8) + x % 8);
    assert(0 <= k4 < 16 && 0 <= k8 < 64);
}

/// Switching slices: only slices of type SP and SI are; they are 4:2:0 with eight bits and never
/// without loss, with a parameter QS from 0 to 51. SI slices switch, SP slices where they say so.
pub proof fn law_switching_slices(sh: SliceHeader, sps: Sps, pps: Pps)
    requires
        -1000 <= pps.pic_init_qs_minus26 <= 1000,
        -1000 <= sh.slice_qs_delta <= 1000,
    ensures
        ({
            let r = sp_si_ctx(sh, sps, pps);
            let qs = pps.pic_init_qs_minus26 + 26 + sh.slice_qs_delta;
            let kind = sh.slice_type is SP || sh.slice_type is SI;
            let possible = 0 <= qs <= 51 && sps.cat() == 1 && sps.bit_depth_luma_minus8 == 0
                && sps.bit_depth_chroma_minus8 == 0 && !sps.qpprime_y_zero_transform_bypass_flag;
            &&& !kind ==> r is Ok && r->Ok_0 is None
            &&& kind && !possible ==> r is Err
            &&& kind && possible ==> (r matches Ok(Some(s)) && s.qs_y == qs && s.switching == (
            sh.slice_type is SI || sh.sp_for_switch_flag))
        }),
{
}

/// Where colour planes are coded apart, each uses the scaling matrices of its own class; else a
/// slice's luma uses the first.
pub proof fn law_colour_planes_have_their_matrices(sps: Sps, sh: SliceHeader)
    requires
        sh.colour_plane_id <= 2,
    ensures
        luma_list(sps, sh) == if sps.separate_colour_plane_flag {
            sh.colour_plane_id as int
        } else {
            0
        },
{
}

} // verus!
