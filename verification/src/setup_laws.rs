//! Laws of the settings of macroblocks and slices: parameters, places, scaling matrices, levels and
//! records.
use crate::coded_blocks::{chroma_mask, law_bits_tell_flags, luma_mask};
use crate::deblock_picture::{deblocked, DeblockArgs};
use crate::geometry::{mb_h_c, mb_w_c, sub_h, sub_w};
use crate::inter_partition::PredV;
use crate::macroblock_layer::Macroblock;
use crate::math::p2;
use crate::mb_grid::GridV;
use crate::picture::{chroma_h, chroma_w, PicV};
use crate::pps::Pps;
use crate::recon_intra::chroma_plane;
use crate::recon_mb_inter::{inter_chroma_plane, inter_plane, inter_samples};
use crate::recon_mb_intra::{intra_chroma, MbArgs};
use crate::reconstruct::{mb_step, slice_finished, slice_reconstructed, SliceArgs};
use crate::residual::{levels4, levels8};
use crate::sps::Sps;
use crate::transform::{core8x8, norm8, residual8x8, scale8x8, weights4, weights8};
use vstd::prelude::*;

verus! {

/// The scaling matrices: those of the picture parameter set go before those of the sequence;
/// without either, or past their end, all weights are 16.
pub proof fn law_scaling_matrices(i: int, sps: Sps, pps: Pps, k: int)
    requires
        0 <= i,
        0 <= k,
    ensures
        ({
            let own = pps.extension is Some && (pps.extension->0).pic_scaling_lists is Some;
            let l = if own {
                (pps.extension->0).pic_scaling_lists
            } else {
                sps.seq_scaling_lists
            };
            &&& k < 16 ==> weights4(i, sps, pps)[k] == if l is Some && i < (l->0).lists_4x4.len() {
                (l->0).lists_4x4@[i]@[k] as int
            } else {
                16
            }
            &&& k < 64 ==> weights8(i, sps, pps)[k] == if l is Some && i < (l->0).lists_8x8.len() {
                (l->0).lists_8x8@[i]@[k] as int
            } else {
                16
            }
        }),
{
}

/// Kind of a row or column of an 8x8 block for the norm adjustment.
pub open spec fn kind8(v: int) -> int {
    if v % 2 == 1 {
        1
    } else if v % 4 == 2 {
        2
    } else {
        0
    }
}

/// Norm adjustment of an 8x8 block, by the remainder of the parameter and the kinds of the row and
/// column, whose order does not matter.
pub open spec fn step8(m: int, row: int, column: int) -> int {
    let (a, b) = (kind8(row), kind8(column));
    let of = |s: Seq<int>| s[m];
    if a == 0 && b == 0 {
        of(seq![20int, 22, 26, 28, 32, 36])
    } else if a == 1 && b == 1 {
        of(seq![18int, 19, 23, 25, 28, 32])
    } else if a == 2 && b == 2 {
        of(seq![32int, 35, 42, 45, 51, 58])
    } else if a + b == 1 {
        of(seq![19int, 21, 24, 26, 30, 34])
    } else if a + b == 2 {
        of(seq![25int, 28, 33, 35, 40, 46])
    } else {
        of(seq![24int, 26, 31, 33, 38, 43])
    }
}

/// Levels of an 8x8 block are scaled by weight and norm adjustment; six steps of the parameter
/// double them; below 36 the result is divided, rounding to nearest. The residual is their inverse
/// transform.
pub proof fn law_8x8_levels_are_scaled(c: Seq<int>, qp: int, w: Seq<int>, row: int, column: int)
    requires
        0 <= qp,
        0 <= row < 8,
        0 <= column < 8,
    ensures
        ({
            let k = 8 * row + column;
            let v = c[k] * (w[k] * step8(qp % 6, row, column));
            scale8x8(c, qp, w)[k] == if qp >= 36 {
                v * p2(qp / 6 - 6)
            } else {
                (v + p2(5 - qp / 6)) / p2(6 - qp / 6)
            }
        }),
        residual8x8(c, qp, w) == core8x8(scale8x8(c, qp, w)),
{
    reveal(residual8x8);
    let k = 8 * row + column;
    assert(k / 8 == row && k % 8 == column);
    assert(norm8(qp % 6, k) == step8(qp % 6, row, column));
}

/// Where a macroblock of a picture that is not MBAFF lies and how it is quantised: the parameters
/// are raised by six for each bit beyond eight; a block is coded without loss where the sequence
/// allows it and the raised luma parameter is 0.
#[verifier::spinoff_prover]
pub proof fn law_macroblock_context(a: MbArgs, g: GridV, cr: bool)
    requires
        !a.mbaff,
        !a.field,
        g.w >= 1,
        16 * (a.addr as int % g.w) <= 0x4000_0000,
        16 * (a.addr as int / g.w) <= 0x4000_0000,
        a.sps.bit_depth_luma_minus8 <= 6,
        a.sps.bit_depth_chroma_minus8 <= 6,
        -1000 <= a.qp_y <= 1000,
    ensures
        ({
            let y = a.luma_ctx(g);
            let c = a.chroma_ctx(g, cr);
            let (column, row) = (a.addr as int % g.w, a.addr as int / g.w);
            let cat = a.sps.cat();
            let raised = a.qp_y + 6 * a.sps.bit_depth_luma_minus8;
            &&& y.gx == 16 * column && y.gy == 16 * row && y.wx == y.gx && y.wy == y.gy
            &&& y.step == 1 && c.step == 1
            &&& c.gx == y.gx && c.gy == y.gy
            &&& (cat == 1 || cat == 2) ==> c.wx == 8 * column
            &&& cat == 3 ==> c.wx == 16 * column
            &&& cat == 1 ==> c.wy == 8 * row
            &&& (cat == 2 || cat == 3) ==> c.wy == 16 * row
            &&& y.qp == raised
            &&& y.bit_depth == 8 + a.sps.bit_depth_luma_minus8
            &&& c.bit_depth == 8 + a.sps.bit_depth_chroma_minus8
            &&& y.bypass == (a.sps.qpprime_y_zero_transform_bypass_flag && raised == 0)
            &&& c.bypass == y.bypass
            &&& y.field_scan == a.field_scan && c.field_scan == a.field_scan
            &&& y.nb.addr == a.addr && y.nb.slice_id == a.slice_id && !y.nb.chroma
            &&& y.nb.cip == a.pps.constrained_intra_pred_flag && y.nb.pic_w == a.pic_w
            &&& c.nb.addr == a.addr && c.nb.slice_id == a.slice_id && c.nb.chroma
            &&& c.nb.cip == a.pps.constrained_intra_pred_flag && c.nb.cat == a.pic_cat
        }),
{
    crate::mb_address::lemma_div_mod_bound(a.addr as int, g.w);
    let wr = a.writer(g);
    let (column, row) = (a.addr as int % g.w, a.addr as int / g.w);
    let cat = a.sps.cat();
    assert(wr.mb_px == 16 * column && wr.pair_px == 16 * column && wr.mb_py == 16 * row);
    if cat == 1 || cat == 2 {
        assert(wr.cx() == 16 * column / 2);
    } else if cat == 3 {
        assert(wr.cx() == 16 * column / 1);
    }
    if cat == 1 {
        assert(wr.cy() == 16 * row / 2);
    } else {
        assert(wr.cy() == 16 * row / 1);
    }
}

/// Where a macroblock of an MBAFF frame lies: frame macroblocks of a pair one above the other,
/// field macroblocks from the first and second row of the pair on, every other row.
#[verifier::spinoff_prover]
#[verifier::rlimit(40)]
pub proof fn law_mbaff_macroblock_context(a: MbArgs, g: GridV, cr: bool)
    requires
        a.mbaff,
        g.w >= 1,
        16 * (a.addr as int / 2 % g.w) <= 0x4000_0000,
        32 * (a.addr as int / 2 / g.w) <= 0x4000_0000,
        a.sps.bit_depth_luma_minus8 <= 6,
        a.sps.bit_depth_chroma_minus8 <= 6,
    ensures
        ({
            let y = a.luma_ctx(g);
            let c = a.chroma_ctx(g, cr);
            let (column, row) = (a.addr as int / 2 % g.w, a.addr as int / 2 / g.w);
            let lower = a.addr % 2 == 1;
            let cat = a.sps.cat();
            let rows: int = if cat == 1 {
                8
            } else {
                16
            };
            &&& y.wx == 16 * column
            &&& y.step == if a.field {
                2int
            } else {
                1int
            }
            &&& c.step == y.step
            &&& !lower ==> y.wy == 32 * row
            &&& lower && a.field ==> y.wy == 32 * row + 1
            &&& lower && !a.field ==> y.wy == 32 * row + 16
            &&& (cat == 1 || cat == 2) ==> c.wx == 8 * column
            &&& cat == 3 ==> c.wx == 16 * column
            &&& cat == 1 && !lower ==> c.wy == 16 * row
            &&& (cat == 2 || cat == 3) && !lower ==> c.wy == 32 * row
            &&& cat != 0 && cat <= 3 && lower ==> c.wy == (if cat == 1 {
                16 * row
            } else {
                32 * row
            }) + if a.field {
                1
            } else {
                rows
            }
        }),
{
    crate::mb_address::lemma_div_mod_bound(a.addr as int / 2, g.w);
    assert(a.addr as int % 2 == 0 || a.addr as int % 2 == 1);
    let wr = a.writer(g);
    let (column, row) = (a.addr as int / 2 % g.w, a.addr as int / 2 / g.w);
    let cat = a.sps.cat();
    assert(wr.mb_px == 16 * column && wr.pair_px == 16 * column && wr.pair_py == 32 * row);
    if cat == 1 || cat == 2 {
        assert(wr.cx() == 16 * column / 2);
    } else if cat == 3 {
        assert(wr.cx() == 16 * column / 1);
    }
    let first = wr.pair_py as int / sub_h(cat);
    if cat == 1 {
        assert(first == 32 * row / 2);
    } else {
        assert(first == 32 * row / 1);
    }
}

/// Intra chroma of 4:2:0 and 4:2:2: each plane with its own levels, parameter and scaling matrix,
/// from its own samples; the luma plane stays.
pub proof fn law_intra_chroma_planes(pv: PicV, g: GridV, a: MbArgs)
    requires
        a.sps.cat() == 1 || a.sps.cat() == 2,
        intra_chroma(pv, g, a, None).1 is None,
    ensures
        ({
            let r = intra_chroma(pv, g, a, None).0;
            let h: int = if a.sps.cat() == 1 {
                8
            } else {
                16
            };
            let mode = if a.mb.mb_pred is Some {
                (a.mb.mb_pred->0).intra_chroma_pred_mode
            } else {
                0u8
            };
            let cbp = a.mb.coded_block_pattern as int / 16 % 4;
            &&& r.luma == pv.luma
            &&& r.cb == chroma_plane(
                pv.cb,
                g,
                a.chroma_ctx(g, false),
                h,
                mode,
                cbp,
                a.mb.residual_chroma_dc_cb@,
                a.mb.residual_chroma_ac_cb@,
                weights4(1, a.sps, a.pps),
                None,
            ).0
            &&& r.cr == chroma_plane(
                pv.cr,
                g,
                a.chroma_ctx(g, true),
                h,
                mode,
                cbp,
                a.mb.residual_chroma_dc_cr@,
                a.mb.residual_chroma_ac_cr@,
                weights4(2, a.sps, a.pps),
                None,
            ).0
        }),
{
    reveal(intra_chroma);
}

/// Inter macroblocks: each plane is its own prediction plus the residual of its own levels, with
/// its own parameter and scaling matrix.
pub proof fn law_inter_planes(pv: PicV, g: GridV, a: MbArgs, pred: PredV)
    requires
        a.sp is None,
        inter_samples(pv, g, a, 0, pred).1 is None,
    ensures
        ({
            let r = inter_samples(pv, g, a, 0, pred).0;
            let cat = a.sps.cat();
            let (b, c) = (a.chroma_ctx(g, false), a.chroma_ctx(g, true));
            let by8 = a.mb.transform_size_8x8_flag;
            let luma_cbp = a.mb.coded_block_pattern as int % 16;
            let cbp = a.mb.coded_block_pattern as int / 16 % 4;
            let h: int = if cat == 1 {
                8
            } else {
                16
            };
            &&& r.luma == inter_plane(
                pv.luma,
                a.luma_ctx(g),
                pred.luma,
                by8,
                a.mb.residual_luma@,
                luma_cbp,
                weights4(3, a.sps, a.pps),
                weights8(1, a.sps, a.pps),
            ).0
            &&& cat == 0 ==> r.cb == pv.cb && r.cr == pv.cr
            &&& cat == 1 || cat == 2 ==> r.cb == inter_chroma_plane(
                pv.cb,
                b,
                pred.cb,
                h,
                cbp,
                a.mb.residual_chroma_dc_cb@,
                a.mb.residual_chroma_ac_cb@,
                weights4(4, a.sps, a.pps),
            ).0
            &&& cat == 1 || cat == 2 ==> r.cr == inter_chroma_plane(
                pv.cr,
                c,
                pred.cr,
                h,
                cbp,
                a.mb.residual_chroma_dc_cr@,
                a.mb.residual_chroma_ac_cr@,
                weights4(5, a.sps, a.pps),
            ).0
            &&& cat == 3 ==> r.cb == inter_plane(
                pv.cb,
                b,
                pred.cb,
                by8,
                a.mb.residual_cb_luma_like@,
                luma_cbp,
                weights4(4, a.sps, a.pps),
                weights8(3, a.sps, a.pps),
            ).0
            &&& cat == 3 ==> r.cr == inter_plane(
                pv.cr,
                c,
                pred.cr,
                by8,
                a.mb.residual_cr_luma_like@,
                luma_cbp,
                weights4(5, a.sps, a.pps),
                weights8(5, a.sps, a.pps),
            ).0
        }),
{
    reveal(inter_samples);
}

/// Levels of a list, some of them not zero.
pub open spec fn has_levels(s: Seq<i32>, n: int) -> bool {
    exists|i: int| 0 <= i < n && #[trigger] s[i] != 0
}

/// The bit of a 4x4 luma block in the mask of a macroblock tells whether the block has levels: its
/// own, or any of its 8x8 block where that is transformed as one. Of Intra_16x16 macroblocks the DC
/// levels do not count. All bits are set for uncompressed macroblocks.
pub proof fn law_luma_mask(mb: Macroblock, z: int)
    requires
        0 <= z < 16,
    ensures
        ({
            let bit = luma_mask(mb) / p2(z) % 2 == 1;
            let cbp = mb.coded_block_pattern as int % 16;
            let whole = mb.mb_type is Intra16x16;
            &&& mb.mb_type is IPcm ==> luma_mask(mb) == 65535
            &&& !(mb.mb_type is IPcm) && !whole && !mb.transform_size_8x8_flag ==> bit == has_levels(
                levels4(mb.residual_luma@, cbp, z),
                16,
            )
            &&& !(mb.mb_type is IPcm) && !whole && mb.transform_size_8x8_flag ==> bit == has_levels(
                levels8(mb.residual_luma@, cbp, z / 4),
                64,
            )
            &&& whole && z < mb.residual_luma@.len() ==> bit == ((mb.mb_type->Intra16x16_0).cbp_luma
                == 15 && has_levels(mb.residual_luma@[z]@, 15))
        }),
{
    reveal(luma_mask);
    law_bits_tell_flags(|z: int| crate::coded_blocks::luma_coded(mb, z), 16, z);
}

/// The bits of the chroma mask tell which blocks have AC levels: Cb in the low byte, Cr in the high
/// byte.
pub proof fn law_chroma_mask(mb: Macroblock, cat: u32, b: int)
    requires
        cat == 1 || cat == 2,
        !(mb.mb_type is IPcm),
        0 <= b < (if cat == 1 {
            4int
        } else {
            8int
        }),
        b < mb.residual_chroma_ac_cb@.len(),
        b < mb.residual_chroma_ac_cr@.len(),
    ensures
        ({
            let coded = mb.coded_block_pattern as int / 16 % 4 >= 2;
            let m = chroma_mask(mb, cat);
            &&& (m / p2(b) % 2 == 1) == (coded && has_levels(mb.residual_chroma_ac_cb@[b]@, 16))
            &&& (m / p2(8 + b) % 2 == 1) == (coded && has_levels(
                mb.residual_chroma_ac_cr@[b]@,
                16,
            ))
        }),
{
    reveal(chroma_mask);
    let f = |z: int| crate::coded_blocks::chroma_coded(mb, cat, z);
    law_bits_tell_flags(f, 16, b);
    law_bits_tell_flags(f, 16, 8 + b);
    assert(b % 8 == b && (8 + b) % 8 == b);
    crate::math::lemma_p2_mono(0, b);
    crate::math::lemma_p2_mono(0, 8 + b);
    assert(0int / p2(b) == 0 && 0int / p2(8 + b) == 0) by (nonlinear_arith)
        requires
            p2(b) >= 1,
            p2(8 + b) >= 1,
    ;
}

/// A reconstructed macroblock leaves its coding in the grid: kind, pattern, transform size, masks.
pub proof fn law_macroblock_leaves_its_coding(pv: PicV, g: GridV, a: SliceArgs, m: MbArgs)
    requires
        mb_step(pv, g, a, m).2 is None,
        m.addr < mb_step(pv, g, a, m).1.info.len(),
    ensures
        ({
            let i = mb_step(pv, g, a, m).1.info[m.addr as int];
            let mb = m.mb;
            &&& i.is_i_pcm == mb.mb_type is IPcm
            &&& i.is_intra_nxn == mb.mb_type is INxN
            &&& i.in_sp_si_slice == m.sp is Some
            &&& i.transform_size_8x8_flag == mb.transform_size_8x8_flag
            &&& i.cbp_luma == mb.coded_block_pattern as int % 16
            &&& i.cbp_chroma == mb.coded_block_pattern as int / 16 % 4
            &&& i.luma_nonzero_4x4 == luma_mask(mb) as u16
            &&& i.chroma_nonzero_4x4 == chroma_mask(mb, m.sps.cat()) as u16
            &&& mb.mb_pred matches Some(p) ==> i.intra_chroma_pred_mode == p.intra_chroma_pred_mode
        }),
{
    reveal(mb_step);
}

/// What a macroblock of a slice takes from the slice: its number there, the field flag, the scan of
/// fields in field pictures and for field macroblocks of frames; slices start at the macroblock, or
/// the pair, they name, with the parameter of the picture plus their own.
pub proof fn law_slice_settings(a: SliceArgs, i: int, addr: int, qp: int)
    requires
        0 <= i < a.sd.macroblocks@.len(),
        0 <= addr <= 0x7fff_ffff,
        -1000 <= qp <= 1000,
        a.sh.first_mb_in_slice <= 0x3fff_ffff,
    ensures
        ({
            let m = a.mb_args(i, addr, qp, None);
            let mbaff = a.sps.mb_adaptive_frame_field_flag && !a.sh.field_pic_flag;
            let field = i < a.sd.mb_field_decoding_flags@.len()
                && a.sd.mb_field_decoding_flags@[i];
            &&& m.mb == a.sd.macroblocks@[i] && m.addr == addr && m.qp_y == qp
            &&& m.mbaff == mbaff && m.field == field
            &&& m.field_scan == (a.sh.field_pic_flag || (mbaff && field))
            &&& m.slice_id == a.sh.first_mb_in_slice
            &&& a.first_addr() == if mbaff {
                2 * a.sh.first_mb_in_slice
            } else {
                a.sh.first_mb_in_slice as int
            }
            &&& a.slice_qp() == a.pps.pic_init_qp_minus26 + 26 + a.sh.slice_qp_delta
        }),
{
}

/// A slice that is reconstructed without error is deblocked, unless it turns that off, with twice
/// its offsets and at the bit depths of the sequence.
pub proof fn law_slice_is_deblocked(pv: PicV, g: GridV, a: SliceArgs, d: DeblockArgs)
    requires
        slice_reconstructed(pv, g, a).2 is None,
        a.sh.disable_deblocking_filter_idc != 1,
        -1000 <= a.sh.slice_alpha_c0_offset_div2 <= 1000,
        -1000 <= a.sh.slice_beta_offset_div2 <= 1000,
        a.sps.bit_depth_luma_minus8 <= 6,
        a.sps.bit_depth_chroma_minus8 <= 6,
        d.c.g == slice_reconstructed(pv, g, a).1,
        d.c.mbaff == (a.sps.mb_adaptive_frame_field_flag && !a.sh.field_pic_flag),
        d.c.field_pic == a.sh.field_pic_flag,
        d.c.flags == a.sd.mb_field_decoding_flags@,
        d.alpha_off == 2 * a.sh.slice_alpha_c0_offset_div2,
        d.beta_off == 2 * a.sh.slice_beta_offset_div2,
        d.bit_depth_y == 8 + a.sps.bit_depth_luma_minus8,
        d.bit_depth_c == 8 + a.sps.bit_depth_chroma_minus8,
        d.pps == a.pps,
        d.cat == a.pic_cat,
    ensures
        slice_finished(pv, g, a).0 == deblocked(slice_reconstructed(pv, g, a).0, d),
{
}

/// The neighbours of a macroblock in raster order lie beside it: to the left, above, above right
/// and above left; each is there exactly where the picture has such a place.
pub proof fn law_macroblock_neighbours(g: GridV, addr: int)
    requires
        g.w >= 1,
        0 <= addr,
    ensures
        ({
            let (a, b, c, d) = g.neighbours(addr);
            let (x, y) = (addr % g.w, addr / g.w);
            let lies = |n: Option<int>, u: int, v: int|
                if 0 <= u < g.w && 0 <= v {
                    n is Some && n->0 % g.w == u && n->0 / g.w == v
                } else {
                    n is None
                };
            lies(a, x - 1, y) && lies(b, x, y - 1) && lies(c, x + 1, y - 1) && lies(d, x - 1, y - 1)
        }),
{
    crate::mbaff_laws::lemma_pair_moves(addr, g.w);
    crate::mb_address::lemma_div_mod_bound(addr, g.w);
}

/// The neighbours of a pair of an MBAFF frame lie beside it, and are named by their upper
/// macroblock.
pub proof fn law_pair_neighbours(g: GridV, addr: int)
    requires
        g.w >= 1,
        0 <= addr,
    ensures
        ({
            let (a, b, c, d) = g.pair_neighbours(addr);
            let (x, y) = (addr / 2 % g.w, addr / 2 / g.w);
            let lies = |n: Option<int>, u: int, v: int|
                if 0 <= u < g.w && 0 <= v {
                    n is Some && n->0 % 2 == 0 && n->0 / 2 % g.w == u && n->0 / 2 / g.w == v
                } else {
                    n is None
                };
            lies(a, x - 1, y) && lies(b, x, y - 1) && lies(c, x + 1, y - 1) && lies(d, x - 1, y - 1)
        }),
{
    crate::mbaff_laws::lemma_pair_moves(addr / 2, g.w);
    crate::mb_address::lemma_div_mod_bound(addr / 2, g.w);
}

/// Chroma formats: 4:2:0 halves columns and rows, 4:2:2 columns only, 4:4:4 neither; without
/// chroma, or with colour planes coded apart, there are no chroma planes.
pub proof fn law_chroma_formats(sps: Sps, m: int)
    requires
        0 <= m,
        sps.chroma_format_idc <= 3,
    ensures
        ({
            let cat = sps.cat();
            &&& sps.separate_colour_plane_flag ==> cat == 0
            &&& !sps.separate_colour_plane_flag ==> cat == sps.chroma_format_idc
            &&& cat == 0 ==> chroma_w(cat, 16 * m) == 0 && chroma_h(cat, 16 * m) == 0
            &&& cat == 1 ==> chroma_w(cat, 16 * m) == 8 * m && chroma_h(cat, 16 * m) == 8 * m
            &&& cat == 2 ==> chroma_w(cat, 16 * m) == 8 * m && chroma_h(cat, 16 * m) == 16 * m
            &&& cat == 3 ==> chroma_w(cat, 16 * m) == 16 * m && chroma_h(cat, 16 * m) == 16 * m
            &&& cat > 0 ==> mb_w_c(cat) * sub_w(cat) == 16 && mb_h_c(cat) * sub_h(cat) == 16
            &&& cat > 0 ==> mb_w_c(cat) == chroma_w(cat, 16) && mb_h_c(cat) == chroma_h(cat, 16)
        }),
{
}

/// The parameter of a chroma plane: that of luma, mapped with the offset of the plane, raised by
/// six for each bit of chroma beyond eight. Parameters are valid up to 51, raised likewise.
pub proof fn law_chroma_parameter(a: MbArgs, g: GridV, cr: bool, q: int, bd: u32)
    requires
        a.sps.bit_depth_chroma_minus8 <= 6,
        8 <= bd <= 14,
    ensures
        ({
            let offset = if cr && a.pps.extension is Some {
                (a.pps.extension->0).second_chroma_qp_index_offset
            } else {
                a.pps.chroma_qp_index_offset
            };
            let up = 6 * a.sps.bit_depth_chroma_minus8;
            a.chroma_ctx(g, cr).qp == crate::transform::chroma_qp(a.qp_y as int, offset as int, up)
                + up
        }),
        crate::transform::qp_ok(q, bd) == (0 <= q <= 51 + 6 * (bd - 8)),
{
}

} // verus!
