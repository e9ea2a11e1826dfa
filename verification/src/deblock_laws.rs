//! Laws of the deblocking of whole pictures.
use crate::boundary_strength::{
    edge_infos, edge_strength, has_coeffs, law_same_motion_does_not_differ, motion_at, EdgeCtxV,
};
use crate::deblock::{law_line_keeps_range, law_lines_keep_range, plane_in_range};
use crate::deblock_picture::{
    chroma_edge, chroma_edges, chroma_from, chroma_lines, deblocked, deblocked_chroma,
    deblocked_chroma_plane, deblocked_full, deblocked_mbaff_chroma, deblocked_mbaff_luma,
    edge_params, edge_step, full_edge, full_from, line_step, mbaff_chroma_from, mbaff_chroma_inner,
    mbaff_chroma_line, mbaff_chroma_lines, mbaff_chroma_top, mbaff_chroma_vertical, mbaff_luma_from,
    mbaff_luma_line, picture_edge, DeblockArgs, EdgeV, MbLineV, PlaneFilter,
};
use crate::geometry::{blk4_of, sub_h};
use crate::math::{lemma_p2_mono, p2};
use crate::mb_grid::MbInfoV;
use crate::picture::PicV;
use crate::plane::PlaneV;
use vstd::prelude::*;

verus! {

/// A luma position inside a macroblock.
pub open spec fn in_mb(p: (int, int)) -> bool {
    0 <= p.0 < 16 && 0 <= p.1 < 16
}

/// No edge between two macroblocks, or inside one, is filtered.
pub open spec fn all_edges_weak(c: EdgeCtxV) -> bool {
    forall|p: int, q: int, pin: (int, int), qin: (int, int), vertical: bool|
        in_mb(pin) && in_mb(qin) ==> #[trigger] edge_strength(c, p, q, pin, qin, vertical) == 0
}

proof fn lemma_weak_full(p: PlaneV, c: EdgeCtxV, s: PlaneFilter, w: int, h: int, t: int, n: int)
    requires
        all_edges_weak(c),
    ensures
        full_from(p, c, s, w, h, t, n) == p,
    decreases 32 * n - t,
{
    reveal(picture_edge);
    if t < 32 * n {
        lemma_weak_full(p, c, s, w, h, t + 1, n);
    }
}

proof fn lemma_weak_chroma(
    p: PlaneV,
    c: EdgeCtxV,
    s: PlaneFilter,
    cat: u32,
    cw: int,
    ch: int,
    t: int,
    n: int,
)
    requires
        all_edges_weak(c),
    ensures
        chroma_from(p, c, s, cat, cw, ch, t, n) == p,
    decreases chroma_edges(cat) * n - t,
{
    reveal(picture_edge);
    if t < chroma_edges(cat) * n {
        lemma_weak_chroma(p, c, s, cat, cw, ch, t + 1, n);
    }
}

/// The positions on both sides of a line lie in their macroblocks.
pub open spec fn line_in_mb(l: Option<MbLineV>) -> bool {
    l matches Some(v) ==> in_mb(v.pin) && in_mb(v.qin)
}

proof fn lemma_luma_line_in_mb(c: EdgeCtxV, addr: int, e: int)
    requires
        0 <= e < 144,
    ensures
        line_in_mb(mbaff_luma_line(c, addr, e)),
{
    reveal(mbaff_luma_line);
}

proof fn lemma_chroma_line_in_mb(c: EdgeCtxV, sh: int, addr: int, e: int)
    requires
        sh == 1 || sh == 2,
        0 <= e < mbaff_chroma_lines(sh),
    ensures
        line_in_mb(mbaff_chroma_line(c, sh, addr, e)),
{
    reveal(mbaff_chroma_line);
    reveal(mbaff_chroma_vertical);
    reveal(mbaff_chroma_top);
    reveal(mbaff_chroma_inner);
}

proof fn lemma_weak_mbaff_luma(p: PlaneV, c: EdgeCtxV, s: PlaneFilter, t: int, n: int)
    requires
        all_edges_weak(c),
    ensures
        mbaff_luma_from(p, c, s, t, n) == p,
    decreases 144 * n - t,
{
    if t < 144 * n {
        lemma_luma_line_in_mb(c, t / 144, t % 144);
        lemma_weak_mbaff_luma(p, c, s, t + 1, n);
    }
}

proof fn lemma_weak_mbaff_chroma(
    p: PlaneV,
    c: EdgeCtxV,
    s: PlaneFilter,
    sh: int,
    t: int,
    n: int,
)
    requires
        all_edges_weak(c),
        sh == 1 || sh == 2,
    ensures
        mbaff_chroma_from(p, c, s, sh, t, n) == p,
    decreases mbaff_chroma_lines(sh) * n - t,
{
    let k = mbaff_chroma_lines(sh);
    if t < k * n {
        lemma_chroma_line_in_mb(c, sh, t / k, t % k);
        lemma_weak_mbaff_chroma(p, c, s, sh, t + 1, n);
    }
}

/// Deblocking leaves a picture as it is when no edge of it has a strength above zero.
pub proof fn law_weak_edges_keep_picture(pv: PicV, a: DeblockArgs)
    requires
        all_edges_weak(a.c),
    ensures
        deblocked(pv, a) == pv,
{
    reveal(deblocked);
    reveal(deblocked_full);
    reveal(deblocked_chroma);
    reveal(deblocked_mbaff_luma);
    reveal(deblocked_mbaff_chroma);
    let n = a.c.g.w * a.c.g.h;
    lemma_weak_mbaff_luma(pv.luma, a.c, a.luma(), 0, n);
    lemma_weak_full(pv.luma, a.c, a.luma(), pv.luma.w, pv.luma.h, 0, n);
    lemma_weak_full(pv.cb, a.c, a.chroma(false), pv.luma.w, pv.luma.h, 0, n);
    lemma_weak_full(pv.cr, a.c, a.chroma(true), pv.luma.w, pv.luma.h, 0, n);
    if a.cat == 1 || a.cat == 2 {
        lemma_weak_mbaff_chroma(pv.cb, a.c, a.chroma(false), sub_h(a.cat), 0, n);
        lemma_weak_mbaff_chroma(pv.cr, a.c, a.chroma(true), sub_h(a.cat), 0, n);
    }
    lemma_weak_chroma(pv.cb, a.c, a.chroma(false), a.cat, pv.cb.w, pv.cb.h, 0, n);
    lemma_weak_chroma(pv.cr, a.c, a.chroma(true), a.cat, pv.cb.w, pv.cb.h, 0, n);
}

/// Deblocking leaves a picture as it is when none of its macroblocks was decoded.
pub proof fn law_undecoded_picture_is_kept(pv: PicV, a: DeblockArgs)
    requires
        forall|i: int| 0 <= i < a.c.g.info.len() ==> !(#[trigger] a.c.g.info[i]).available,
    ensures
        deblocked(pv, a) == pv,
{
    reveal(edge_strength);
    law_weak_edges_keep_picture(pv, a);
}

/// Macroblocks without coded coefficients that all move alike, in a picture that mixes no frame
/// and field macroblocks, have no edges to filter.
pub proof fn law_uniform_motion_is_kept(pv: PicV, a: DeblockArgs, m: MbInfoV)
    requires
        forall|i: int|
            0 <= i < a.c.g.info.len() ==> (#[trigger] a.c.g.info[i]).luma_nonzero_4x4 == 0
                && !a.c.g.info[i].is_intra && !a.c.g.info[i].in_sp_si_slice,
        forall|i: int, x: int, y: int|
            0 <= i < a.c.g.info.len() && 0 <= x < 16 && 0 <= y < 16 ==> #[trigger] motion_at(
                a.c.g.info[i],
                x,
                y,
            ) == motion_at(m, 0, 0),
        !a.c.mbaff,
    ensures
        deblocked(pv, a) == pv,
{
    reveal(edge_strength);
    assert forall|p: int, q: int, pin: (int, int), qin: (int, int), vertical: bool|
        in_mb(pin) && in_mb(qin) implies #[trigger] edge_strength(
        a.c,
        p,
        q,
        pin,
        qin,
        vertical,
    ) == 0 by {
        if let Some((pi, qi)) = edge_infos(a.c, p, q) {
            law_same_motion_does_not_differ(motion_at(m, 0, 0), a.c.field_units(p, q));
            lemma_no_coeffs(pi, pin.0, pin.1);
            lemma_no_coeffs(qi, qin.0, qin.1);
        }
    }
    law_weak_edges_keep_picture(pv, a);
}

proof fn lemma_no_coeffs(i: MbInfoV, x: int, y: int)
    requires
        i.luma_nonzero_4x4 == 0,
    ensures
        !has_coeffs(i, x, y),
{
    let d = p2(blk4_of(x / 4, y / 4));
    assert(0int / d == 0) by {
        lemma_p2_mono(blk4_of(x / 4, y / 4), blk4_of(x / 4, y / 4));
        vstd::arithmetic::div_mod::lemma_div_basics_1(d);
    }
}

proof fn lemma_edge_keeps_range(p: PlaneV, e: Option<EdgeV>, n: int, bit_depth: u32)
    requires
        plane_in_range(p, bit_depth),
        e matches Some(v) ==> v.f.bit_depth == bit_depth,
    ensures
        plane_in_range(edge_step(p, e, n), bit_depth),
{
    if let Some(v) = e {
        law_lines_keep_range(p, v.x, v.y, v.vertical, v.f, 0, n);
    }
}

proof fn lemma_line_step_keeps_range(
    p: PlaneV,
    c: EdgeCtxV,
    s: PlaneFilter,
    q: int,
    l: Option<MbLineV>,
)
    requires
        plane_in_range(p, s.bit_depth),
    ensures
        plane_in_range(line_step(p, c, s, q, l), s.bit_depth),
{
    if let Some(v) = l {
        let bs = edge_strength(c, v.p, q, v.pin, v.qin, v.vertical);
        if let Some(f) = edge_params(c, s, v.p, q, bs) {
            law_line_keeps_range(p, v.x, v.y, v.vertical, v.step, f);
        }
    }
}

proof fn lemma_full_keeps_range(
    p: PlaneV,
    c: EdgeCtxV,
    s: PlaneFilter,
    w: int,
    h: int,
    t: int,
    n: int,
)
    requires
        plane_in_range(p, s.bit_depth),
    ensures
        plane_in_range(full_from(p, c, s, w, h, t, n), s.bit_depth),
    decreases 32 * n - t,
{
    reveal(picture_edge);
    if t < 32 * n {
        let e = full_edge(c, s, w, h, t / 32, t % 32);
        lemma_edge_keeps_range(p, e, 4, s.bit_depth);
        lemma_full_keeps_range(edge_step(p, e, 4), c, s, w, h, t + 1, n);
    }
}

proof fn lemma_chroma_keeps_range(
    p: PlaneV,
    c: EdgeCtxV,
    s: PlaneFilter,
    cat: u32,
    cw: int,
    ch: int,
    t: int,
    n: int,
)
    requires
        plane_in_range(p, s.bit_depth),
    ensures
        plane_in_range(chroma_from(p, c, s, cat, cw, ch, t, n), s.bit_depth),
    decreases chroma_edges(cat) * n - t,
{
    reveal(picture_edge);
    let k = chroma_edges(cat);
    if t < k * n {
        let e = chroma_edge(c, s, cat, cw, ch, t / k, t % k);
        let lines = chroma_lines(cat, t % k);
        lemma_edge_keeps_range(p, e, lines, s.bit_depth);
        lemma_chroma_keeps_range(edge_step(p, e, lines), c, s, cat, cw, ch, t + 1, n);
    }
}

proof fn lemma_mbaff_luma_keeps_range(p: PlaneV, c: EdgeCtxV, s: PlaneFilter, t: int, n: int)
    requires
        plane_in_range(p, s.bit_depth),
    ensures
        plane_in_range(mbaff_luma_from(p, c, s, t, n), s.bit_depth),
    decreases 144 * n - t,
{
    if t < 144 * n {
        let l = mbaff_luma_line(c, t / 144, t % 144);
        lemma_line_step_keeps_range(p, c, s, t / 144, l);
        lemma_mbaff_luma_keeps_range(line_step(p, c, s, t / 144, l), c, s, t + 1, n);
    }
}

proof fn lemma_mbaff_chroma_keeps_range(
    p: PlaneV,
    c: EdgeCtxV,
    s: PlaneFilter,
    sh: int,
    t: int,
    n: int,
)
    requires
        plane_in_range(p, s.bit_depth),
    ensures
        plane_in_range(mbaff_chroma_from(p, c, s, sh, t, n), s.bit_depth),
    decreases mbaff_chroma_lines(sh) * n - t,
{
    let k = mbaff_chroma_lines(sh);
    if t < k * n {
        let l = mbaff_chroma_line(c, sh, t / k, t % k);
        lemma_line_step_keeps_range(p, c, s, t / k, l);
        lemma_mbaff_chroma_keeps_range(line_step(p, c, s, t / k, l), c, s, sh, t + 1, n);
    }
}

proof fn lemma_chroma_plane_keeps_range(p: PlaneV, a: DeblockArgs, pv: PicV, cr: bool)
    requires
        plane_in_range(p, a.bit_depth_c),
    ensures
        plane_in_range(deblocked_chroma_plane(p, a, pv, cr), a.bit_depth_c),
{
    reveal(deblocked_full);
    reveal(deblocked_chroma);
    reveal(deblocked_mbaff_chroma);
    let n = a.c.g.w * a.c.g.h;
    let s = a.chroma(cr);
    lemma_full_keeps_range(p, a.c, s, pv.luma.w, pv.luma.h, 0, n);
    lemma_mbaff_chroma_keeps_range(p, a.c, s, sub_h(a.cat), 0, n);
    lemma_chroma_keeps_range(p, a.c, s, a.cat, pv.cb.w, pv.cb.h, 0, n);
}

/// Deblocking keeps the samples of every plane in the range of their bit depth.
pub proof fn law_deblocking_keeps_range(pv: PicV, a: DeblockArgs)
    requires
        plane_in_range(pv.luma, a.bit_depth_y),
        plane_in_range(pv.cb, a.bit_depth_c),
        plane_in_range(pv.cr, a.bit_depth_c),
    ensures
        plane_in_range(deblocked(pv, a).luma, a.bit_depth_y),
        plane_in_range(deblocked(pv, a).cb, a.bit_depth_c),
        plane_in_range(deblocked(pv, a).cr, a.bit_depth_c),
{
    reveal(deblocked);
    reveal(deblocked_full);
    reveal(deblocked_mbaff_luma);
    let n = a.c.g.w * a.c.g.h;
    lemma_mbaff_luma_keeps_range(pv.luma, a.c, a.luma(), 0, n);
    lemma_full_keeps_range(pv.luma, a.c, a.luma(), pv.luma.w, pv.luma.h, 0, n);
    lemma_chroma_plane_keeps_range(pv.cb, a, pv, false);
    lemma_chroma_plane_keeps_range(pv.cr, a, pv, true);
}

} // verus!
