//! Deblocking of whole pictures.
use crate::boundary_strength::{edge_infos, edge_strength, mbaff_edge_bs, EdgeCtx, EdgeCtxV};
use crate::deblock::{
    depth_over_8, depth_over_8_of, filter_line, filter_lines, line_filtered, lines_from, LineParams,
};
use crate::geometry::sub_h;
use crate::math::{clip3, clip3_i64, floor_div, min_of};
use crate::mb_address::{lemma_div_mod_bound, mb_sample_origin, MAX_ADDR};
use crate::mb_grid::{MbGrid, MbInfo, MbInfoV};
use crate::neighbours::lemma_raster;
use crate::picture::{same_meta, PicV, Picture};
use crate::plane::{Plane, PlaneV};
use crate::pps::Pps;
use crate::transform::{bd_offset, chroma_qp, qp_bd_offset, qp_y_to_qp_c_with_bd_offset};
use vstd::prelude::*;

verus! {

impl EdgeCtxV {
    /// Macroblock that covers a luma sample.
    pub open spec fn pixel_addr(self, x: int, y: int) -> Option<int> {
        let w = self.g.w;
        if x < 0 || y < 0 || x / 16 >= w {
            None
        } else if !self.mbaff {
            if y / 16 >= self.g.h {
                None
            } else {
                Some((y / 16) * w + x / 16)
            }
        } else if 2 * (y / 32) >= self.g.h {
            None
        } else {
            let top = 2 * ((y / 32) * w + x / 16);
            let bottom = if self.flag(top) {
                y % 2 == 1
            } else {
                y % 32 >= 16
            };
            Some(
                if bottom {
                    top + 1
                } else {
                    top
                },
            )
        }
    }

    /// Position of macroblock number `flat` in the order of filtering, in macroblocks.
    pub open spec fn scan_pos(self, flat: int) -> (int, int) {
        let w = self.g.w;
        if self.mbaff {
            ((flat % (2 * w)) / 2, 2 * (flat / (2 * w)) + (flat % (2 * w)) % 2)
        } else {
            (flat % w, flat / w)
        }
    }
}

/// Filter settings of a plane.
#[derive(Debug, Clone, Copy)]
pub struct PlaneFilter {
    pub alpha_off: i32,
    pub beta_off: i32,
    pub bit_depth: u32,
    /// Offset of the chroma quantisation parameter; `None` for luma.
    pub chroma_offset: Option<i32>,
    /// Filtered as luma.
    pub luma_style: bool,
    /// Uncompressed macroblocks count as quantised with parameter 0.
    pub pcm_is_zero: bool,
}

/// Parameter of one side of an edge.
pub open spec fn side_qp(i: MbInfoV, s: PlaneFilter) -> int {
    let qp = if s.pcm_is_zero && i.is_i_pcm {
        0
    } else {
        i.qp_y as int
    };
    match s.chroma_offset {
        Some(off) => chroma_qp(qp, off as int, bd_offset(depth_over_8(s.bit_depth))),
        None => qp,
    }
}

/// Settings for the lines of an edge between macroblocks `p` and `q`; `None` where nothing is
/// filtered.
pub open spec fn edge_params(c: EdgeCtxV, s: PlaneFilter, p: int, q: int, bs: u8) -> Option<
    LineParams,
> {
    match edge_infos(c, p, q) {
        Some((pi, qi)) => if bs == 0 {
            None
        } else {
            Some(
                LineParams {
                    bs,
                    qp_avg: ((side_qp(pi, s) + side_qp(qi, s) + 1) / 2) as i64,
                    alpha_off: s.alpha_off,
                    beta_off: s.beta_off,
                    bit_depth: s.bit_depth,
                    luma: s.luma_style,
                },
            )
        },
        None => None,
    }
}

fn side_qp_of(i: &MbInfo, s: &PlaneFilter) -> (r: i64)
    requires
        s.bit_depth <= 14,
    ensures
        r == side_qp(i@, *s),
        -0x8000_0000 <= r <= 0x8000_0000,
{
    let qp: i64 = if s.pcm_is_zero && i.is_i_pcm {
        0
    } else {
        i.qp_y as i64
    };
    match s.chroma_offset {
        Some(off) => qp_y_to_qp_c_with_bd_offset(qp, off, qp_bd_offset(depth_over_8_of(s.bit_depth))),
        None => qp,
    }
}

fn edge_params_of(c: &EdgeCtx, s: &PlaneFilter, p: u32, q: u32, bs: u8) -> (r: Option<LineParams>)
    requires
        s.bit_depth <= 14,
    ensures
        r == edge_params(c@, *s, p as int, q as int, bs),
        r matches Some(f) ==> f.wf(),
{
    if bs == 0 {
        return None;
    }
    match (c.grid.get(p), c.grid.get(q)) {
        (Some(pi), Some(qi)) => if pi.available && qi.available {
            Some(
                LineParams {
                    bs,
                    qp_avg: floor_div(side_qp_of(pi, s) + side_qp_of(qi, s) + 1, 2),
                    alpha_off: s.alpha_off,
                    beta_off: s.beta_off,
                    bit_depth: s.bit_depth,
                    luma: s.luma_style,
                },
            )
        } else {
            None
        },
        _ => None,
    }
}

/// Finds the macroblock that covers a luma sample.
pub fn pixel_to_mb_addr(c: &EdgeCtx, x: i64, y: i64) -> (r: Option<u32>)
    requires
        c.wf(),
        x <= 0x1_0000_0000,
        y <= 0x1_0000_0000,
    ensures
        match r {
            Some(a) => c@.pixel_addr(x as int, y as int) == Some(a as int),
            None => c@.pixel_addr(x as int, y as int) is None,
        },
{
    let w: i64 = c.grid.width_in_mbs as i64;
    let h: i64 = c.grid.height_in_mbs as i64;
    if x < 0 || y < 0 || x / 16 >= w {
        return None;
    }
    if !c.mbaff {
        if y / 16 >= h {
            return None;
        }
        proof {
            lemma_raster(x as int / 16, y as int / 16, w as int, h as int);
        }
        return Some(((y / 16) * w + x / 16) as u32);
    }
    if 2 * (y / 32) >= h {
        return None;
    }
    let ghost row = y as int / 32;
    proof {
        assert(0 <= row * w && 2 * (row * w) <= w * h && w <= w * h) by (nonlinear_arith)
            requires
                0 <= row,
                2 * row < h,
                w >= 1,
                h >= 1,
        ;
    }
    let top: u32 = (2 * ((y / 32) * w + x / 16)) as u32;
    let bottom = if c.flag_of(top) {
        y % 2 == 1
    } else {
        y % 32 >= 16
    };
    if bottom {
        Some(top + 1)
    } else {
        Some(top)
    }
}

/// Samples next to an edge: `p` and `q` positions in the picture, and the line settings.
pub struct EdgeV {
    pub x: int,
    pub y: int,
    pub vertical: bool,
    pub f: LineParams,
}

/// The edge between luma positions `(px, py)` and `(qx, qy)`, for which the lines start at
/// `(x, y)` of the plane. Edges inside a macroblock with 8x8 transform are skipped where `odd`.
#[verifier::opaque]
pub open spec fn picture_edge(
    c: EdgeCtxV,
    s: PlaneFilter,
    px: int,
    py: int,
    qx: int,
    qy: int,
    x: int,
    y: int,
    vertical: bool,
    odd: bool,
) -> Option<EdgeV> {
    match (c.pixel_addr(px, py), c.pixel_addr(qx, qy)) {
        (Some(p), Some(q)) => match edge_infos(c, p, q) {
            Some((pi, qi)) => if p == q && odd && qi.transform_size_8x8_flag {
                None
            } else {
                match edge_params(
                    c,
                    s,
                    p,
                    q,
                    edge_strength(
                        c,
                        p,
                        q,
                        (px % 16, py % 16),
                        (qx % 16, qy % 16),
                        vertical,
                    ),
                ) {
                    Some(f) => Some(EdgeV { x, y, vertical, f }),
                    None => None,
                }
            },
            None => None,
        },
        _ => None,
    }
}

/// Position and settings of an edge.
pub struct Edge {
    pub x: i64,
    pub y: i64,
    pub vertical: bool,
    pub f: LineParams,
}

pub open spec fn edge_view(e: Option<Edge>) -> Option<EdgeV> {
    match e {
        Some(e) => Some(EdgeV { x: e.x as int, y: e.y as int, vertical: e.vertical, f: e.f }),
        None => None,
    }
}

fn picture_edge_of(
    c: &EdgeCtx,
    s: &PlaneFilter,
    px: i64,
    py: i64,
    qx: i64,
    qy: i64,
    x: i64,
    y: i64,
    vertical: bool,
    odd: bool,
) -> (r: Option<Edge>)
    requires
        c.wf(),
        s.bit_depth <= 14,
        px <= 0x1_0000_0000,
        py <= 0x1_0000_0000,
        qx <= 0x1_0000_0000,
        qy <= 0x1_0000_0000,
    ensures
        edge_view(r) == picture_edge(
            c@,
            *s,
            px as int,
            py as int,
            qx as int,
            qy as int,
            x as int,
            y as int,
            vertical,
            odd,
        ),
        r matches Some(e) ==> e.f.wf() && e.x == x && e.y == y,
{
    proof {
        reveal(picture_edge);
    }
    let p = match pixel_to_mb_addr(c, px, py) {
        Some(a) => a,
        None => {
            return None;
        },
    };
    let q = match pixel_to_mb_addr(c, qx, qy) {
        Some(a) => a,
        None => {
            return None;
        },
    };
    match (c.grid.get(p), c.grid.get(q)) {
        (Some(pi), Some(qi)) => {
            if !(pi.available && qi.available) {
                return None;
            }
            if p == q && odd && qi.transform_size_8x8_flag {
                return None;
            }
        },
        _ => {
            return None;
        },
    }
    let bs = mbaff_edge_bs(
        c,
        p,
        q,
        ((px % 16) as u32, (py % 16) as u32),
        ((qx % 16) as u32, (qy % 16) as u32),
        vertical,
    );
    match edge_params_of(c, s, p, q, bs) {
        Some(f) => Some(Edge { x, y, vertical, f }),
        None => None,
    }
}

/// Edge number `e` of macroblock number `flat` of a plane with the resolution of luma: first the
/// vertical edges from left to right, then the horizontal ones from top to bottom, each in four
/// pieces. `w` and `h` are the luma size of the picture.
pub open spec fn full_edge(c: EdgeCtxV, s: PlaneFilter, w: int, h: int, flat: int, e: int) -> Option<
    EdgeV,
> {
    let (mx, my) = c.scan_pos(flat);
    let edge = (e % 16) / 4;
    let piece = e % 4;
    if e < 16 {
        let x = 16 * mx + 4 * edge;
        let y = 16 * my + 4 * piece;
        if x == 0 || x >= w || y >= h {
            None
        } else {
            picture_edge(c, s, x - 1, y, x, y, x, y, true, edge % 2 == 1)
        }
    } else {
        let x = 16 * mx + 4 * piece;
        let y = 16 * my + 4 * edge;
        if y == 0 || y >= h || x >= w {
            None
        } else {
            picture_edge(c, s, x, y - 1, x, y, x, y, false, edge % 2 == 1)
        }
    }
}

/// The plane after an edge of `n` lines.
pub open spec fn edge_step(p: PlaneV, e: Option<EdgeV>, n: int) -> PlaneV {
    match e {
        Some(e) => lines_from(p, e.x, e.y, e.vertical, e.f, 0, n),
        None => p,
    }
}

/// The plane after the edges from number `t` on, 32 for each of `n` macroblocks.
pub open spec fn full_from(
    p: PlaneV,
    c: EdgeCtxV,
    s: PlaneFilter,
    w: int,
    h: int,
    t: int,
    n: int,
) -> PlaneV
    decreases 32 * n - t,
{
    if t >= 32 * n {
        p
    } else {
        full_from(
            edge_step(p, full_edge(c, s, w, h, t / 32, t % 32), 4),
            c,
            s,
            w,
            h,
            t + 1,
            n,
        )
    }
}

/// A plane with the resolution of luma after deblocking.
#[verifier::opaque]
pub open spec fn deblocked_full(p: PlaneV, c: EdgeCtxV, s: PlaneFilter, w: int, h: int) -> PlaneV {
    full_from(p, c, s, w, h, 0, c.g.w * c.g.h)
}

fn scan_pos_of(c: &EdgeCtx, flat: u32) -> (r: (i64, i64))
    requires
        c.wf(),
        flat <= MAX_ADDR,
    ensures
        (r.0 as int, r.1 as int) == c@.scan_pos(flat as int),
        0 <= r.0 <= 0x0400_0000,
        0 <= r.1 <= 0x0400_0001,
{
    let w: u32 = c.grid.width_in_mbs;
    proof {
        lemma_div_mod_bound(flat as int, w as int);
        assert(w <= c.grid.info.len()) by (nonlinear_arith)
            requires
                c.grid.info.len() == w * c.grid.height_in_mbs,
                c.grid.height_in_mbs >= 1,
                w >= 1,
        ;
        lemma_div_mod_bound(flat as int, 2 * w);
        let q = flat as int / (2 * w);
        let m = flat as int % (2 * w);
        assert(2 * q <= flat) by (nonlinear_arith)
            requires
                flat == 2 * w * q + m,
                m >= 0,
                q >= 0,
                w >= 1,
        ;
    }
    if c.mbaff {
        let rem: u32 = flat % (2 * w);
        ((rem / 2) as i64, 2 * (flat / (2 * w)) as i64 + (rem % 2) as i64)
    } else {
        ((flat % w) as i64, (flat / w) as i64)
    }
}

fn full_edge_of(c: &EdgeCtx, s: &PlaneFilter, w: u32, h: u32, flat: u32, e: u32) -> (r: Option<Edge>)
    requires
        c.wf(),
        s.bit_depth <= 14,
        flat <= MAX_ADDR,
        e < 32,
    ensures
        edge_view(r) == full_edge(c@, *s, w as int, h as int, flat as int, e as int),
        r matches Some(e) ==> e.f.wf() && 0 <= e.x <= 0x8000_0000 && 0 <= e.y <= 0x8000_0000,
{
    let (mx, my) = scan_pos_of(c, flat);
    let edge: i64 = ((e % 16) / 4) as i64;
    let piece: i64 = (e % 4) as i64;
    let odd = edge % 2 == 1;
    if e < 16 {
        let x: i64 = 16 * mx + 4 * edge;
        let y: i64 = 16 * my + 4 * piece;
        if x == 0 || x >= w as i64 || y >= h as i64 {
            return None;
        }
        picture_edge_of(c, s, x - 1, y, x, y, x, y, true, odd)
    } else {
        let x: i64 = 16 * mx + 4 * piece;
        let y: i64 = 16 * my + 4 * edge;
        if y == 0 || y >= h as i64 || x >= w as i64 {
            return None;
        }
        picture_edge_of(c, s, x, y - 1, x, y, x, y, false, odd)
    }
}

/// Deblocks a plane with the resolution of luma.
fn deblock_full_plane(p: &mut Plane, c: &EdgeCtx, s: &PlaneFilter, w: u32, h: u32)
    requires
        c.wf(),
        s.bit_depth <= 14,
    ensures
        final(p)@ == deblocked_full(old(p)@, c@, *s, w as int, h as int),
        final(p)@.same_size(old(p)@),
{
    proof {
        reveal(deblocked_full);
    }
    let n: u32 = c.grid.info.len() as u32;
    let total: u32 = 32 * n;
    let mut t: u32 = 0;
    while t < total
        invariant
            p@.same_size(old(p)@),
            c.wf(),
            s.bit_depth <= 14,
            n == c.grid.info.len(),
            total == 32 * n,
            t <= total,
            full_from(p@, c@, *s, w as int, h as int, t as int, n as int) == full_from(
                old(p)@,
                c@,
                *s,
                w as int,
                h as int,
                0,
                n as int,
            ),
        decreases total - t,
    {
        match full_edge_of(c, s, w, h, t / 32, t % 32) {
            Some(e) => filter_lines(p, e.x, e.y, e.vertical, &e.f, 4),
            None => {},
        }
        t += 1;
    }
}

/// Edge number `e` of macroblock number `flat` of a 4:2:0 or 4:2:2 chroma plane of size `cw` by
/// `ch`: first the vertical edges, then the horizontal ones, each in four pieces.
pub open spec fn chroma_edge(
    c: EdgeCtxV,
    s: PlaneFilter,
    cat: u32,
    cw: int,
    ch: int,
    flat: int,
    e: int,
) -> Option<EdgeV> {
    let (mx, my) = c.scan_pos(flat);
    let sh = sub_h(cat);
    let rows = 4int / sh;
    let piece = e % 4;
    if e < 8 {
        let x = 8 * mx + 4 * (e / 4);
        let y = 4 * rows * my + rows * piece;
        if x == 0 || x >= cw || y >= ch {
            None
        } else {
            picture_edge(c, s, 2 * (x - 1), sh * y, 2 * x, sh * y, x, y, true, false)
        }
    } else {
        let x = 8 * mx + 2 * piece;
        let y = 4 * rows * my + 4 * ((e - 8) / 4);
        if y == 0 || y >= ch || x >= cw {
            None
        } else {
            picture_edge(c, s, 2 * x, sh * (y - 1), 2 * x, sh * y, x, y, false, false)
        }
    }
}

/// Number of edge pieces of a chroma macroblock.
pub open spec fn chroma_edges(cat: u32) -> int {
    if cat == 1 {
        16
    } else {
        24
    }
}

/// Number of lines of edge piece `e`.
pub open spec fn chroma_lines(cat: u32, e: int) -> int {
    if e < 8 {
        4int / sub_h(cat)
    } else {
        2
    }
}

/// The chroma plane after the edges from number `t` on.
pub open spec fn chroma_from(
    p: PlaneV,
    c: EdgeCtxV,
    s: PlaneFilter,
    cat: u32,
    cw: int,
    ch: int,
    t: int,
    n: int,
) -> PlaneV
    decreases chroma_edges(cat) * n - t,
{
    let k = chroma_edges(cat);
    if t >= k * n {
        p
    } else {
        chroma_from(
            edge_step(
                p,
                chroma_edge(c, s, cat, cw, ch, t / k, t % k),
                chroma_lines(cat, t % k),
            ),
            c,
            s,
            cat,
            cw,
            ch,
            t + 1,
            n,
        )
    }
}

/// A 4:2:0 or 4:2:2 chroma plane after deblocking.
#[verifier::opaque]
pub open spec fn deblocked_chroma(
    p: PlaneV,
    c: EdgeCtxV,
    s: PlaneFilter,
    cat: u32,
    cw: int,
    ch: int,
) -> PlaneV {
    chroma_from(p, c, s, cat, cw, ch, 0, c.g.w * c.g.h)
}

fn chroma_edge_of(
    c: &EdgeCtx,
    s: &PlaneFilter,
    cat: u32,
    cw: u32,
    ch: u32,
    flat: u32,
    e: u32,
) -> (r: Option<Edge>)
    requires
        c.wf(),
        cat == 1 || cat == 2,
        s.bit_depth <= 14,
        flat <= MAX_ADDR,
        e < chroma_edges(cat),
    ensures
        edge_view(r) == chroma_edge(c@, *s, cat, cw as int, ch as int, flat as int, e as int),
        r matches Some(e) ==> e.f.wf() && 0 <= e.x <= 0x8000_0000 && 0 <= e.y <= 0x8000_0000,
{
    let (mx, my) = scan_pos_of(c, flat);
    let piece: i64 = (e % 4) as i64;
    if cat == 1 {
        if e < 8 {
            let x: i64 = 8 * mx + 4 * (e / 4) as i64;
            let y: i64 = 8 * my + 2 * piece;
            if x == 0 || x >= cw as i64 || y >= ch as i64 {
                return None;
            }
            picture_edge_of(c, s, 2 * (x - 1), 2 * y, 2 * x, 2 * y, x, y, true, false)
        } else {
            let x: i64 = 8 * mx + 2 * piece;
            let y: i64 = 8 * my + 4 * ((e - 8) / 4) as i64;
            if y == 0 || y >= ch as i64 || x >= cw as i64 {
                return None;
            }
            picture_edge_of(c, s, 2 * x, 2 * (y - 1), 2 * x, 2 * y, x, y, false, false)
        }
    } else if e < 8 {
        let x: i64 = 8 * mx + 4 * (e / 4) as i64;
        let y: i64 = 16 * my + 4 * piece;
        if x == 0 || x >= cw as i64 || y >= ch as i64 {
            return None;
        }
        picture_edge_of(c, s, 2 * (x - 1), y, 2 * x, y, x, y, true, false)
    } else {
        let x: i64 = 8 * mx + 2 * piece;
        let y: i64 = 16 * my + 4 * ((e - 8) / 4) as i64;
        if y == 0 || y >= ch as i64 || x >= cw as i64 {
            return None;
        }
        picture_edge_of(c, s, 2 * x, y - 1, 2 * x, y, x, y, false, false)
    }
}

/// Deblocks a 4:2:0 or 4:2:2 chroma plane.
fn deblock_chroma_plane(p: &mut Plane, c: &EdgeCtx, s: &PlaneFilter, cat: u32, cw: u32, ch: u32)
    requires
        c.wf(),
        cat == 1 || cat == 2,
        s.bit_depth <= 14,
    ensures
        final(p)@ == deblocked_chroma(old(p)@, c@, *s, cat, cw as int, ch as int),
        final(p)@.same_size(old(p)@),
{
    proof {
        reveal(deblocked_chroma);
    }
    let n: u32 = c.grid.info.len() as u32;
    let k: u32 = if cat == 1 {
        16
    } else {
        24
    };
    let total: u32 = if cat == 1 {
        16 * n
    } else {
        24 * n
    };
    let mut t: u32 = 0;
    while t < total
        invariant
            p@.same_size(old(p)@),
            c.wf(),
            cat == 1 || cat == 2,
            s.bit_depth <= 14,
            n == c.grid.info.len(),
            k == chroma_edges(cat),
            total == k * n,
            t <= total,
            chroma_from(p@, c@, *s, cat, cw as int, ch as int, t as int, n as int) == chroma_from(
                old(p)@,
                c@,
                *s,
                cat,
                cw as int,
                ch as int,
                0,
                n as int,
            ),
        decreases total - t,
    {
        let (flat, e): (u32, u32) = if cat == 1 {
            (t / 16, t % 16)
        } else {
            (t / 24, t % 24)
        };
        match chroma_edge_of(c, s, cat, cw, ch, flat, e) {
            Some(g) => {
                let lines: i64 = if e < 8 && cat == 2 {
                    4
                } else {
                    2
                };
                filter_lines(p, g.x, g.y, g.vertical, &g.f, lines);
            },
            None => {},
        }
        t += 1;
    }
}

/// A line across an edge of a macroblock of an MBAFF frame.
pub struct MbLineV {
    /// Position of the first sample on the far side of the edge, in the plane.
    pub x: int,
    pub y: int,
    pub vertical: bool,
    /// Rows from one sample to the next across a horizontal edge.
    pub step: int,
    /// Macroblock on the near side, and luma positions on both sides in their macroblocks.
    pub p: int,
    pub pin: (int, int),
    pub qin: (int, int),
}

/// Facts about a macroblock of an MBAFF frame that decide which of its edges are filtered.
pub struct MbEdgesV {
    pub field: bool,
    pub x0: int,
    pub y0: int,
    pub left: bool,
    pub top: bool,
    /// The upper edge of a frame macroblock below a field pair: filtered once per field.
    pub twice: bool,
    pub t8: bool,
}

impl EdgeCtxV {
    /// Position of a luma sample in a macroblock of an MBAFF frame.
    pub open spec fn in_luma(self, addr: int, x: int, y: int) -> (int, int) {
        let o = self.g.origin(addr, true, self.flag(addr));
        (
            clip3(0, 15, x - o.0),
            clip3(
                0,
                15,
                if self.flag(addr) {
                    (y - o.1) / 2
                } else {
                    y - o.1
                },
            ),
        )
    }

    pub open spec fn mb_edges(self, addr: int) -> Option<MbEdgesV> {
        match self.g.get(addr) {
            Some(i) => if i.available {
                let field = self.flag(addr);
                let o = self.g.origin(addr, true, field);
                let pair = addr / 2;
                let first_row = pair < self.g.w;
                let upper = addr % 2 == 0;
                let top = !first_row || (!field && !upper);
                Some(
                    MbEdgesV {
                        field,
                        x0: o.0,
                        y0: o.1,
                        left: pair % self.g.w != 0,
                        top,
                        twice: top && upper && !field && !first_row && self.flag(
                            addr - 2 * self.g.w + 1,
                        ),
                        t8: i.transform_size_8x8_flag,
                    },
                )
            } else {
                None
            },
            None => None,
        }
    }

    /// The line whose near side is at luma position `(px, py)`, if a macroblock covers it.
    pub open spec fn line_to(self, px: int, py: int, l: MbLineV) -> Option<MbLineV> {
        match self.pixel_addr(px, py) {
            Some(p) => if p < self.g.info.len() {
                Some(MbLineV { p, pin: self.in_luma(p, px, py), ..l })
            } else {
                None
            },
            None => None,
        }
    }
}

/// Line number `e` of the luma edges of macroblock `addr` of an MBAFF frame: sixteen lines for each
/// of four vertical edges, the upper edge (twice), and three inner horizontal edges.
#[verifier::opaque]
pub open spec fn mbaff_luma_line(c: EdgeCtxV, addr: int, e: int) -> Option<MbLineV> {
    match c.mb_edges(addr) {
        None => None,
        Some(m) => {
            let dy = if m.field {
                2int
            } else {
                1int
            };
            let k = e % 16;
            if e < 64 {
                let edge = e / 16;
                let l = MbLineV {
                    x: m.x0 + 4 * edge,
                    y: m.y0 + dy * k,
                    vertical: true,
                    step: 1,
                    p: addr,
                    pin: (4 * edge - 1, k),
                    qin: (4 * edge, k),
                };
                if edge == 0 {
                    if m.left {
                        c.line_to(l.x - 1, l.y, l)
                    } else {
                        None
                    }
                } else if edge % 2 == 1 && m.t8 {
                    None
                } else {
                    Some(l)
                }
            } else if e < 96 {
                let j = (e - 64) / 16;
                let step = if m.twice {
                    2
                } else {
                    dy
                };
                let l = MbLineV {
                    x: m.x0 + k,
                    y: m.y0 + j,
                    vertical: false,
                    step,
                    p: addr,
                    pin: (0, 0),
                    qin: (k, j),
                };
                if !m.top || (j == 1 && !m.twice) {
                    None
                } else {
                    c.line_to(l.x, l.y - step, l)
                }
            } else {
                let edge = 1 + (e - 96) / 16;
                if edge % 2 == 1 && m.t8 {
                    None
                } else {
                    Some(
                        MbLineV {
                            x: m.x0 + k,
                            y: m.y0 + dy * (4 * edge),
                            vertical: false,
                            step: dy,
                            p: addr,
                            pin: (k, 4 * edge - 1),
                            qin: (k, 4 * edge),
                        },
                    )
                }
            }
        },
    }
}

/// The plane after a line of macroblock `q`.
pub open spec fn line_step(p: PlaneV, c: EdgeCtxV, s: PlaneFilter, q: int, l: Option<MbLineV>) -> PlaneV {
    match l {
        Some(l) => match edge_params(
            c,
            s,
            l.p,
            q,
            edge_strength(c, l.p, q, l.pin, l.qin, l.vertical),
        ) {
            Some(f) => line_filtered(p, l.x, l.y, l.vertical, l.step, f),
            None => p,
        },
        None => p,
    }
}

/// The luma plane after the lines from number `t` on, 144 for each of `n` macroblocks.
pub open spec fn mbaff_luma_from(p: PlaneV, c: EdgeCtxV, s: PlaneFilter, t: int, n: int) -> PlaneV
    decreases 144 * n - t,
{
    if t >= 144 * n {
        p
    } else {
        mbaff_luma_from(
            line_step(p, c, s, t / 144, mbaff_luma_line(c, t / 144, t % 144)),
            c,
            s,
            t + 1,
            n,
        )
    }
}

/// The luma plane of an MBAFF frame after deblocking.
#[verifier::opaque]
pub open spec fn deblocked_mbaff_luma(p: PlaneV, c: EdgeCtxV, s: PlaneFilter) -> PlaneV {
    mbaff_luma_from(p, c, s, 0, c.g.w * c.g.h)
}

/// A line across an edge of a macroblock of an MBAFF frame.
struct MbLine {
    x: i64,
    y: i64,
    vertical: bool,
    step: i64,
    p: u32,
    pin: (u32, u32),
    qin: (u32, u32),
}

spec fn line_view(l: Option<MbLine>) -> Option<MbLineV> {
    match l {
        Some(l) => Some(
            MbLineV {
                x: l.x as int,
                y: l.y as int,
                vertical: l.vertical,
                step: l.step as int,
                p: l.p as int,
                pin: (l.pin.0 as int, l.pin.1 as int),
                qin: (l.qin.0 as int, l.qin.1 as int),
            },
        ),
        None => None,
    }
}

spec fn line_ok(l: MbLine) -> bool {
    &&& -0x8000_0000 <= l.x <= 0x8000_0000
    &&& -0x8000_0000 <= l.y <= 0x8000_0000
    &&& l.step == 1 || l.step == 2
    &&& l.pin.0 < 16
    &&& l.pin.1 < 16
    &&& l.qin.0 < 16
    &&& l.qin.1 < 16
}

struct MbEdges {
    field: bool,
    x0: i64,
    y0: i64,
    left: bool,
    top: bool,
    twice: bool,
    t8: bool,
}

spec fn mb_edges_view(m: Option<MbEdges>) -> Option<MbEdgesV> {
    match m {
        Some(m) => Some(
            MbEdgesV {
                field: m.field,
                x0: m.x0 as int,
                y0: m.y0 as int,
                left: m.left,
                top: m.top,
                twice: m.twice,
                t8: m.t8,
            },
        ),
        None => None,
    }
}

fn mb_edges_of(c: &EdgeCtx, addr: u32) -> (r: Option<MbEdges>)
    requires
        c.wf(),
        addr <= MAX_ADDR,
    ensures
        mb_edges_view(r) == c@.mb_edges(addr as int),
        r matches Some(m) ==> 0 <= m.x0 <= 0x4000_0010 && 0 <= m.y0 <= 0x4000_0020,
{
    match c.grid.get(addr) {
        Some(i) => {
            if !i.available {
                return None;
            }
            let w = c.grid.width_in_mbs;
            let field = c.flag_of(addr);
            let (x0, y0) = mb_sample_origin(c.grid, addr, true, field);
            let pair: u32 = addr / 2;
            let first_row = pair < w;
            let upper = addr % 2 == 0;
            let top = !first_row || (!field && !upper);
            let twice = top && upper && !field && !first_row && c.flag_of(addr - 2 * w + 1);
            Some(
                MbEdges {
                    field,
                    x0: x0 as i64,
                    y0: y0 as i64,
                    left: pair % w != 0,
                    top,
                    twice,
                    t8: i.transform_size_8x8_flag,
                },
            )
        },
        None => None,
    }
}

fn in_mb_luma_coords(c: &EdgeCtx, addr: u32, x: i64, y: i64) -> (r: (u32, u32))
    requires
        c.wf(),
        addr <= MAX_ADDR,
        -0x1_0000_0000 <= x <= 0x1_0000_0000,
        -0x1_0000_0000 <= y <= 0x1_0000_0000,
    ensures
        (r.0 as int, r.1 as int) == c@.in_luma(addr as int, x as int, y as int),
        r.0 < 16,
        r.1 < 16,
{
    let field = c.flag_of(addr);
    let (x0, y0) = mb_sample_origin(c.grid, addr, true, field);
    let dx: i64 = x - x0 as i64;
    let dy: i64 = y - y0 as i64;
    let row = if field {
        floor_div(dy, 2)
    } else {
        dy
    };
    (clip3_i64(0, 15, dx) as u32, clip3_i64(0, 15, row) as u32)
}

fn line_to_of(c: &EdgeCtx, px: i64, py: i64, l: MbLine) -> (r: Option<MbLine>)
    requires
        c.wf(),
        -0x1_0000_0000 <= px <= 0x1_0000_0000,
        -0x1_0000_0000 <= py <= 0x1_0000_0000,
        line_ok(l),
    ensures
        line_view(r) == c@.line_to(px as int, py as int, line_view(Some(l))->0),
        r matches Some(m) ==> line_ok(m),
{
    match pixel_to_mb_addr(c, px, py) {
        Some(p) => {
            if p as usize >= c.grid.info.len() {
                return None;
            }
            let pin = in_mb_luma_coords(c, p, px, py);
            Some(
                MbLine {
                    x: l.x,
                    y: l.y,
                    vertical: l.vertical,
                    step: l.step,
                    p,
                    pin,
                    qin: l.qin,
                },
            )
        },
        None => None,
    }
}

fn mbaff_luma_line_of(c: &EdgeCtx, addr: u32, e: u32) -> (r: Option<MbLine>)
    requires
        c.wf(),
        addr <= MAX_ADDR,
        e < 144,
    ensures
        line_view(r) == mbaff_luma_line(c@, addr as int, e as int),
        r matches Some(m) ==> line_ok(m),
{
    proof {
        reveal(mbaff_luma_line);
    }
    let m = match mb_edges_of(c, addr) {
        Some(m) => m,
        None => {
            return None;
        },
    };
    let dy: i64 = if m.field {
        2
    } else {
        1
    };
    let k: u32 = e % 16;
    if e < 64 {
        let edge: u32 = e / 16;
        let x: i64 = m.x0 + 4 * edge as i64;
        let y: i64 = m.y0 + if m.field {
            2 * k as i64
        } else {
            k as i64
        };
        if edge == 0 {
            if !m.left {
                return None;
            }
            return line_to_of(
                c,
                x - 1,
                y,
                MbLine { x, y, vertical: true, step: 1, p: addr, pin: (0, 0), qin: (0, k) },
            );
        }
        if edge % 2 == 1 && m.t8 {
            return None;
        }
        Some(
            MbLine {
                x,
                y,
                vertical: true,
                step: 1,
                p: addr,
                pin: (4 * edge - 1, k),
                qin: (4 * edge, k),
            },
        )
    } else if e < 96 {
        let j: u32 = (e - 64) / 16;
        if !m.top || (j == 1 && !m.twice) {
            return None;
        }
        let step: i64 = if m.twice {
            2
        } else {
            dy
        };
        let x: i64 = m.x0 + k as i64;
        let y: i64 = m.y0 + j as i64;
        line_to_of(
            c,
            x,
            y - step,
            MbLine { x, y, vertical: false, step, p: addr, pin: (0, 0), qin: (k, j) },
        )
    } else {
        let edge: u32 = 1 + (e - 96) / 16;
        if edge % 2 == 1 && m.t8 {
            return None;
        }
        let y: i64 = m.y0 + if m.field {
            8 * edge as i64
        } else {
            4 * edge as i64
        };
        Some(
            MbLine {
                x: m.x0 + k as i64,
                y,
                vertical: false,
                step: dy,
                p: addr,
                pin: (k, 4 * edge - 1),
                qin: (k, 4 * edge),
            },
        )
    }
}

fn apply_line(p: &mut Plane, c: &EdgeCtx, s: &PlaneFilter, q: u32, l: Option<MbLine>)
    requires
        c.wf(),
        s.bit_depth <= 14,
        l matches Some(m) ==> line_ok(m),
    ensures
        final(p)@ == line_step(old(p)@, c@, *s, q as int, line_view(l)),
        final(p)@.same_size(old(p)@),
{
    if let Some(l) = l {
        let bs = mbaff_edge_bs(c, l.p, q, l.pin, l.qin, l.vertical);
        match edge_params_of(c, s, l.p, q, bs) {
            Some(f) => filter_line(p, l.x, l.y, l.vertical, l.step, &f),
            None => {},
        }
    }
}

/// Deblocks the luma plane of an MBAFF frame.
fn deblock_mbaff_luma(p: &mut Plane, c: &EdgeCtx, s: &PlaneFilter)
    requires
        c.wf(),
        s.bit_depth <= 14,
    ensures
        final(p)@ == deblocked_mbaff_luma(old(p)@, c@, *s),
        final(p)@.same_size(old(p)@),
{
    proof {
        reveal(deblocked_mbaff_luma);
    }
    let n: u64 = c.grid.info.len() as u64;
    let total: u64 = 144 * n;
    let mut t: u64 = 0;
    while t < total
        invariant
            p@.same_size(old(p)@),
            c.wf(),
            s.bit_depth <= 14,
            n == c.grid.info.len(),
            total == 144 * n,
            t <= total,
            mbaff_luma_from(p@, c@, *s, t as int, n as int) == mbaff_luma_from(
                old(p)@,
                c@,
                *s,
                0,
                n as int,
            ),
        decreases total - t,
    {
        let addr: u32 = (t / 144) as u32;
        let l = mbaff_luma_line_of(c, addr, (t % 144) as u32);
        apply_line(p, c, s, addr, l);
        t += 1;
    }
}

impl EdgeCtxV {
    /// Macroblock of an MBAFF frame that covers a chroma sample; `sh` is the number of luma rows
    /// per chroma row.
    pub open spec fn chroma_pixel_addr(self, x: int, y: int, sh: int) -> Option<int> {
        let w = self.g.w;
        let rows = 32int / sh;
        if x < 0 || y < 0 || x / 8 >= w || 2 * (y / rows) >= self.g.h {
            None
        } else {
            let top = 2 * ((y / rows) * w + x / 8);
            let bottom = if self.flag(top) {
                (y % rows) % 2 == 1
            } else {
                y % rows >= rows / 2
            };
            Some(
                if bottom {
                    top + 1
                } else {
                    top
                },
            )
        }
    }

    /// Luma position, in a macroblock of an MBAFF frame, that goes with a chroma sample.
    pub open spec fn in_chroma(self, addr: int, x: int, y: int, sh: int) -> (int, int) {
        let o = self.g.origin(addr, true, self.flag(addr));
        let dy = y - (o.1 + sh - 1) / sh;
        let cx = clip3(0, 7, x - o.0 / 2);
        let cy = clip3(
            0,
            16int / sh - 1,
            if self.flag(addr) {
                dy / 2
            } else {
                dy
            },
        );
        (2 * cx, min_of(sh * cy, 15))
    }

    /// The line whose near side is at chroma position `(px, py)`, if a macroblock covers it.
    pub open spec fn chroma_line_to(self, px: int, py: int, sh: int, l: MbLineV) -> Option<MbLineV> {
        match self.chroma_pixel_addr(px, py, sh) {
            Some(p) => if p < self.g.info.len() {
                Some(MbLineV { p, pin: self.in_chroma(p, px, py, sh), ..l })
            } else {
                None
            },
            None => None,
        }
    }
}

/// Number of lines of the chroma edges of a macroblock of an MBAFF frame.
pub open spec fn mbaff_chroma_lines(sh: int) -> int {
    if sh == 2 {
        40
    } else {
        72
    }
}

/// A chroma row of a macroblock as a luma row.
pub open spec fn as_luma_row(sh: int, k: int) -> int {
    min_of(
        if sh == 2 {
            2 * k
        } else {
            k
        },
        15,
    )
}

/// `k` rows of a macroblock in picture rows.
pub open spec fn picture_rows(m: MbEdgesV, k: int) -> int {
    if m.field {
        2 * k
    } else {
        k
    }
}

/// First chroma row of a macroblock.
pub open spec fn chroma_row0(m: MbEdgesV, sh: int) -> int {
    if sh == 2 {
        (m.y0 + 1) / 2
    } else {
        m.y0
    }
}

/// Line `k` of vertical chroma edge `edge`.
#[verifier::opaque]
pub open spec fn mbaff_chroma_vertical(
    c: EdgeCtxV,
    sh: int,
    addr: int,
    m: MbEdgesV,
    edge: int,
    k: int,
) -> Option<MbLineV> {
    let l = MbLineV {
        x: m.x0 / 2 + 4 * edge,
        y: chroma_row0(m, sh) + picture_rows(m, k),
        vertical: true,
        step: 1,
        p: addr,
        pin: (6, as_luma_row(sh, k)),
        qin: (8 * edge, as_luma_row(sh, k)),
    };
    if edge == 0 {
        if m.left {
            c.chroma_line_to(l.x - 1, l.y, sh, l)
        } else {
            None
        }
    } else {
        Some(l)
    }
}

/// Line `k` of the upper chroma edge, `j` counting the fields where it is filtered twice.
#[verifier::opaque]
pub open spec fn mbaff_chroma_top(
    c: EdgeCtxV,
    sh: int,
    addr: int,
    m: MbEdgesV,
    j: int,
    k: int,
) -> Option<MbLineV> {
    let step = if m.twice || m.field {
        2int
    } else {
        1int
    };
    let l = MbLineV {
        x: m.x0 / 2 + k,
        y: chroma_row0(m, sh) + j,
        vertical: false,
        step,
        p: addr,
        pin: (0, 0),
        qin: (2 * k, as_luma_row(sh, j)),
    };
    if !m.top || (j == 1 && !m.twice) {
        None
    } else {
        c.chroma_line_to(l.x, l.y - step, sh, l)
    }
}

/// Line `k` of inner horizontal chroma edge `edge`.
#[verifier::opaque]
pub open spec fn mbaff_chroma_inner(sh: int, addr: int, m: MbEdgesV, edge: int, k: int) -> MbLineV {
    MbLineV {
        x: m.x0 / 2 + k,
        y: chroma_row0(m, sh) + picture_rows(m, 4 * edge),
        vertical: false,
        step: if m.field {
            2
        } else {
            1
        },
        p: addr,
        pin: (2 * k, as_luma_row(sh, 4 * edge - 1)),
        qin: (2 * k, as_luma_row(sh, 4 * edge)),
    }
}

/// Line number `e` of the chroma edges of macroblock `addr` of an MBAFF frame: two vertical edges,
/// the upper edge (twice), and the inner horizontal edges. `sh` is the number of luma rows per
/// chroma row.
#[verifier::opaque]
pub open spec fn mbaff_chroma_line(c: EdgeCtxV, sh: int, addr: int, e: int) -> Option<MbLineV> {
    match c.mb_edges(addr) {
        None => None,
        Some(m) => {
            let rows = if sh == 2 {
                8int
            } else {
                16int
            };
            if e < 2 * rows {
                mbaff_chroma_vertical(c, sh, addr, m, e / rows, e % rows)
            } else if e < 2 * rows + 16 {
                mbaff_chroma_top(c, sh, addr, m, (e - 2 * rows) / 8, (e - 2 * rows) % 8)
            } else {
                let i = e - 2 * rows - 16;
                Some(mbaff_chroma_inner(sh, addr, m, 1 + i / 8, i % 8))
            }
        },
    }
}

/// The chroma plane after the lines from number `t` on.
pub open spec fn mbaff_chroma_from(
    p: PlaneV,
    c: EdgeCtxV,
    s: PlaneFilter,
    sh: int,
    t: int,
    n: int,
) -> PlaneV
    decreases mbaff_chroma_lines(sh) * n - t,
{
    let k = mbaff_chroma_lines(sh);
    if t >= k * n {
        p
    } else {
        mbaff_chroma_from(
            line_step(p, c, s, t / k, mbaff_chroma_line(c, sh, t / k, t % k)),
            c,
            s,
            sh,
            t + 1,
            n,
        )
    }
}

/// A chroma plane of an MBAFF frame after deblocking.
#[verifier::opaque]
pub open spec fn deblocked_mbaff_chroma(p: PlaneV, c: EdgeCtxV, s: PlaneFilter, sh: int) -> PlaneV {
    mbaff_chroma_from(p, c, s, sh, 0, c.g.w * c.g.h)
}

fn chroma_pixel_to_mb_addr(c: &EdgeCtx, x: i64, y: i64, sh: i64) -> (r: Option<u32>)
    requires
        c.wf(),
        sh == 1 || sh == 2,
        x <= 0x1_0000_0000,
        y <= 0x1_0000_0000,
    ensures
        match r {
            Some(a) => c@.chroma_pixel_addr(x as int, y as int, sh as int) == Some(a as int),
            None => c@.chroma_pixel_addr(x as int, y as int, sh as int) is None,
        },
{
    let w: i64 = c.grid.width_in_mbs as i64;
    let h: i64 = c.grid.height_in_mbs as i64;
    if x < 0 || y < 0 || x / 8 >= w {
        return None;
    }
    let (row, rel, half): (i64, i64, i64) = if sh == 2 {
        (y / 16, y % 16, 8)
    } else {
        (y / 32, y % 32, 16)
    };
    if 2 * row >= h {
        return None;
    }
    proof {
        assert(0 <= row * w && 2 * (row * w) <= w * h && w <= w * h) by (nonlinear_arith)
            requires
                0 <= row,
                2 * row < h,
                w >= 1,
                h >= 1,
        ;
    }
    let top: u32 = (2 * (row * w + x / 8)) as u32;
    let bottom = if c.flag_of(top) {
        rel % 2 == 1
    } else {
        rel >= half
    };
    if bottom {
        Some(top + 1)
    } else {
        Some(top)
    }
}

fn in_mb_chroma_coords(c: &EdgeCtx, addr: u32, x: i64, y: i64, sh: i64) -> (r: (u32, u32))
    requires
        c.wf(),
        addr <= MAX_ADDR,
        sh == 1 || sh == 2,
        -0x1_0000_0000 <= x <= 0x1_0000_0000,
        -0x1_0000_0000 <= y <= 0x1_0000_0000,
    ensures
        (r.0 as int, r.1 as int) == c@.in_chroma(addr as int, x as int, y as int, sh as int),
        r.0 < 16,
        r.1 < 16,
{
    let field = c.flag_of(addr);
    let (x0, y0) = mb_sample_origin(c.grid, addr, true, field);
    let (oy, last): (i64, i64) = if sh == 2 {
        ((y0 as i64 + 1) / 2, 7)
    } else {
        (y0 as i64, 15)
    };
    let dy: i64 = y - oy;
    let row = if field {
        floor_div(dy, 2)
    } else {
        dy
    };
    let cx = clip3_i64(0, 7, x - x0 as i64 / 2);
    let cy = clip3_i64(0, last, row);
    let ly: i64 = if sh == 2 {
        2 * cy
    } else {
        cy
    };
    ((2 * cx) as u32, ly as u32)
}

fn chroma_line_to_of(c: &EdgeCtx, px: i64, py: i64, sh: i64, l: MbLine) -> (r: Option<MbLine>)
    requires
        c.wf(),
        sh == 1 || sh == 2,
        -0x1_0000_0000 <= px <= 0x1_0000_0000,
        -0x1_0000_0000 <= py <= 0x1_0000_0000,
        line_ok(l),
    ensures
        line_view(r) == c@.chroma_line_to(
            px as int,
            py as int,
            sh as int,
            line_view(Some(l))->0,
        ),
        r matches Some(m) ==> line_ok(m),
{
    match chroma_pixel_to_mb_addr(c, px, py, sh) {
        Some(p) => {
            if p as usize >= c.grid.info.len() {
                return None;
            }
            let pin = in_mb_chroma_coords(c, p, px, py, sh);
            Some(
                MbLine {
                    x: l.x,
                    y: l.y,
                    vertical: l.vertical,
                    step: l.step,
                    p,
                    pin,
                    qin: l.qin,
                },
            )
        },
        None => None,
    }
}

/// A chroma row of a macroblock as a luma row.
fn luma_row(sh: i64, k: u32) -> (r: u32)
    requires
        sh == 1 || sh == 2,
        k < 16,
    ensures
        r == as_luma_row(sh as int, k as int),
        r < 16,
{
    let v: u32 = if sh == 2 {
        2 * k
    } else {
        k
    };
    if v < 15 {
        v
    } else {
        15
    }
}

fn chroma_row0_of(m: &MbEdges, sh: i64) -> (r: i64)
    requires
        sh == 1 || sh == 2,
        0 <= m.y0 <= 0x4000_0020,
    ensures
        r == chroma_row0(mb_edges_view(Some(*m))->0, sh as int),
        0 <= r <= 0x4000_0020,
{
    if sh == 2 {
        (m.y0 + 1) / 2
    } else {
        m.y0
    }
}

fn picture_rows_of(m: &MbEdges, k: u32) -> (r: i64)
    requires
        k <= 16,
    ensures
        r == picture_rows(mb_edges_view(Some(*m))->0, k as int),
        0 <= r <= 32,
{
    if m.field {
        2 * k as i64
    } else {
        k as i64
    }
}

fn mbaff_chroma_vertical_of(c: &EdgeCtx, sh: i64, addr: u32, m: &MbEdges, edge: u32, k: u32) -> (r:
    Option<MbLine>)
    requires
        c.wf(),
        sh == 1 || sh == 2,
        0 <= m.x0 <= 0x4000_0010,
        0 <= m.y0 <= 0x4000_0020,
        edge < 2,
        k < 16,
    ensures
        line_view(r) == mbaff_chroma_vertical(
            c@,
            sh as int,
            addr as int,
            mb_edges_view(Some(*m))->0,
            edge as int,
            k as int,
        ),
        r matches Some(l) ==> line_ok(l),
{
    proof {
        reveal(mbaff_chroma_vertical);
    }
    let x: i64 = m.x0 / 2 + 4 * edge as i64;
    let y: i64 = chroma_row0_of(m, sh) + picture_rows_of(m, k);
    let ly = luma_row(sh, k);
    let l = MbLine { x, y, vertical: true, step: 1, p: addr, pin: (6, ly), qin: (8 * edge, ly) };
    if edge == 0 {
        if !m.left {
            return None;
        }
        return chroma_line_to_of(c, x - 1, y, sh, l);
    }
    Some(l)
}

fn mbaff_chroma_top_of(c: &EdgeCtx, sh: i64, addr: u32, m: &MbEdges, j: u32, k: u32) -> (r: Option<
    MbLine,
>)
    requires
        c.wf(),
        sh == 1 || sh == 2,
        0 <= m.x0 <= 0x4000_0010,
        0 <= m.y0 <= 0x4000_0020,
        j < 2,
        k < 8,
    ensures
        line_view(r) == mbaff_chroma_top(
            c@,
            sh as int,
            addr as int,
            mb_edges_view(Some(*m))->0,
            j as int,
            k as int,
        ),
        r matches Some(l) ==> line_ok(l),
{
    proof {
        reveal(mbaff_chroma_top);
    }
    if !m.top || (j == 1 && !m.twice) {
        return None;
    }
    let step: i64 = if m.twice || m.field {
        2
    } else {
        1
    };
    let x: i64 = m.x0 / 2 + k as i64;
    let y: i64 = chroma_row0_of(m, sh) + j as i64;
    let l = MbLine {
        x,
        y,
        vertical: false,
        step,
        p: addr,
        pin: (0, 0),
        qin: (2 * k, luma_row(sh, j)),
    };
    chroma_line_to_of(c, x, y - step, sh, l)
}

fn mbaff_chroma_inner_of(sh: i64, addr: u32, m: &MbEdges, edge: u32, k: u32) -> (r: MbLine)
    requires
        sh == 1 || sh == 2,
        0 <= m.x0 <= 0x4000_0010,
        0 <= m.y0 <= 0x4000_0020,
        1 <= edge < 4,
        k < 8,
    ensures
        line_view(Some(r)) == Some(
            mbaff_chroma_inner(
                sh as int,
                addr as int,
                mb_edges_view(Some(*m))->0,
                edge as int,
                k as int,
            ),
        ),
        line_ok(r),
{
    proof {
        reveal(mbaff_chroma_inner);
    }
    MbLine {
        x: m.x0 / 2 + k as i64,
        y: chroma_row0_of(m, sh) + picture_rows_of(m, 4 * edge),
        vertical: false,
        step: if m.field {
            2
        } else {
            1
        },
        p: addr,
        pin: (2 * k, luma_row(sh, 4 * edge - 1)),
        qin: (2 * k, luma_row(sh, 4 * edge)),
    }
}

fn mbaff_chroma_line_of(c: &EdgeCtx, sh: i64, addr: u32, e: u32) -> (r: Option<MbLine>)
    requires
        c.wf(),
        addr <= MAX_ADDR,
        sh == 1 || sh == 2,
        e < mbaff_chroma_lines(sh as int),
    ensures
        line_view(r) == mbaff_chroma_line(c@, sh as int, addr as int, e as int),
        r matches Some(m) ==> line_ok(m),
{
    proof {
        reveal(mbaff_chroma_line);
    }
    let m = match mb_edges_of(c, addr) {
        Some(m) => m,
        None => {
            return None;
        },
    };
    let (nv, edge, k): (u32, u32, u32) = if sh == 2 {
        (16, e / 8, e % 8)
    } else {
        (32, e / 16, e % 16)
    };
    if e < nv {
        mbaff_chroma_vertical_of(c, sh, addr, &m, edge, k)
    } else if e < nv + 16 {
        mbaff_chroma_top_of(c, sh, addr, &m, (e - nv) / 8, (e - nv) % 8)
    } else {
        let i: u32 = e - nv - 16;
        Some(mbaff_chroma_inner_of(sh, addr, &m, 1 + i / 8, i % 8))
    }
}

/// Deblocks a chroma plane of an MBAFF frame.
fn deblock_mbaff_chroma(p: &mut Plane, c: &EdgeCtx, s: &PlaneFilter, sh: i64)
    requires
        c.wf(),
        sh == 1 || sh == 2,
        s.bit_depth <= 14,
    ensures
        final(p)@ == deblocked_mbaff_chroma(old(p)@, c@, *s, sh as int),
        final(p)@.same_size(old(p)@),
{
    proof {
        reveal(deblocked_mbaff_chroma);
    }
    let n: u64 = c.grid.info.len() as u64;
    let total: u64 = if sh == 2 {
        40 * n
    } else {
        72 * n
    };
    let mut t: u64 = 0;
    while t < total
        invariant
            p@.same_size(old(p)@),
            c.wf(),
            sh == 1 || sh == 2,
            s.bit_depth <= 14,
            n == c.grid.info.len(),
            total == mbaff_chroma_lines(sh as int) * n,
            t <= total,
            mbaff_chroma_from(p@, c@, *s, sh as int, t as int, n as int) == mbaff_chroma_from(
                old(p)@,
                c@,
                *s,
                sh as int,
                0,
                n as int,
            ),
        decreases total - t,
    {
        let (addr, e): (u32, u32) = if sh == 2 {
            ((t / 40) as u32, (t % 40) as u32)
        } else {
            ((t / 72) as u32, (t % 72) as u32)
        };
        let l = mbaff_chroma_line_of(c, sh, addr, e);
        apply_line(p, c, s, addr, l);
        t += 1;
    }
}

/// Settings for the luma plane.
pub open spec fn luma_filter(alpha_off: i32, beta_off: i32, bit_depth: u32) -> PlaneFilter {
    PlaneFilter {
        alpha_off,
        beta_off,
        bit_depth,
        chroma_offset: None,
        luma_style: true,
        pcm_is_zero: false,
    }
}

/// Settings for a chroma plane: at full resolution it is filtered as luma.
pub open spec fn chroma_filter(
    alpha_off: i32,
    beta_off: i32,
    bit_depth: u32,
    offset: int,
    full: bool,
) -> PlaneFilter {
    PlaneFilter {
        alpha_off,
        beta_off,
        bit_depth,
        chroma_offset: Some(offset as i32),
        luma_style: full,
        pcm_is_zero: full,
    }
}

/// What deblocking a picture depends on besides its samples.
pub struct DeblockArgs {
    pub c: EdgeCtxV,
    pub alpha_off: i32,
    pub beta_off: i32,
    pub bit_depth_y: u32,
    pub bit_depth_c: u32,
    pub pps: Pps,
    pub cat: u32,
}

impl DeblockArgs {
    pub open spec fn luma(self) -> PlaneFilter {
        luma_filter(self.alpha_off, self.beta_off, self.bit_depth_y)
    }

    pub open spec fn chroma(self, cr: bool) -> PlaneFilter {
        chroma_filter(
            self.alpha_off,
            self.beta_off,
            self.bit_depth_c,
            self.pps.chroma_offset(cr),
            self.cat == 3,
        )
    }
}

/// One chroma plane after deblocking; `pv` are the planes before.
pub open spec fn deblocked_chroma_plane(p: PlaneV, a: DeblockArgs, pv: PicV, cr: bool) -> PlaneV {
    let s = a.chroma(cr);
    if a.cat == 3 {
        deblocked_full(p, a.c, s, pv.luma.w, pv.luma.h)
    } else if a.cat != 1 && a.cat != 2 {
        p
    } else if a.c.mbaff {
        deblocked_mbaff_chroma(p, a.c, s, sub_h(a.cat))
    } else {
        deblocked_chroma(p, a.c, s, a.cat, pv.cb.w, pv.cb.h)
    }
}

/// The planes of a picture after deblocking.
#[verifier::opaque]
pub open spec fn deblocked(pv: PicV, a: DeblockArgs) -> PicV {
    PicV {
        luma: if a.c.mbaff {
            deblocked_mbaff_luma(pv.luma, a.c, a.luma())
        } else {
            deblocked_full(pv.luma, a.c, a.luma(), pv.luma.w, pv.luma.h)
        },
        cb: deblocked_chroma_plane(pv.cb, a, pv, false),
        cr: deblocked_chroma_plane(pv.cr, a, pv, true),
    }
}

/// Deblocks the Cb and Cr planes of a 4:4:4 picture: as luma, with the parameters of chroma.
pub fn deblock_plane_chroma_444(
    pic: &mut Picture,
    grid: &MbGrid,
    alpha_off: i32,
    beta_off: i32,
    bit_depth: u32,
    pps: &Pps,
    mbaff_frame_flag: bool,
    field_pic: bool,
    mb_field_flags: &[bool],
)
    requires
        grid.wf(),
        bit_depth <= 14,
    ensures
        ({
            let c = EdgeCtxV {
                g: grid@,
                mbaff: mbaff_frame_flag,
                field_pic,
                flags: mb_field_flags@,
            };
            let cb = chroma_filter(
                alpha_off,
                beta_off,
                bit_depth,
                pps.chroma_offset(false),
                true,
            );
            let cr = chroma_filter(alpha_off, beta_off, bit_depth, pps.chroma_offset(true), true);
            let (w, h) = (old(pic).luma@.w, old(pic).luma@.h);
            &&& final(pic).cb@ == deblocked_full(old(pic).cb@, c, cb, w, h)
            &&& final(pic).cr@ == deblocked_full(old(pic).cr@, c, cr, w, h)
        }),
        final(pic).luma == old(pic).luma,
        same_meta(*final(pic), *old(pic)),
{
    let c = EdgeCtx { grid, mbaff: mbaff_frame_flag, field_pic, flags: mb_field_flags };
    let w = pic.luma.width();
    let h = pic.luma.height();
    let cb = PlaneFilter {
        alpha_off,
        beta_off,
        bit_depth,
        chroma_offset: Some(pps.chroma_qp_offset(false)),
        luma_style: true,
        pcm_is_zero: true,
    };
    let cr = PlaneFilter { chroma_offset: Some(pps.chroma_qp_offset(true)), ..cb };
    deblock_full_plane(&mut pic.cb, &c, &cb, w, h);
    deblock_full_plane(&mut pic.cr, &c, &cr, w, h);
}

/// Deblocks the Cb and Cr planes of a 4:2:0 or 4:2:2 picture.
fn deblock_plane_chroma(
    pic: &mut Picture,
    c: &EdgeCtx,
    alpha_off: i32,
    beta_off: i32,
    bit_depth: u32,
    pps: &Pps,
)
    requires
        c.wf(),
        bit_depth <= 14,
        old(pic).chroma_array_type == 1 || old(pic).chroma_array_type == 2,
    ensures
        ({
            let cat = old(pic).chroma_array_type;
            let cb = chroma_filter(
                alpha_off,
                beta_off,
                bit_depth,
                pps.chroma_offset(false),
                false,
            );
            let cr = chroma_filter(alpha_off, beta_off, bit_depth, pps.chroma_offset(true), false);
            let (w, h) = (old(pic).cb@.w, old(pic).cb@.h);
            &&& final(pic).cb@ == (if c.mbaff {
                deblocked_mbaff_chroma(old(pic).cb@, c@, cb, sub_h(cat))
            } else {
                deblocked_chroma(old(pic).cb@, c@, cb, cat, w, h)
            })
            &&& final(pic).cr@ == (if c.mbaff {
                deblocked_mbaff_chroma(old(pic).cr@, c@, cr, sub_h(cat))
            } else {
                deblocked_chroma(old(pic).cr@, c@, cr, cat, w, h)
            })
        }),
        final(pic).luma == old(pic).luma,
        same_meta(*final(pic), *old(pic)),
{
    let cat = pic.chroma_array_type;
    let w = pic.cb.width();
    let h = pic.cb.height();
    let cb = PlaneFilter {
        alpha_off,
        beta_off,
        bit_depth,
        chroma_offset: Some(pps.chroma_qp_offset(false)),
        luma_style: false,
        pcm_is_zero: false,
    };
    let cr = PlaneFilter { chroma_offset: Some(pps.chroma_qp_offset(true)), ..cb };
    if c.mbaff {
        let sh: i64 = if cat == 1 {
            2
        } else {
            1
        };
        deblock_mbaff_chroma(&mut pic.cb, c, &cb, sh);
        deblock_mbaff_chroma(&mut pic.cr, c, &cr, sh);
    } else {
        deblock_chroma_plane(&mut pic.cb, c, &cb, cat, w, h);
        deblock_chroma_plane(&mut pic.cr, c, &cr, cat, w, h);
    }
}

/// Deblocks a picture whose macroblocks have all been decoded.
///
/// `mb_field_flags` holds `mb_field_decoding_flag` by macroblock, `alpha_off` and `beta_off` shift
/// the thresholds of the filter.
pub fn deblock_picture_full(
    pic: &mut Picture,
    grid: &MbGrid,
    alpha_off: i32,
    beta_off: i32,
    bit_depth_y: u32,
    bit_depth_c: u32,
    pps: &Pps,
    mbaff_frame_flag: bool,
    field_pic: bool,
    mb_field_flags: &[bool],
)
    requires
        grid.wf(),
        bit_depth_y <= 14,
        bit_depth_c <= 14,
    ensures
        final(pic).planes() == deblocked(
            old(pic).planes(),
            (DeblockArgs {
                c: (EdgeCtxV {
                    g: grid@,
                    mbaff: mbaff_frame_flag,
                    field_pic,
                    flags: mb_field_flags@,
                }),
                alpha_off,
                beta_off,
                bit_depth_y,
                bit_depth_c,
                pps: *pps,
                cat: old(pic).chroma_array_type,
            }),
        ),
        same_meta(*final(pic), *old(pic)),
{
    proof {
        reveal(deblocked);
    }
    let c = EdgeCtx { grid, mbaff: mbaff_frame_flag, field_pic, flags: mb_field_flags };
    let s = PlaneFilter {
        alpha_off,
        beta_off,
        bit_depth: bit_depth_y,
        chroma_offset: None,
        luma_style: true,
        pcm_is_zero: false,
    };
    let w = pic.luma.width();
    let h = pic.luma.height();
    let cat = pic.chroma_array_type;
    if cat == 3 {
        deblock_plane_chroma_444(
            pic,
            grid,
            alpha_off,
            beta_off,
            bit_depth_c,
            pps,
            mbaff_frame_flag,
            field_pic,
            mb_field_flags,
        );
    } else if cat == 1 || cat == 2 {
        deblock_plane_chroma(pic, &c, alpha_off, beta_off, bit_depth_c, pps);
    }
    if mbaff_frame_flag {
        deblock_mbaff_luma(&mut pic.luma, &c, &s);
    } else {
        deblock_full_plane(&mut pic.luma, &c, &s, w, h);
    }
}

} // verus!
