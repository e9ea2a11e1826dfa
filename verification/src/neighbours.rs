//! Neighbouring samples for intra prediction.
use crate::geometry::{chroma_mb_dims, chroma_subsample, mb_h_c, mb_w_c, sub_h, sub_w};
use crate::intra_pred::{samples_ok, Neighbour4x4Availability, Samples, SamplesV};
use crate::math::ints;
use crate::mb_address::{mb_sample_origin, mbaff_neigh_location, MAX_ADDR};
use crate::mb_grid::{GridV, MbGrid};
use crate::picture::Picture;
use crate::plane::{Plane, PlaneV};
use vstd::prelude::*;

verus! {

/// What decides which neighbours of a macroblock may be used.
#[derive(Debug, Clone, Copy)]
pub struct NbCtx {
    pub addr: u32,
    /// Slice of the macroblock; negative where slices do not matter.
    pub slice_id: i32,
    /// Only intra macroblocks may be used.
    pub cip: bool,
    /// The plane is a chroma plane.
    pub chroma: bool,
    /// Chroma format of the picture.
    pub cat: u32,
    /// Luma width of the picture.
    pub pic_w: u32,
}

impl GridV {
    /// Macroblock that covers a luma position, in raster order.
    pub open spec fn covering(self, x: int, y: int) -> int {
        (y / 16) * self.w + x / 16
    }

    /// The luma position lies in the picture.
    pub open spec fn covers(self, x: int, y: int) -> bool {
        x >= 0 && y >= 0 && x / 16 < self.w && y / 16 < self.h
    }

    /// The macroblock at a luma position belongs to the slice. Positions outside the picture, and
    /// a negative slice, do not restrict.
    pub open spec fn same_slice(self, x: int, y: int, slice_id: int) -> bool {
        slice_id < 0 || !self.covers(x, y) || match self.get(self.covering(x, y)) {
            Some(i) => i.slice_id >= 0 && i.slice_id == slice_id,
            None => true,
        }
    }

    /// The macroblock at a luma position is not a decoded inter macroblock, where that matters.
    pub open spec fn cip_ok(self, x: int, y: int, cip: bool) -> bool {
        !cip || !self.covers(x, y) || match self.get(self.covering(x, y)) {
            Some(i) => !(i.available && !i.is_intra),
            None => true,
        }
    }

    /// A macroblock of an MBAFF frame may serve as a source of neighbouring samples.
    pub open spec fn usable(self, c: NbCtx, n: int) -> bool {
        n == c.addr || match self.get(n) {
            Some(i) => i.available && !(c.slice_id >= 0 && i.slice_id >= 0 && i.slice_id
                != c.slice_id) && !(c.cip && !i.is_intra),
            None => false,
        }
    }

    /// Luma position of a sample of a macroblock of an MBAFF frame.
    pub open spec fn abs_luma(self, n: int, xw: int, yw: int) -> (int, int) {
        let o = self.origin(n, true, self.field_at(n));
        (
            o.0 + xw,
            o.1 + if self.field_at(n) {
                2 * yw
            } else {
                yw
            },
        )
    }

    /// Chroma position of a sample of a macroblock of an MBAFF frame.
    pub open spec fn abs_chroma(self, n: int, xw: int, yw: int, cat: u32) -> (int, int) {
        let x = ((n / 2) % self.w) * 16 / sub_w(cat);
        let y = ((n / 2) / self.w) * 32 / sub_h(cat);
        if self.field_at(n) {
            (x + xw, y + n % 2 + 2 * yw)
        } else if n % 2 == 0 {
            (x + xw, y + yw)
        } else {
            (x + xw, y + mb_h_c(cat) + yw)
        }
    }
}

pub fn same_slice_at(grid: &MbGrid, x: i32, y: i32, current_slice_id: i32) -> (r: bool)
    requires
        grid.wf(),
    ensures
        r == grid@.same_slice(x as int, y as int, current_slice_id as int),
{
    if current_slice_id < 0 || x < 0 || y < 0 {
        return true;
    }
    let mb_x: u32 = x as u32 / 16;
    let mb_y: u32 = y as u32 / 16;
    if mb_x >= grid.width_in_mbs || mb_y >= grid.height_in_mbs {
        return true;
    }
    proof {
        lemma_raster(mb_x as int, mb_y as int, grid.width_in_mbs as int, grid.height_in_mbs as int);
    }
    match grid.get(mb_y * grid.width_in_mbs + mb_x) {
        Some(info) => info.slice_id >= 0 && info.slice_id == current_slice_id,
        None => true,
    }
}

pub proof fn lemma_raster(x: int, y: int, w: int, h: int)
    requires
        0 <= x < w,
        0 <= y < h,
    ensures
        0 <= y * w,
        0 <= y * w + x < w * h,
{
    assert(0 <= y * w && 0 <= y * w + x < w * h) by (nonlinear_arith)
        requires
            0 <= x < w,
            0 <= y < h,
    ;
}

pub fn cip_ok_at(grid: &MbGrid, x: i32, y: i32, constrained_intra_pred: bool) -> (r: bool)
    requires
        grid.wf(),
    ensures
        r == grid@.cip_ok(x as int, y as int, constrained_intra_pred),
{
    if !constrained_intra_pred || x < 0 || y < 0 {
        return true;
    }
    let mb_x: u32 = x as u32 / 16;
    let mb_y: u32 = y as u32 / 16;
    if mb_x >= grid.width_in_mbs || mb_y >= grid.height_in_mbs {
        return true;
    }
    proof {
        lemma_raster(mb_x as int, mb_y as int, grid.width_in_mbs as int, grid.height_in_mbs as int);
    }
    match grid.get(mb_y * grid.width_in_mbs + mb_x) {
        Some(info) => !(info.available && !info.is_intra),
        None => true,
    }
}

pub fn mbaff_neigh_mb_usable(grid: &MbGrid, c: &NbCtx, n: u32) -> (r: bool)
    ensures
        r == grid@.usable(*c, n as int),
{
    if n == c.addr {
        return true;
    }
    match grid.get(n) {
        Some(i) => i.available && !(c.slice_id >= 0 && i.slice_id >= 0 && i.slice_id != c.slice_id)
            && !(c.cip && !i.is_intra),
        None => false,
    }
}

/// Luma position of a sample of a macroblock of an MBAFF frame.
pub fn mbaff_abs_luma(grid: &MbGrid, n: u32, xw: i32, yw: i32) -> (r: (i64, i64))
    requires
        grid.wf(),
        n <= MAX_ADDR + 1,
        0 <= xw < 16,
        0 <= yw < 16,
    ensures
        (r.0 as int, r.1 as int) == grid@.abs_luma(n as int, xw as int, yw as int),
{
    let field = grid.is_field(n);
    let (ox, oy) = mb_sample_origin(grid, n, true, field);
    let dy: i64 = if field {
        2 * yw as i64
    } else {
        yw as i64
    };
    (ox as i64 + xw as i64, oy as i64 + dy)
}

/// Chroma position of a sample of a macroblock of an MBAFF frame.
pub fn mbaff_abs_chroma(grid: &MbGrid, n: u32, xw: i32, yw: i32, cat: u32) -> (r: (i64, i64))
    requires
        grid.wf(),
        n <= MAX_ADDR + 1,
        0 <= xw < 16,
        0 <= yw < 16,
    ensures
        (r.0 as int, r.1 as int) == grid@.abs_chroma(n as int, xw as int, yw as int, cat),
{
    let (sw, sh) = chroma_subsample(cat);
    let w = grid.width_in_mbs;
    let pair: u32 = n / 2;
    proof {
        crate::mb_address::lemma_div_mod_bound(pair as int, w as int);
    }
    let x: i64 = (pair % w) as i64 * 16 / sw as i64;
    let y: i64 = (pair / w) as i64 * 32 / sh as i64;
    let (px, py): (i64, i64) = (xw as i64, yw as i64);
    if grid.is_field(n) {
        (x + px, y + (n % 2) as i64 + 2 * py)
    } else if n % 2 == 0 {
        (x + px, y + py)
    } else {
        let (_, h) = chroma_mb_dims(cat);
        (x + px, y + h as i64 + py)
    }
}

/// Neighbouring sample of an MBAFF frame at an offset from the first sample of the macroblock.
pub open spec fn mbaff_sample(p: PlaneV, g: GridV, c: NbCtx, xn: int, yn: int) -> Option<int> {
    let (mw, mh) = if c.chroma {
        (mb_w_c(c.cat), mb_h_c(c.cat))
    } else {
        (16, 16)
    };
    if mw == 0 {
        None
    } else {
        match g.mbaff_location(c.addr as int, xn, yn, mw, mh) {
            Some((n, xw, yw)) => {
                let (x, y) = if c.chroma {
                    g.abs_chroma(n, xw, yw, c.cat)
                } else {
                    g.abs_luma(n, xw, yw)
                };
                if g.usable(c, n) {
                    Some(p.get(x, y))
                } else {
                    None
                }
            },
            None => None,
        }
    }
}

fn mbaff_neigh_sample(p: &Plane, grid: &MbGrid, c: &NbCtx, xn: i32, yn: i32) -> (r: Option<i32>)
    requires
        grid.wf(),
        c.addr <= MAX_ADDR,
        -64 <= xn <= 64,
        -64 <= yn <= 64,
    ensures
        match r {
            Some(v) => mbaff_sample(p@, grid@, *c, xn as int, yn as int) == Some(v as int) && 0 <= v
                <= 65535,
            None => mbaff_sample(p@, grid@, *c, xn as int, yn as int) is None,
        },
{
    let (mw, mh): (u32, u32) = if c.chroma {
        chroma_mb_dims(c.cat)
    } else {
        (16, 16)
    };
    if mw == 0 {
        return None;
    }
    match mbaff_neigh_location(grid, c.addr, xn, yn, mw as i32, mh as i32) {
        Some((n, xw, yw)) => {
            if !mbaff_neigh_mb_usable(grid, c, n) {
                return None;
            }
            let (x, y) = if c.chroma {
                mbaff_abs_chroma(grid, n, xw, yw, c.cat)
            } else {
                mbaff_abs_luma(grid, n, xw, yw)
            };
            Some(p.get(x, y))
        },
        None => None,
    }
}

/// Sample `i` of an edge that starts at `(x0, y0)` and runs down or to the right.
pub open spec fn mbaff_edge_sample(
    p: PlaneV,
    g: GridV,
    c: NbCtx,
    x0: int,
    y0: int,
    down: bool,
    i: int,
) -> Option<int> {
    if down {
        mbaff_sample(p, g, c, x0, y0 + i)
    } else {
        mbaff_sample(p, g, c, x0 + i, y0)
    }
}

/// The samples of an edge of an MBAFF frame, zero where not available, and whether all are
/// available.
pub open spec fn mbaff_edge(
    p: PlaneV,
    g: GridV,
    c: NbCtx,
    x0: int,
    y0: int,
    down: bool,
    n: int,
) -> (Seq<int>, bool) {
    (
        Seq::new(
            n as nat,
            |i: int|
                match mbaff_edge_sample(p, g, c, x0, y0, down, i) {
                    Some(v) => v,
                    None => 0,
                },
        ),
        forall|i: int| 0 <= i < n ==> #[trigger] mbaff_edge_sample(p, g, c, x0, y0, down, i) is Some,
    )
}

fn mbaff_gather_edge(
    p: &Plane,
    grid: &MbGrid,
    c: &NbCtx,
    x0: i32,
    y0: i32,
    down: bool,
    n: usize,
) -> (r: (Vec<i32>, bool))
    requires
        grid.wf(),
        c.addr <= MAX_ADDR,
        -16 <= x0 <= 32,
        -16 <= y0 <= 32,
        n <= 16,
    ensures
        (ints(r.0@), r.1) == mbaff_edge(p@, grid@, *c, x0 as int, y0 as int, down, n as int),
        r.0.len() == n,
        samples_ok(r.0@),
{
    let mut out: Vec<i32> = Vec::new();
    let mut all = true;
    for i in 0..n
        invariant
            grid.wf(),
            c.addr <= MAX_ADDR,
            -16 <= x0 <= 32,
            -16 <= y0 <= 32,
            n <= 16,
            out.len() == i,
            samples_ok(out@),
            forall|k: int|
                0 <= k < i ==> #[trigger] out@[k] == (match mbaff_edge_sample(
                    p@,
                    grid@,
                    *c,
                    x0 as int,
                    y0 as int,
                    down,
                    k,
                ) {
                    Some(v) => v,
                    None => 0,
                }),
            all == (forall|k: int|
                0 <= k < i ==> #[trigger] mbaff_edge_sample(
                    p@,
                    grid@,
                    *c,
                    x0 as int,
                    y0 as int,
                    down,
                    k,
                ) is Some),
    {
        let s = if down {
            mbaff_neigh_sample(p, grid, c, x0, y0 + i as i32)
        } else {
            mbaff_neigh_sample(p, grid, c, x0 + i as i32, y0)
        };
        assert(s is Some == mbaff_edge_sample(
            p@,
            grid@,
            *c,
            x0 as int,
            y0 as int,
            down,
            i as int,
        ) is Some);
        match s {
            Some(v) => out.push(v),
            None => {
                out.push(0);
                all = false;
            },
        }
    }
    assert(ints(out@) =~= mbaff_edge(
        p@,
        grid@,
        *c,
        x0 as int,
        y0 as int,
        down,
        n as int,
    ).0);
    (out, all)
}

/// `n` samples from `(x0, y0)` on, down or to the right; zeros where they are not available.
pub open spec fn plain_edge(p: PlaneV, ok: bool, x0: int, y0: int, down: bool, n: int) -> Seq<int> {
    Seq::new(
        n as nat,
        |i: int|
            if !ok {
                0
            } else if down {
                p.get(x0, y0 + i)
            } else {
                p.get(x0 + i, y0)
            },
    )
}

fn gather_edge(p: &Plane, ok: bool, x0: i64, y0: i64, down: bool, n: usize) -> (r: Vec<i32>)
    requires
        -0x1_0000_0000 <= x0 <= 0x1_0000_0000,
        -0x1_0000_0000 <= y0 <= 0x1_0000_0000,
        n <= 16,
    ensures
        ints(r@) == plain_edge(p@, ok, x0 as int, y0 as int, down, n as int),
        r.len() == n,
        samples_ok(r@),
{
    let mut out: Vec<i32> = Vec::new();
    for i in 0..n
        invariant
            -0x1_0000_0000 <= x0 <= 0x1_0000_0000,
            -0x1_0000_0000 <= y0 <= 0x1_0000_0000,
            n <= 16,
            out.len() == i,
            samples_ok(out@),
            forall|k: int|
                0 <= k < i ==> #[trigger] out@[k] == plain_edge(
                    p@,
                    ok,
                    x0 as int,
                    y0 as int,
                    down,
                    n as int,
                )[k],
    {
        let v = if !ok {
            0
        } else if down {
            p.get(x0, y0 + i as i64)
        } else {
            p.get(x0 + i as i64, y0)
        };
        out.push(v);
    }
    assert(ints(out@) =~= plain_edge(p@, ok, x0 as int, y0 as int, down, n as int));
    out
}

/// The position, in samples of the plane, may be used as a neighbour.
pub open spec fn position_ok(g: GridV, c: NbCtx, x: int, y: int, sw: int, sh: int) -> bool {
    g.same_slice(x * sw, y * sh, c.slice_id as int) && g.cip_ok(x * sw, y * sh, c.cip)
}

fn position_usable(grid: &MbGrid, c: &NbCtx, x: i32, y: i32, sw: i32, sh: i32) -> (r: bool)
    requires
        grid.wf(),
        1 <= sw <= 2,
        1 <= sh <= 2,
        -0x1_0000 <= x <= 0x4001_0000,
        -0x1_0000 <= y <= 0x4001_0000,
        sw == 2 ==> x <= 0x2001_0000,
        sh == 2 ==> y <= 0x2001_0000,
    ensures
        r == position_ok(grid@, *c, x as int, y as int, sw as int, sh as int),
{
    let lx: i32 = if sw == 2 {
        x * 2
    } else {
        x
    };
    let ly: i32 = if sh == 2 {
        y * 2
    } else {
        y
    };
    assert(x * sw == lx && y * sh == ly) by (nonlinear_arith)
        requires
            sw == 1 || sw == 2,
            sh == 1 || sh == 2,
            lx == (if sw == 2 {
                x * 2
            } else {
                x as int
            }),
            ly == (if sh == 2 {
                y * 2
            } else {
                y as int
            }),
    ;
    same_slice_at(grid, lx, ly, c.slice_id) && cip_ok_at(grid, lx, ly, c.cip)
}

/// Neighbours of the block of `w` by `h` samples at `(bx, by)` of a plane.
///
/// `(lbx, lby)` is the position of the block in its macroblock, `tr` whether the samples above and
/// to the right were decoded before the block, `sw` and `sh` the luma samples per sample of the
/// plane.
#[verifier::opaque]
pub open spec fn gather(
    p: PlaneV,
    g: GridV,
    c: NbCtx,
    bx: int,
    by: int,
    lbx: int,
    lby: int,
    w: int,
    h: int,
    tr: bool,
    sw: int,
    sh: int,
) -> SamplesV {
    if g.mbaff {
        let corner = mbaff_sample(p, g, c, lbx - 1, lby - 1);
        let (top, top_ok) = mbaff_edge(p, g, c, lbx, lby - 1, false, w);
        let (right, right_ok) = mbaff_edge(p, g, c, lbx + w, lby - 1, false, w);
        let (left, left_ok) = mbaff_edge(p, g, c, lbx - 1, lby, true, h);
        SamplesV {
            top_left: match corner {
                Some(v) => v,
                None => 0,
            },
            top,
            top_right: if tr {
                right
            } else {
                Seq::new(w as nat, |i: int| 0)
            },
            left,
            av: Neighbour4x4Availability {
                top_left: corner is Some,
                top: top_ok,
                top_right: tr && right_ok,
                left: left_ok,
            },
        }
    } else {
        let left = bx > 0 && position_ok(g, c, bx - 1, by, sw, sh);
        let top = by > 0 && position_ok(g, c, bx, by - 1, sw, sh);
        let corner = bx > 0 && by > 0 && position_ok(g, c, bx - 1, by - 1, sw, sh);
        let right = by > 0 && tr && bx + w < c.pic_w && position_ok(g, c, bx + w, by - 1, sw, sh);
        SamplesV {
            top_left: if corner {
                p.get(bx - 1, by - 1)
            } else {
                0
            },
            top: plain_edge(p, top, bx, by - 1, false, w),
            top_right: plain_edge(p, right, bx + w, by - 1, false, w),
            left: plain_edge(p, left, bx - 1, by, true, h),
            av: Neighbour4x4Availability { top_left: corner, top, top_right: right, left },
        }
    }
}

/// Collects the neighbours of a block.
pub fn gather_samples(
    p: &Plane,
    grid: &MbGrid,
    c: &NbCtx,
    bx: i32,
    by: i32,
    lbx: i32,
    lby: i32,
    w: usize,
    h: usize,
    tr: bool,
    sw: i32,
    sh: i32,
) -> (r: Samples)
    requires
        grid.wf(),
        c.addr <= MAX_ADDR,
        0 <= bx <= 0x4000_1000,
        0 <= by <= 0x4000_1000,
        0 <= lbx <= 16,
        0 <= lby <= 16,
        1 <= w <= 16,
        1 <= h <= 16,
        1 <= sw <= 2,
        1 <= sh <= 2,
        sw == 2 ==> bx <= 0x2000_1000,
        sh == 2 ==> by <= 0x2000_1000,
    ensures
        r@ == gather(
            p@,
            grid@,
            *c,
            bx as int,
            by as int,
            lbx as int,
            lby as int,
            w as int,
            h as int,
            tr,
            sw as int,
            sh as int,
        ),
        r.wf(w as int, h as int),
{
    proof {
        reveal(gather);
    }
    let r = if grid.mbaff_frame_flag {
        let corner = mbaff_neigh_sample(p, grid, c, lbx - 1, lby - 1);
        let (top, top_ok) = mbaff_gather_edge(p, grid, c, lbx, lby - 1, false, w);
        let (right, right_ok) = if tr {
            mbaff_gather_edge(p, grid, c, lbx + w as i32, lby - 1, false, w)
        } else {
            (gather_edge(p, false, 0, 0, false, w), false)
        };
        let (left, left_ok) = mbaff_gather_edge(p, grid, c, lbx - 1, lby, true, h);
        proof {
            if !tr {
                assert(ints(right@) =~= Seq::new(w as nat, |i: int| 0int));
            }
        }
        Samples {
            top_left: match corner {
                Some(v) => v,
                None => 0,
            },
            top,
            top_right: right,
            left,
            availability: Neighbour4x4Availability {
                top_left: corner.is_some(),
                top: top_ok,
                top_right: tr && right_ok,
                left: left_ok,
            },
        }
    } else {
        let (ax, ay): (i64, i64) = (bx as i64, by as i64);
        let left = bx > 0 && position_usable(grid, c, bx - 1, by, sw, sh);
        let top = by > 0 && position_usable(grid, c, bx, by - 1, sw, sh);
        let corner = bx > 0 && by > 0 && position_usable(grid, c, bx - 1, by - 1, sw, sh);
        let right = by > 0 && tr && ((bx + w as i32) as u32) < c.pic_w && position_usable(
            grid,
            c,
            bx + w as i32,
            by - 1,
            sw,
            sh,
        );
        Samples {
            top_left: if corner {
                p.get(ax - 1, ay - 1)
            } else {
                0
            },
            top: gather_edge(p, top, ax, ay - 1, false, w),
            top_right: gather_edge(p, right, ax + w as i64, ay - 1, false, w),
            left: gather_edge(p, left, ax - 1, ay, true, h),
            availability: Neighbour4x4Availability {
                top_left: corner,
                top,
                top_right: right,
                left,
            },
        }
    };
    assert(r@ =~= gather(
        p@,
        grid@,
        *c,
        bx as int,
        by as int,
        lbx as int,
        lby as int,
        w as int,
        h as int,
        tr,
        sw as int,
        sh as int,
    ));
    r
}

/// The samples above and to the right of a 4x4 block were decoded before it.
pub open spec fn tr_decoded4(blk: int) -> bool {
    blk != 3 && blk != 7 && blk != 11 && blk != 13 && blk != 15
}

/// Neighbours of 4x4 luma block `block_idx`, which stands at `(bx, by)` in the picture and at
/// `(lbx, lby)` in its macroblock.
pub fn gather_samples_4x4(
    pic: &Picture,
    grid: &MbGrid,
    bx: i32,
    by: i32,
    block_idx: usize,
    current_slice_id: i32,
    constrained_intra_pred: bool,
    mb_addr: u32,
    lbx: i32,
    lby: i32,
) -> (r: Samples)
    requires
        grid.wf(),
        mb_addr <= MAX_ADDR,
        0 <= bx <= 0x4000_1000,
        0 <= by <= 0x4000_1000,
        0 <= lbx <= 16,
        0 <= lby <= 16,
    ensures
        r@ == gather(
            pic.luma@,
            grid@,
            luma_ctx(*pic, mb_addr, current_slice_id, constrained_intra_pred),
            bx as int,
            by as int,
            lbx as int,
            lby as int,
            4,
            4,
            tr_decoded4(block_idx as int),
            1,
            1,
        ),
        r.wf(4, 4),
{
    let c = luma_context(pic, mb_addr, current_slice_id, constrained_intra_pred);
    let tr = !matches!(block_idx, 3 | 7 | 11 | 13 | 15);
    gather_samples(&pic.luma, grid, &c, bx, by, lbx, lby, 4, 4, tr, 1, 1)
}

/// Neighbours of 8x8 luma block `blk8`, which stands at `(bx, by)` in the picture and at
/// `(lbx, lby)` in its macroblock.
pub fn gather_samples_8x8(
    pic: &Picture,
    grid: &MbGrid,
    bx: i32,
    by: i32,
    blk8: usize,
    current_slice_id: i32,
    constrained_intra_pred: bool,
    mb_addr: u32,
    lbx: i32,
    lby: i32,
) -> (r: Samples)
    requires
        grid.wf(),
        mb_addr <= MAX_ADDR,
        0 <= bx <= 0x4000_1000,
        0 <= by <= 0x4000_1000,
        0 <= lbx <= 16,
        0 <= lby <= 16,
    ensures
        r@ == gather(
            pic.luma@,
            grid@,
            luma_ctx(*pic, mb_addr, current_slice_id, constrained_intra_pred),
            bx as int,
            by as int,
            lbx as int,
            lby as int,
            8,
            8,
            blk8 != 3,
            1,
            1,
        ),
        r.wf(8, 8),
{
    let c = luma_context(pic, mb_addr, current_slice_id, constrained_intra_pred);
    gather_samples(&pic.luma, grid, &c, bx, by, lbx, lby, 8, 8, blk8 != 3, 1, 1)
}

/// Context of the luma plane of a picture.
pub open spec fn luma_ctx(pic: Picture, addr: u32, slice_id: i32, cip: bool) -> NbCtx {
    NbCtx {
        addr,
        slice_id,
        cip,
        chroma: false,
        cat: pic.chroma_array_type,
        pic_w: pic.luma@.w as u32,
    }
}

fn luma_context(pic: &Picture, addr: u32, slice_id: i32, cip: bool) -> (r: NbCtx)
    ensures
        r == luma_ctx(*pic, addr, slice_id, cip),
{
    NbCtx {
        addr,
        slice_id,
        cip,
        chroma: false,
        cat: pic.chroma_array_type,
        pic_w: pic.luma.width(),
    }
}

} // verus!
