//! The deblocking filter for one line across an edge.
use crate::math::{
    abs_of, clip1, clip3, clip3_i64, clip_sample, floor_div, lemma_p2_mono, lemma_p2_values, p2,
    pow2,
};
use crate::plane::{Plane, PlaneV};
use vstd::prelude::*;

verus! {

pub const ALPHA: [u8; 52] = [
    0, 0, 0, 0, 0, 0, 0, 0, 0, 0, 0, 0, 0, 0, 0, 0, 4, 4, 5, 6, 7, 8, 9, 10, 12, 13, 15, 17, 20, 22,
    25, 28, 32, 36, 40, 45, 50, 56, 63, 71, 80, 90, 101, 113, 127, 144, 162, 182, 203, 226, 255,
    255,
];

pub const BETA: [u8; 52] = [
    0, 0, 0, 0, 0, 0, 0, 0, 0, 0, 0, 0, 0, 0, 0, 0, 2, 2, 2, 3, 3, 3, 3, 4, 4, 4, 6, 6, 7, 7, 8, 8,
    9, 9, 10, 10, 11, 11, 12, 12, 13, 13, 14, 14, 15, 15, 16, 16, 17, 17, 18, 18,
];

pub const TC0_1: [u8; 52] = [
    0, 0, 0, 0, 0, 0, 0, 0, 0, 0, 0, 0, 0, 0, 0, 0, 0, 0, 0, 0, 0, 0, 0, 1, 1, 1, 1, 1, 1, 1, 1, 1,
    1, 2, 2, 2, 2, 3, 3, 3, 4, 4, 4, 5, 6, 6, 7, 8, 9, 10, 11, 13,
];

pub const TC0_2: [u8; 52] = [
    0, 0, 0, 0, 0, 0, 0, 0, 0, 0, 0, 0, 0, 0, 0, 0, 0, 0, 0, 0, 0, 1, 1, 1, 1, 1, 1, 1, 1, 1, 1, 2,
    2, 2, 2, 3, 3, 3, 4, 4, 5, 5, 6, 7, 8, 8, 10, 11, 12, 13, 15, 17,
];

pub const TC0_3: [u8; 52] = [
    0, 0, 0, 0, 0, 0, 0, 0, 0, 0, 0, 0, 0, 0, 0, 0, 0, 1, 1, 1, 1, 1, 1, 1, 1, 1, 1, 2, 2, 2, 2, 3,
    3, 3, 4, 4, 4, 5, 6, 6, 7, 8, 9, 10, 11, 13, 14, 16, 18, 20, 23, 25,
];

/// How a line across an edge is filtered.
#[derive(Debug, Clone, Copy)]
pub struct LineParams {
    /// Boundary strength, 0 to 4.
    pub bs: u8,
    /// Mean quantisation parameter of the two sides.
    pub qp_avg: i64,
    pub alpha_off: i32,
    pub beta_off: i32,
    pub bit_depth: u32,
    /// Filtered as luma: up to three samples per side change instead of one.
    pub luma: bool,
}

/// Bits beyond eight.
pub open spec fn depth_over_8(bit_depth: u32) -> u32 {
    if bit_depth < 8 {
        0
    } else {
        (bit_depth - 8) as u32
    }
}

pub fn depth_over_8_of(bit_depth: u32) -> (r: u32)
    ensures
        r == depth_over_8(bit_depth),
{
    if bit_depth < 8 {
        0
    } else {
        bit_depth - 8
    }
}

impl LineParams {
    pub open spec fn wf(&self) -> bool {
        self.bit_depth <= 14 && -0x1_0000_0000 <= self.qp_avg <= 0x1_0000_0000
    }

    pub open spec fn index_a(&self) -> int {
        clip3(0, 51, self.qp_avg + self.alpha_off)
    }

    pub open spec fn index_b(&self) -> int {
        clip3(0, 51, self.qp_avg + self.beta_off)
    }

    /// Unit of the thresholds at the bit depth.
    pub open spec fn unit(&self) -> int {
        p2(depth_over_8(self.bit_depth) as int)
    }

    pub open spec fn alpha(&self) -> int {
        ALPHA[self.index_a()] * self.unit()
    }

    pub open spec fn beta(&self) -> int {
        BETA[self.index_b()] * self.unit()
    }

    pub open spec fn tc0(&self) -> int {
        (if self.bs == 1 {
            TC0_1[self.index_a()] as int
        } else if self.bs == 2 {
            TC0_2[self.index_a()] as int
        } else {
            TC0_3[self.index_a()] as int
        }) * self.unit()
    }
}

/// Samples on both sides of an edge, `p0` and `q0` next to it.
#[derive(Debug, Clone, Copy)]
pub struct Line {
    pub p3: i64,
    pub p2: i64,
    pub p1: i64,
    pub p0: i64,
    pub q0: i64,
    pub q1: i64,
    pub q2: i64,
    pub q3: i64,
}

/// The values of a [`Line`].
pub struct LineV {
    pub p3: int,
    pub p2: int,
    pub p1: int,
    pub p0: int,
    pub q0: int,
    pub q1: int,
    pub q2: int,
    pub q3: int,
}

impl View for Line {
    type V = LineV;

    open spec fn view(&self) -> LineV {
        LineV {
            p3: self.p3 as int,
            p2: self.p2 as int,
            p1: self.p1 as int,
            p0: self.p0 as int,
            q0: self.q0 as int,
            q1: self.q1 as int,
            q2: self.q2 as int,
            q3: self.q3 as int,
        }
    }
}

impl Line {
    pub open spec fn wf(&self) -> bool {
        &&& 0 <= self.p3 <= 65535
        &&& 0 <= self.p2 <= 65535
        &&& 0 <= self.p1 <= 65535
        &&& 0 <= self.p0 <= 65535
        &&& 0 <= self.q0 <= 65535
        &&& 0 <= self.q1 <= 65535
        &&& 0 <= self.q2 <= 65535
        &&& 0 <= self.q3 <= 65535
    }
}

/// The step across the edge is small enough to be a coding artefact.
pub open spec fn is_filtered(l: LineV, f: LineParams) -> bool {
    &&& f.bs != 0
    &&& abs_of(l.p0 - l.q0) < f.alpha()
    &&& abs_of(l.p1 - l.p0) < f.beta()
    &&& abs_of(l.q1 - l.q0) < f.beta()
}

/// The line after the filter for strengths 1 to 3.
pub open spec fn normal_filter(l: LineV, f: LineParams) -> LineV {
    let ap = f.luma && abs_of(l.p2 - l.p0) < f.beta();
    let aq = f.luma && abs_of(l.q2 - l.q0) < f.beta();
    let tc0 = f.tc0();
    let tc = if f.luma {
        tc0 + (if ap {
            1int
        } else {
            0int
        }) + (if aq {
            1int
        } else {
            0int
        })
    } else {
        tc0 + 1
    };
    let delta = clip3(-tc, tc, ((l.q0 - l.p0) * 4 + (l.p1 - l.q1) + 4) / 8);
    let mid = (l.p0 + l.q0 + 1) / 2;
    LineV {
        p1: if ap {
            l.p1 + clip3(-tc0, tc0, (l.p2 + mid - 2 * l.p1) / 2)
        } else {
            l.p1
        },
        p0: clip1(l.p0 + delta, f.bit_depth),
        q0: clip1(l.q0 - delta, f.bit_depth),
        q1: if aq {
            l.q1 + clip3(-tc0, tc0, (l.q2 + mid - 2 * l.q1) / 2)
        } else {
            l.q1
        },
        ..l
    }
}

/// The line after the filter for strength 4.
pub open spec fn strong_filter(l: LineV, f: LineParams) -> LineV {
    let small = abs_of(l.p0 - l.q0) < f.alpha() / 4 + 2;
    let sp = f.luma && small && abs_of(l.p2 - l.p0) < f.beta();
    let sq = f.luma && small && abs_of(l.q2 - l.q0) < f.beta();
    LineV {
        p2: if sp {
            (2 * l.p3 + 3 * l.p2 + l.p1 + l.p0 + l.q0 + 4) / 8
        } else {
            l.p2
        },
        p1: if sp {
            (l.p2 + l.p1 + l.p0 + l.q0 + 2) / 4
        } else {
            l.p1
        },
        p0: if sp {
            (l.p2 + 2 * l.p1 + 2 * l.p0 + 2 * l.q0 + l.q1 + 4) / 8
        } else {
            (2 * l.p1 + l.p0 + l.q1 + 2) / 4
        },
        q0: if sq {
            (l.p1 + 2 * l.p0 + 2 * l.q0 + 2 * l.q1 + l.q2 + 4) / 8
        } else {
            (2 * l.q1 + l.q0 + l.p1 + 2) / 4
        },
        q1: if sq {
            (l.p0 + l.q0 + l.q1 + l.q2 + 2) / 4
        } else {
            l.q1
        },
        q2: if sq {
            (2 * l.q3 + 3 * l.q2 + l.q1 + l.q0 + l.p0 + 4) / 8
        } else {
            l.q2
        },
        ..l
    }
}

/// The line after filtering.
#[verifier::opaque]
pub open spec fn filtered(l: LineV, f: LineParams) -> LineV {
    if !is_filtered(l, f) {
        l
    } else if f.bs < 4 {
        normal_filter(l, f)
    } else {
        strong_filter(l, f)
    }
}

fn abs_diff(a: i64, b: i64) -> (r: i64)
    requires
        0 <= a <= 65535,
        0 <= b <= 65535,
    ensures
        r == abs_of(a - b),
        0 <= r <= 65535,
{
    if a < b {
        b - a
    } else {
        a - b
    }
}

/// Thresholds of the filter: alpha, beta and the clipping bound.
fn thresholds(f: &LineParams) -> (r: (i64, i64, i64))
    requires
        f.wf(),
    ensures
        r.0 == f.alpha(),
        r.1 == f.beta(),
        r.2 == f.tc0(),
        0 <= r.0 <= 65280,
        0 <= r.1 <= 65280,
        0 <= r.2 <= 65280,
{
    proof {
        lemma_p2_values();
        lemma_p2_mono(depth_over_8(f.bit_depth) as int, 8);
    }
    let ia: usize = clip3_i64(0, 51, f.qp_avg + f.alpha_off as i64) as usize;
    let ib: usize = clip3_i64(0, 51, f.qp_avg + f.beta_off as i64) as usize;
    let unit = pow2(depth_over_8_of(f.bit_depth));
    let (ta, tb): (i64, i64) = (ALPHA[ia] as i64, BETA[ib] as i64);
    let tt: i64 = if f.bs == 1 {
        TC0_1[ia] as i64
    } else if f.bs == 2 {
        TC0_2[ia] as i64
    } else {
        TC0_3[ia] as i64
    };
    proof {
        assert(0 <= ta * unit <= 65280) by (nonlinear_arith)
            requires
                0 <= ta <= 255,
                0 <= unit <= 256,
        ;
        assert(0 <= tb * unit <= 65280) by (nonlinear_arith)
            requires
                0 <= tb <= 255,
                0 <= unit <= 256,
        ;
        assert(0 <= tt * unit <= 65280) by (nonlinear_arith)
            requires
                0 <= tt <= 255,
                0 <= unit <= 256,
        ;
    }
    (ta * unit, tb * unit, tt * unit)
}

/// Values of a filtered line stay near the sample range.
pub open spec fn line_bounded(r: Line) -> bool {
    &&& -0x10_0000 <= r.p2 <= 0x10_0000
    &&& -0x10_0000 <= r.p1 <= 0x10_0000
    &&& -0x10_0000 <= r.p0 <= 0x10_0000
    &&& -0x10_0000 <= r.q0 <= 0x10_0000
    &&& -0x10_0000 <= r.q1 <= 0x10_0000
    &&& -0x10_0000 <= r.q2 <= 0x10_0000
}

fn filter_normal(l: &Line, f: &LineParams, beta: i64, tc0: i64) -> (r: Line)
    requires
        l.wf(),
        f.wf(),
        beta == f.beta(),
        tc0 == f.tc0(),
        0 <= tc0 <= 65280,
    ensures
        r@ == normal_filter(l@, *f),
        line_bounded(r),
{
    let ap = f.luma && abs_diff(l.p2, l.p0) < beta;
    let aq = f.luma && abs_diff(l.q2, l.q0) < beta;
    let tc: i64 = if f.luma {
        tc0 + (if ap {
            1i64
        } else {
            0i64
        }) + (if aq {
            1i64
        } else {
            0i64
        })
    } else {
        tc0 + 1
    };
    let delta = clip3_i64(-tc, tc, floor_div((l.q0 - l.p0) * 4 + (l.p1 - l.q1) + 4, 8));
    let mid: i64 = (l.p0 + l.q0 + 1) / 2;
    let mut r = *l;
    if ap {
        r.p1 = l.p1 + clip3_i64(-tc0, tc0, floor_div(l.p2 + mid - 2 * l.p1, 2));
    }
    if aq {
        r.q1 = l.q1 + clip3_i64(-tc0, tc0, floor_div(l.q2 + mid - 2 * l.q1, 2));
    }
    r.p0 = clip_sample(l.p0 + delta, f.bit_depth) as i64;
    r.q0 = clip_sample(l.q0 - delta, f.bit_depth) as i64;
    r
}

fn filter_strong(l: &Line, f: &LineParams, alpha: i64, beta: i64) -> (r: Line)
    requires
        l.wf(),
        f.wf(),
        alpha == f.alpha(),
        beta == f.beta(),
        0 <= alpha <= 65280,
    ensures
        r@ == strong_filter(l@, *f),
        line_bounded(r),
{
    let small = abs_diff(l.p0, l.q0) < alpha / 4 + 2;
    let mut r = *l;
    if f.luma && small && abs_diff(l.p2, l.p0) < beta {
        r.p0 = (l.p2 + 2 * l.p1 + 2 * l.p0 + 2 * l.q0 + l.q1 + 4) / 8;
        r.p1 = (l.p2 + l.p1 + l.p0 + l.q0 + 2) / 4;
        r.p2 = (2 * l.p3 + 3 * l.p2 + l.p1 + l.p0 + l.q0 + 4) / 8;
    } else {
        r.p0 = (2 * l.p1 + l.p0 + l.q1 + 2) / 4;
    }
    if f.luma && small && abs_diff(l.q2, l.q0) < beta {
        r.q0 = (l.p1 + 2 * l.p0 + 2 * l.q0 + 2 * l.q1 + l.q2 + 4) / 8;
        r.q1 = (l.p0 + l.q0 + l.q1 + l.q2 + 2) / 4;
        r.q2 = (2 * l.q3 + 3 * l.q2 + l.q1 + l.q0 + l.p0 + 4) / 8;
    } else {
        r.q0 = (2 * l.q1 + l.q0 + l.p1 + 2) / 4;
    }
    r
}

/// Filters a line across an edge.
pub fn filter_edge(l: &Line, f: &LineParams) -> (r: Line)
    requires
        l.wf(),
        f.wf(),
    ensures
        r@ == filtered(l@, *f),
        line_bounded(r),
{
    proof {
        reveal(filtered);
    }
    let (alpha, beta, tc0) = thresholds(f);
    if f.bs != 0 && abs_diff(l.p0, l.q0) < alpha && abs_diff(l.p1, l.p0) < beta && abs_diff(
        l.q1,
        l.q0,
    ) < beta {
        if f.bs < 4 {
            filter_normal(l, f, beta, tc0)
        } else {
            filter_strong(l, f, alpha, beta)
        }
    } else {
        *l
    }
}

/// An edge of strength 0 is left alone.
pub proof fn law_strength_zero_keeps_line(l: LineV, f: LineParams)
    requires
        f.bs == 0,
    ensures
        filtered(l, f) == l,
{
    reveal(filtered);
}

/// Where a line across an edge lies: `q0` at `(x, y)`, further samples `step` apart, to the right
/// across a vertical edge and downwards across a horizontal one.
pub open spec fn line_pos(x: int, y: int, vertical: bool, step: int, i: int) -> (int, int) {
    if vertical {
        (x + i, y)
    } else {
        (x, y + step * i)
    }
}

pub open spec fn line_sample(p: PlaneV, x: int, y: int, vertical: bool, step: int, i: int) -> int {
    let (a, b) = line_pos(x, y, vertical, step, i);
    p.get(a, b)
}

/// The samples of a line across an edge.
pub open spec fn line_at(p: PlaneV, x: int, y: int, vertical: bool, step: int) -> LineV {
    LineV {
        p3: line_sample(p, x, y, vertical, step, -4),
        p2: line_sample(p, x, y, vertical, step, -3),
        p1: line_sample(p, x, y, vertical, step, -2),
        p0: line_sample(p, x, y, vertical, step, -1),
        q0: line_sample(p, x, y, vertical, step, 0),
        q1: line_sample(p, x, y, vertical, step, 1),
        q2: line_sample(p, x, y, vertical, step, 2),
        q3: line_sample(p, x, y, vertical, step, 3),
    }
}

pub open spec fn line_set(
    p: PlaneV,
    x: int,
    y: int,
    vertical: bool,
    step: int,
    i: int,
    v: int,
) -> PlaneV {
    let (a, b) = line_pos(x, y, vertical, step, i);
    p.set(a, b, v)
}

/// The plane after one line across an edge was filtered.
#[verifier::opaque]
pub open spec fn line_filtered(
    p: PlaneV,
    x: int,
    y: int,
    vertical: bool,
    step: int,
    f: LineParams,
) -> PlaneV {
    let l = filtered(line_at(p, x, y, vertical, step), f);
    let a = if f.luma {
        line_set(p, x, y, vertical, step, -3, l.p2)
    } else {
        p
    };
    let b = line_set(a, x, y, vertical, step, -2, l.p1);
    let c = line_set(b, x, y, vertical, step, -1, l.p0);
    let d = line_set(c, x, y, vertical, step, 0, l.q0);
    let e = line_set(d, x, y, vertical, step, 1, l.q1);
    if f.luma {
        line_set(e, x, y, vertical, step, 2, l.q2)
    } else {
        e
    }
}

fn read_at(p: &Plane, x: i64, y: i64, vertical: bool, step: i64, i: i64) -> (r: i64)
    requires
        -0x1_0000_0000 <= x <= 0x1_0000_0000,
        -0x1_0000_0000 <= y <= 0x1_0000_0000,
        step == 1 || step == 2,
        -4 <= i <= 4,
    ensures
        r == line_sample(p@, x as int, y as int, vertical, step as int, i as int),
        0 <= r <= 65535,
{
    if vertical {
        p.get(x + i, y) as i64
    } else if step == 2 {
        p.get(x, y + 2 * i) as i64
    } else {
        p.get(x, y + i) as i64
    }
}

fn write_at(p: &mut Plane, x: i64, y: i64, vertical: bool, step: i64, i: i64, v: i64)
    requires
        -0x1_0000_0000 <= x <= 0x1_0000_0000,
        -0x1_0000_0000 <= y <= 0x1_0000_0000,
        step == 1 || step == 2,
        -4 <= i <= 4,
        -0x10_0000 <= v <= 0x10_0000,
    ensures
        final(p)@ == line_set(
            old(p)@,
            x as int,
            y as int,
            vertical,
            step as int,
            i as int,
            v as int,
        ),
        final(p)@.same_size(old(p)@),
{
    if vertical {
        p.set(x + i, y, v as i32);
    } else if step == 2 {
        p.set(x, y + 2 * i, v as i32);
    } else {
        p.set(x, y + i, v as i32);
    }
}

/// Filters one line across an edge of a plane.
pub fn filter_line(p: &mut Plane, x: i64, y: i64, vertical: bool, step: i64, f: &LineParams)
    requires
        -0x1_0000_0000 <= x <= 0x1_0000_0000,
        -0x1_0000_0000 <= y <= 0x1_0000_0000,
        step == 1 || step == 2,
        f.wf(),
    ensures
        final(p)@ == line_filtered(old(p)@, x as int, y as int, vertical, step as int, *f),
        final(p)@.same_size(old(p)@),
{
    proof {
        reveal(line_filtered);
    }
    let l = Line {
        p3: read_at(p, x, y, vertical, step, -4),
        p2: read_at(p, x, y, vertical, step, -3),
        p1: read_at(p, x, y, vertical, step, -2),
        p0: read_at(p, x, y, vertical, step, -1),
        q0: read_at(p, x, y, vertical, step, 0),
        q1: read_at(p, x, y, vertical, step, 1),
        q2: read_at(p, x, y, vertical, step, 2),
        q3: read_at(p, x, y, vertical, step, 3),
    };
    let r = filter_edge(&l, f);
    if f.luma {
        write_at(p, x, y, vertical, step, -3, r.p2);
    }
    write_at(p, x, y, vertical, step, -2, r.p1);
    write_at(p, x, y, vertical, step, -1, r.p0);
    write_at(p, x, y, vertical, step, 0, r.q0);
    write_at(p, x, y, vertical, step, 1, r.q1);
    if f.luma {
        write_at(p, x, y, vertical, step, 2, r.q2);
    }
}

/// The plane after `n` lines side by side along an edge, from line `i` on.
pub open spec fn lines_from(
    p: PlaneV,
    x: int,
    y: int,
    vertical: bool,
    f: LineParams,
    i: int,
    n: int,
) -> PlaneV
    decreases n - i,
{
    if i >= n {
        p
    } else {
        let q = if vertical {
            line_filtered(p, x, y + i, true, 1, f)
        } else {
            line_filtered(p, x + i, y, false, 1, f)
        };
        lines_from(q, x, y, vertical, f, i + 1, n)
    }
}

/// Filters `n` lines side by side along an edge.
pub fn filter_lines(p: &mut Plane, x: i64, y: i64, vertical: bool, f: &LineParams, n: i64)
    requires
        -0x8000_0000 <= x <= 0x8000_0000,
        -0x8000_0000 <= y <= 0x8000_0000,
        0 <= n <= 16,
        f.wf(),
    ensures
        final(p)@ == lines_from(old(p)@, x as int, y as int, vertical, *f, 0, n as int),
        final(p)@.same_size(old(p)@),
{
    let mut i: i64 = 0;
    while i < n
        invariant
            p@.same_size(old(p)@),
            -0x8000_0000 <= x <= 0x8000_0000,
            -0x8000_0000 <= y <= 0x8000_0000,
            0 <= i <= n <= 16,
            f.wf(),
            lines_from(p@, x as int, y as int, vertical, *f, i as int, n as int) == lines_from(
                old(p)@,
                x as int,
                y as int,
                vertical,
                *f,
                0,
                n as int,
            ),
        decreases n - i,
    {
        if vertical {
            filter_line(p, x, y + i, true, 1, f);
        } else {
            filter_line(p, x + i, y, false, 1, f);
        }
        i += 1;
    }
}

/// A sample of the given bit depth.
pub open spec fn is_sample(v: int, bit_depth: u32) -> bool {
    0 <= v < p2(bit_depth as int)
}

/// All samples of a line have the given bit depth.
pub open spec fn samples_in_range(l: LineV, bit_depth: u32) -> bool {
    &&& is_sample(l.p3, bit_depth)
    &&& is_sample(l.p2, bit_depth)
    &&& is_sample(l.p1, bit_depth)
    &&& is_sample(l.p0, bit_depth)
    &&& is_sample(l.q0, bit_depth)
    &&& is_sample(l.q1, bit_depth)
    &&& is_sample(l.q2, bit_depth)
    &&& is_sample(l.q3, bit_depth)
}

/// The filter keeps samples in the range of their bit depth.
pub proof fn law_filter_keeps_range(l: LineV, f: LineParams)
    requires
        samples_in_range(l, f.bit_depth),
    ensures
        samples_in_range(filtered(l, f), f.bit_depth),
{
    reveal(filtered);
    lemma_tc0_not_negative(f);
}

pub proof fn lemma_tc0_not_negative(f: LineParams)
    ensures
        f.tc0() >= 0,
{
    lemma_p2_mono(0, depth_over_8(f.bit_depth) as int);
    let t = if f.bs == 1 {
        TC0_1[f.index_a()] as int
    } else if f.bs == 2 {
        TC0_2[f.index_a()] as int
    } else {
        TC0_3[f.index_a()] as int
    };
    assert(t * f.unit() >= 0) by (nonlinear_arith)
        requires
            t >= 0,
            f.unit() >= 1,
    ;
}

/// The filter leaves a flat line as it is.
pub proof fn law_flat_line_is_kept(l: LineV, f: LineParams)
    requires
        f.wf(),
        samples_in_range(l, f.bit_depth),
        l.p3 == l.p0,
        l.p2 == l.p0,
        l.p1 == l.p0,
        l.q0 == l.p0,
        l.q1 == l.p0,
        l.q2 == l.p0,
        l.q3 == l.p0,
    ensures
        filtered(l, f) == l,
{
    reveal(filtered);
    lemma_tc0_not_negative(f);
}

/// A step of at least the threshold is an edge of the picture, and is kept.
pub proof fn law_sharp_edge_is_kept(l: LineV, f: LineParams)
    requires
        abs_of(l.p0 - l.q0) >= f.alpha(),
    ensures
        filtered(l, f) == l,
{
    reveal(filtered);
}

/// Quantisation below index 16 makes no edges: nothing is filtered.
pub proof fn law_fine_quantisation_is_kept(l: LineV, f: LineParams)
    requires
        f.index_a() < 16,
    ensures
        filtered(l, f) == l,
{
    reveal(filtered);
    assert(ALPHA[f.index_a()] == 0);
    assert(f.alpha() == 0) by (nonlinear_arith)
        requires
            f.alpha() == 0 * f.unit(),
    ;
}

/// The outermost samples never change, and of chroma only those next to the edge do.
pub proof fn law_filter_reach(l: LineV, f: LineParams)
    ensures
        ({
            let r = filtered(l, f);
            &&& r.p3 == l.p3 && r.q3 == l.q3
            &&& f.bs < 4 ==> r.p2 == l.p2 && r.q2 == l.q2
            &&& !f.luma ==> r.p2 == l.p2 && r.p1 == l.p1 && r.q1 == l.q1 && r.q2 == l.q2
        }),
{
    reveal(filtered);
}

/// All samples of a plane have the given bit depth.
pub open spec fn plane_in_range(p: PlaneV, bit_depth: u32) -> bool {
    forall|x: int, y: int| p.has(x, y) ==> is_sample(#[trigger] (p.at)(x, y), bit_depth)
}

proof fn lemma_get_in_range(p: PlaneV, bit_depth: u32, x: int, y: int)
    requires
        plane_in_range(p, bit_depth),
    ensures
        is_sample(p.get(x, y), bit_depth),
{
    lemma_p2_mono(0, bit_depth as int);
    if p.w > 0 && p.h > 0 {
        let (a, b) = (clip3(0, p.w - 1, x), clip3(0, p.h - 1, y));
        assert(p.has(a, b));
        assert(is_sample((p.at)(a, b), bit_depth));
    }
}

proof fn lemma_set_in_range(p: PlaneV, bit_depth: u32, x: int, y: int, v: int)
    requires
        plane_in_range(p, bit_depth),
        is_sample(v, bit_depth),
    ensures
        plane_in_range(p.set(x, y, v), bit_depth),
{
    let q = p.set(x, y, v);
    assert forall|a: int, b: int| q.has(a, b) implies is_sample(
        #[trigger] (q.at)(a, b),
        bit_depth,
    ) by {
        assert(p.has(a, b));
        assert(is_sample((p.at)(a, b), bit_depth));
    }
}

/// Filtering a line keeps the samples of a plane in the range of their bit depth.
pub proof fn law_line_keeps_range(
    p: PlaneV,
    x: int,
    y: int,
    vertical: bool,
    step: int,
    f: LineParams,
)
    requires
        plane_in_range(p, f.bit_depth),
    ensures
        plane_in_range(line_filtered(p, x, y, vertical, step, f), f.bit_depth),
        line_filtered(p, x, y, vertical, step, f).same_size(p),
{
    reveal(line_filtered);
    let bd = f.bit_depth;
    let l = line_at(p, x, y, vertical, step);
    assert forall|i: int| is_sample(#[trigger] line_sample(p, x, y, vertical, step, i), bd) by {
        let (a, b) = line_pos(x, y, vertical, step, i);
        lemma_get_in_range(p, bd, a, b);
    }
    law_filter_keeps_range(l, f);
    let r = filtered(l, f);
    let p1 = if f.luma {
        line_set(p, x, y, vertical, step, -3, r.p2)
    } else {
        p
    };
    let (a, b) = line_pos(x, y, vertical, step, -3);
    lemma_set_in_range(p, bd, a, b, r.p2);
    let (a, b) = line_pos(x, y, vertical, step, -2);
    lemma_set_in_range(p1, bd, a, b, r.p1);
    let p2 = line_set(p1, x, y, vertical, step, -2, r.p1);
    let (a, b) = line_pos(x, y, vertical, step, -1);
    lemma_set_in_range(p2, bd, a, b, r.p0);
    let p3 = line_set(p2, x, y, vertical, step, -1, r.p0);
    let (a, b) = line_pos(x, y, vertical, step, 0);
    lemma_set_in_range(p3, bd, a, b, r.q0);
    let p4 = line_set(p3, x, y, vertical, step, 0, r.q0);
    let (a, b) = line_pos(x, y, vertical, step, 1);
    lemma_set_in_range(p4, bd, a, b, r.q1);
    let p5 = line_set(p4, x, y, vertical, step, 1, r.q1);
    let (a, b) = line_pos(x, y, vertical, step, 2);
    lemma_set_in_range(p5, bd, a, b, r.q2);
}

/// So does filtering lines side by side.
pub proof fn law_lines_keep_range(
    p: PlaneV,
    x: int,
    y: int,
    vertical: bool,
    f: LineParams,
    i: int,
    n: int,
)
    requires
        plane_in_range(p, f.bit_depth),
    ensures
        plane_in_range(lines_from(p, x, y, vertical, f, i, n), f.bit_depth),
    decreases n - i,
{
    if i < n {
        if vertical {
            law_line_keeps_range(p, x, y + i, true, 1, f);
            law_lines_keep_range(
                line_filtered(p, x, y + i, true, 1, f),
                x,
                y,
                vertical,
                f,
                i + 1,
                n,
            );
        } else {
            law_line_keeps_range(p, x + i, y, false, 1, f);
            law_lines_keep_range(
                line_filtered(p, x + i, y, false, 1, f),
                x,
                y,
                vertical,
                f,
                i + 1,
                n,
            );
        }
    }
}

} // verus!
