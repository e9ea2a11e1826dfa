//! Laws of the deblocking filter: which lines of a picture it changes, and how.
use crate::boundary_strength::{edge_strength, EdgeCtxV};
use crate::deblock::{
    filtered, law_filter_keeps_range, line_at, line_filtered, line_pos, lines_from,
    samples_in_range, LineParams, LineV,
};
use crate::deblock_picture::{
    chroma_edge, chroma_edges, chroma_from, chroma_lines, deblocked_chroma, deblocked_full,
    edge_step, full_edge, full_from, picture_edge, side_qp, EdgeV, PlaneFilter,
};
use crate::geometry::sub_h;
use crate::math::lemma_p2_mono;
use crate::plane::PlaneV;
use vstd::prelude::*;

verus! {

/// A line of samples across an edge: `q0` at `(x, y)`.
pub struct Cut {
    pub x: int,
    pub y: int,
    pub vertical: bool,
    pub step: int,
    pub f: LineParams,
}

/// Sample `d` of a line: `q0` is number 0, `p0` number -1.
pub open spec fn part(l: LineV, d: int) -> int {
    if d == -4 {
        l.p3
    } else if d == -3 {
        l.p2
    } else if d == -2 {
        l.p1
    } else if d == -1 {
        l.p0
    } else if d == 0 {
        l.q0
    } else if d == 1 {
        l.q1
    } else if d == 2 {
        l.q2
    } else {
        l.q3
    }
}

/// Filtering the line at `(x, y)` may change the sample at `(a, b)`.
pub open spec fn touches(x: int, y: int, vertical: bool, step: int, a: int, b: int) -> bool {
    if vertical {
        b == y && -3 <= a - x <= 2
    } else {
        a == x && (exists|d: int| -3 <= d <= 2 && b == #[trigger] line_pos(x, y, false, step, d).1)
    }
}

/// The luma coordinate of coordinate `v` of a plane with `k` luma samples to a sample.
pub open spec fn luma_of(k: int, v: int) -> int {
    if k == 2 {
        2 * v
    } else {
        v
    }
}

/// How the line across the edge before `(x, y)` is filtered, in a plane of `w` by `h` samples of a
/// picture that is not MBAFF; `sw` and `sh` are the luma samples to a sample of the plane. Edges
/// lie every four samples. `None` at the border of the picture, next to a macroblock that was not
/// decoded, where the strength is 0, and, at the resolution of luma, for the edges inside an 8x8
/// transform block.
#[verifier::opaque]
pub open spec fn cut_at(
    c: EdgeCtxV,
    s: PlaneFilter,
    w: int,
    h: int,
    sw: int,
    sh: int,
    x: int,
    y: int,
    vertical: bool,
) -> Option<LineParams> {
    let (qx, qy) = if vertical {
        (luma_of(sw, x), luma_of(sh, y) / 4 * 4)
    } else {
        (luma_of(sw, x) / 4 * 4, luma_of(sh, y))
    };
    let (px, py) = if vertical {
        (qx - sw, qy)
    } else {
        (qx, qy - sh)
    };
    let across = if vertical {
        x
    } else {
        y
    };
    let pn = py / 16 * c.g.w + px / 16;
    let qn = qy / 16 * c.g.w + qx / 16;
    let (p, q) = (c.g.info[pn], c.g.info[qn]);
    let bs = edge_strength(c, pn, qn, (px % 16, py % 16), (qx % 16, qy % 16), vertical);
    if x < 0 || y < 0 || x >= w || y >= h || qx >= 16 * c.g.w || qy >= 16 * c.g.h {
        None
    } else if across == 0 || across % 4 != 0 {
        None
    } else if !p.available || !q.available || bs == 0 {
        None
    } else if sw == 1 && across % 8 == 4 && q.transform_size_8x8_flag {
        None
    } else {
        Some(
            LineParams {
                bs,
                qp_avg: ((side_qp(p, s) + side_qp(q, s) + 1) / 2) as i64,
                alpha_off: s.alpha_off,
                beta_off: s.beta_off,
                bit_depth: s.bit_depth,
                luma: s.luma_style,
            },
        )
    }
}

/// No other line that is filtered touches the sample at `(a, b)` than the one at `(x, y)`.
pub open spec fn only_touched_from(
    c: EdgeCtxV,
    s: PlaneFilter,
    w: int,
    h: int,
    sw: int,
    sh: int,
    x: int,
    y: int,
    vertical: bool,
    a: int,
    b: int,
) -> bool {
    forall|u: int, v: int, o: bool|
        (#[trigger] cut_at(c, s, w, h, sw, sh, u, v, o)) is Some && touches(u, v, o, 1, a, b) ==> u
            == x && v == y && o == vertical
}

/// The plane after the lines from number `t` up to number `n` were filtered, one after the other.
pub open spec fn run(p: PlaneV, cut: spec_fn(int) -> Option<Cut>, t: int, n: int) -> PlaneV
    decreases n - t,
{
    if t >= n {
        p
    } else {
        run(one(p, cut(t)), cut, t + 1, n)
    }
}

/// The plane after one line, where there is one.
pub open spec fn one(p: PlaneV, cut: Option<Cut>) -> PlaneV {
    match cut {
        Some(e) => line_filtered(p, e.x, e.y, e.vertical, e.step, e.f),
        None => p,
    }
}

proof fn lemma_one(p: PlaneV, e: Cut, a: int, b: int)
    ensures
        one(p, Some(e)).same_size(p),
        !touches(e.x, e.y, e.vertical, e.step, a, b) ==> (one(p, Some(e)).at)(a, b) == (p.at)(a, b),
{
    reveal(line_filtered);
    assert(line_pos(e.x, e.y, e.vertical, e.step, -3).0 == if e.vertical {
        e.x - 3
    } else {
        e.x
    });
    let (p3, p2, p1) = (
        line_pos(e.x, e.y, false, e.step, -3),
        line_pos(e.x, e.y, false, e.step, -2),
        line_pos(e.x, e.y, false, e.step, -1),
    );
    let (q0, q1, q2) = (
        line_pos(e.x, e.y, false, e.step, 0),
        line_pos(e.x, e.y, false, e.step, 1),
        line_pos(e.x, e.y, false, e.step, 2),
    );
}

proof fn lemma_run_size(p: PlaneV, cut: spec_fn(int) -> Option<Cut>, t: int, n: int)
    ensures
        run(p, cut, t, n).same_size(p),
    decreases n - t,
{
    if t < n {
        lemma_run_size(one(p, cut(t)), cut, t + 1, n);
        if let Some(e) = cut(t) {
            lemma_one(p, e, 0, 0);
        }
    }
}

/// None of the lines from number `t` up to number `n` touches the sample at `(a, b)`.
pub open spec fn misses(cut: spec_fn(int) -> Option<Cut>, t: int, n: int, a: int, b: int) -> bool {
    forall|k: int|
        t <= k < n ==> match #[trigger] cut(k) {
            Some(e) => !touches(e.x, e.y, e.vertical, e.step, a, b),
            None => true,
        }
}

pub proof fn lemma_run_keeps(
    p: PlaneV,
    cut: spec_fn(int) -> Option<Cut>,
    t: int,
    n: int,
    a: int,
    b: int,
)
    requires
        misses(cut, t, n, a, b),
    ensures
        (run(p, cut, t, n).at)(a, b) == (p.at)(a, b),
    decreases n - t,
{
    if t < n {
        lemma_run_keeps(one(p, cut(t)), cut, t + 1, n, a, b);
        if let Some(e) = cut(t) {
            lemma_one(p, e, a, b);
        }
    }
}

proof fn lemma_run_split(p: PlaneV, cut: spec_fn(int) -> Option<Cut>, t: int, m: int, n: int)
    requires
        t <= m <= n,
    ensures
        run(p, cut, t, n) == run(run(p, cut, t, m), cut, m, n),
    decreases m - t,
{
    if t < m {
        lemma_run_split(one(p, cut(t)), cut, t + 1, m, n);
    }
}

/// All positions of a line lie in the plane.
pub open spec fn line_inside(p: PlaneV, x: int, y: int, vertical: bool, step: int) -> bool {
    forall|d: int|
        -4 <= d <= 3 ==> p.has(
            (#[trigger] line_pos(x, y, vertical, step, d)).0,
            line_pos(x, y, vertical, step, d).1,
        )
}

#[verifier::spinoff_prover]
proof fn lemma_line_written(p: PlaneV, e: Cut, d: int)
    requires
        line_inside(p, e.x, e.y, e.vertical, e.step),
        e.step == 1 || e.step == 2,
        e.f.bit_depth <= 14,
        samples_in_range(line_at(p, e.x, e.y, e.vertical, e.step), e.f.bit_depth),
        -3 <= d <= 2,
    ensures
        ({
            let (a, b) = line_pos(e.x, e.y, e.vertical, e.step, d);
            (one(p, Some(e)).at)(a, b) == part(
                filtered(line_at(p, e.x, e.y, e.vertical, e.step), e.f),
                d,
            )
        }),
{
    reveal(line_filtered);
    let l = line_at(p, e.x, e.y, e.vertical, e.step);
    law_filter_keeps_range(l, e.f);
    crate::deblock::law_filter_reach(l, e.f);
    lemma_p2_mono(e.f.bit_depth as int, 14);
    crate::math::lemma_p2_values();
    let p3 = line_pos(e.x, e.y, e.vertical, e.step, -3);
    let p2 = line_pos(e.x, e.y, e.vertical, e.step, -2);
    let p1 = line_pos(e.x, e.y, e.vertical, e.step, -1);
    let q0 = line_pos(e.x, e.y, e.vertical, e.step, 0);
    let q1 = line_pos(e.x, e.y, e.vertical, e.step, 1);
    let q2 = line_pos(e.x, e.y, e.vertical, e.step, 2);
    assert(p.has(p3.0, p3.1) && p.has(p2.0, p2.1) && p.has(p1.0, p1.1));
    assert(p.has(q0.0, q0.1) && p.has(q1.0, q1.1) && p.has(q2.0, q2.1));
    assert(e.step * d == if e.step == 1 {
        d
    } else {
        2 * d
    });
}

proof fn lemma_same_line(p: PlaneV, q: PlaneV, x: int, y: int, vertical: bool, step: int)
    requires
        line_inside(p, x, y, vertical, step),
        q.same_size(p),
        forall|d: int|
            -4 <= d <= 3 ==> (q.at)(
                (#[trigger] line_pos(x, y, vertical, step, d)).0,
                line_pos(x, y, vertical, step, d).1,
            ) == (p.at)(
                line_pos(x, y, vertical, step, d).0,
                line_pos(x, y, vertical, step, d).1,
            ),
    ensures
        line_at(q, x, y, vertical, step) == line_at(p, x, y, vertical, step),
{
    assert forall|d: int| -4 <= d <= 3 implies crate::deblock::line_sample(
        q,
        x,
        y,
        vertical,
        step,
        d,
    ) == #[trigger] crate::deblock::line_sample(p, x, y, vertical, step, d) by {
        let (a, b) = line_pos(x, y, vertical, step, d);
        assert(p.has(a, b));
    }
}

#[verifier::spinoff_prover]
pub proof fn lemma_run_line(
    p: PlaneV,
    cut: spec_fn(int) -> Option<Cut>,
    t: int,
    m: int,
    n: int,
    d: int,
)
    requires
        t <= m < n,
        cut(m) is Some,
        ({
            let e = cut(m)->0;
            &&& line_inside(p, e.x, e.y, e.vertical, e.step)
            &&& e.step == 1 || e.step == 2
            &&& e.f.bit_depth <= 14
            &&& samples_in_range(line_at(p, e.x, e.y, e.vertical, e.step), e.f.bit_depth)
            &&& forall|i: int|
                -4 <= i <= 3 ==> misses(
                    cut,
                    t,
                    m,
                    (#[trigger] line_pos(e.x, e.y, e.vertical, e.step, i)).0,
                    line_pos(e.x, e.y, e.vertical, e.step, i).1,
                )
            &&& misses(
                cut,
                m + 1,
                n,
                line_pos(e.x, e.y, e.vertical, e.step, d).0,
                line_pos(e.x, e.y, e.vertical, e.step, d).1,
            )
        }),
        -3 <= d <= 2,
    ensures
        ({
            let e = cut(m)->0;
            let (a, b) = line_pos(e.x, e.y, e.vertical, e.step, d);
            (run(p, cut, t, n).at)(a, b) == part(
                filtered(line_at(p, e.x, e.y, e.vertical, e.step), e.f),
                d,
            )
        }),
{
    let e = cut(m)->0;
    let (a, b) = line_pos(e.x, e.y, e.vertical, e.step, d);
    lemma_run_split(p, cut, t, m, n);
    let q = run(p, cut, t, m);
    lemma_run_size(p, cut, t, m);
    assert forall|i: int| -4 <= i <= 3 implies (q.at)(
        (#[trigger] line_pos(e.x, e.y, e.vertical, e.step, i)).0,
        line_pos(e.x, e.y, e.vertical, e.step, i).1,
    ) == (p.at)(
        line_pos(e.x, e.y, e.vertical, e.step, i).0,
        line_pos(e.x, e.y, e.vertical, e.step, i).1,
    ) by {
        let (u, v) = line_pos(e.x, e.y, e.vertical, e.step, i);
        lemma_run_keeps(p, cut, t, m, u, v);
    }
    lemma_same_line(p, q, e.x, e.y, e.vertical, e.step);
    lemma_line_written(q, e, d);
    lemma_run_keeps(one(q, Some(e)), cut, m + 1, n, a, b);
}

spec fn piece_cut(e: Option<EdgeV>, i: int, n: int) -> Option<Cut> {
    match e {
        Some(e) => if i < n {
            Some(
                Cut {
                    x: if e.vertical {
                        e.x
                    } else {
                        e.x + i
                    },
                    y: if e.vertical {
                        e.y + i
                    } else {
                        e.y
                    },
                    vertical: e.vertical,
                    step: 1,
                    f: e.f,
                },
            )
        } else {
            None
        },
        None => None,
    }
}

proof fn lemma_piece(p: PlaneV, e: Option<EdgeV>, n: int)
    requires
        n == 2 || n == 4,
    ensures
        edge_step(p, e, n) == one(
            one(one(one(p, piece_cut(e, 0, n)), piece_cut(e, 1, n)), piece_cut(e, 2, n)),
            piece_cut(e, 3, n),
        ),
{
    reveal_with_fuel(lines_from, 5);
}

proof fn lemma_run_four(p: PlaneV, cut: spec_fn(int) -> Option<Cut>, t: int, n: int)
    requires
        t + 4 <= n,
    ensures
        run(p, cut, t, n) == run(
            one(one(one(one(p, cut(t)), cut(t + 1)), cut(t + 2)), cut(t + 3)),
            cut,
            t + 4,
            n,
        ),
{
    reveal_with_fuel(run, 5);
}

#[verifier::opaque]
spec fn full_line(c: EdgeCtxV, s: PlaneFilter, w: int, h: int, k: int) -> Option<Cut> {
    piece_cut(full_edge(c, s, w, h, k / 128, k % 128 / 4), k % 4, 4)
}

spec fn full_cut(c: EdgeCtxV, s: PlaneFilter, w: int, h: int) -> spec_fn(int) -> Option<Cut> {
    |k: int| full_line(c, s, w, h, k)
}

#[verifier::spinoff_prover]
#[verifier::rlimit(40)]
proof fn lemma_full_run(
    p: PlaneV,
    c: EdgeCtxV,
    s: PlaneFilter,
    w: int,
    h: int,
    t: int,
    n: int,
)
    requires
        0 <= t,
    ensures
        full_from(p, c, s, w, h, t, n) == run(p, full_cut(c, s, w, h), 4 * t, 128 * n),
    decreases 32 * n - t,
{
    reveal(full_line);
    let cut = full_cut(c, s, w, h);
    if t < 32 * n {
        let e = full_edge(c, s, w, h, t / 32, t % 32);
        let k = 4 * t;
        assert forall|i: int| 0 <= i < 4 implies #[trigger] cut(k + i) == piece_cut(e, i, 4) by {
            assert((k + i) / 128 == t / 32 && (k + i) % 128 / 4 == t % 32 && (k + i) % 4 == i);
        }
        assert(cut(k + 0) == piece_cut(e, 0, 4));
        assert(cut(k) == piece_cut(e, 0, 4));
        assert(cut(k + 1) == piece_cut(e, 1, 4));
        assert(cut(k + 2) == piece_cut(e, 2, 4));
        assert(cut(k + 3) == piece_cut(e, 3, 4));
        lemma_piece(p, e, 4);
        lemma_run_four(p, cut, k, 128 * n);
        lemma_full_run(edge_step(p, e, 4), c, s, w, h, t + 1, n);
    }
}

/// Number of the line at `(x, y)` in the order of filtering.
spec fn full_number(w: int, x: int, y: int, vertical: bool) -> int {
    128 * (y / 16 * w + x / 16) + if vertical {
        16 * (x % 16 / 4) + y % 16
    } else {
        64 + 16 * (y % 16 / 4) + x % 16
    }
}

spec fn is_grid(c: EdgeCtxV) -> bool {
    !c.mbaff && c.g.w >= 1 && c.g.h >= 1 && c.g.info.len() == c.g.w * c.g.h
}

/// The edge between luma positions `(px, py)` and `(qx, qy)`, as `cut_at` says it.
spec fn params_between(
    c: EdgeCtxV,
    s: PlaneFilter,
    px: int,
    py: int,
    qx: int,
    qy: int,
    vertical: bool,
    odd: bool,
) -> Option<LineParams> {
    let pn = py / 16 * c.g.w + px / 16;
    let qn = qy / 16 * c.g.w + qx / 16;
    let (p, q) = (c.g.info[pn], c.g.info[qn]);
    let bs = edge_strength(c, pn, qn, (px % 16, py % 16), (qx % 16, qy % 16), vertical);
    if !p.available || !q.available || bs == 0 || (odd && q.transform_size_8x8_flag) {
        None
    } else {
        Some(
            LineParams {
                bs,
                qp_avg: ((side_qp(p, s) + side_qp(q, s) + 1) / 2) as i64,
                alpha_off: s.alpha_off,
                beta_off: s.beta_off,
                bit_depth: s.bit_depth,
                luma: s.luma_style,
            },
        )
    }
}

proof fn lemma_picture_edge(
    c: EdgeCtxV,
    s: PlaneFilter,
    px: int,
    py: int,
    qx: int,
    qy: int,
    x: int,
    y: int,
    vertical: bool,
    odd: bool,
)
    requires
        is_grid(c),
        0 <= px <= qx < 16 * c.g.w,
        0 <= py <= qy < 16 * c.g.h,
        odd ==> px / 16 == qx / 16 && py / 16 == qy / 16,
    ensures
        picture_edge(c, s, px, py, qx, qy, x, y, vertical, odd) == match params_between(
            c,
            s,
            px,
            py,
            qx,
            qy,
            vertical,
            odd,
        ) {
            Some(f) => Some(EdgeV { x, y, vertical, f }),
            None => None,
        },
{
    reveal(picture_edge);
    crate::neighbours::lemma_raster(qx / 16, qy / 16, c.g.w, c.g.h);
    crate::neighbours::lemma_raster(px / 16, py / 16, c.g.w, c.g.h);
}

spec fn as_cut(f: Option<LineParams>, x: int, y: int, vertical: bool) -> Option<Cut> {
    match f {
        Some(f) => Some(Cut { x, y, vertical, step: 1, f }),
        None => None,
    }
}

#[verifier::spinoff_prover]
proof fn lemma_full_vertical(
    c: EdgeCtxV,
    s: PlaneFilter,
    w: int,
    h: int,
    mx: int,
    my: int,
    edge: int,
    piece: int,
    i: int,
)
    requires
        is_grid(c),
        w % 4 == 0,
        h % 4 == 0,
        0 <= mx < c.g.w,
        0 <= my < c.g.h,
        0 <= edge < 4,
        0 <= piece < 4,
        0 <= i < 4,
    ensures
        ({
            let (x, y) = (16 * mx + 4 * edge, 16 * my + 4 * piece + i);
            piece_cut(full_edge(c, s, w, h, my * c.g.w + mx, 4 * edge + piece), i, 4) == as_cut(
                cut_at(c, s, w, h, 1, 1, x, y, true),
                x,
                y,
                true,
            )
        }),
{
    reveal(cut_at);
    lemma_flat(mx, my, c.g.w);
    let e = 4 * edge + piece;
    assert(e % 16 / 4 == edge && e % 4 == piece);
    let (x, y) = (16 * mx + 4 * edge, 16 * my + 4 * piece);
    let across = x;
    assert((y + i) / 4 * 4 == y);
    assert((edge % 2 == 1) == (across % 8 == 4));
    if across > 0 {
        assert(across % 8 == 4 ==> (across - 1) / 16 == across / 16);
        lemma_picture_edge(c, s, x - 1, y, x, y, x, y, true, edge % 2 == 1);
    }
}

#[verifier::spinoff_prover]
proof fn lemma_full_horizontal(
    c: EdgeCtxV,
    s: PlaneFilter,
    w: int,
    h: int,
    mx: int,
    my: int,
    edge: int,
    piece: int,
    i: int,
)
    requires
        is_grid(c),
        w % 4 == 0,
        h % 4 == 0,
        0 <= mx < c.g.w,
        0 <= my < c.g.h,
        0 <= edge < 4,
        0 <= piece < 4,
        0 <= i < 4,
    ensures
        ({
            let (x, y) = (16 * mx + 4 * piece + i, 16 * my + 4 * edge);
            piece_cut(full_edge(c, s, w, h, my * c.g.w + mx, 16 + 4 * edge + piece), i, 4) == as_cut(
                cut_at(c, s, w, h, 1, 1, x, y, false),
                x,
                y,
                false,
            )
        }),
{
    reveal(cut_at);
    lemma_flat(mx, my, c.g.w);
    let e = 16 + 4 * edge + piece;
    assert(e % 16 / 4 == edge && e % 4 == piece);
    let (x, y) = (16 * mx + 4 * piece, 16 * my + 4 * edge);
    let across = y;
    assert((x + i) / 4 * 4 == x);
    assert((edge % 2 == 1) == (across % 8 == 4));
    if across > 0 {
        assert(across % 8 == 4 ==> (across - 1) / 16 == across / 16);
        lemma_picture_edge(c, s, x, y - 1, x, y, x, y, false, edge % 2 == 1);
    }
}

/// Every line of the order of filtering is the line `cut_at` gives for its place.
#[verifier::spinoff_prover]
proof fn lemma_full_at(c: EdgeCtxV, s: PlaneFilter, w: int, h: int, k: int)
    requires
        is_grid(c),
        w % 4 == 0,
        h % 4 == 0,
        0 <= k < 128 * (c.g.w * c.g.h),
    ensures
        full_cut(c, s, w, h)(k) matches Some(e) ==> e.step == 1 && cut_at(
            c,
            s,
            w,
            h,
            1,
            1,
            e.x,
            e.y,
            e.vertical,
        ) == Some(e.f) && k == full_number(c.g.w, e.x, e.y, e.vertical),
{
    reveal(full_line);
    let flat = k / 128;
    let (mx, my) = (flat % c.g.w, flat / c.g.w);
    lemma_place(flat, c.g.w, c.g.h);
    let r = k % 64;
    let (edge, piece, i) = (r / 16, r % 16 / 4, r % 4);
    lemma_digits(k);
    if k % 128 < 64 {
        lemma_full_vertical(c, s, w, h, mx, my, edge, piece, i);
        lemma_in_mb(mx, my, 4 * edge, 4 * piece + i);
        let (x, y) = (16 * mx + 4 * edge, 16 * my + 4 * piece + i);
        assert(full_number(c.g.w, x, y, true) == 128 * flat + 16 * edge + 4 * piece + i);
    } else {
        lemma_full_horizontal(c, s, w, h, mx, my, edge, piece, i);
        lemma_in_mb(mx, my, 4 * piece + i, 4 * edge);
        let (x, y) = (16 * mx + 4 * piece + i, 16 * my + 4 * edge);
        assert(full_number(c.g.w, x, y, false) == 128 * flat + 64 + 16 * edge + 4 * piece + i);
    }
}

#[verifier::spinoff_prover]
proof fn lemma_digits(k: int)
    requires
        0 <= k,
    ensures
        ({
            let r = k % 64;
            let (edge, piece, i) = (r / 16, r % 16 / 4, r % 4);
            &&& 0 <= edge < 4 && 0 <= piece < 4 && 0 <= i < 4
            &&& k % 4 == i
            &&& r == 16 * edge + 4 * piece + i
            &&& k % 128 < 64 ==> k % 128 / 4 == 4 * edge + piece && k == 128 * (k / 128) + r
            &&& k % 128 >= 64 ==> k % 128 / 4 == 16 + 4 * edge + piece && k == 128 * (k / 128) + 64
                + r
        }),
{
    let (q, t, r) = (k / 128, k % 128, k % 64);
    assert(k == 128 * q + t);
    assert(r == if t < 64 {
        t
    } else {
        t - 64
    });
    let (edge, low) = (r / 16, r % 16);
    assert(r == 16 * edge + low);
    let (piece, i) = (low / 4, low % 4);
    assert(low == 4 * piece + i);
    assert(r % 4 == i && k % 4 == i);
}

proof fn lemma_place(flat: int, w: int, h: int)
    requires
        w >= 1,
        0 <= flat < w * h,
    ensures
        0 <= flat % w < w,
        0 <= flat / w < h,
        flat == flat / w * w + flat % w,
{
    let (mx, my) = (flat % w, flat / w);
    crate::mb_address::lemma_div_mod_bound(flat, w);
    assert(my < h && flat == my * w + mx) by (nonlinear_arith)
        requires
            flat == w * my + mx,
            0 <= mx,
            flat < w * h,
            w >= 1,
    ;
}

proof fn lemma_in_mb(mx: int, my: int, dx: int, dy: int)
    requires
        0 <= dx < 16,
        0 <= dy < 16,
    ensures
        (16 * mx + dx) / 16 == mx,
        (16 * mx + dx) % 16 == dx,
        (16 * my + dy) / 16 == my,
        (16 * my + dy) % 16 == dy,
{
    vstd::arithmetic::div_mod::lemma_fundamental_div_mod_converse(16 * mx + dx, 16, mx, dx);
    vstd::arithmetic::div_mod::lemma_fundamental_div_mod_converse(16 * my + dy, 16, my, dy);
}

/// Every line `cut_at` gives is in the order of filtering.
#[verifier::spinoff_prover]
proof fn lemma_full_found(
    c: EdgeCtxV,
    s: PlaneFilter,
    w: int,
    h: int,
    x: int,
    y: int,
    vertical: bool,
)
    requires
        is_grid(c),
        w % 4 == 0,
        h % 4 == 0,
        cut_at(c, s, w, h, 1, 1, x, y, vertical) is Some,
    ensures
        ({
            let k = full_number(c.g.w, x, y, vertical);
            &&& 0 <= k < 128 * (c.g.w * c.g.h)
            &&& full_cut(c, s, w, h)(k) == as_cut(
                cut_at(c, s, w, h, 1, 1, x, y, vertical),
                x,
                y,
                vertical,
            )
        }),
{
    reveal(full_line);
    lemma_cut_place(c, s, w, h, x, y, vertical);
    let (mx, my) = (x / 16, y / 16);
    crate::neighbours::lemma_raster(mx, my, c.g.w, c.g.h);
    let flat = my * c.g.w + mx;
    let k = full_number(c.g.w, x, y, vertical);
    assert(k == 128 * flat + if vertical {
        16 * (x % 16 / 4) + (4 * (y % 16 / 4) + y % 4)
    } else {
        64 + 16 * (y % 16 / 4) + (4 * (x % 16 / 4) + x % 4)
    });
    assert(x == 16 * mx + 4 * (x % 16 / 4) + x % 4 && y == 16 * my + 4 * (y % 16 / 4) + y % 4);
    let (edge, piece, i) = if vertical {
        (x % 16 / 4, y % 16 / 4, y % 4)
    } else {
        (y % 16 / 4, x % 16 / 4, x % 4)
    };
    lemma_compose(flat, edge, piece, i);
    if vertical {
        lemma_full_vertical(c, s, w, h, mx, my, edge, piece, i);
    } else {
        lemma_full_horizontal(c, s, w, h, mx, my, edge, piece, i);
    }
}

#[verifier::spinoff_prover]
proof fn lemma_compose(flat: int, edge: int, piece: int, i: int)
    requires
        0 <= flat,
        0 <= edge < 4,
        0 <= piece < 4,
        0 <= i < 4,
    ensures
        ({
            let k = 128 * flat + 16 * edge + 4 * piece + i;
            k / 128 == flat && k % 128 / 4 == 4 * edge + piece && k % 4 == i
        }),
        ({
            let k = 128 * flat + 64 + 16 * edge + 4 * piece + i;
            k / 128 == flat && k % 128 / 4 == 16 + 4 * edge + piece && k % 4 == i
        }),
{
    let r = 16 * edge + 4 * piece + i;
    assert(r / 4 == 4 * edge + piece && r % 4 == i && 0 <= r < 64);
    assert((64 + r) / 4 == 16 + 4 * edge + piece && (64 + r) % 4 == i);
    lemma_of_mb(flat, r);
    lemma_of_mb(flat, 64 + r);
}

proof fn lemma_of_mb(flat: int, r: int)
    requires
        0 <= r < 128,
    ensures
        (128 * flat + r) / 128 == flat,
        (128 * flat + r) % 128 == r,
        (128 * flat + r) % 4 == r % 4,
{
    let k = 128 * flat + r;
    let (q, m) = (r / 4, r % 4);
    assert(r == 4 * q + m && 0 <= m < 4);
    assert(flat * 128 == 128 * flat && (32 * flat + q) * 4 == 128 * flat + 4 * q);
    vstd::arithmetic::div_mod::lemma_fundamental_div_mod_converse(k, 128, flat, r);
    vstd::arithmetic::div_mod::lemma_fundamental_div_mod_converse(k, 4, 32 * flat + q, m);
}

proof fn lemma_cut_place(
    c: EdgeCtxV,
    s: PlaneFilter,
    w: int,
    h: int,
    x: int,
    y: int,
    vertical: bool,
)
    requires
        cut_at(c, s, w, h, 1, 1, x, y, vertical) is Some,
    ensures
        0 <= x / 16 < c.g.w,
        0 <= y / 16 < c.g.h,
        vertical ==> x % 4 == 0,
        !vertical ==> y % 4 == 0,
        (cut_at(c, s, w, h, 1, 1, x, y, vertical)->0).bit_depth == s.bit_depth,
{
    reveal(cut_at);
}

/// In a plane with the resolution of luma, the line across an edge that is filtered becomes the
/// filtered line, where no other filtered line touches its samples: across vertical and horizontal
/// edges, between macroblocks and inside them.
pub proof fn law_lone_line_is_filtered(
    p: PlaneV,
    c: EdgeCtxV,
    s: PlaneFilter,
    w: int,
    h: int,
    x: int,
    y: int,
    vertical: bool,
    d: int,
)
    requires
        !c.mbaff && c.g.w >= 1 && c.g.h >= 1 && c.g.info.len() == c.g.w * c.g.h,
        w % 4 == 0,
        h % 4 == 0,
        s.bit_depth <= 14,
        cut_at(c, s, w, h, 1, 1, x, y, vertical) is Some,
        line_inside(p, x, y, vertical, 1),
        samples_in_range(line_at(p, x, y, vertical, 1), s.bit_depth),
        forall|i: int|
            -4 <= i <= 3 ==> only_touched_from(
                c,
                s,
                w,
                h,
                1,
                1,
                x,
                y,
                vertical,
                (#[trigger] line_pos(x, y, vertical, 1, i)).0,
                line_pos(x, y, vertical, 1, i).1,
            ),
        -3 <= d <= 2,
    ensures
        ({
            let f = cut_at(c, s, w, h, 1, 1, x, y, vertical)->0;
            let (a, b) = line_pos(x, y, vertical, 1, d);
            (deblocked_full(p, c, s, w, h).at)(a, b) == part(
                filtered(line_at(p, x, y, vertical, 1), f),
                d,
            )
        }),
{
    reveal(deblocked_full);
    let n = 128 * (c.g.w * c.g.h);
    let cut = full_cut(c, s, w, h);
    lemma_full_run(p, c, s, w, h, 0, c.g.w * c.g.h);
    lemma_full_found(c, s, w, h, x, y, vertical);
    lemma_cut_place(c, s, w, h, x, y, vertical);
    let m = full_number(c.g.w, x, y, vertical);
    assert forall|i: int| -4 <= i <= 3 implies misses(
        cut,
        0,
        m,
        (#[trigger] line_pos(x, y, vertical, 1, i)).0,
        line_pos(x, y, vertical, 1, i).1,
    ) && misses(
        cut,
        m + 1,
        n,
        line_pos(x, y, vertical, 1, i).0,
        line_pos(x, y, vertical, 1, i).1,
    ) by {
        let (a, b) = line_pos(x, y, vertical, 1, i);
        assert(only_touched_from(c, s, w, h, 1, 1, x, y, vertical, a, b));
        assert forall|k: int| 0 <= k < n && k != m implies match #[trigger] cut(k) {
            Some(e) => !touches(e.x, e.y, e.vertical, e.step, a, b),
            None => true,
        } by {
            lemma_full_at(c, s, w, h, k);
        }
    }
    lemma_run_line(p, cut, 0, m, n, d);
}

/// In a plane with the resolution of luma, a sample that no filtered line touches keeps its value.
pub proof fn law_untouched_sample_is_kept(
    p: PlaneV,
    c: EdgeCtxV,
    s: PlaneFilter,
    w: int,
    h: int,
    a: int,
    b: int,
)
    requires
        !c.mbaff && c.g.w >= 1 && c.g.h >= 1 && c.g.info.len() == c.g.w * c.g.h,
        w % 4 == 0,
        h % 4 == 0,
        forall|u: int, v: int, o: bool|
            (#[trigger] cut_at(c, s, w, h, 1, 1, u, v, o)) is Some ==> !touches(u, v, o, 1, a, b),
    ensures
        (deblocked_full(p, c, s, w, h).at)(a, b) == (p.at)(a, b),
{
    reveal(deblocked_full);
    let n = 128 * (c.g.w * c.g.h);
    let cut = full_cut(c, s, w, h);
    lemma_full_run(p, c, s, w, h, 0, c.g.w * c.g.h);
    assert forall|k: int| 0 <= k < n implies match #[trigger] cut(k) {
        Some(e) => !touches(e.x, e.y, e.vertical, e.step, a, b),
        None => true,
    } by {
        lemma_full_at(c, s, w, h, k);
    }
    lemma_run_keeps(p, cut, 0, n, a, b);
}

proof fn lemma_flat(x: int, y: int, w: int)
    requires
        0 <= x < w,
        0 <= y,
    ensures
        (y * w + x) % w == x,
        (y * w + x) / w == y,
{
    vstd::arithmetic::div_mod::lemma_fundamental_div_mod_converse(y * w + x, w, y, x);
}

#[verifier::opaque]
spec fn chroma_line(
    c: EdgeCtxV,
    s: PlaneFilter,
    cat: u32,
    w: int,
    h: int,
    k: int,
) -> Option<Cut> {
    let m = 4 * chroma_edges(cat);
    piece_cut(
        chroma_edge(c, s, cat, w, h, k / m, k % m / 4),
        k % 4,
        chroma_lines(cat, k % m / 4),
    )
}

spec fn chroma_cut(c: EdgeCtxV, s: PlaneFilter, cat: u32, w: int, h: int) -> spec_fn(
    int,
) -> Option<Cut> {
    |k: int| chroma_line(c, s, cat, w, h, k)
}

#[verifier::spinoff_prover]
#[verifier::rlimit(40)]
proof fn lemma_chroma_run(
    p: PlaneV,
    c: EdgeCtxV,
    s: PlaneFilter,
    cat: u32,
    w: int,
    h: int,
    t: int,
    n: int,
)
    requires
        cat == 1 || cat == 2,
        0 <= t,
    ensures
        chroma_from(p, c, s, cat, w, h, t, n) == run(
            p,
            chroma_cut(c, s, cat, w, h),
            4 * t,
            4 * (chroma_edges(cat) * n),
        ),
    decreases chroma_edges(cat) * n - t,
{
    reveal(chroma_line);
    let cut = chroma_cut(c, s, cat, w, h);
    let m = chroma_edges(cat);
    if t < m * n {
        let e = chroma_edge(c, s, cat, w, h, t / m, t % m);
        let lines = chroma_lines(cat, t % m);
        let k = 4 * t;
        assert forall|i: int| 0 <= i < 4 implies #[trigger] cut(k + i) == piece_cut(e, i, lines) by {
            if cat == 1 {
                assert((k + i) / 64 == t / 16 && (k + i) % 64 / 4 == t % 16 && (k + i) % 4 == i);
            } else {
                assert((k + i) / 96 == t / 24 && (k + i) % 96 / 4 == t % 24 && (k + i) % 4 == i);
            }
        }
        assert(cut(k + 0) == piece_cut(e, 0, lines));
        assert(cut(k) == piece_cut(e, 0, lines));
        assert(cut(k + 1) == piece_cut(e, 1, lines));
        assert(cut(k + 2) == piece_cut(e, 2, lines));
        assert(cut(k + 3) == piece_cut(e, 3, lines));
        assert(lines == 2 || lines == 4);
        lemma_piece(p, e, lines);
        lemma_run_four(p, cut, k, 4 * (m * n));
        lemma_chroma_run(edge_step(p, e, lines), c, s, cat, w, h, t + 1, n);
    }
}

/// Lines of a piece of a vertical chroma edge.
spec fn rows_of(cat: u32) -> int {
    if cat == 1 {
        2
    } else {
        4
    }
}

/// Number of the chroma line at `(x, y)` in the order of filtering.
#[verifier::opaque]
spec fn chroma_number(cat: u32, w: int, x: int, y: int, vertical: bool) -> int {
    if cat == 1 {
        64 * (y / 8 * w + x / 8) + if vertical {
            16 * (x % 8 / 4) + 4 * (y % 8 / 2) + y % 8 % 2
        } else {
            32 + 16 * (y % 8 / 4) + 4 * (x % 8 / 2) + x % 8 % 2
        }
    } else {
        96 * (y / 16 * w + x / 8) + if vertical {
            16 * (x % 8 / 4) + 4 * (y % 16 / 4) + y % 16 % 4
        } else {
            32 + 16 * (y % 16 / 4) + 4 * (x % 8 / 2) + x % 8 % 2
        }
    }
}

#[verifier::spinoff_prover]
proof fn lemma_chroma_vertical(
    c: EdgeCtxV,
    s: PlaneFilter,
    cat: u32,
    w: int,
    h: int,
    mx: int,
    my: int,
    edge: int,
    piece: int,
    i: int,
)
    requires
        is_grid(c),
        cat == 1 || cat == 2,
        w % 4 == 0,
        h % 4 == 0,
        0 <= mx < c.g.w,
        0 <= my < c.g.h,
        0 <= edge < 2,
        0 <= piece < 4,
        0 <= i < rows_of(cat),
    ensures
        ({
            let rows = rows_of(cat);
            let (x, y) = if cat == 1 {
                (8 * mx + 4 * edge, 8 * my + 2 * piece + i)
            } else {
                (8 * mx + 4 * edge, 16 * my + 4 * piece + i)
            };
            piece_cut(chroma_edge(c, s, cat, w, h, my * c.g.w + mx, 4 * edge + piece), i, rows)
                == as_cut(cut_at(c, s, w, h, 2, sub_h(cat), x, y, true), x, y, true)
        }),
{
    reveal(cut_at);
    lemma_flat(mx, my, c.g.w);
    let e = 4 * edge + piece;
    assert(e / 4 == edge && e % 4 == piece);
    let (x, y) = if cat == 1 {
        (8 * mx + 4 * edge, 8 * my + 2 * piece)
    } else {
        (8 * mx + 4 * edge, 16 * my + 4 * piece)
    };
    let ly = 16 * my + 4 * piece;
    let rows = 4int / (sub_h(cat));
    assert(rows == rows_of(cat));
    assert(4 * rows * my + rows * piece == y) by {
        if cat == 1 {
            assert(4 * rows * my == 8 * my && rows * piece == 2 * piece);
        } else {
            assert(4 * rows * my == 16 * my && rows * piece == 4 * piece);
        }
    }
    assert(sub_h(cat) * y == ly) by {
        if cat == 1 {
            assert(sub_h(cat) * y == 2 * y);
        } else {
            assert(sub_h(cat) * y == y);
        }
    }
    assert(luma_of(sub_h(cat), y + i) / 4 * 4 == ly);
    if x > 0 {
        lemma_picture_edge(c, s, 2 * (x - 1), ly, 2 * x, ly, x, y, true, false);
    }
}

#[verifier::spinoff_prover]
proof fn lemma_chroma_horizontal(
    c: EdgeCtxV,
    s: PlaneFilter,
    cat: u32,
    w: int,
    h: int,
    mx: int,
    my: int,
    edge: int,
    piece: int,
    i: int,
)
    requires
        is_grid(c),
        cat == 1 || cat == 2,
        w % 4 == 0,
        h % 4 == 0,
        0 <= mx < c.g.w,
        0 <= my < c.g.h,
        0 <= edge < rows_of(cat),
        0 <= piece < 4,
        0 <= i < 2,
    ensures
        ({
            let (x, y) = if cat == 1 {
                (8 * mx + 2 * piece + i, 8 * my + 4 * edge)
            } else {
                (8 * mx + 2 * piece + i, 16 * my + 4 * edge)
            };
            piece_cut(chroma_edge(c, s, cat, w, h, my * c.g.w + mx, 8 + 4 * edge + piece), i, 2)
                == as_cut(cut_at(c, s, w, h, 2, sub_h(cat), x, y, false), x, y, false)
        }),
{
    reveal(cut_at);
    lemma_flat(mx, my, c.g.w);
    let e = 8 + 4 * edge + piece;
    assert((e - 8) / 4 == edge && e % 4 == piece);
    let (x, y) = if cat == 1 {
        (8 * mx + 2 * piece, 8 * my + 4 * edge)
    } else {
        (8 * mx + 2 * piece, 16 * my + 4 * edge)
    };
    let rows = 4int / (sub_h(cat));
    assert(rows == rows_of(cat));
    assert(4 * rows * my + 4 * edge == y) by {
        if cat == 1 {
            assert(4 * rows * my == 8 * my);
        } else {
            assert(4 * rows * my == 16 * my);
        }
    }
    let sh = sub_h(cat);
    assert(sh * y == luma_of(sh, y) && sh * (y - 1) == luma_of(sh, y) - sh) by {
        if cat == 1 {
            assert(sh * y == 2 * y && sh * (y - 1) == 2 * (y - 1));
        } else {
            assert(sh * y == y && sh * (y - 1) == y - 1);
        }
    }
    assert((2 * (x + i)) / 4 * 4 == 2 * x);
    if y > 0 {
        lemma_picture_edge(
            c,
            s,
            2 * x,
            luma_of(sh, y) - sh,
            2 * x,
            luma_of(sh, y),
            x,
            y,
            false,
            false,
        );
    }
}

/// Every chroma line of the order of filtering is the line `cut_at` gives for its place.
#[verifier::spinoff_prover]
proof fn lemma_chroma_at(c: EdgeCtxV, s: PlaneFilter, cat: u32, w: int, h: int, k: int)
    requires
        is_grid(c),
        cat == 1 || cat == 2,
        w % 4 == 0,
        h % 4 == 0,
        0 <= k < 4 * (chroma_edges(cat) * (c.g.w * c.g.h)),
    ensures
        chroma_cut(c, s, cat, w, h)(k) matches Some(e) ==> e.step == 1 && cut_at(
            c,
            s,
            w,
            h,
            2,
            sub_h(cat),
            e.x,
            e.y,
            e.vertical,
        ) == Some(e.f) && k == chroma_number(cat, c.g.w, e.x, e.y, e.vertical),
{
    reveal(chroma_line);
    let m = 4 * chroma_edges(cat);
    let n = c.g.w * c.g.h;
    assert(4 * (chroma_edges(cat) * n) == if cat == 1 {
        64 * n
    } else {
        96 * n
    });
    let flat = k / m;
    let (mx, my) = (flat % c.g.w, flat / c.g.w);
    assert(0 <= flat < n);
    lemma_place(flat, c.g.w, c.g.h);
    let r = k % m;
    let t = if r < 32 {
        r
    } else {
        r - 32
    };
    let (edge, piece, i) = (t / 16, t % 16 / 4, t % 4);
    lemma_chroma_digits(k, m);
    if r < 32 {
        if i < rows_of(cat) {
            lemma_chroma_vertical(c, s, cat, w, h, mx, my, edge, piece, i);
            lemma_vertical_number(cat, c.g.w, mx, my, edge, piece, i);
        }
    } else if i < 2 {
        lemma_chroma_horizontal(c, s, cat, w, h, mx, my, edge, piece, i);
        lemma_horizontal_number(cat, c.g.w, mx, my, edge, piece, i);
    }
}

#[verifier::spinoff_prover]
proof fn lemma_vertical_number(
    cat: u32,
    w: int,
    mx: int,
    my: int,
    edge: int,
    piece: int,
    i: int,
)
    requires
        cat == 1 || cat == 2,
        0 <= edge < 2,
        0 <= piece < 4,
        0 <= i < rows_of(cat),
    ensures
        cat == 1 ==> chroma_number(cat, w, 8 * mx + 4 * edge, 8 * my + 2 * piece + i, true) == 64 * (
        my * w + mx) + 16 * edge + 4 * piece + i,
        cat == 2 ==> chroma_number(cat, w, 8 * mx + 4 * edge, 16 * my + 4 * piece + i, true) == 96
            * (my * w + mx) + 16 * edge + 4 * piece + i,
{
    reveal(chroma_number);
    lemma_eight(mx, 4 * edge);
    assert(4 * edge / 4 == edge);
    if cat == 1 {
        lemma_eight(my, 2 * piece + i);
        assert((2 * piece + i) / 2 == piece && (2 * piece + i) % 2 == i);
    } else {
        lemma_in_mb(0, my, 0, 4 * piece + i);
        assert((4 * piece + i) / 4 == piece && (4 * piece + i) % 4 == i);
    }
}

proof fn lemma_eight(a: int, v: int)
    requires
        0 <= v < 8,
    ensures
        (8 * a + v) / 8 == a,
        (8 * a + v) % 8 == v,
{
    vstd::arithmetic::div_mod::lemma_fundamental_div_mod_converse(8 * a + v, 8, a, v);
}

#[verifier::spinoff_prover]
proof fn lemma_horizontal_number(
    cat: u32,
    w: int,
    mx: int,
    my: int,
    edge: int,
    piece: int,
    i: int,
)
    requires
        cat == 1 || cat == 2,
        0 <= edge < rows_of(cat),
        0 <= piece < 4,
        0 <= i < 2,
    ensures
        cat == 1 ==> chroma_number(cat, w, 8 * mx + 2 * piece + i, 8 * my + 4 * edge, false) == 64
            * (my * w + mx) + 32 + 16 * edge + 4 * piece + i,
        cat == 2 ==> chroma_number(cat, w, 8 * mx + 2 * piece + i, 16 * my + 4 * edge, false) == 96
            * (my * w + mx) + 32 + 16 * edge + 4 * piece + i,
{
    reveal(chroma_number);
    lemma_eight(mx, 2 * piece + i);
    assert((2 * piece + i) / 2 == piece && (2 * piece + i) % 2 == i);
    assert(4 * edge / 4 == edge);
    if cat == 1 {
        lemma_eight(my, 4 * edge);
    } else {
        lemma_in_mb(0, my, 0, 4 * edge);
    }
}

#[verifier::spinoff_prover]
proof fn lemma_chroma_digits(k: int, m: int)
    requires
        m == 64 || m == 96,
        0 <= k,
    ensures
        ({
            let r = k % m;
            let t = if r < 32 {
                r
            } else {
                r - 32
            };
            let (edge, piece, i) = (t / 16, t % 16 / 4, t % 4);
            &&& 0 <= piece < 4 && 0 <= i < 4
            &&& 0 <= edge < (if r < 32 || m == 64 {
                2int
            } else {
                4int
            })
            &&& k % 4 == i
            &&& t == 16 * edge + 4 * piece + i
            &&& r < 32 ==> r / 4 == 4 * edge + piece
            &&& r >= 32 ==> r / 4 == 8 + 4 * edge + piece
            &&& k == m * (k / m) + r
        }),
{
    let q = k / m;
    let r = k % m;
    assert(k == m * q + r) by {
        if m == 64 {
            assert(k == 64 * (k / 64) + k % 64);
        } else {
            assert(k == 96 * (k / 96) + k % 96);
        }
    }
    let t = if r < 32 {
        r
    } else {
        r - 32
    };
    let (edge, low) = (t / 16, t % 16);
    assert(t == 16 * edge + low);
    let (piece, i) = (low / 4, low % 4);
    assert(low == 4 * piece + i);
    assert(t % 4 == i);
    assert(k % 4 == i) by {
        if m == 64 {
            assert(k == 64 * q + r);
        } else {
            assert(k == 96 * q + r);
        }
    }
}

/// Every chroma line `cut_at` gives is in the order of filtering.
#[verifier::spinoff_prover]
proof fn lemma_chroma_found(
    c: EdgeCtxV,
    s: PlaneFilter,
    cat: u32,
    w: int,
    h: int,
    x: int,
    y: int,
    vertical: bool,
)
    requires
        is_grid(c),
        cat == 1 || cat == 2,
        w % 4 == 0,
        h % 4 == 0,
        cut_at(c, s, w, h, 2, sub_h(cat), x, y, vertical) is Some,
    ensures
        ({
            let k = chroma_number(cat, c.g.w, x, y, vertical);
            &&& 0 <= k < 4 * (chroma_edges(cat) * (c.g.w * c.g.h))
            &&& chroma_cut(c, s, cat, w, h)(k) == as_cut(
                cut_at(c, s, w, h, 2, sub_h(cat), x, y, vertical),
                x,
                y,
                vertical,
            )
        }),
{
    reveal(chroma_line);
    let (mx, dx) = (x / 8, x % 8);
    let (my, dy) = if cat == 1 {
        (y / 8, y % 8)
    } else {
        (y / 16, y % 16)
    };
    assert(0 <= mx < c.g.w && 0 <= my < c.g.h && (if vertical {
        x % 4 == 0
    } else {
        y % 4 == 0
    })) by {
        reveal(cut_at);
    }
    crate::neighbours::lemma_raster(mx, my, c.g.w, c.g.h);
    let n = c.g.w * c.g.h;
    assert(4 * (chroma_edges(cat) * n) == if cat == 1 {
        64 * n
    } else {
        96 * n
    });
    if vertical {
        assert(dx % 4 == 0);
        lemma_vertical_found(c, s, cat, w, h, mx, my, dx / 4, dy / rows_of(cat), dy % rows_of(cat));
    } else {
        assert(dy % 4 == 0);
        lemma_horizontal_found(c, s, cat, w, h, mx, my, dy / 4, dx / 2, dx % 2);
    }
}

proof fn lemma_vertical_found(
    c: EdgeCtxV,
    s: PlaneFilter,
    cat: u32,
    w: int,
    h: int,
    mx: int,
    my: int,
    edge: int,
    piece: int,
    i: int,
)
    requires
        is_grid(c),
        cat == 1 || cat == 2,
        w % 4 == 0,
        h % 4 == 0,
        0 <= mx < c.g.w,
        0 <= my < c.g.h,
        0 <= my * c.g.w + mx,
        0 <= edge < 2,
        0 <= piece < 4,
        0 <= i < rows_of(cat),
    ensures
        ({
            let (x, y) = if cat == 1 {
                (8 * mx + 4 * edge, 8 * my + 2 * piece + i)
            } else {
                (8 * mx + 4 * edge, 16 * my + 4 * piece + i)
            };
            let k = chroma_number(cat, c.g.w, x, y, true);
            &&& chroma_cut(c, s, cat, w, h)(k) == as_cut(
                cut_at(c, s, w, h, 2, sub_h(cat), x, y, true),
                x,
                y,
                true,
            )
            &&& k == chroma_edges(cat) * 4 * (my * c.g.w + mx) + (16 * edge + 4 * piece + i)
        }),
{
    reveal(chroma_line);
    lemma_vertical_number(cat, c.g.w, mx, my, edge, piece, i);
    lemma_chroma_compose(my * c.g.w + mx, edge, piece, i);
    lemma_chroma_vertical(c, s, cat, w, h, mx, my, edge, piece, i);
}

proof fn lemma_horizontal_found(
    c: EdgeCtxV,
    s: PlaneFilter,
    cat: u32,
    w: int,
    h: int,
    mx: int,
    my: int,
    edge: int,
    piece: int,
    i: int,
)
    requires
        is_grid(c),
        cat == 1 || cat == 2,
        w % 4 == 0,
        h % 4 == 0,
        0 <= mx < c.g.w,
        0 <= my < c.g.h,
        0 <= my * c.g.w + mx,
        0 <= edge < rows_of(cat),
        0 <= piece < 4,
        0 <= i < 2,
    ensures
        ({
            let (x, y) = if cat == 1 {
                (8 * mx + 2 * piece + i, 8 * my + 4 * edge)
            } else {
                (8 * mx + 2 * piece + i, 16 * my + 4 * edge)
            };
            let k = chroma_number(cat, c.g.w, x, y, false);
            &&& chroma_cut(c, s, cat, w, h)(k) == as_cut(
                cut_at(c, s, w, h, 2, sub_h(cat), x, y, false),
                x,
                y,
                false,
            )
            &&& k == chroma_edges(cat) * 4 * (my * c.g.w + mx) + (32 + 16 * edge + 4 * piece + i)
        }),
{
    reveal(chroma_line);
    lemma_horizontal_number(cat, c.g.w, mx, my, edge, piece, i);
    lemma_chroma_compose(my * c.g.w + mx, edge, piece, i);
    lemma_chroma_horizontal(c, s, cat, w, h, mx, my, edge, piece, i);
}

#[verifier::spinoff_prover]
proof fn lemma_chroma_compose(flat: int, edge: int, piece: int, i: int)
    requires
        0 <= flat,
        0 <= edge < 4,
        0 <= piece < 4,
        0 <= i < 4,
    ensures
        ({
            let r = 16 * edge + 4 * piece + i;
            &&& edge < 2 ==> (64 * flat + r) / 64 == flat && (64 * flat + r) % 64 / 4 == 4 * edge
                + piece && (64 * flat + r) % 4 == i
            &&& edge < 2 ==> (64 * flat + 32 + r) / 64 == flat && (64 * flat + 32 + r) % 64 / 4 == 8
                + 4 * edge + piece && (64 * flat + 32 + r) % 4 == i
            &&& edge < 2 ==> (96 * flat + r) / 96 == flat && (96 * flat + r) % 96 / 4 == 4 * edge
                + piece && (96 * flat + r) % 4 == i
            &&& (96 * flat + 32 + r) / 96 == flat && (96 * flat + 32 + r) % 96 / 4 == 8 + 4 * edge
                + piece && (96 * flat + 32 + r) % 4 == i
        }),
{
    let r = 16 * edge + 4 * piece + i;
    assert(r / 4 == 4 * edge + piece && r % 4 == i && 0 <= r < 64);
    assert((32 + r) / 4 == 8 + 4 * edge + piece && (32 + r) % 4 == i);
    lemma_of_chroma_mb(flat, r);
    lemma_of_chroma_mb(flat, 32 + r);
}

proof fn lemma_of_chroma_mb(flat: int, r: int)
    requires
        0 <= r < 96,
    ensures
        r < 64 ==> (64 * flat + r) / 64 == flat && (64 * flat + r) % 64 == r,
        (64 * flat + r) % 4 == r % 4,
        (96 * flat + r) / 96 == flat,
        (96 * flat + r) % 96 == r,
        (96 * flat + r) % 4 == r % 4,
{
    let (q, m) = (r / 4, r % 4);
    assert(r == 4 * q + m && 0 <= m < 4);
    assert(flat * 64 == 64 * flat && (16 * flat + q) * 4 == 64 * flat + 4 * q);
    assert(flat * 96 == 96 * flat && (24 * flat + q) * 4 == 96 * flat + 4 * q);
    if r < 64 {
        vstd::arithmetic::div_mod::lemma_fundamental_div_mod_converse(64 * flat + r, 64, flat, r);
    }
    vstd::arithmetic::div_mod::lemma_fundamental_div_mod_converse(
        64 * flat + r,
        4,
        16 * flat + q,
        m,
    );
    vstd::arithmetic::div_mod::lemma_fundamental_div_mod_converse(96 * flat + r, 96, flat, r);
    vstd::arithmetic::div_mod::lemma_fundamental_div_mod_converse(
        96 * flat + r,
        4,
        24 * flat + q,
        m,
    );
}

/// In a chroma plane of a 4:2:0 or 4:2:2 picture, the line across an edge that is filtered becomes
/// the filtered line, where no other filtered line touches its samples.
pub proof fn law_lone_chroma_line_is_filtered(
    p: PlaneV,
    c: EdgeCtxV,
    s: PlaneFilter,
    cat: u32,
    w: int,
    h: int,
    x: int,
    y: int,
    vertical: bool,
    d: int,
)
    requires
        !c.mbaff && c.g.w >= 1 && c.g.h >= 1 && c.g.info.len() == c.g.w * c.g.h,
        cat == 1 || cat == 2,
        w % 4 == 0,
        h % 4 == 0,
        s.bit_depth <= 14,
        cut_at(c, s, w, h, 2, sub_h(cat), x, y, vertical) is Some,
        line_inside(p, x, y, vertical, 1),
        samples_in_range(line_at(p, x, y, vertical, 1), s.bit_depth),
        forall|i: int|
            -4 <= i <= 3 ==> only_touched_from(
                c,
                s,
                w,
                h,
                2,
                sub_h(cat),
                x,
                y,
                vertical,
                (#[trigger] line_pos(x, y, vertical, 1, i)).0,
                line_pos(x, y, vertical, 1, i).1,
            ),
        -3 <= d <= 2,
    ensures
        ({
            let f = cut_at(c, s, w, h, 2, sub_h(cat), x, y, vertical)->0;
            let (a, b) = line_pos(x, y, vertical, 1, d);
            (deblocked_chroma(p, c, s, cat, w, h).at)(a, b) == part(
                filtered(line_at(p, x, y, vertical, 1), f),
                d,
            )
        }),
{
    reveal(deblocked_chroma);
    let n = 4 * (chroma_edges(cat) * (c.g.w * c.g.h));
    let cut = chroma_cut(c, s, cat, w, h);
    lemma_chroma_run(p, c, s, cat, w, h, 0, c.g.w * c.g.h);
    lemma_chroma_found(c, s, cat, w, h, x, y, vertical);
    assert((cut_at(c, s, w, h, 2, sub_h(cat), x, y, vertical)->0).bit_depth == s.bit_depth) by {
        reveal(cut_at);
    }
    let m = chroma_number(cat, c.g.w, x, y, vertical);
    assert forall|i: int| -4 <= i <= 3 implies misses(
        cut,
        0,
        m,
        (#[trigger] line_pos(x, y, vertical, 1, i)).0,
        line_pos(x, y, vertical, 1, i).1,
    ) && misses(
        cut,
        m + 1,
        n,
        line_pos(x, y, vertical, 1, i).0,
        line_pos(x, y, vertical, 1, i).1,
    ) by {
        let (a, b) = line_pos(x, y, vertical, 1, i);
        assert(only_touched_from(c, s, w, h, 2, sub_h(cat), x, y, vertical, a, b));
        assert forall|k: int| 0 <= k < n && k != m implies match #[trigger] cut(k) {
            Some(e) => !touches(e.x, e.y, e.vertical, e.step, a, b),
            None => true,
        } by {
            lemma_chroma_at(c, s, cat, w, h, k);
        }
    }
    lemma_run_line(p, cut, 0, m, n, d);
}

/// In a chroma plane of a 4:2:0 or 4:2:2 picture, a sample that no filtered line touches keeps its
/// value.
pub proof fn law_untouched_chroma_sample_is_kept(
    p: PlaneV,
    c: EdgeCtxV,
    s: PlaneFilter,
    cat: u32,
    w: int,
    h: int,
    a: int,
    b: int,
)
    requires
        !c.mbaff && c.g.w >= 1 && c.g.h >= 1 && c.g.info.len() == c.g.w * c.g.h,
        cat == 1 || cat == 2,
        w % 4 == 0,
        h % 4 == 0,
        forall|u: int, v: int, o: bool|
            (#[trigger] cut_at(c, s, w, h, 2, sub_h(cat), u, v, o)) is Some ==> !touches(
                u,
                v,
                o,
                1,
                a,
                b,
            ),
    ensures
        (deblocked_chroma(p, c, s, cat, w, h).at)(a, b) == (p.at)(a, b),
{
    reveal(deblocked_chroma);
    let n = 4 * (chroma_edges(cat) * (c.g.w * c.g.h));
    let cut = chroma_cut(c, s, cat, w, h);
    lemma_chroma_run(p, c, s, cat, w, h, 0, c.g.w * c.g.h);
    assert forall|k: int| 0 <= k < n implies match #[trigger] cut(k) {
        Some(e) => !touches(e.x, e.y, e.vertical, e.step, a, b),
        None => true,
    } by {
        lemma_chroma_at(c, s, cat, w, h, k);
    }
    lemma_run_keeps(p, cut, 0, n, a, b);
}

/// All samples of the line across an edge are equal.
spec fn is_flat(p: PlaneV, e: Cut) -> bool {
    let l = line_at(p, e.x, e.y, e.vertical, e.step);
    &&& l.p3 == l.p0 && l.p2 == l.p0 && l.p1 == l.p0
    &&& l.q0 == l.p0 && l.q1 == l.p0 && l.q2 == l.p0 && l.q3 == l.p0
}

/// Filtering a line of equal samples changes nothing.
proof fn lemma_flat_line(p: PlaneV, e: Cut, a: int, b: int)
    requires
        is_flat(p, e),
        e.step == 1,
        e.f.wf(),
        line_inside(p, e.x, e.y, e.vertical, 1),
        samples_in_range(line_at(p, e.x, e.y, e.vertical, 1), e.f.bit_depth),
    ensures
        (one(p, Some(e)).at)(a, b) == (p.at)(a, b),
{
    lemma_one(p, e, a, b);
    if touches(e.x, e.y, e.vertical, 1, a, b) {
        let d = if e.vertical {
            a - e.x
        } else {
            b - e.y
        };
        assert(line_pos(e.x, e.y, e.vertical, 1, d) == (a, b));
        lemma_line_written(p, e, d);
        crate::deblock::law_flat_line_is_kept(line_at(p, e.x, e.y, e.vertical, 1), e.f);
        lemma_part(p, e.x, e.y, e.vertical, d);
    }
}

proof fn lemma_part(p: PlaneV, x: int, y: int, vertical: bool, d: int)
    requires
        line_inside(p, x, y, vertical, 1),
        -4 <= d <= 3,
    ensures
        ({
            let (a, b) = line_pos(x, y, vertical, 1, d);
            part(line_at(p, x, y, vertical, 1), d) == (p.at)(a, b)
        }),
{
    let (a, b) = line_pos(x, y, vertical, 1, d);
    assert(p.has(a, b));
}

spec fn keeps_lines(p: PlaneV, cut: spec_fn(int) -> Option<Cut>, t: int, n: int) -> bool {
    forall|k: int|
        t <= k < n ==> match #[trigger] cut(k) {
            Some(e) => is_flat(p, e) && e.step == 1 && e.f.wf() && line_inside(
                p,
                e.x,
                e.y,
                e.vertical,
                1,
            ) && samples_in_range(line_at(p, e.x, e.y, e.vertical, 1), e.f.bit_depth),
            None => true,
        }
}

proof fn lemma_run_flat(p: PlaneV, cut: spec_fn(int) -> Option<Cut>, t: int, n: int)
    requires
        keeps_lines(p, cut, t, n),
    ensures
        run(p, cut, t, n) == p,
    decreases n - t,
{
    if t < n {
        let q = one(p, cut(t));
        if let Some(e) = cut(t) {
            assert forall|a: int, b: int| #[trigger] (q.at)(a, b) == (p.at)(a, b) by {
                lemma_flat_line(p, e, a, b);
            }
            lemma_one(p, e, 0, 0);
            assert(q.at =~= p.at);
            assert(q == p);
        }
        lemma_run_flat(p, cut, t + 1, n);
    }
}

/// A picture of two decoded intra macroblocks, one above the other.
pub open spec fn is_column_of_two(c: EdgeCtxV, p: PlaneV, bit_depth: u32) -> bool {
    &&& !c.mbaff && !c.field_pic
    &&& c.g.w == 1 && c.g.h == 2 && c.g.info.len() == 2
    &&& c.g.info[0].available && c.g.info[0].is_intra
    &&& c.g.info[1].available && c.g.info[1].is_intra
    &&& p.w == 16 && p.h == 32
    &&& crate::deblock::plane_in_range(p, bit_depth)
}

/// Across the edge between two intra macroblocks, the upper of one value and the lower constant
/// along its rows, the column of every sample becomes the line that the strong filter makes of it,
/// down to the first row of the lower macroblock, which other edges do not reach.
pub proof fn law_step_between_macroblocks(
    p: PlaneV,
    c: EdgeCtxV,
    s: PlaneFilter,
    u: int,
    x: int,
    d: int,
)
    requires
        s.bit_depth <= 14,
        is_column_of_two(c, p, s.bit_depth),
        forall|a: int, b: int| 0 <= a < 16 && 0 <= b < 16 ==> #[trigger] (p.at)(a, b) == u,
        forall|a: int, b: int| 0 <= a < 16 && 16 <= b < 32 ==> #[trigger] (p.at)(a, b) == (p.at)(0, b),
        0 <= x < 16,
        -3 <= d <= 0,
    ensures
        ({
            let f = LineParams {
                bs: 4,
                qp_avg: ((side_qp(c.g.info[0], s) + side_qp(c.g.info[1], s) + 1) / 2) as i64,
                alpha_off: s.alpha_off,
                beta_off: s.beta_off,
                bit_depth: s.bit_depth,
                luma: s.luma_style,
            };
            let l = LineV {
                p3: u,
                p2: u,
                p1: u,
                p0: u,
                q0: (p.at)(x, 16),
                q1: (p.at)(x, 17),
                q2: (p.at)(x, 18),
                q3: (p.at)(x, 19),
            };
            (deblocked_full(p, c, s, 16, 32).at)(x, 16 + d) == part(filtered(l, f), d)
        }),
{
    reveal(deblocked_full);
    let cut = full_cut(c, s, 16, 32);
    lemma_full_run(p, c, s, 16, 32, 0, 2);
    assert(c.g.w * c.g.h == 2);
    assert forall|k: int| 0 <= k < 192 implies match #[trigger] cut(k) {
        Some(e) => is_flat(p, e) && e.step == 1 && e.f.wf() && line_inside(
            p,
            e.x,
            e.y,
            e.vertical,
            1,
        ) && samples_in_range(line_at(p, e.x, e.y, e.vertical, 1), e.f.bit_depth),
        None => true,
    } by {
        lemma_quiet(p, c, s, u, k);
    }
    lemma_run_flat(p, cut, 0, 192);
    lemma_run_split(p, cut, 0, 192, 256);
    let m = 192 + x;
    assert(cut_at(c, s, 16, 32, 1, 1, x, 16, false) is Some && (cut_at(
        c,
        s,
        16,
        32,
        1,
        1,
        x,
        16,
        false,
    )->0).bs == 4) by {
        reveal(cut_at);
        reveal(edge_strength);
    }
    lemma_full_found(c, s, 16, 32, x, 16, false);
    assert(full_number(1, x, 16, false) == m);
    lemma_line_inside(p, x, 16);
    lemma_line_range(p, s.bit_depth, x, 16, false);
    let f = cut_at(c, s, 16, 32, 1, 1, x, 16, false)->0;
    assert(f == (LineParams {
        bs: 4,
        qp_avg: ((side_qp(c.g.info[0], s) + side_qp(c.g.info[1], s) + 1) / 2) as i64,
        alpha_off: s.alpha_off,
        beta_off: s.beta_off,
        bit_depth: s.bit_depth,
        luma: s.luma_style,
    })) by {
        reveal(cut_at);
    }
    assert forall|i: int| -4 <= i <= 3 implies misses(
        cut,
        192,
        m,
        (#[trigger] line_pos(x, 16, false, 1, i)).0,
        line_pos(x, 16, false, 1, i).1,
    ) by {
        assert forall|k: int| 192 <= k < m implies match #[trigger] cut(k) {
            Some(e) => !touches(e.x, e.y, e.vertical, e.step, x, 16 + i),
            None => true,
        } by {
            lemma_later(c, s, k);
        }
    }
    assert(misses(cut, m + 1, 256, x, 16 + d)) by {
        assert forall|k: int| m + 1 <= k < 256 implies match #[trigger] cut(k) {
            Some(e) => !touches(e.x, e.y, e.vertical, e.step, x, 16 + d),
            None => true,
        } by {
            lemma_later(c, s, k);
        }
    }
    lemma_run_line(p, cut, 192, m, 256, d);
}

/// Lines of the lower macroblock across its horizontal edges.
proof fn lemma_later(c: EdgeCtxV, s: PlaneFilter, k: int)
    requires
        is_grid(c),
        c.g.w == 1,
        c.g.h == 2,
        192 <= k < 256,
    ensures
        full_cut(c, s, 16, 32)(k) matches Some(e) ==> !e.vertical && e.step == 1 && e.x == k % 16
            && e.y == 16 + (k - 192) / 16 * 4,
{
    assert(c.g.w * c.g.h == 2);
    lemma_full_at(c, s, 16, 32, k);
    if let Some(e) = full_cut(c, s, 16, 32)(k) {
        lemma_cut_place(c, s, 16, 32, e.x, e.y, e.vertical);
        assert(e.x / 16 == 0 && e.y / 16 * 1 == e.y / 16);
        assert(k == full_number(1, e.x, e.y, e.vertical));
        assert(e.y / 16 == 1);
    }
}

proof fn lemma_line_inside(p: PlaneV, x: int, y: int)
    requires
        p.w == 16,
        p.h == 32,
        0 <= x < 16,
        4 <= y <= 28,
    ensures
        line_inside(p, x, y, false, 1),
{
}

proof fn lemma_line_range(p: PlaneV, bit_depth: u32, x: int, y: int, vertical: bool)
    requires
        crate::deblock::plane_in_range(p, bit_depth),
        line_inside(p, x, y, vertical, 1),
    ensures
        samples_in_range(line_at(p, x, y, vertical, 1), bit_depth),
{
    assert forall|d: int| -4 <= d <= 3 implies crate::deblock::is_sample(
        #[trigger] crate::deblock::line_sample(p, x, y, vertical, 1, d),
        bit_depth,
    ) by {
        let (a, b) = line_pos(x, y, vertical, 1, d);
        assert(p.has(a, b));
    }
}

/// A line before the edge between the macroblocks is flat.
#[verifier::spinoff_prover]
#[verifier::rlimit(40)]
proof fn lemma_quiet(p: PlaneV, c: EdgeCtxV, s: PlaneFilter, u: int, k: int)
    requires
        s.bit_depth <= 14,
        is_column_of_two(c, p, s.bit_depth),
        forall|a: int, b: int| 0 <= a < 16 && 0 <= b < 16 ==> #[trigger] (p.at)(a, b) == u,
        forall|a: int, b: int| 0 <= a < 16 && 16 <= b < 32 ==> #[trigger] (p.at)(a, b) == (p.at)(0, b),
        0 <= k < 192,
    ensures
        full_cut(c, s, 16, 32)(k) matches Some(e) ==> is_flat(p, e) && e.step == 1 && e.f.wf()
            && line_inside(p, e.x, e.y, e.vertical, 1) && samples_in_range(
            line_at(p, e.x, e.y, e.vertical, 1),
            e.f.bit_depth,
        ),
{
    assert(c.g.w * c.g.h == 2);
    lemma_full_at(c, s, 16, 32, k);
    if let Some(e) = full_cut(c, s, 16, 32)(k) {
        lemma_cut_place(c, s, 16, 32, e.x, e.y, e.vertical);
        lemma_cut_inside(c, s, 16, 32, e.x, e.y, e.vertical);
        assert(e.x / 16 == 0 && e.y / 16 * 1 == e.y / 16);
        assert(0 <= e.x < 16 && 0 <= e.y < 32);
        assert(k == full_number(1, e.x, e.y, e.vertical));
        if e.vertical {
            assert(4 <= e.x <= 12);
        } else {
            assert(e.y / 16 == 0);
            assert(4 <= e.y <= 12);
        }
        assert(line_inside(p, e.x, e.y, e.vertical, 1));
        lemma_line_range(p, s.bit_depth, e.x, e.y, e.vertical);
        assert forall|d: int| -4 <= d <= 3 implies #[trigger] crate::deblock::line_sample(
            p,
            e.x,
            e.y,
            e.vertical,
            1,
            d,
        ) == crate::deblock::line_sample(p, e.x, e.y, e.vertical, 1, -1) by {
            let (a, b) = line_pos(e.x, e.y, e.vertical, 1, d);
            let (a0, b0) = line_pos(e.x, e.y, e.vertical, 1, -1);
            assert(p.has(a, b) && p.has(a0, b0));
            assert((p.at)(a, b) == (p.at)(a0, b0));
        }
    }
}

/// A filtered line does not lie at the border, and its settings are in range.
proof fn lemma_cut_inside(
    c: EdgeCtxV,
    s: PlaneFilter,
    w: int,
    h: int,
    x: int,
    y: int,
    vertical: bool,
)
    requires
        s.bit_depth <= 14,
        cut_at(c, s, w, h, 1, 1, x, y, vertical) is Some,
    ensures
        0 <= x < w,
        0 <= y < h,
        vertical ==> x > 0,
        !vertical ==> y > 0,
        (cut_at(c, s, w, h, 1, 1, x, y, vertical)->0).wf(),
{
    reveal(cut_at);
    let (qx, qy) = if vertical {
        (x, y / 4 * 4)
    } else {
        (x / 4 * 4, y)
    };
    let (px, py) = if vertical {
        (qx - 1, qy)
    } else {
        (qx, qy - 1)
    };
    lemma_side_qp(c.g.info[py / 16 * c.g.w + px / 16], s);
    lemma_side_qp(c.g.info[qy / 16 * c.g.w + qx / 16], s);
}

proof fn lemma_side_qp(i: crate::mb_grid::MbInfoV, s: PlaneFilter)
    requires
        s.bit_depth <= 14,
    ensures
        -0x8000_0000 <= side_qp(i, s) <= 0x8000_0000,
{
}

/// A picture of one decoded intra macroblock with 8x8 transform blocks.
pub open spec fn is_single(c: EdgeCtxV, p: PlaneV, bit_depth: u32) -> bool {
    &&& !c.mbaff
    &&& c.g.w == 1 && c.g.h == 1 && c.g.info.len() == 1
    &&& c.g.info[0].available && c.g.info[0].is_intra && c.g.info[0].transform_size_8x8_flag
    &&& p.w == 16 && p.h == 16
    &&& crate::deblock::plane_in_range(p, bit_depth)
}

/// Settings of the edges inside a macroblock.
pub open spec fn inner_settings(c: EdgeCtxV, s: PlaneFilter) -> LineParams {
    LineParams {
        bs: 3,
        qp_avg: ((2 * side_qp(c.g.info[0], s) + 1) / 2) as i64,
        alpha_off: s.alpha_off,
        beta_off: s.beta_off,
        bit_depth: s.bit_depth,
        luma: s.luma_style,
    }
}

/// The sample at `(x, y)` once the vertical edge in the middle was filtered.
pub open spec fn after_vertical(c: EdgeCtxV, s: PlaneFilter, p: PlaneV, x: int, y: int) -> int {
    if 5 <= x <= 10 {
        part(filtered(line_at(p, 8, y, true, 1), inner_settings(c, s)), x - 8)
    } else {
        (p.at)(x, y)
    }
}

/// Vertical edges are filtered first, and horizontal edges work on what they leave: in a picture of
/// one intra macroblock with 8x8 transform blocks, the rows next to the horizontal edge become,
/// column by column, the filtered line of the samples that the vertical edge left; the other rows
/// keep those.
pub proof fn law_vertical_edges_go_first(
    p: PlaneV,
    c: EdgeCtxV,
    s: PlaneFilter,
    x: int,
    y: int,
)
    requires
        s.bit_depth <= 14,
        is_single(c, p, s.bit_depth),
        0 <= x < 16,
        0 <= y < 16,
    ensures
        ({
            let l = LineV {
                p3: after_vertical(c, s, p, x, 4),
                p2: after_vertical(c, s, p, x, 5),
                p1: after_vertical(c, s, p, x, 6),
                p0: after_vertical(c, s, p, x, 7),
                q0: after_vertical(c, s, p, x, 8),
                q1: after_vertical(c, s, p, x, 9),
                q2: after_vertical(c, s, p, x, 10),
                q3: after_vertical(c, s, p, x, 11),
            };
            (deblocked_full(p, c, s, 16, 16).at)(x, y) == if 5 <= y <= 10 {
                part(filtered(l, inner_settings(c, s)), y - 8)
            } else {
                after_vertical(c, s, p, x, y)
            }
        }),
{
    reveal(deblocked_full);
    let cut = full_cut(c, s, 16, 16);
    let f = inner_settings(c, s);
    lemma_full_run(p, c, s, 16, 16, 0, 1);
    assert(c.g.w * c.g.h == 1);
    lemma_run_split(p, cut, 0, 64, 128);
    let q = run(p, cut, 0, 64);
    lemma_run_size(p, cut, 0, 64);
    assert forall|b: int| 0 <= b < 16 implies #[trigger] (q.at)(x, b) == after_vertical(c, s, p, x, b)
        && crate::deblock::is_sample((q.at)(x, b), s.bit_depth) by {
        lemma_first_half(p, c, s, x, b);
    }
    if 5 <= y <= 10 {
        lemma_single_cut(c, s, 96 + x);
        assert(line_inside(q, x, 8, false, 1));
        assert forall|d: int| -4 <= d <= 3 implies #[trigger] crate::deblock::line_sample(
            q,
            x,
            8,
            false,
            1,
            d,
        ) == after_vertical(c, s, p, x, 8 + d) && crate::deblock::is_sample(
            crate::deblock::line_sample(q, x, 8, false, 1, d),
            s.bit_depth,
        ) by {
            assert(line_pos(x, 8, false, 1, d) == (x, 8 + d));
            assert(q.has(x, 8 + d));
            assert((q.at)(x, 8 + d) == after_vertical(c, s, p, x, 8 + d));
        }
        assert forall|i: int| -4 <= i <= 3 implies misses(
            cut,
            64,
            96 + x,
            (#[trigger] line_pos(x, 8, false, 1, i)).0,
            line_pos(x, 8, false, 1, i).1,
        ) by {
            assert forall|k: int| 64 <= k < 96 + x implies match #[trigger] cut(k) {
                Some(e) => !touches(e.x, e.y, e.vertical, e.step, x, 8 + i),
                None => true,
            } by {
                lemma_single_cut(c, s, k);
            }
        }
        assert(misses(cut, 97 + x, 128, x, y)) by {
            assert forall|k: int| 97 + x <= k < 128 implies match #[trigger] cut(k) {
                Some(e) => !touches(e.x, e.y, e.vertical, e.step, x, y),
                None => true,
            } by {
                lemma_single_cut(c, s, k);
            }
        }
        assert(line_pos(x, 8, false, 1, y - 8) == (x, y));
        lemma_run_line(q, cut, 64, 96 + x, 128, y - 8);
    } else {
        assert(misses(cut, 64, 128, x, y)) by {
            assert forall|k: int| 64 <= k < 128 implies match #[trigger] cut(k) {
                Some(e) => !touches(e.x, e.y, e.vertical, e.step, x, y),
                None => true,
            } by {
                lemma_single_cut(c, s, k);
                lemma_out_of_reach(k - 96, 8, x, y);
            }
        }
        lemma_run_keeps(q, cut, 64, 128, x, y);
    }
}

proof fn lemma_out_of_reach(x: int, y: int, a: int, b: int)
    requires
        b < y - 3 || b > y + 2,
    ensures
        !touches(x, y, false, 1, a, b),
{
    assert forall|d: int| -3 <= d <= 2 implies b != #[trigger] line_pos(x, y, false, 1, d).1 by {
        assert(line_pos(x, y, false, 1, d).1 == y + d);
    }
}

/// The vertical lines of the picture leave what `after_vertical` says.
proof fn lemma_first_half(p: PlaneV, c: EdgeCtxV, s: PlaneFilter, x: int, b: int)
    requires
        s.bit_depth <= 14,
        is_single(c, p, s.bit_depth),
        0 <= x < 16,
        0 <= b < 16,
    ensures
        ({
            let v = (run(p, full_cut(c, s, 16, 16), 0, 64).at)(x, b);
            v == after_vertical(c, s, p, x, b) && crate::deblock::is_sample(v, s.bit_depth)
        }),
{
    let cut = full_cut(c, s, 16, 16);
    assert(p.has(x, b));
    if 5 <= x <= 10 {
        lemma_single_cut(c, s, 32 + b);
        assert(line_inside(p, 8, b, true, 1));
        lemma_line_range(p, s.bit_depth, 8, b, true);
        assert forall|i: int| -4 <= i <= 3 implies misses(
            cut,
            0,
            32 + b,
            (#[trigger] line_pos(8, b, true, 1, i)).0,
            line_pos(8, b, true, 1, i).1,
        ) by {
            assert forall|k: int| 0 <= k < 32 + b implies match #[trigger] cut(k) {
                Some(e) => !touches(e.x, e.y, e.vertical, e.step, 8 + i, b),
                None => true,
            } by {
                lemma_single_cut(c, s, k);
            }
        }
        assert(misses(cut, 33 + b, 64, x, b)) by {
            assert forall|k: int| 33 + b <= k < 64 implies match #[trigger] cut(k) {
                Some(e) => !touches(e.x, e.y, e.vertical, e.step, x, b),
                None => true,
            } by {
                lemma_single_cut(c, s, k);
            }
        }
        assert(line_pos(8, b, true, 1, x - 8) == (x, b));
        lemma_run_line(p, cut, 0, 32 + b, 64, x - 8);
        law_filter_keeps_range(line_at(p, 8, b, true, 1), inner_settings(c, s));
    } else {
        assert(misses(cut, 0, 64, x, b)) by {
            assert forall|k: int| 0 <= k < 64 implies match #[trigger] cut(k) {
                Some(e) => !touches(e.x, e.y, e.vertical, e.step, x, b),
                None => true,
            } by {
                lemma_single_cut(c, s, k);
            }
        }
        lemma_run_keeps(p, cut, 0, 64, x, b);
    }
}

/// The lines of a picture of one macroblock with 8x8 transform blocks: those across its middle.
#[verifier::spinoff_prover]
#[verifier::rlimit(40)]
proof fn lemma_single_cut(c: EdgeCtxV, s: PlaneFilter, k: int)
    requires
        s.bit_depth <= 14,
        !c.mbaff,
        c.g.w == 1 && c.g.h == 1 && c.g.info.len() == 1,
        c.g.info[0].available && c.g.info[0].is_intra && c.g.info[0].transform_size_8x8_flag,
        0 <= k < 128,
    ensures
        ({
            let f = inner_settings(c, s);
            full_cut(c, s, 16, 16)(k) == if 32 <= k < 48 {
                Some(Cut { x: 8, y: k - 32, vertical: true, step: 1, f })
            } else if 96 <= k < 112 {
                Some(Cut { x: k - 96, y: 8, vertical: false, step: 1, f })
            } else {
                None
            }
        }),
{
    assert(c.g.w * c.g.h == 1);
    if 32 <= k < 48 {
        lemma_middle_cut(c, s, 8, k - 32, true);
        lemma_full_found(c, s, 16, 16, 8, k - 32, true);
        assert(full_number(1, 8, k - 32, true) == k);
    } else if 96 <= k < 112 {
        lemma_middle_cut(c, s, k - 96, 8, false);
        lemma_full_found(c, s, 16, 16, k - 96, 8, false);
        assert(full_number(1, k - 96, 8, false) == k);
    } else {
        lemma_full_at(c, s, 16, 16, k);
        if let Some(e) = full_cut(c, s, 16, 16)(k) {
            lemma_cut_inside(c, s, 16, 16, e.x, e.y, e.vertical);
            lemma_cut_place(c, s, 16, 16, e.x, e.y, e.vertical);
            lemma_middle_only(c, s, e.x, e.y, e.vertical);
            assert(e.x / 16 == 0 && e.y / 16 * 1 == 0);
            assert(k == full_number(1, e.x, e.y, e.vertical));
        }
    }
}

proof fn lemma_middle_cut(c: EdgeCtxV, s: PlaneFilter, x: int, y: int, vertical: bool)
    requires
        !c.mbaff,
        c.g.w == 1 && c.g.h == 1 && c.g.info.len() == 1,
        c.g.info[0].available && c.g.info[0].is_intra,
        0 <= x < 16,
        0 <= y < 16,
        vertical ==> x == 8,
        !vertical ==> y == 8,
    ensures
        cut_at(c, s, 16, 16, 1, 1, x, y, vertical) == Some(inner_settings(c, s)),
{
    reveal(cut_at);
    reveal(edge_strength);
}

proof fn lemma_middle_only(c: EdgeCtxV, s: PlaneFilter, x: int, y: int, vertical: bool)
    requires
        c.g.w == 1 && c.g.h == 1 && c.g.info.len() == 1,
        c.g.info[0].transform_size_8x8_flag,
        0 <= x < 16,
        0 <= y < 16,
        cut_at(c, s, 16, 16, 1, 1, x, y, vertical) is Some,
    ensures
        vertical ==> x == 8,
        !vertical ==> y == 8,
{
    reveal(cut_at);
}

} // verus!
