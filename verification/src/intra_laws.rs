//! Laws of intra prediction.
use crate::intra_pred::{
    error_16x16, error_4x4, error_8x8, error_chroma, gradient, predict_16x16_spec,
    predict_chroma_spec, predict_nxn_spec, slope, smooth8, sum_of, Intra16x16Mode, IntraChromaMode,
    IntraNxNMode, Neighbour4x4Availability, SamplesV,
};
use crate::mb_grid::GridV;
use crate::motion_laws::z_order;
use crate::neighbours::{gather, NbCtx};
use crate::plane::PlaneV;
use vstd::prelude::*;

verus! {

/// In a picture that is not MBAFF, the neighbours of a block are the samples of the plane around
/// it: the column to its left from top to bottom, the row above it from left to right, that row
/// continued to the right, and the sample at the corner.
pub proof fn law_neighbours_surround_the_block(
    p: PlaneV,
    g: GridV,
    c: NbCtx,
    bx: int,
    by: int,
    lbx: int,
    lby: int,
    w: int,
    h: int,
    tr: bool,
    sw: int,
    sh: int,
    i: int,
)
    requires
        !g.mbaff,
        0 <= i,
        0 < w,
        0 < h,
    ensures
        ({
            let s = gather(p, g, c, bx, by, lbx, lby, w, h, tr, sw, sh);
            &&& s.left.len() == h && s.top.len() == w && s.top_right.len() == w
            &&& s.av.left && i < h && p.has(bx - 1, by + i) ==> s.left[i] == (p.at)(bx - 1, by + i)
            &&& s.av.top && i < w && p.has(bx + i, by - 1) ==> s.top[i] == (p.at)(bx + i, by - 1)
            &&& s.av.top_right && i < w && p.has(bx + w + i, by - 1) ==> s.top_right[i] == (p.at)(
                bx + w + i,
                by - 1,
            )
            &&& s.av.top_left && p.has(bx - 1, by - 1) ==> s.top_left == (p.at)(bx - 1, by - 1)
        }),
{
    reveal(gather);
}

/// The macroblock at a luma position may serve for intra prediction: it belongs to the slice, and
/// it is not an inter macroblock where intra prediction is constrained.
pub open spec fn may_serve(g: GridV, x: int, y: int, slice_id: int, constrained: bool) -> bool {
    let i = g.info[(y / 16) * g.w + x / 16];
    (slice_id < 0 || i.slice_id == slice_id) && !(constrained && i.available && !i.is_intra)
}

/// Which neighbours of a block of a picture that is not MBAFF may be used: those inside the picture
/// whose macroblock may serve; of the samples to the upper right, those decoded before the block.
pub proof fn law_neighbours_available(
    p: PlaneV,
    g: GridV,
    c: NbCtx,
    bx: int,
    by: int,
    lbx: int,
    lby: int,
    w: int,
    h: int,
    tr: bool,
    sw: int,
    sh: int,
)
    requires
        !g.mbaff,
        g.w >= 1,
        g.h >= 1,
        g.info.len() == g.w * g.h,
        sw == 1 || sw == 2,
        sh == 1 || sh == 2,
        0 <= bx && (bx + w) * sw <= 16 * g.w,
        0 <= by && by * sh < 16 * g.h,
        0 < w,
    ensures
        ({
            let s = gather(p, g, c, bx, by, lbx, lby, w, h, tr, sw, sh);
            let (id, cip) = (c.slice_id as int, c.cip);
            &&& s.av.left == (bx > 0 && may_serve(g, (bx - 1) * sw, by * sh, id, cip))
            &&& s.av.top == (by > 0 && may_serve(g, bx * sw, (by - 1) * sh, id, cip))
            &&& s.av.top_left == (bx > 0 && by > 0 && may_serve(
                g,
                (bx - 1) * sw,
                (by - 1) * sh,
                id,
                cip,
            ))
            &&& !tr || by == 0 ==> !s.av.top_right
            &&& tr && by > 0 && bx + w < c.pic_w && (bx + w) * sw < 16 * g.w ==> s.av.top_right
                == may_serve(g, (bx + w) * sw, (by - 1) * sh, id, cip)
            &&& bx + w >= c.pic_w ==> !s.av.top_right
        }),
{
    reveal(gather);
    if bx > 0 {
        lemma_position(g, c, bx - 1, by, sw, sh);
    }
    if by > 0 {
        lemma_scaled(bx, w, sw);
        lemma_position(g, c, bx, by - 1, sw, sh);
        if (bx + w) * sw < 16 * g.w {
            lemma_position(g, c, bx + w, by - 1, sw, sh);
        }
    }
    if bx > 0 && by > 0 {
        lemma_position(g, c, bx - 1, by - 1, sw, sh);
    }
}

proof fn lemma_scaled(bx: int, w: int, sw: int)
    requires
        sw == 1 || sw == 2,
        0 < w,
    ensures
        bx * sw < (bx + w) * sw,
        (bx - 1) * sw < (bx + w) * sw,
{
    assert(bx * sw < (bx + w) * sw && (bx - 1) * sw < (bx + w) * sw) by (nonlinear_arith)
        requires
            sw == 1 || sw == 2,
            0 < w,
    ;
}

proof fn lemma_position(g: GridV, c: NbCtx, x: int, y: int, sw: int, sh: int)
    requires
        g.w >= 1,
        g.h >= 1,
        g.info.len() == g.w * g.h,
        sw == 1 || sw == 2,
        sh == 1 || sh == 2,
        0 <= x,
        0 <= y,
        x * sw < 16 * g.w,
        y * sh < 16 * g.h,
    ensures
        crate::neighbours::position_ok(g, c, x, y, sw, sh) == may_serve(
            g,
            x * sw,
            y * sh,
            c.slice_id as int,
            c.cip,
        ),
{
    let (u, v) = (x * sw, y * sh);
    assert(0 <= u && 0 <= v) by (nonlinear_arith)
        requires
            u == x * sw,
            v == y * sh,
            0 <= x,
            0 <= y,
            sw >= 1,
            sh >= 1,
    ;
    crate::neighbours::lemma_raster(u / 16, v / 16, g.w, g.h);
}

/// Sample at column `x` and row `y` of the prediction of a block of `n` by `n` samples.
pub open spec fn predicted(
    mode: IntraNxNMode,
    s: SamplesV,
    n: int,
    bd: u32,
    x: int,
    y: int,
) -> int {
    predict_nxn_spec(mode, s, n, bd)[n * y + x]
}

/// Neighbours of a block of `n` by `n` samples.
pub open spec fn is_border(s: SamplesV, n: int) -> bool {
    (n == 4 || n == 8) && s.top.len() == n && s.left.len() == n && s.top_right.len() == n
}

/// The row above a block and its continuation; where that is not available, the last sample of the
/// row goes on.
pub open spec fn row_above(s: SamplesV, n: int, i: int) -> int {
    if i < n {
        s.top[i]
    } else if s.av.top_right {
        s.top_right[i - n]
    } else {
        s.top[n - 1]
    }
}

/// The mean of two samples, rounded up.
pub open spec fn mean2(a: int, b: int) -> int {
    (a + b + 1) / 2
}

/// The mean of three samples, the middle one counted twice, rounded.
pub open spec fn mean3(a: int, b: int, c: int) -> int {
    (a + 2 * b + c + 2) / 4
}

#[verifier::spinoff_prover]
proof fn lemma_predicted(mode: IntraNxNMode, s: SamplesV, n: int, bd: u32, x: int, y: int)
    requires
        n == 4 || n == 8,
        0 <= x < n,
        0 <= y < n,
    ensures
        predicted(mode, s, n, bd, x, y) == crate::intra_pred::nxn_at(mode, s, n, bd, x, y),
{
    reveal(predict_nxn_spec);
    let k = n * y + x;
    if n == 4 {
        assert(k == 4 * y + x);
        assert(k % 4 == x && k / 4 == y);
    } else {
        assert(k == 8 * y + x);
        assert(k % 8 == x && k / 8 == y);
    }
}

/// Vertical prediction repeats the row above, horizontal prediction the column to the left.
pub proof fn law_straight_prediction(s: SamplesV, n: int, bd: u32, x: int, y: int)
    requires
        is_border(s, n),
        0 <= x < n,
        0 <= y < n,
    ensures
        predicted(IntraNxNMode::Vertical, s, n, bd, x, y) == s.top[x],
        predicted(IntraNxNMode::Horizontal, s, n, bd, x, y) == s.left[y],
{
    lemma_predicted(IntraNxNMode::Vertical, s, n, bd, x, y);
    lemma_predicted(IntraNxNMode::Horizontal, s, n, bd, x, y);
}

/// Sum of the first `k` values.
pub open spec fn total(s: Seq<int>, k: int) -> int
    decreases k,
{
    if k <= 0 {
        0
    } else {
        total(s, k - 1) + s[k - 1]
    }
}

proof fn lemma_total(s: Seq<int>, k: int)
    ensures
        sum_of(s, 0, k) == total(s, k),
    decreases k,
{
    if k > 0 {
        lemma_total(s, k - 1);
    }
}

/// DC prediction is the rounded mean of the available sides, the middle of the sample range without
/// any, for 4x4, 8x8 and 16x16 blocks alike.
pub proof fn law_dc_prediction(s: SamplesV, n: int, bd: u32, x: int, y: int, v: int)
    requires
        n == 4 || n == 8 || n == 16,
        0 <= x < n,
        0 <= y < n,
        bd >= 1,
        v == if n == 16 {
            predict_16x16_spec(Intra16x16Mode::Dc, s, bd)[16 * y + x]
        } else {
            predicted(IntraNxNMode::Dc, s, n, bd, x, y)
        },
    ensures
        s.av.top && s.av.left ==> v == (total(s.top, n) + total(s.left, n) + n) / (2 * n),
        s.av.top && !s.av.left ==> v == (total(s.top, n) + n / 2) / n,
        !s.av.top && s.av.left ==> v == (total(s.left, n) + n / 2) / n,
        !s.av.top && !s.av.left ==> 2 * v == crate::math::p2(bd as int),
{
    if n < 16 {
        lemma_predicted(IntraNxNMode::Dc, s, n, bd, x, y);
    } else {
        reveal(predict_16x16_spec);
    }
    lemma_total(s.top, n);
    lemma_total(s.left, n);
}

/// Diagonal down-left prediction is constant along the diagonals that run down to the left; each is
/// the smoothed value of the row above where the diagonal starts.
pub proof fn law_diagonal_down_left(s: SamplesV, n: int, bd: u32, x: int, y: int)
    requires
        is_border(s, n),
        0 <= x < n,
        0 <= y < n,
    ensures
        ({
            let m = IntraNxNMode::DiagonalDownLeft;
            let t = |i: int| row_above(s, n, i);
            let k = x + y;
            &&& x + 1 < n && y >= 1 ==> predicted(m, s, n, bd, x, y) == predicted(
                m,
                s,
                n,
                bd,
                x + 1,
                y - 1,
            )
            &&& k < 2 * n - 2 ==> predicted(m, s, n, bd, x, y) == mean3(t(k), t(k + 1), t(k + 2))
            &&& k == 2 * n - 2 ==> predicted(m, s, n, bd, x, y) == mean3(t(k), t(k + 1), t(k + 1))
        }),
{
    let m = IntraNxNMode::DiagonalDownLeft;
    lemma_predicted(m, s, n, bd, x, y);
    if x + 1 < n && y >= 1 {
        lemma_predicted(m, s, n, bd, x + 1, y - 1);
    }
}

/// Diagonal down-right prediction is constant along the diagonals that run down to the right; each
/// is the smoothed value of the border where the diagonal starts.
pub proof fn law_diagonal_down_right(s: SamplesV, n: int, bd: u32, x: int, y: int)
    requires
        is_border(s, n),
        0 <= x < n,
        0 <= y < n,
    ensures
        ({
            let m = IntraNxNMode::DiagonalDownRight;
            let v = predicted(m, s, n, bd, x, y);
            &&& x >= 1 && y >= 1 ==> v == predicted(m, s, n, bd, x - 1, y - 1)
            &&& x == y ==> v == mean3(s.left[0], s.top_left, s.top[0])
            &&& x == y + 1 ==> v == mean3(s.top_left, s.top[0], s.top[1])
            &&& x > y + 1 ==> v == mean3(s.top[x - y - 2], s.top[x - y - 1], s.top[x - y])
            &&& y == x + 1 ==> v == mean3(s.top_left, s.left[0], s.left[1])
            &&& y > x + 1 ==> v == mean3(s.left[y - x - 2], s.left[y - x - 1], s.left[y - x])
        }),
{
    let m = IntraNxNMode::DiagonalDownRight;
    lemma_predicted(m, s, n, bd, x, y);
    if x >= 1 && y >= 1 {
        lemma_predicted(m, s, n, bd, x - 1, y - 1);
    }
}

/// Vertical-right prediction: two rows down it is moved one column to the right; its first rows are
/// means of two and three samples above, its first column smoothed values of the left column.
pub proof fn law_vertical_right(s: SamplesV, n: int, bd: u32, x: int, y: int)
    requires
        is_border(s, n),
        0 <= x < n,
        0 <= y < n,
    ensures
        ({
            let m = IntraNxNMode::VerticalRight;
            let v = predicted(m, s, n, bd, x, y);
            &&& x >= 1 && y >= 2 ==> v == predicted(m, s, n, bd, x - 1, y - 2)
            &&& y == 0 && x == 0 ==> v == mean2(s.top_left, s.top[0])
            &&& y == 0 && x > 0 ==> v == mean2(s.top[x - 1], s.top[x])
            &&& y == 1 && x == 0 ==> v == mean3(s.left[0], s.top_left, s.top[0])
            &&& y == 1 && x == 1 ==> v == mean3(s.top_left, s.top[0], s.top[1])
            &&& y == 1 && x > 1 ==> v == mean3(s.top[x - 2], s.top[x - 1], s.top[x])
            &&& y == 2 && x == 0 ==> v == mean3(s.top_left, s.left[0], s.left[1])
            &&& y > 2 && x == 0 ==> v == mean3(s.left[y - 3], s.left[y - 2], s.left[y - 1])
        }),
{
    let m = IntraNxNMode::VerticalRight;
    lemma_predicted(m, s, n, bd, x, y);
    if x >= 1 && y >= 2 {
        lemma_predicted(m, s, n, bd, x - 1, y - 2);
    }
}

/// Horizontal-down prediction is vertical-right prediction with rows and columns exchanged;
/// diagonal down-right prediction does not change when they are exchanged, and horizontal
/// prediction becomes vertical.
pub proof fn law_prediction_transposes(
    s: SamplesV,
    t: SamplesV,
    n: int,
    bd: u32,
    x: int,
    y: int,
)
    requires
        is_border(s, n),
        is_border(t, n),
        t.top == s.left,
        t.left == s.top,
        t.top_left == s.top_left,
        0 <= x < n,
        0 <= y < n,
    ensures
        predicted(IntraNxNMode::HorizontalDown, s, n, bd, x, y) == predicted(
            IntraNxNMode::VerticalRight,
            t,
            n,
            bd,
            y,
            x,
        ),
        predicted(IntraNxNMode::DiagonalDownRight, s, n, bd, x, y) == predicted(
            IntraNxNMode::DiagonalDownRight,
            t,
            n,
            bd,
            y,
            x,
        ),
        predicted(IntraNxNMode::Horizontal, s, n, bd, x, y) == predicted(
            IntraNxNMode::Vertical,
            t,
            n,
            bd,
            y,
            x,
        ),
{
    lemma_predicted(IntraNxNMode::HorizontalDown, s, n, bd, x, y);
    lemma_predicted(IntraNxNMode::VerticalRight, t, n, bd, y, x);
    lemma_predicted(IntraNxNMode::DiagonalDownRight, s, n, bd, x, y);
    lemma_predicted(IntraNxNMode::DiagonalDownRight, t, n, bd, y, x);
    lemma_predicted(IntraNxNMode::Horizontal, s, n, bd, x, y);
    lemma_predicted(IntraNxNMode::Vertical, t, n, bd, y, x);
    assert forall|i: int| -n <= i <= n implies #[trigger] t.e(i) == s.e(-i) by {}
}

/// Vertical-left prediction: two rows down it is moved one column to the left; its even rows are
/// means of two samples above, its odd rows of three.
pub proof fn law_vertical_left(s: SamplesV, n: int, bd: u32, x: int, y: int)
    requires
        is_border(s, n),
        0 <= x < n,
        0 <= y < n,
    ensures
        ({
            let m = IntraNxNMode::VerticalLeft;
            let v = predicted(m, s, n, bd, x, y);
            let t = |i: int| row_above(s, n, i);
            let k = x + y / 2;
            &&& x + 1 < n && y >= 2 ==> v == predicted(m, s, n, bd, x + 1, y - 2)
            &&& y % 2 == 0 ==> v == mean2(t(k), t(k + 1))
            &&& y % 2 == 1 ==> v == mean3(t(k), t(k + 1), t(k + 2))
        }),
{
    let m = IntraNxNMode::VerticalLeft;
    lemma_predicted(m, s, n, bd, x, y);
    if x + 1 < n && y >= 2 {
        lemma_predicted(m, s, n, bd, x + 1, y - 2);
    }
}

/// Horizontal-up prediction: one row down it is moved two columns to the left; it starts with means
/// of two and three samples of the left column and ends with the last one of them.
pub proof fn law_horizontal_up(s: SamplesV, n: int, bd: u32, x: int, y: int)
    requires
        is_border(s, n),
        0 <= x < n,
        0 <= y < n,
    ensures
        ({
            let m = IntraNxNMode::HorizontalUp;
            let v = predicted(m, s, n, bd, x, y);
            &&& x + 2 < n && y >= 1 ==> v == predicted(m, s, n, bd, x + 2, y - 1)
            &&& x == 0 && y + 1 < n ==> v == mean2(s.left[y], s.left[y + 1])
            &&& x == 1 && y + 2 < n ==> v == mean3(s.left[y], s.left[y + 1], s.left[y + 2])
            &&& x == 1 && y + 2 == n ==> v == mean3(s.left[n - 2], s.left[n - 1], s.left[n - 1])
            &&& x + 2 * y >= 2 * n - 2 ==> v == s.left[n - 1]
        }),
{
    let m = IntraNxNMode::HorizontalUp;
    lemma_predicted(m, s, n, bd, x, y);
    if x + 2 < n && y >= 1 {
        lemma_predicted(m, s, n, bd, x + 2, y - 1);
    }
}

/// The neighbours of an 8x8 block are smoothed along the border before they predict; ends of the
/// border, and places next to a corner that is not available, count themselves twice.
pub proof fn law_border_is_smoothed(s: SamplesV, i: int)
    requires
        is_border(s, 8),
        0 <= i < 8,
    ensures
        ({
            let r = smooth8(s);
            let t = |k: int| row_above(s, 8, k);
            &&& is_border(r, 8)
            &&& r.av.top == s.av.top && r.av.left == s.av.left && r.av.top_left == s.av.top_left
            &&& r.av.top_right == s.av.top
            &&& s.av.top && i > 0 ==> r.top[i] == mean3(t(i - 1), t(i), t(i + 1))
            &&& s.av.top && s.av.top_left ==> r.top[0] == mean3(s.top_left, t(0), t(1))
            &&& s.av.top && !s.av.top_left ==> r.top[0] == mean3(t(0), t(0), t(1))
            &&& s.av.top && i < 7 ==> r.top_right[i] == mean3(t(7 + i), t(8 + i), t(9 + i))
            &&& s.av.top ==> r.top_right[7] == mean3(t(14), t(15), t(15))
            &&& s.av.left && 0 < i < 7 ==> r.left[i] == mean3(
                s.left[i - 1],
                s.left[i],
                s.left[i + 1],
            )
            &&& s.av.left ==> r.left[7] == mean3(s.left[6], s.left[7], s.left[7])
            &&& s.av.left && s.av.top_left ==> r.left[0] == mean3(
                s.top_left,
                s.left[0],
                s.left[1],
            )
            &&& s.av.left && !s.av.top_left ==> r.left[0] == mean3(
                s.left[0],
                s.left[0],
                s.left[1],
            )
            &&& s.av.top_left && s.av.top && s.av.left ==> r.top_left == mean3(
                s.left[0],
                s.top_left,
                s.top[0],
            )
            &&& s.av.top_left && s.av.top && !s.av.left ==> r.top_left == mean3(
                s.top_left,
                s.top_left,
                s.top[0],
            )
            &&& s.av.top_left && !s.av.top && s.av.left ==> r.top_left == mean3(
                s.top_left,
                s.top_left,
                s.left[0],
            )
            &&& s.av.top_left && !s.av.top && !s.av.left ==> r.top_left == s.top_left
        }),
{
    reveal(smooth8);
}

/// Vertical and horizontal prediction of 16x16 and chroma blocks repeat the row above and the
/// column to the left.
pub proof fn law_straight_prediction_of_planes(s: SamplesV, h: int, bd: u32, x: int, y: int)
    requires
        h == 8 || h == 16,
        0 <= x < 16,
        0 <= y < 16,
    ensures
        predict_16x16_spec(Intra16x16Mode::Vertical, s, bd)[16 * y + x] == s.top[x],
        predict_16x16_spec(Intra16x16Mode::Horizontal, s, bd)[16 * y + x] == s.left[y],
        x < 8 && y < h ==> predict_chroma_spec(IntraChromaMode::Vertical, s, h, bd)[8 * y + x]
            == s.top[x],
        x < 8 && y < h ==> predict_chroma_spec(IntraChromaMode::Horizontal, s, h, bd)[8 * y + x]
            == s.left[y],
{
    reveal(predict_16x16_spec);
    reveal(predict_chroma_spec);
    let k = 16 * y + x;
    assert(k % 16 == x && k / 16 == y);
    if x < 8 {
        let k = 8 * y + x;
        assert(k % 8 == x && k / 8 == y);
    }
}

/// The neighbours lie on a plane that rises by `a` per column and by `b` per row from `v` at the
/// first sample of the block.
pub open spec fn is_ramp(s: SamplesV, w: int, h: int, v: int, a: int, b: int) -> bool {
    &&& s.top.len() == w && s.left.len() == h
    &&& s.top_left == v - a - b
    &&& forall|i: int| 0 <= i < w ==> #[trigger] s.top[i] == v + a * i - b
    &&& forall|i: int| 0 <= i < h ==> #[trigger] s.left[i] == v - a + b * i
}

/// Plane prediction continues a plane: neighbours on a plane with small slopes predict the samples
/// of that plane, limited to the sample range.
pub proof fn law_plane_prediction_continues_planes(
    s: SamplesV,
    w: int,
    h: int,
    bd: u32,
    v: int,
    a: int,
    b: int,
    x: int,
    y: int,
)
    requires
        (w == 16 && h == 16) || (w == 8 && (h == 8 || h == 16)),
        is_ramp(s, w, h, v, a, b),
        -3 <= a <= 3,
        -3 <= b <= 3,
        0 <= x < w,
        0 <= y < h,
    ensures
        ({
            let t = v + a * x + b * y;
            let r = if w == 16 {
                predict_16x16_spec(Intra16x16Mode::Plane, s, bd)[16 * y + x]
            } else {
                predict_chroma_spec(IntraChromaMode::Plane, s, h, bd)[8 * y + x]
            };
            r == if t < 0 {
                0
            } else if t >= crate::math::p2(bd as int) {
                crate::math::p2(bd as int) - 1
            } else {
                t
            }
        }),
{
    reveal(predict_16x16_spec);
    reveal(predict_chroma_spec);
    if w == 16 {
        let k = 16 * y + x;
        assert(k % 16 == x && k / 16 == y);
    } else {
        let k = 8 * y + x;
        assert(k % 8 == x && k / 8 == y);
    }
    lemma_gradients(s, w, h, v, a, b);
    assert(slope(s, 1, w) == 32 * a);
    assert(slope(s, -1, h) == 32 * b);
    assert((32 * a) * (x - (w / 2 - 1)) == 32 * (a * x) - 32 * (a * (w / 2 - 1)))
        by (nonlinear_arith);
    assert((32 * b) * (y - (h / 2 - 1)) == 32 * (b * y) - 32 * (b * (h / 2 - 1)))
        by (nonlinear_arith);
    assert(s.e(-h) == s.left[h - 1] && s.e(w) == s.top[w - 1]);
    assert(b * (h - 1) == (h - 1) * b && a * (w - 1) == (w - 1) * a) by (nonlinear_arith);
    assert(a * (w / 2 - 1) == (w / 2 - 1) * a && b * (h / 2 - 1) == (h / 2 - 1) * b)
        by (nonlinear_arith);
    if w == 16 {
        assert((h - 1) * b == 15 * b && (w - 1) * a == 15 * a);
    } else if h == 8 {
        assert((h - 1) * b == 7 * b && (w - 1) * a == 7 * a);
    } else {
        assert((h - 1) * b == 15 * b && (w - 1) * a == 7 * a);
    }
}

proof fn lemma_gradients(s: SamplesV, w: int, h: int, v: int, a: int, b: int)
    requires
        (w == 16 && h == 16) || (w == 8 && (h == 8 || h == 16)),
        is_ramp(s, w, h, v, a, b),
    ensures
        w == 16 ==> gradient(s, 1, 8, 8) == 408 * a,
        w == 8 ==> gradient(s, 1, 4, 4) == 60 * a,
        h == 16 ==> gradient(s, -1, 8, 8) == 408 * b,
        h == 8 ==> gradient(s, -1, 4, 4) == 60 * b,
{
    lemma_border_values(s, w, h, v, a, b);
    if w == 16 {
        lemma_gradient(s, 1, 8, 8, a, v - a - b);
    } else {
        lemma_gradient(s, 1, 4, 4, a, v - a - b);
    }
    if h == 16 {
        lemma_gradient(s, -1, 8, 8, b, v - a - b);
    } else {
        lemma_gradient(s, -1, 4, 4, b, v - a - b);
    }
    lemma_squares();
    assert(2 * squares(8) * a == 408 * a && 2 * squares(4) * a == 60 * a);
    assert(2 * squares(8) * b == 408 * b && 2 * squares(4) * b == 60 * b);
}

proof fn lemma_border_values(s: SamplesV, w: int, h: int, v: int, a: int, b: int)
    requires
        is_ramp(s, w, h, v, a, b),
    ensures
        forall|i: int| 0 <= i <= w ==> #[trigger] s.e(1 * i) == v - a - b + a * i,
        forall|i: int| 0 <= i <= h ==> #[trigger] s.e(-1 * i) == v - a - b + b * i,
{
    assert forall|i: int| 0 <= i <= w implies #[trigger] s.e(1 * i) == v - a - b + a * i by {
        if i > 0 {
            assert(s.top[i - 1] == v + a * (i - 1) - b);
        }
        assert(a * (i - 1) == a * i - a) by (nonlinear_arith);
        assert(a * 0 == 0);
    }
    assert forall|i: int| 0 <= i <= h implies #[trigger] s.e(-1 * i) == v - a - b + b * i by {
        if i > 0 {
            assert(s.left[i - 1] == v - a + b * (i - 1));
        }
        assert(b * (i - 1) == b * i - b) by (nonlinear_arith);
        assert(b * 0 == 0);
    }
}

spec fn squares(n: int) -> int
    decreases n,
{
    if n <= 0 {
        0
    } else {
        squares(n - 1) + n * n
    }
}

proof fn lemma_squares()
    ensures
        squares(8) == 204,
        squares(4) == 30,
{
    assert(squares(0) == 0);
    assert(squares(1) == 1);
    assert(squares(2) == 5);
    assert(squares(3) == 14);
    assert(squares(4) == 30);
    assert(squares(5) == 55);
    assert(squares(6) == 91);
    assert(squares(7) == 140);
}

proof fn lemma_gradient(s: SamplesV, dir: int, m: int, n: int, a: int, z: int)
    requires
        dir == 1 || dir == -1,
        0 <= n <= m,
        forall|i: int| 0 <= i <= 2 * m ==> #[trigger] s.e(dir * i) == z + a * i,
    ensures
        gradient(s, dir, m, n) == 2 * squares(n) * a,
    decreases n,
{
    if n > 0 {
        lemma_gradient(s, dir, m, n - 1, a, z);
        assert(s.e(dir * (m + n)) == z + a * (m + n));
        assert(s.e(dir * (m - n)) == z + a * (m - n));
        assert(n * (a * (m + n) - a * (m - n)) == 2 * (n * n) * a) by (nonlinear_arith);
        assert(2 * squares(n - 1) * a + 2 * (n * n) * a == 2 * (squares(n - 1) + n * n) * a)
            by (nonlinear_arith);
    } else {
        assert(2 * squares(n) * a == 0) by (nonlinear_arith)
            requires
                squares(n) == 0,
        ;
    }
}

/// Chroma DC prediction, for each 4x4 block on its own: blocks on the diagonal and inner blocks use
/// both sides, the upper right block prefers the row above, the blocks below the first in the left
/// column prefer the left column.
pub proof fn law_chroma_dc_prediction(s: SamplesV, h: int, bd: u32, x: int, y: int)
    requires
        h == 8 || h == 16,
        0 <= x < 8,
        0 <= y < h,
        bd >= 1,
    ensures
        ({
            let v = predict_chroma_spec(IntraChromaMode::Dc, s, h, bd)[8 * y + x];
            let (i, j) = (x / 4 * 4, y / 4 * 4);
            let t = s.top[i] + s.top[i + 1] + s.top[i + 2] + s.top[i + 3];
            let l = s.left[j] + s.left[j + 1] + s.left[j + 2] + s.left[j + 3];
            let both = (i == 0 && j == 0) || (i > 0 && j > 0);
            let (top, left) = (s.av.top, s.av.left);
            &&& top && left && both ==> v == (t + l + 4) / 8
            &&& top && left && !both && i > 0 ==> v == (t + 2) / 4
            &&& top && left && !both && i == 0 ==> v == (l + 2) / 4
            &&& top && !left ==> v == (t + 2) / 4
            &&& !top && left ==> v == (l + 2) / 4
            &&& !top && !left ==> 2 * v == crate::math::p2(bd as int)
        }),
{
    reveal(predict_chroma_spec);
    let k = 8 * y + x;
    assert(k % 8 == x && k / 8 == y);
    reveal_with_fuel(sum_of, 5);
}

/// The samples to the upper right of a 4x4 block were decoded before it where the block lies in the
/// first row, or where the block there comes earlier in the order of decoding; never beyond the
/// right side of the macroblock below its first row.
pub proof fn law_upper_right_is_decoded(column: int, row: int)
    requires
        0 <= column < 4,
        0 <= row < 4,
    ensures
        crate::neighbours::tr_decoded4(z_order(column, row)) == (row == 0 || (column < 3 && z_order(
            column + 1,
            row - 1,
        ) < z_order(column, row))),
{
}

/// A mode is refused exactly where a side of the block that it reads is not available: DC reads
/// none that is missing, modes that lean left or right downwards read both sides and the corner.
pub proof fn law_modes_need_their_sides(
    mode: IntraNxNMode,
    whole: Intra16x16Mode,
    chroma: IntraChromaMode,
    av: Neighbour4x4Availability,
)
    ensures
        ({
            let reads_top = !(mode is Horizontal || mode is HorizontalUp || mode is Dc);
            let reads_left = mode is Horizontal || mode is HorizontalUp || mode is DiagonalDownRight
                || mode is VerticalRight || mode is HorizontalDown;
            let ok = (reads_top ==> av.top) && (reads_left ==> av.left) && (reads_top && reads_left
                ==> av.top_left);
            &&& error_4x4(mode, av) is None == ok
            &&& error_8x8(mode, av) is None == ok
        }),
        error_16x16(whole, av) is None == ((whole is Vertical || whole is Plane ==> av.top) && (
        whole is Horizontal || whole is Plane ==> av.left) && (whole is Plane ==> av.top_left)),
        error_chroma(chroma, av) is None == ((chroma is Vertical || chroma is Plane ==> av.top) && (
        chroma is Horizontal || chroma is Plane ==> av.left) && (chroma is Plane ==> av.top_left)),
{
}

/// The numbers of the modes: vertical before horizontal before DC, but DC first for chroma.
pub proof fn law_mode_numbers()
    ensures
        IntraNxNMode::of(0) is Vertical,
        IntraNxNMode::of(1) is Horizontal,
        IntraNxNMode::of(2) is Dc,
        IntraNxNMode::of(3) is DiagonalDownLeft,
        IntraNxNMode::of(4) is DiagonalDownRight,
        IntraNxNMode::of(5) is VerticalRight,
        IntraNxNMode::of(6) is HorizontalDown,
        IntraNxNMode::of(7) is VerticalLeft,
        IntraNxNMode::of(8) is HorizontalUp,
        Intra16x16Mode::of(0) == Some(Intra16x16Mode::Vertical),
        Intra16x16Mode::of(1) == Some(Intra16x16Mode::Horizontal),
        Intra16x16Mode::of(2) == Some(Intra16x16Mode::Dc),
        Intra16x16Mode::of(3) == Some(Intra16x16Mode::Plane),
        IntraChromaMode::of(0) is Dc,
        IntraChromaMode::of(1) is Horizontal,
        IntraChromaMode::of(2) is Vertical,
        IntraChromaMode::of(3) is Plane,
{
}

} // verus!
