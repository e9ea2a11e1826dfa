//! Laws of motion compensation.
use crate::error::ErrV;
use crate::inter_pred::{
    chroma_block, luma_block, luma_quarter, mc_chroma, mc_chroma_444, mc_luma, ref_sample,
};
use crate::math::p2;
use crate::mv_deriv::Mv;
use crate::picture::Picture;
use crate::plane::PlaneV;
use vstd::prelude::*;

verus! {

/// Sample `(x, y)` of the luma prediction of a block of `w` by `h` samples at `(ax, ay)`.
pub open spec fn luma_at(
    p: Picture,
    field: Option<u8>,
    bd: u32,
    ax: int,
    ay: int,
    mv: (int, int),
    w: int,
    h: int,
    x: int,
    y: int,
) -> int {
    let v = Mv { x: mv.0 as i32, y: mv.1 as i32 };
    mc_luma(p, ax, ay, v, w, h, bd, field)->Ok_0[y * w + x]
}

/// The picture has been decoded and has luma samples, also in each field.
pub open spec fn has_luma(p: Picture) -> bool {
    !p.non_existing && p.luma@.w >= 1 && p.luma@.h >= 2
}

/// The components of a vector, and those next to them, are 32-bit values.
pub open spec fn fits(mv: (int, int)) -> bool {
    -0x7fff_fff0 <= mv.0 <= 0x7fff_fff0 && -0x7fff_fff0 <= mv.1 <= 0x7fff_fff0
}

/// A value limited to the samples of a bit depth.
pub open spec fn limited(t: int, bd: u32) -> int {
    if t < 0 {
        0
    } else if t >= p2(bd as int) {
        p2(bd as int) - 1
    } else {
        t
    }
}

proof fn lemma_raster(x: int, y: int, w: int, h: int)
    requires
        0 <= x < w,
        0 <= y < h,
    ensures
        0 <= y * w + x < w * h,
        (y * w + x) % w == x,
        (y * w + x) / w == y,
{
    vstd::arithmetic::div_mod::lemma_fundamental_div_mod_converse(y * w + x, w, y, x);
    assert(0 <= y * w && y * w + w <= w * h) by (nonlinear_arith)
        requires
            0 <= y < h,
            0 < w,
    ;
}

proof fn lemma_luma_at(
    p: Picture,
    field: Option<u8>,
    bd: u32,
    ax: int,
    ay: int,
    mv: (int, int),
    w: int,
    h: int,
    x: int,
    y: int,
)
    requires
        has_luma(p),
        i32::MIN <= mv.0 <= i32::MAX,
        i32::MIN <= mv.1 <= i32::MAX,
        0 <= x < w,
        0 <= y < h,
    ensures
        luma_at(p, field, bd, ax, ay, mv, w, h, x, y) == luma_quarter(
            p.luma@,
            field,
            bd,
            ax + mv.0 / 4 + x,
            ay + mv.1 / 4 + y,
            mv.0 % 4,
            mv.1 % 4,
        ),
{
    reveal(luma_block);
    lemma_raster(x, y, w, h);
}

/// Six samples in a line from two before a place to three after it lie in the plane.
pub open spec fn inside(n: int, at: int) -> bool {
    2 <= at && at + 3 < n
}

/// The luma prediction always succeeds from a picture with samples, and has one value per sample of
/// the block.
pub proof fn law_luma_is_predicted(
    p: Picture,
    field: Option<u8>,
    bd: u32,
    ax: int,
    ay: int,
    mv: Mv,
    w: int,
    h: int,
)
    requires
        has_luma(p),
        0 <= w,
        0 <= h,
    ensures
        mc_luma(p, ax, ay, mv, w, h, bd, field) is Ok,
        mc_luma(p, ax, ay, mv, w, h, bd, field)->Ok_0.len() == w * h,
{
    reveal(luma_block);
    assert(w * h >= 0) by (nonlinear_arith)
        requires
            0 <= w,
            0 <= h,
    ;
}

/// Whole-sample vectors copy luma samples.
pub proof fn law_luma_whole_sample(
    p: Picture,
    bd: u32,
    ax: int,
    ay: int,
    mv: (int, int),
    w: int,
    h: int,
    x: int,
    y: int,
)
    requires
        has_luma(p),
        fits(mv),
        0 <= x < w,
        0 <= y < h,
        mv.0 % 4 == 0,
        mv.1 % 4 == 0,
        p.luma@.has(ax + x + mv.0 / 4, ay + y + mv.1 / 4),
    ensures
        luma_at(p, None, bd, ax, ay, mv, w, h, x, y) == (p.luma@.at)(
            ax + x + mv.0 / 4,
            ay + y + mv.1 / 4,
        ),
{
    lemma_luma_at(p, None, bd, ax, ay, mv, w, h, x, y);
}

/// Half a sample to the right, the prediction is the six-tap value of the row.
pub proof fn law_luma_half_right(
    p: Picture,
    bd: u32,
    ax: int,
    ay: int,
    mv: (int, int),
    w: int,
    h: int,
    x: int,
    y: int,
)
    requires
        has_luma(p),
        fits(mv),
        0 <= x < w,
        0 <= y < h,
        mv.0 % 4 == 2,
        mv.1 % 4 == 0,
        inside(p.luma@.w, ax + x + mv.0 / 4),
        p.luma@.has(0, ay + y + mv.1 / 4),
    ensures
        ({
            let (i, j) = (ax + x + mv.0 / 4, ay + y + mv.1 / 4);
            let r = p.luma@.at;
            luma_at(p, None, bd, ax, ay, mv, w, h, x, y) == limited(
                (r(i - 2, j) - 5 * r(i - 1, j) + 20 * r(i, j) + 20 * r(i + 1, j) - 5 * r(i + 2, j)
                    + r(i + 3, j) + 16) / 32,
                bd,
            )
        }),
{
    lemma_luma_at(p, None, bd, ax, ay, mv, w, h, x, y);
}

/// Half a sample down, the prediction is the six-tap value of the column.
pub proof fn law_luma_half_down(
    p: Picture,
    bd: u32,
    ax: int,
    ay: int,
    mv: (int, int),
    w: int,
    h: int,
    x: int,
    y: int,
)
    requires
        has_luma(p),
        fits(mv),
        0 <= x < w,
        0 <= y < h,
        mv.0 % 4 == 0,
        mv.1 % 4 == 2,
        inside(p.luma@.h, ay + y + mv.1 / 4),
        p.luma@.has(ax + x + mv.0 / 4, 0),
    ensures
        ({
            let (i, j) = (ax + x + mv.0 / 4, ay + y + mv.1 / 4);
            let r = p.luma@.at;
            luma_at(p, None, bd, ax, ay, mv, w, h, x, y) == limited(
                (r(i, j - 2) - 5 * r(i, j - 1) + 20 * r(i, j) + 20 * r(i, j + 1) - 5 * r(i, j + 2)
                    + r(i, j + 3) + 16) / 32,
                bd,
            )
        }),
{
    lemma_luma_at(p, None, bd, ax, ay, mv, w, h, x, y);
}

/// Half a sample both ways, the prediction is the six-tap value, rounded once, of the six-tap
/// sums of six rows.
pub proof fn law_luma_half_both(
    p: Picture,
    bd: u32,
    ax: int,
    ay: int,
    mv: (int, int),
    w: int,
    h: int,
    x: int,
    y: int,
    s: spec_fn(int) -> int,
)
    requires
        has_luma(p),
        fits(mv),
        0 <= x < w,
        0 <= y < h,
        mv.0 % 4 == 2,
        mv.1 % 4 == 2,
        inside(p.luma@.w, ax + x + mv.0 / 4),
        inside(p.luma@.h, ay + y + mv.1 / 4),
        forall|k: int| #[trigger]
            s(k) == {
                let (i, j) = (ax + x + mv.0 / 4, ay + y + mv.1 / 4 + k);
                let r = p.luma@.at;
                r(i - 2, j) - 5 * r(i - 1, j) + 20 * r(i, j) + 20 * r(i + 1, j) - 5 * r(i + 2, j)
                    + r(i + 3, j)
            },
    ensures
        luma_at(p, None, bd, ax, ay, mv, w, h, x, y) == limited(
            (s(-2) - 5 * s(-1) + 20 * s(0) + 20 * s(1) - 5 * s(2) + s(3) + 512) / 1024,
            bd,
        ),
{
    lemma_luma_at(p, None, bd, ax, ay, mv, w, h, x, y);
}

/// A quarter sample off horizontally, the prediction is the mean of the predictions a quarter
/// sample to either side, rounded up.
#[verifier::spinoff_prover]
#[verifier::rlimit(60)]
pub proof fn law_luma_quarter_right(
    p: Picture,
    field: Option<u8>,
    bd: u32,
    ax: int,
    ay: int,
    mv: (int, int),
    w: int,
    h: int,
    x: int,
    y: int,
)
    requires
        has_luma(p),
        fits(mv),
        0 <= x < w,
        0 <= y < h,
        mv.0 % 2 == 1,
        mv.1 % 2 == 0,
    ensures
        luma_at(p, field, bd, ax, ay, mv, w, h, x, y) == (luma_at(
            p,
            field,
            bd,
            ax,
            ay,
            (mv.0 - 1, mv.1),
            w,
            h,
            x,
            y,
        ) + luma_at(p, field, bd, ax, ay, (mv.0 + 1, mv.1), w, h, x, y) + 1) / 2,
{
    lemma_step(ax, mv.0, x);
    lemma_step(ay, mv.1, y);
    let (i, j) = (ax + mv.0 / 4 + x, ay + mv.1 / 4 + y);
    let (xf, yf) = (mv.0 % 4, mv.1 % 4);
    lemma_luma_at(p, field, bd, ax, ay, mv, w, h, x, y);
    lemma_luma_at(p, field, bd, ax, ay, (mv.0 - 1, mv.1), w, h, x, y);
    lemma_luma_at(p, field, bd, ax, ay, (mv.0 + 1, mv.1), w, h, x, y);
    lemma_mean_x(p.luma@, field, bd, i, j, xf, yf);
    assert(ax + (mv.0 - 1) / 4 + x == i);
    assert(ax + (mv.0 + 1) / 4 + x == i + xf / 3);
    assert((mv.0 + 1) % 4 == (xf + 1) % 4 && (mv.0 - 1) % 4 == xf - 1);
}

/// A quarter sample off vertically, the prediction is the mean of the predictions a quarter
/// sample to either side, rounded up.
#[verifier::spinoff_prover]
#[verifier::rlimit(60)]
pub proof fn law_luma_quarter_down(
    p: Picture,
    field: Option<u8>,
    bd: u32,
    ax: int,
    ay: int,
    mv: (int, int),
    w: int,
    h: int,
    x: int,
    y: int,
)
    requires
        has_luma(p),
        fits(mv),
        0 <= x < w,
        0 <= y < h,
        mv.0 % 2 == 0,
        mv.1 % 2 == 1,
    ensures
        luma_at(p, field, bd, ax, ay, mv, w, h, x, y) == (luma_at(
            p,
            field,
            bd,
            ax,
            ay,
            (mv.0, mv.1 - 1),
            w,
            h,
            x,
            y,
        ) + luma_at(p, field, bd, ax, ay, (mv.0, mv.1 + 1), w, h, x, y) + 1) / 2,
{
    lemma_step(ax, mv.0, x);
    lemma_step(ay, mv.1, y);
    let (i, j) = (ax + mv.0 / 4 + x, ay + mv.1 / 4 + y);
    let (xf, yf) = (mv.0 % 4, mv.1 % 4);
    lemma_luma_at(p, field, bd, ax, ay, mv, w, h, x, y);
    lemma_luma_at(p, field, bd, ax, ay, (mv.0, mv.1 - 1), w, h, x, y);
    lemma_luma_at(p, field, bd, ax, ay, (mv.0, mv.1 + 1), w, h, x, y);
    lemma_mean_y(p.luma@, field, bd, i, j, xf, yf);
    assert(ay + (mv.1 - 1) / 4 + y == j);
    assert(ay + (mv.1 + 1) / 4 + y == j + yf / 3);
    assert((mv.1 + 1) % 4 == (yf + 1) % 4 && (mv.1 - 1) % 4 == yf - 1);
}

proof fn lemma_mean_x(p: PlaneV, f: Option<u8>, bd: u32, i: int, j: int, xf: int, yf: int)
    requires
        xf == 1 || xf == 3,
        yf == 0 || yf == 2,
    ensures
        ({
            let a = luma_quarter(p, f, bd, i, j, xf - 1, yf);
            let b = luma_quarter(p, f, bd, i + xf / 3, j, (xf + 1) % 4, yf);
            luma_quarter(p, f, bd, i, j, xf, yf) == (a + b + 1) / 2
        }),
{
}

proof fn lemma_mean_y(p: PlaneV, f: Option<u8>, bd: u32, i: int, j: int, xf: int, yf: int)
    requires
        xf == 0 || xf == 2,
        yf == 1 || yf == 3,
    ensures
        ({
            let a = luma_quarter(p, f, bd, i, j, xf, yf - 1);
            let b = luma_quarter(p, f, bd, i, j + yf / 3, xf, (yf + 1) % 4);
            luma_quarter(p, f, bd, i, j, xf, yf) == (a + b + 1) / 2
        }),
{
}

/// What neighbours of a component of a vector point to.
proof fn lemma_step(a: int, m: int, x: int)
    ensures
        m % 4 == 1 ==> (m - 1) / 4 == m / 4 && (m - 1) % 4 == 0 && (m + 1) / 4 == m / 4 && (m + 1)
            % 4 == 2,
        m % 4 == 3 ==> (m - 1) / 4 == m / 4 && (m - 1) % 4 == 2 && (m + 1) / 4 == m / 4 + 1 && (m
            + 1) % 4 == 0,
{
}

proof fn lemma_diagonal(p: PlaneV, f: Option<u8>, bd: u32, i: int, j: int, xf: int, yf: int)
    requires
        xf == 1 || xf == 3,
        yf == 1 || yf == 3,
    ensures
        ({
            let a = luma_quarter(p, f, bd, i, j + yf / 2, 2, 0);
            let b = luma_quarter(p, f, bd, i + xf / 2, j, 0, 2);
            luma_quarter(p, f, bd, i, j, xf, yf) == (a + b + 1) / 2
        }),
{
}

/// A quarter sample off in both directions, the prediction is the mean, rounded up, of the two
/// nearest half-sample predictions: the one beside the nearest row and the one beside the nearest
/// column.
#[verifier::spinoff_prover]
#[verifier::rlimit(60)]
pub proof fn law_luma_diagonal_is_mean(
    p: Picture,
    field: Option<u8>,
    bd: u32,
    ax: int,
    ay: int,
    mv: (int, int),
    w: int,
    h: int,
    x: int,
    y: int,
)
    requires
        has_luma(p),
        fits(mv),
        0 <= x < w,
        0 <= y < h,
        mv.0 % 2 == 1,
        mv.1 % 2 == 1,
    ensures
        ({
            let near_x = if mv.0 % 4 == 1 {
                mv.0 - 1
            } else {
                mv.0 + 1
            };
            let near_y = if mv.1 % 4 == 1 {
                mv.1 - 1
            } else {
                mv.1 + 1
            };
            let half_x = if mv.0 % 4 == 1 {
                mv.0 + 1
            } else {
                mv.0 - 1
            };
            let half_y = if mv.1 % 4 == 1 {
                mv.1 + 1
            } else {
                mv.1 - 1
            };
            let a = luma_at(p, field, bd, ax, ay, (half_x, near_y), w, h, x, y);
            let b = luma_at(p, field, bd, ax, ay, (near_x, half_y), w, h, x, y);
            luma_at(p, field, bd, ax, ay, mv, w, h, x, y) == (a + b + 1) / 2
        }),
{
    lemma_step(ax, mv.0, x);
    lemma_step(ay, mv.1, y);
    let (xf, yf) = (mv.0 % 4, mv.1 % 4);
    let near = (mv.0 - 1 + xf / 2 * 2, mv.1 - 1 + yf / 2 * 2);
    let half = (mv.0 + 1 - xf / 2 * 2, mv.1 + 1 - yf / 2 * 2);
    lemma_luma_at(p, field, bd, ax, ay, mv, w, h, x, y);
    lemma_luma_at(p, field, bd, ax, ay, (half.0, near.1), w, h, x, y);
    lemma_luma_at(p, field, bd, ax, ay, (near.0, half.1), w, h, x, y);
    let (i, j) = (ax + mv.0 / 4 + x, ay + mv.1 / 4 + y);
    lemma_diagonal(p.luma@, field, bd, i, j, xf, yf);
    lemma_same_place(p.luma@, field, bd, i, j, xf, yf, ax, ay, mv, half, near, x, y);
}

proof fn lemma_same_place(
    p: PlaneV,
    f: Option<u8>,
    bd: u32,
    i: int,
    j: int,
    xf: int,
    yf: int,
    ax: int,
    ay: int,
    mv: (int, int),
    half: (int, int),
    near: (int, int),
    x: int,
    y: int,
)
    requires
        mv.0 % 2 == 1,
        mv.1 % 2 == 1,
        xf == mv.0 % 4,
        yf == mv.1 % 4,
        i == ax + mv.0 / 4 + x,
        j == ay + mv.1 / 4 + y,
        near == (mv.0 - 1 + xf / 2 * 2, mv.1 - 1 + yf / 2 * 2),
        half == (mv.0 + 1 - xf / 2 * 2, mv.1 + 1 - yf / 2 * 2),
    ensures
        half.0 % 4 == 2,
        half.1 % 4 == 2,
        near.0 % 4 == 0,
        near.1 % 4 == 0,
        ax + half.0 / 4 + x == i,
        ay + half.1 / 4 + y == j,
        ax + near.0 / 4 + x == i + xf / 2,
        ay + near.1 / 4 + y == j + yf / 2,
{
}

/// A plane with rows and columns exchanged.
pub open spec fn is_transposed(p: PlaneV, q: PlaneV) -> bool {
    &&& q.w == p.h && q.h == p.w
    &&& forall|x: int, y: int| p.has(x, y) ==> #[trigger] (q.at)(y, x) == (p.at)(x, y)
}

proof fn lemma_transposed_sample(p: PlaneV, q: PlaneV, x: int, y: int)
    requires
        is_transposed(p, q),
        p.w >= 1,
        p.h >= 1,
    ensures
        ref_sample(q, None, y, x) == ref_sample(p, None, x, y),
{
    let (a, b) = (crate::math::clip3(0, p.w - 1, x), crate::math::clip3(0, p.h - 1, y));
    assert(p.has(a, b));
    assert((q.at)(b, a) == (p.at)(a, b));
}

/// Exchanging rows and columns of the reference, and the components of place and vector, exchanges
/// rows and columns of the prediction.
pub proof fn law_luma_transposes(
    p: Picture,
    q: Picture,
    bd: u32,
    ax: int,
    ay: int,
    mv: (int, int),
    w: int,
    h: int,
    x: int,
    y: int,
)
    requires
        has_luma(p),
        has_luma(q),
        is_transposed(p.luma@, q.luma@),
        fits(mv),
        0 <= x < w,
        0 <= y < h,
    ensures
        luma_at(q, None, bd, ay, ax, (mv.1, mv.0), h, w, y, x) == luma_at(
            p,
            None,
            bd,
            ax,
            ay,
            mv,
            w,
            h,
            x,
            y,
        ),
{
    lemma_luma_at(p, None, bd, ax, ay, mv, w, h, x, y);
    lemma_luma_at(q, None, bd, ay, ax, (mv.1, mv.0), h, w, y, x);
    let (i, j) = (ax + mv.0 / 4 + x, ay + mv.1 / 4 + y);
    assert forall|u: int, v: int| #[trigger]
        ref_sample(q.luma@, None, v, u) == ref_sample(p.luma@, None, u, v) by {
        lemma_transposed_sample(p.luma@, q.luma@, u, v);
    }
    lemma_center_transposes(p.luma@, q.luma@, bd, i, j);
}

proof fn lemma_center_transposes(p: PlaneV, q: PlaneV, bd: u32, i: int, j: int)
    requires
        forall|u: int, v: int| #[trigger]
            ref_sample(q, None, v, u) == ref_sample(p, None, u, v),
    ensures
        crate::inter_pred::half_c(q, None, bd, j, i) == crate::inter_pred::half_c(
            p,
            None,
            bd,
            i,
            j,
        ),
        forall|u: int, v: int| #[trigger]
            crate::inter_pred::half_h(q, None, bd, v, u) == crate::inter_pred::half_v(
                p,
                None,
                bd,
                u,
                v,
            ),
        forall|u: int, v: int| #[trigger]
            crate::inter_pred::half_v(q, None, bd, v, u) == crate::inter_pred::half_h(
                p,
                None,
                bd,
                u,
                v,
            ),
{
}

/// A plane continued on every side, by `k` samples, with its border samples.
pub open spec fn is_padded(p: PlaneV, q: PlaneV, k: int) -> bool {
    &&& q.w == p.w + 2 * k && q.h == p.h + 2 * k
    &&& forall|x: int, y: int| #[trigger]
        q.has(x, y) ==> {
            let u = if x < k {
                0
            } else if x >= k + p.w {
                p.w - 1
            } else {
                x - k
            };
            let v = if y < k {
                0
            } else if y >= k + p.h {
                p.h - 1
            } else {
                y - k
            };
            (q.at)(x, y) == (p.at)(u, v)
        }
}

/// Beyond its border the reference goes on with its border samples: prediction is the same from a
/// reference that was continued so.
#[verifier::spinoff_prover]
#[verifier::rlimit(60)]
pub proof fn law_luma_continues_border(
    p: Picture,
    q: Picture,
    k: int,
    bd: u32,
    ax: int,
    ay: int,
    mv: (int, int),
    w: int,
    h: int,
    x: int,
    y: int,
)
    requires
        has_luma(p),
        has_luma(q),
        k >= 0,
        is_padded(p.luma@, q.luma@, k),
        fits(mv),
        0 <= x < w,
        0 <= y < h,
    ensures
        luma_at(q, None, bd, ax + k, ay + k, mv, w, h, x, y) == luma_at(
            p,
            None,
            bd,
            ax,
            ay,
            mv,
            w,
            h,
            x,
            y,
        ),
{
    lemma_luma_at(p, None, bd, ax, ay, mv, w, h, x, y);
    lemma_luma_at(q, None, bd, ax + k, ay + k, mv, w, h, x, y);
    let (i, j) = (ax + mv.0 / 4 + x, ay + mv.1 / 4 + y);
    assert forall|u: int, v: int|
        ref_sample(q.luma@, None, u + k, v + k) == #[trigger] ref_sample(
            p.luma@,
            None,
            u,
            v,
        ) by {
        let a = crate::math::clip3(0, q.luma@.w - 1, u + k);
        let b = crate::math::clip3(0, q.luma@.h - 1, v + k);
        assert(q.luma@.has(a, b));
    }
    lemma_shifted(q.luma@, None, p.luma@, None, k, k, bd, i, j, mv.0 % 4, mv.1 % 4);
}

/// Samples of a reference are those of another one at a fixed distance.
pub open spec fn is_shifted(
    q: PlaneV,
    fq: Option<u8>,
    p: PlaneV,
    fp: Option<u8>,
    dx: int,
    dy: int,
) -> bool {
    forall|u: int, v: int| ref_sample(q, fq, u + dx, v + dy) == #[trigger] ref_sample(p, fp, u, v)
}

proof fn lemma_center_shifted(
    q: PlaneV,
    fq: Option<u8>,
    p: PlaneV,
    fp: Option<u8>,
    dx: int,
    dy: int,
    bd: u32,
    i: int,
    j: int,
)
    requires
        is_shifted(q, fq, p, fp, dx, dy),
    ensures
        crate::inter_pred::half_c(q, fq, bd, i + dx, j + dy) == crate::inter_pred::half_c(
            p,
            fp,
            bd,
            i,
            j,
        ),
{
    lemma_h_shifted(q, fq, p, fp, dx, dy, i, j - 2);
    lemma_h_shifted(q, fq, p, fp, dx, dy, i, j - 1);
    lemma_h_shifted(q, fq, p, fp, dx, dy, i, j);
    lemma_h_shifted(q, fq, p, fp, dx, dy, i, j + 1);
    lemma_h_shifted(q, fq, p, fp, dx, dy, i, j + 2);
    lemma_h_shifted(q, fq, p, fp, dx, dy, i, j + 3);
    assert(j - 2 + dy == j + dy - 2 && j - 1 + dy == j + dy - 1);
    assert(j + 1 + dy == j + dy + 1 && j + 2 + dy == j + dy + 2 && j + 3 + dy == j + dy + 3);
}

/// Samples of a reference that are those of another one at a fixed distance give the same
/// interpolation.
#[verifier::spinoff_prover]
#[verifier::rlimit(60)]
proof fn lemma_shifted(
    q: PlaneV,
    fq: Option<u8>,
    p: PlaneV,
    fp: Option<u8>,
    dx: int,
    dy: int,
    bd: u32,
    i: int,
    j: int,
    xf: int,
    yf: int,
)
    requires
        is_shifted(q, fq, p, fp, dx, dy),
        0 <= xf < 4,
        0 <= yf < 4,
    ensures
        luma_quarter(q, fq, bd, i + dx, j + dy, xf, yf) == luma_quarter(p, fp, bd, i, j, xf, yf),
{
    let (a, b) = (xf / 2, yf / 2);
    assert(i + a + dx == i + dx + a && j + b + dy == j + dy + b);
    if xf == 2 || yf == 2 {
        lemma_center_shifted(q, fq, p, fp, dx, dy, bd, i, j);
    }
    lemma_h_shifted(q, fq, p, fp, dx, dy, i, j);
    lemma_h_shifted(q, fq, p, fp, dx, dy, i, j + b);
    lemma_v_shifted(q, fq, p, fp, dx, dy, i, j);
    lemma_v_shifted(q, fq, p, fp, dx, dy, i + a, j);
    assert(ref_sample(q, fq, i + dx, j + dy) == ref_sample(p, fp, i, j));
    assert(ref_sample(q, fq, (i + a) + dx, j + dy) == ref_sample(p, fp, i + a, j));
    assert(ref_sample(q, fq, i + dx, (j + b) + dy) == ref_sample(p, fp, i, j + b));
}

proof fn lemma_h_shifted(
    q: PlaneV,
    fq: Option<u8>,
    p: PlaneV,
    fp: Option<u8>,
    dx: int,
    dy: int,
    u: int,
    v: int,
)
    requires
        is_shifted(q, fq, p, fp, dx, dy),
    ensures
        crate::inter_pred::h_sum(q, fq, u + dx, v + dy) == crate::inter_pred::h_sum(p, fp, u, v),
{
    assert(ref_sample(q, fq, (u - 2) + dx, v + dy) == ref_sample(p, fp, u - 2, v));
    assert(ref_sample(q, fq, (u - 1) + dx, v + dy) == ref_sample(p, fp, u - 1, v));
    assert(ref_sample(q, fq, u + dx, v + dy) == ref_sample(p, fp, u, v));
    assert(ref_sample(q, fq, (u + 1) + dx, v + dy) == ref_sample(p, fp, u + 1, v));
    assert(ref_sample(q, fq, (u + 2) + dx, v + dy) == ref_sample(p, fp, u + 2, v));
    assert(ref_sample(q, fq, (u + 3) + dx, v + dy) == ref_sample(p, fp, u + 3, v));
}

proof fn lemma_v_shifted(
    q: PlaneV,
    fq: Option<u8>,
    p: PlaneV,
    fp: Option<u8>,
    dx: int,
    dy: int,
    u: int,
    v: int,
)
    requires
        is_shifted(q, fq, p, fp, dx, dy),
    ensures
        crate::inter_pred::v_sum(q, fq, u + dx, v + dy) == crate::inter_pred::v_sum(p, fp, u, v),
{
    assert(ref_sample(q, fq, u + dx, (v - 2) + dy) == ref_sample(p, fp, u, v - 2));
    assert(ref_sample(q, fq, u + dx, (v - 1) + dy) == ref_sample(p, fp, u, v - 1));
    assert(ref_sample(q, fq, u + dx, v + dy) == ref_sample(p, fp, u, v));
    assert(ref_sample(q, fq, u + dx, (v + 1) + dy) == ref_sample(p, fp, u, v + 1));
    assert(ref_sample(q, fq, u + dx, (v + 2) + dy) == ref_sample(p, fp, u, v + 2));
    assert(ref_sample(q, fq, u + dx, (v + 3) + dy) == ref_sample(p, fp, u, v + 3));
}

/// The rows of one parity of a plane.
pub open spec fn is_field_of(q: PlaneV, p: PlaneV, parity: u8) -> bool {
    &&& q.w == p.w && q.h == p.h / 2
    &&& forall|x: int, y: int| #[trigger] q.has(x, y) ==> (q.at)(x, y) == (p.at)(x, 2 * y + parity)
}

/// Prediction from a field of a frame is prediction from a picture made of the rows of that parity.
pub proof fn law_luma_from_field(
    p: Picture,
    q: Picture,
    parity: u8,
    bd: u32,
    ax: int,
    ay: int,
    mv: (int, int),
    w: int,
    h: int,
    x: int,
    y: int,
)
    requires
        has_luma(p),
        has_luma(q),
        parity <= 1,
        p.luma@.h % 2 == 0,
        is_field_of(q.luma@, p.luma@, parity),
        fits(mv),
        0 <= x < w,
        0 <= y < h,
    ensures
        luma_at(p, Some(parity), bd, ax, ay, mv, w, h, x, y) == luma_at(
            q,
            None,
            bd,
            ax,
            ay,
            mv,
            w,
            h,
            x,
            y,
        ),
{
    lemma_luma_at(p, Some(parity), bd, ax, ay, mv, w, h, x, y);
    lemma_luma_at(q, None, bd, ax, ay, mv, w, h, x, y);
    let (i, j) = (ax + mv.0 / 4 + x, ay + mv.1 / 4 + y);
    assert forall|u: int, v: int|
        ref_sample(p.luma@, Some(parity), u + 0, v + 0) == #[trigger] ref_sample(
            q.luma@,
            None,
            u,
            v,
        ) by {
        let a = crate::math::clip3(0, q.luma@.w - 1, u);
        let b = crate::math::clip3(0, q.luma@.h - 1, v);
        assert(q.luma@.has(a, b));
    }
    lemma_shifted(p.luma@, Some(parity), q.luma@, None, 0, 0, bd, i, j, mv.0 % 4, mv.1 % 4);
}

/// Samples of the chroma predictions: Cb and Cr.
pub open spec fn chroma_at(
    p: Picture,
    field: Option<u8>,
    cat: u32,
    ax: int,
    ay: int,
    mv: (int, int),
    w: int,
    h: int,
    x: int,
    y: int,
) -> (int, int) {
    let v = Mv { x: mv.0 as i32, y: mv.1 as i32 };
    let r = mc_chroma(p, ax, ay, v, w, h, cat, field)->Ok_0;
    (r.0[y * w + x], r.1[y * w + x])
}

/// Chroma predictions are bilinear means of four samples of their own plane, in units of eighths:
/// an eighth per unit of the vector, but a quarter vertically in 4:2:2.
pub proof fn law_chroma_is_bilinear(
    p: Picture,
    cat: u32,
    ax: int,
    ay: int,
    mv: (int, int),
    w: int,
    h: int,
    x: int,
    y: int,
)
    requires
        cat == 1 || cat == 2,
        p.cb@.w == p.cr@.w,
        p.cb@.h == p.cr@.h,
        fits(mv),
        0 <= x < w,
        0 <= y < h,
        ({
            let my = if cat == 2 {
                2 * mv.1
            } else {
                mv.1
            };
            let (i, j) = (ax + x + mv.0 / 8, ay + y + my / 8);
            0 <= i && i + 1 < p.cb@.w && 0 <= j && j + 1 < p.cb@.h
        }),
    ensures
        ({
            let my = if cat == 2 {
                2 * mv.1
            } else {
                mv.1
            };
            let (i, j) = (ax + x + mv.0 / 8, ay + y + my / 8);
            let (u, v) = (mv.0 % 8, my % 8);
            let (b, r) = (p.cb@.at, p.cr@.at);
            let got = chroma_at(p, None, cat, ax, ay, mv, w, h, x, y);
            &&& got.0 == ((8 - u) * (8 - v) * b(i, j) + u * (8 - v) * b(i + 1, j) + (8 - u) * v
                * b(i, j + 1) + u * v * b(i + 1, j + 1) + 32) / 64
            &&& got.1 == ((8 - u) * (8 - v) * r(i, j) + u * (8 - v) * r(i + 1, j) + (8 - u) * v
                * r(i, j + 1) + u * v * r(i + 1, j + 1) + 32) / 64
        }),
{
    reveal(chroma_block);
    lemma_raster(x, y, w, h);
    let my = if cat == 2 {
        2 * mv.1
    } else {
        mv.1
    };
    let (i, j) = (ax + x + mv.0 / 8, ay + y + my / 8);
    let (u, v) = (mv.0 % 8, my % 8);
    let (b, r) = (p.cb@.at, p.cr@.at);
    lemma_bilinear(u, v, b(i, j), b(i + 1, j), b(i, j + 1), b(i + 1, j + 1));
    lemma_bilinear(u, v, r(i, j), r(i + 1, j), r(i, j + 1), r(i + 1, j + 1));
}

proof fn lemma_bilinear(u: int, v: int, a: int, b: int, c: int, d: int)
    ensures
        (8 - v) * ((8 - u) * a + u * b) + v * ((8 - u) * c + u * d) == (8 - u) * (8 - v) * a + u * (8
            - v) * b + (8 - u) * v * c + u * v * d,
{
    assert((8 - v) * ((8 - u) * a + u * b) == (8 - u) * (8 - v) * a + u * (8 - v) * b)
        by (nonlinear_arith);
    assert(v * ((8 - u) * c + u * d) == (8 - u) * v * c + u * v * d) by (nonlinear_arith);
}

/// In 4:4:4 each chroma plane is predicted as the luma of a picture that has that plane for luma.
pub proof fn law_chroma_444_as_luma(
    p: Picture,
    b: Picture,
    r: Picture,
    field: Option<u8>,
    bd: u32,
    ax: int,
    ay: int,
    mv: Mv,
    w: int,
    h: int,
)
    requires
        p.cb@.w >= 1,
        p.cb@.h >= 2,
        has_luma(b),
        has_luma(r),
        b.luma@ == p.cb@,
        r.luma@ == p.cr@,
    ensures
        mc_chroma_444(p, ax, ay, mv, w, h, bd, field) == Ok::<(Seq<int>, Seq<int>), ErrV>(
            (
                mc_luma(b, ax, ay, mv, w, h, bd, field)->Ok_0,
                mc_luma(r, ax, ay, mv, w, h, bd, field)->Ok_0,
            ),
        ),
{
}

/// Beyond its border a chroma plane goes on with its border samples, too.
pub proof fn law_chroma_continues_border(
    p: Picture,
    q: Picture,
    k: int,
    cat: u32,
    ax: int,
    ay: int,
    mv: (int, int),
    w: int,
    h: int,
    x: int,
    y: int,
)
    requires
        k >= 0,
        p.cb@.w >= 1,
        p.cb@.h >= 1,
        p.cr@.w == p.cb@.w,
        p.cr@.h == p.cb@.h,
        is_padded(p.cb@, q.cb@, k),
        is_padded(p.cr@, q.cr@, k),
        0 <= x < w,
        0 <= y < h,
    ensures
        chroma_at(q, None, cat, ax + k, ay + k, mv, w, h, x, y) == chroma_at(
            p,
            None,
            cat,
            ax,
            ay,
            mv,
            w,
            h,
            x,
            y,
        ),
{
    reveal(chroma_block);
    lemma_raster(x, y, w, h);
    assert forall|u: int, v: int|
        ref_sample(q.cb@, None, u + k, v + k) == #[trigger] ref_sample(p.cb@, None, u, v)
            && ref_sample(q.cr@, None, u + k, v + k) == ref_sample(p.cr@, None, u, v) by {
        let a = crate::math::clip3(0, q.cb@.w - 1, u + k);
        let b = crate::math::clip3(0, q.cb@.h - 1, v + k);
        assert(q.cb@.has(a, b));
        assert(q.cr@.has(a, b));
    }
    let my = if cat == 2 {
        (mv.1 as i32) * 2
    } else {
        (mv.1 as i32) as int
    };
    let (i, j) = (ax + x + (mv.0 as i32) as int / 8, ay + y + my / 8);
    assert(ref_sample(q.cb@, None, i + k, j + k) == ref_sample(p.cb@, None, i, j));
    assert(ref_sample(q.cb@, None, (i + 1) + k, j + k) == ref_sample(p.cb@, None, i + 1, j));
    assert(ref_sample(q.cb@, None, i + k, (j + 1) + k) == ref_sample(p.cb@, None, i, j + 1));
    assert(ref_sample(q.cb@, None, (i + 1) + k, (j + 1) + k) == ref_sample(
        p.cb@,
        None,
        i + 1,
        j + 1,
    ));
}

} // verus!
