//! Laws of neighbours in MBAFF frames.
use crate::mb_grid::GridV;
use crate::neighbours::{gather, mbaff_edge_sample, mbaff_sample, NbCtx};
use crate::plane::PlaneV;
use vstd::prelude::*;

verus! {

/// In every pair both macroblocks are field macroblocks, or both are frame macroblocks.
pub open spec fn pairs_agree(g: GridV) -> bool {
    forall|pair: int| #[trigger] pair_agrees(g, pair)
}

/// The macroblocks of a pair are both field macroblocks or both frame macroblocks.
pub open spec fn pair_agrees(g: GridV, pair: int) -> bool {
    g.field_at(2 * pair) == g.field_at(2 * pair + 1)
}

/// The row of the plane that row `y` of a macroblock is, with macroblocks of `mh` rows, 8 or 16:
/// the rows of a field macroblock alternate with those of the other one of its pair.
#[verifier::opaque]
pub open spec fn plane_row(g: GridV, n: int, y: int, mh: int) -> int {
    let pair_row = n / 2 / g.w;
    let first = if mh == 8 {
        16 * pair_row
    } else {
        32 * pair_row
    };
    if g.field_at(n) {
        first + n % 2 + 2 * y
    } else if n % 2 == 0 {
        first + y
    } else {
        first + mh + y
    }
}

/// The column of the plane that column `x` of a macroblock is, with macroblocks of `mw` columns, 8
/// or 16.
pub open spec fn plane_column(g: GridV, n: int, x: int, mw: int) -> int {
    if mw == 8 {
        8 * (n / 2 % g.w) + x
    } else {
        16 * (n / 2 % g.w) + x
    }
}

pub proof fn lemma_pair_moves(pair: int, w: int)
    requires
        0 <= pair,
        w >= 1,
    ensures
        pair % w > 0 ==> (pair - 1) % w == pair % w - 1 && (pair - 1) / w == pair / w,
        pair >= w ==> (pair - w) % w == pair % w && (pair - w) / w == pair / w - 1,
        pair >= w && pair % w > 0 ==> (pair - w - 1) % w == pair % w - 1 && (pair - w - 1) / w
            == pair / w - 1,
        pair >= w && (pair + 1) % w != 0 ==> (pair - w + 1) % w == pair % w + 1 && (pair - w + 1) / w
            == pair / w - 1,
        0 <= pair % w < w,
        pair / w >= 0,
        (pair >= w) == (pair / w > 0),
        ((pair + 1) % w != 0) == (pair % w + 1 < w),
{
    crate::mb_address::lemma_div_mod_bound(pair, w);
    let (q, r) = (pair / w, pair % w);
    assert(w * q == q * w) by (nonlinear_arith);
    assert((q - 1) * w == q * w - w) by (nonlinear_arith);
    assert((q + 1) * w == q * w + w) by (nonlinear_arith);
    assert((q > 0) == (pair >= w)) by (nonlinear_arith)
        requires
            pair == w * q + r,
            0 <= r < w,
            q >= 0,
    ;
    if r > 0 {
        vstd::arithmetic::div_mod::lemma_fundamental_div_mod_converse(pair - 1, w, q, r - 1);
    }
    vstd::arithmetic::div_mod::lemma_fundamental_div_mod_converse(pair - w, w, q - 1, r);
    if r > 0 {
        vstd::arithmetic::div_mod::lemma_fundamental_div_mod_converse(pair - w - 1, w, q - 1, r - 1);
    }
    if r + 1 < w {
        vstd::arithmetic::div_mod::lemma_fundamental_div_mod_converse(pair + 1, w, q, r + 1);
        vstd::arithmetic::div_mod::lemma_fundamental_div_mod_converse(pair - w + 1, w, q - 1, r + 1);
    } else {
        vstd::arithmetic::div_mod::lemma_fundamental_div_mod_converse(pair + 1, w, q + 1, 0);
    }
}

/// A neighbouring location of a macroblock of an MBAFF frame lies in the frame where it should: as
/// many columns aside as asked for, and as many rows up or down, counted in rows of the
/// macroblock's own field where it is a field macroblock; whether the neighbours are field or frame
/// macroblocks does not matter.
#[verifier::spinoff_prover]
#[verifier::rlimit(60)]
pub proof fn law_mbaff_location(g: GridV, addr: int, xn: int, yn: int, mw: int, mh: int)
    requires
        g.w >= 1,
        0 <= addr,
        pairs_agree(g),
        mw == 8 || mw == 16,
        mh == 8 || mh == 16,
        -1 <= xn < 2 * mw,
        -1 <= yn < mh,
    ensures
        g.mbaff_location(addr, xn, yn, mw, mh) matches Some((n, x, y)) ==> 0 <= x < mw && 0 <= y < mh
            && plane_column(g, n, x, mw) == plane_column(g, addr, 0, mw) + xn && plane_row(
            g,
            n,
            y,
            mh,
        ) == plane_row(g, addr, 0, mh) + if g.field_at(addr) {
            2 * yn
        } else {
            yn
        },
{
    let pair = addr / 2;
    let b = addr % 2;
    lemma_pair_moves(pair, g.w);
    assert(addr == 2 * pair + b);
    if let Some((n, ym)) = g.mbaff_cover(addr, xn, yn, mw, mh) {
        lemma_reduced(xn, mw);
        lemma_reduced(ym, mh);
        lemma_cover(g, addr, xn, yn, mw, mh);
        let (k, across, up) = (n % 2, pairs_across(xn, mw), pairs_up(g, addr, yn));
        let other = pair + across - if up {
            g.w
        } else {
            0
        };
        assert((2 * other + k) / 2 == other);
        lemma_finish(g, addr, other, k, (ym + mh) % mh, mh, yn, up);
    }
}

/// Pairs to the right of the own one.
spec fn pairs_across(xn: int, mw: int) -> int {
    if xn < 0 {
        -1
    } else if xn >= mw {
        1
    } else {
        0
    }
}

/// The location lies in the row of pairs above.
spec fn pairs_up(g: GridV, addr: int, yn: int) -> bool {
    yn < 0 && (g.field_at(addr) || addr % 2 == 0)
}

proof fn lemma_reduced(v: int, m: int)
    requires
        m == 8 || m == 16,
    ensures
        -m <= v < 0 ==> (v + m) % m == v + m,
        0 <= v < m ==> (v + m) % m == v,
        m <= v < 2 * m ==> (v + m) % m == v - m,
{
    if m == 8 {
        assert((v + m) % m == (v + 8) % 8);
    } else {
        assert((v + m) % m == (v + 16) % 16);
    }
}

/// Row of a pair that row `y` of its macroblock `k` is.
spec fn in_pair(field: bool, k: int, y: int, mh: int) -> int {
    if field {
        k + 2 * y
    } else if k == 0 {
        y
    } else {
        mh + y
    }
}

proof fn lemma_finish(
    g: GridV,
    addr: int,
    other: int,
    k: int,
    y: int,
    mh: int,
    yn: int,
    up: bool,
)
    requires
        k == 0 || k == 1,
        mh == 8 || mh == 16,
        in_pair(g.field_at(2 * other + k), k, y, mh) - (if up {
            2 * mh
        } else {
            0
        }) == in_pair(g.field_at(addr), addr % 2, 0, mh) + (if g.field_at(addr) {
            2 * yn
        } else {
            yn
        }),
        other / g.w == addr / 2 / g.w - (if up {
            1int
        } else {
            0int
        }),
    ensures
        plane_row(g, 2 * other + k, y, mh) == plane_row(g, addr, 0, mh) + if g.field_at(addr) {
            2 * yn
        } else {
            yn
        },
{
    lemma_plane_row(g, addr / 2, addr % 2, 0, mh);
    lemma_plane_row(g, other, k, y, mh);
    assert(addr == 2 * (addr / 2) + addr % 2);
}

proof fn lemma_plane_row(g: GridV, pair: int, k: int, y: int, mh: int)
    requires
        k == 0 || k == 1,
    ensures
        plane_row(g, 2 * pair + k, y, mh) == (if mh == 8 {
            16 * (pair / g.w)
        } else {
            32 * (pair / g.w)
        }) + in_pair(g.field_at(2 * pair + k), k, y, mh),
{
    reveal(plane_row);
    assert((2 * pair + k) / 2 == pair && (2 * pair + k) % 2 == k);
}

proof fn lemma_left_rows(fa: bool, fp: bool, b: int, yn: int, mh: int)
    requires
        b == 0 || b == 1,
        mh == 8 || mh == 16,
        0 <= yn < mh,
    ensures
        ({
            let (k, y) = if fa == fp {
                (b, yn)
            } else if fp {
                (
                    yn % 2,
                    (if b == 1 {
                        yn + mh
                    } else {
                        yn
                    }) / 2,
                )
            } else if yn < mh / 2 {
                (0, 2 * yn + b)
            } else {
                (1, 2 * yn + b - mh)
            };
            &&& k == 0 || k == 1
            &&& 0 <= y < mh
            &&& in_pair(fp, k, y, mh) == in_pair(fa, b, 0, mh) + if fa {
                2 * yn
            } else {
                yn
            }
        }),
{
}

/// Where a location is covered, in numbers of pairs and rows of pairs.
#[verifier::spinoff_prover]
#[verifier::rlimit(60)]
proof fn lemma_cover(g: GridV, addr: int, xn: int, yn: int, mw: int, mh: int)
    requires
        g.w >= 1,
        0 <= addr,
        pairs_agree(g),
        mw == 8 || mw == 16,
        mh == 8 || mh == 16,
        -1 <= xn < 2 * mw,
        -1 <= yn < mh,
        g.mbaff_cover(addr, xn, yn, mw, mh) is Some,
    ensures
        ({
            let (n, ym) = g.mbaff_cover(addr, xn, yn, mw, mh)->0;
            let pair = addr / 2;
            let up = pairs_up(g, addr, yn);
            let across = pairs_across(xn, mw);
            let y = if ym < 0 {
                ym + mh
            } else {
                ym
            };
            &&& -mh <= ym < mh
            &&& n == 2 * (pair + across - (if up {
                g.w
            } else {
                0
            })) + n % 2
            &&& in_pair(g.field_at(n), n % 2, y, mh) - (if up {
                2 * mh
            } else {
                0
            }) == in_pair(g.field_at(addr), addr % 2, 0, mh) + (if g.field_at(addr) {
                2 * yn
            } else {
                yn
            })
            &&& across < 0 ==> pair % g.w > 0
            &&& across > 0 ==> (pair + 1) % g.w != 0 && up
            &&& up ==> pair >= g.w
        }),
{
    let pair = addr / 2;
    let b = addr % 2;
    assert(addr == 2 * pair + b);
    let up = pairs_up(g, addr, yn);
    let across = pairs_across(xn, mw);
    let other = pair + across - if up {
        g.w
    } else {
        0
    };
    assert(pair_agrees(g, other));
    assert(pair_agrees(g, pair));
    let p = 2 * other;
    assert(p % 2 == 0 && (p + 1) % 2 == 1);
    if yn >= 0 && across < 0 {
        lemma_left_rows(g.field_at(addr), g.field_at(p), b, yn, mh);
    }
}

/// Columns and rows of a macroblock in the plane that the context is for.
pub open spec fn mb_size(c: NbCtx) -> (int, int) {
    if c.chroma {
        (
            if c.cat == 3 {
                16
            } else {
                8
            },
            if c.cat == 1 {
                8
            } else {
                16
            },
        )
    } else {
        (16, 16)
    }
}

/// The sample of the plane at an offset from the first sample of a macroblock, in rows of its own
/// field where it is a field macroblock.
pub open spec fn sample_beside(p: PlaneV, g: GridV, c: NbCtx, xn: int, yn: int) -> Option<int> {
    let (mw, mh) = mb_size(c);
    let x = plane_column(g, c.addr as int, 0, mw) + xn;
    let y = plane_row(g, c.addr as int, 0, mh) + if g.field_at(c.addr as int) {
        2 * yn
    } else {
        yn
    };
    if p.has(x, y) {
        Some((p.at)(x, y))
    } else {
        None
    }
}

proof fn lemma_sample(p: PlaneV, g: GridV, c: NbCtx, xn: int, yn: int)
    requires
        g.w >= 1,
        pairs_agree(g),
        c.chroma ==> c.cat == 1 || c.cat == 2 || c.cat == 3,
        -1 <= xn < 2 * mb_size(c).0,
        -1 <= yn < mb_size(c).1,
        sample_beside(p, g, c, xn, yn) is Some,
    ensures
        mbaff_sample(p, g, c, xn, yn) is Some ==> mbaff_sample(p, g, c, xn, yn) == sample_beside(
            p,
            g,
            c,
            xn,
            yn,
        ),
{
    let (mw, mh) = mb_size(c);
    law_mbaff_location(g, c.addr as int, xn, yn, mw, mh);
    if let Some((n, x, y)) = g.mbaff_location(c.addr as int, xn, yn, mw, mh) {
        reveal(plane_row);
        let (u, v) = if c.chroma {
            g.abs_chroma(n, x, y, c.cat)
        } else {
            g.abs_luma(n, x, y)
        };
        assert(u == plane_column(g, n, x, mw) && v == plane_row(g, n, y, mh));
    }
}

/// In an MBAFF frame, the neighbours of a block are the samples of the plane around it: one column
/// to the left, row by row as the block's own rows lie, and one row above, which for a field
/// macroblock is the row above in its own field.
pub proof fn law_mbaff_neighbours_surround_the_block(
    p: PlaneV,
    g: GridV,
    c: NbCtx,
    bx: int,
    by: int,
    x: int,
    y: int,
    w: int,
    h: int,
    tr: bool,
    sw: int,
    sh: int,
    i: int,
)
    requires
        g.mbaff,
        g.w >= 1,
        pairs_agree(g),
        c.chroma ==> c.cat == 1 || c.cat == 2 || c.cat == 3,
        0 <= i,
        0 <= x && 0 < w && x + w <= mb_size(c).0,
        0 <= y && 0 < h && y + h <= mb_size(c).1,
    ensures
        ({
            let s = gather(p, g, c, bx, by, x, y, w, h, tr, sw, sh);
            &&& s.left.len() == h && s.top.len() == w && s.top_right.len() == w
            &&& s.av.left && i < h && sample_beside(p, g, c, x - 1, y + i) is Some ==> Some(s.left[i])
                == sample_beside(p, g, c, x - 1, y + i)
            &&& s.av.top && i < w && sample_beside(p, g, c, x + i, y - 1) is Some ==> Some(s.top[i])
                == sample_beside(p, g, c, x + i, y - 1)
            &&& s.av.top_right && i < w && sample_beside(p, g, c, x + w + i, y - 1) is Some ==> Some(
                s.top_right[i],
            ) == sample_beside(p, g, c, x + w + i, y - 1)
            &&& s.av.top_left && sample_beside(p, g, c, x - 1, y - 1) is Some ==> Some(s.top_left)
                == sample_beside(p, g, c, x - 1, y - 1)
        }),
{
    reveal(gather);
    if i < h && sample_beside(p, g, c, x - 1, y + i) is Some {
        lemma_sample(p, g, c, x - 1, y + i);
    }
    if i < w && sample_beside(p, g, c, x + i, y - 1) is Some {
        lemma_sample(p, g, c, x + i, y - 1);
    }
    if i < w && sample_beside(p, g, c, x + w + i, y - 1) is Some {
        lemma_sample(p, g, c, x + w + i, y - 1);
    }
    if sample_beside(p, g, c, x - 1, y - 1) is Some {
        lemma_sample(p, g, c, x - 1, y - 1);
    }
    let s = gather(p, g, c, bx, by, x, y, w, h, tr, sw, sh);
    assert(s.av.left && i < h ==> mbaff_edge_sample(p, g, c, x - 1, y, true, i) is Some);
    assert(s.av.top && i < w ==> mbaff_edge_sample(p, g, c, x, y - 1, false, i) is Some);
    assert(s.av.top_right && i < w ==> mbaff_edge_sample(p, g, c, x + w, y - 1, false, i) is Some);
}

/// A neighbouring sample in an MBAFF frame may be used where the frame has a macroblock there that
/// was decoded, belongs to the slice, and is intra where only such may be used; samples of the
/// macroblock itself always may.
pub proof fn law_mbaff_samples_available(p: PlaneV, g: GridV, c: NbCtx, xn: int, yn: int)
    requires
        c.chroma ==> c.cat == 1 || c.cat == 2 || c.cat == 3,
    ensures
        mbaff_sample(p, g, c, xn, yn) is Some == match g.mbaff_location(
            c.addr as int,
            xn,
            yn,
            mb_size(c).0,
            mb_size(c).1,
        ) {
            Some((n, _, _)) => n == c.addr || (0 <= n < g.info.len() && ({
                let i = g.info[n];
                i.available && (c.slice_id < 0 || i.slice_id < 0 || i.slice_id == c.slice_id) && (c.cip
                    ==> i.is_intra)
            })),
            None => false,
        },
{
}

/// The sides of a block in an MBAFF frame are available where all their samples are.
pub proof fn law_mbaff_sides_available(
    p: PlaneV,
    g: GridV,
    c: NbCtx,
    bx: int,
    by: int,
    x: int,
    y: int,
    w: int,
    h: int,
    tr: bool,
    sw: int,
    sh: int,
)
    requires
        g.mbaff,
    ensures
        ({
            let s = gather(p, g, c, bx, by, x, y, w, h, tr, sw, sh);
            &&& s.av.left == forall|i: int|
                0 <= i < h ==> (#[trigger] mbaff_edge_sample(p, g, c, x - 1, y, true, i)) is Some
            &&& s.av.top == forall|i: int|
                0 <= i < w ==> (#[trigger] mbaff_edge_sample(p, g, c, x, y - 1, false, i)) is Some
            &&& s.av.top_right == (tr && forall|i: int|
                0 <= i < w ==> (#[trigger] mbaff_edge_sample(p, g, c, x + w, y - 1, false, i)) is Some)
            &&& s.av.top_left == mbaff_sample(p, g, c, x - 1, y - 1) is Some
        }),
{
    reveal(gather);
}

} // verus!
