//! Laws of the deblocking filter in MBAFF frames.
use crate::boundary_strength::{edge_strength, EdgeCtxV};
use crate::deblock::{filtered, line_at, line_pos, samples_in_range};
use crate::deblock_picture::{
    as_luma_row, chroma_row0, deblocked_mbaff_chroma, deblocked_mbaff_luma, edge_params, line_step,
    mbaff_chroma_from, mbaff_chroma_inner, mbaff_chroma_line, mbaff_chroma_top,
    mbaff_chroma_vertical, mbaff_luma_from, mbaff_luma_line, picture_rows, MbEdgesV, MbLineV,
    PlaneFilter,
};
use crate::filter_laws::{lemma_run_line, line_inside, misses, part, run, touches, Cut};
use crate::plane::PlaneV;
use vstd::prelude::*;

verus! {

/// Where luma sample `(x, y)` of macroblock `n` of an MBAFF frame lies: the rows of the field
/// macroblocks of a pair alternate, frame macroblocks lie one above the other.
pub open spec fn place(c: EdgeCtxV, n: int, x: int, y: int) -> (int, int) {
    let pair = n / 2;
    (
        16 * (pair % c.g.w) + x,
        32 * (pair / c.g.w) + if c.flag(n) {
            2 * y + n % 2
        } else {
            y + 16 * (n % 2)
        },
    )
}

/// The macroblocks of a pair are both field macroblocks or both frame macroblocks.
pub open spec fn flags_agree(c: EdgeCtxV) -> bool {
    forall|n: int| n % 2 == 0 ==> #[trigger] c.flag(n) == c.flag(n + 1)
}

proof fn lemma_found(c: EdgeCtxV, px: int, py: int)
    requires
        c.mbaff,
        c.g.w >= 1,
        flags_agree(c),
        c.pixel_addr(px, py) is Some,
    ensures
        ({
            let p = c.pixel_addr(px, py)->0;
            let (x, y) = c.in_luma(p, px, py);
            0 <= x < 16 && 0 <= y < 16 && place(c, p, x, y) == (px, py)
        }),
{
    let w = c.g.w;
    let pair = py / 32 * w + px / 16;
    let top = 2 * pair;
    vstd::arithmetic::div_mod::lemma_fundamental_div_mod_converse(pair, w, py / 32, px / 16);
    assert(top % 2 == 0 && top / 2 == pair && (top + 1) / 2 == pair && (top + 1) % 2 == 1);
    assert(c.flag(top) == c.flag(top + 1));
    assert(px == 16 * (px / 16) + px % 16);
    assert(py == 32 * (py / 32) + py % 32);
}

/// Every line of luma across an edge of an MBAFF frame joins the samples it says: its far side
/// starts at the place of a sample of the macroblock, its near side at the place of a sample of the
/// neighbouring macroblock or of its own.
pub proof fn law_mbaff_line_joins_samples(c: EdgeCtxV, addr: int, e: int)
    requires
        c.mbaff,
        c.g.w >= 1,
        flags_agree(c),
        0 <= addr < c.g.info.len(),
        0 <= e < 144,
    ensures
        mbaff_luma_line(c, addr, e) matches Some(l) ==> ({
            &&& 0 <= l.qin.0 < 16 && 0 <= l.qin.1 < 16 && place(c, addr, l.qin.0, l.qin.1) == (l.x, l.y)
            &&& 0 <= l.pin.0 < 16 && 0 <= l.pin.1 < 16 && place(c, l.p, l.pin.0, l.pin.1)
                == line_pos(l.x, l.y, l.vertical, l.step, -1)
            &&& l.step == 1 || l.step == 2
            &&& l.vertical ==> l.qin.0 % 4 == 0
        }),
{
    if e < 64 {
        lemma_joins_down(c, addr, e / 16, e % 16);
    } else if e < 96 {
        lemma_joins_top(c, addr, (e - 64) / 16, e % 16);
    } else {
        lemma_joins_inner(c, addr, 1 + (e - 96) / 16, e % 16);
    }
}

spec fn joined(c: EdgeCtxV, addr: int, l: MbLineV) -> bool {
    &&& 0 <= l.qin.0 < 16 && 0 <= l.qin.1 < 16 && place(c, addr, l.qin.0, l.qin.1) == (l.x, l.y)
    &&& 0 <= l.pin.0 < 16 && 0 <= l.pin.1 < 16 && place(c, l.p, l.pin.0, l.pin.1) == line_pos(
        l.x,
        l.y,
        l.vertical,
        l.step,
        -1,
    )
    &&& l.step == 1 || l.step == 2
    &&& l.vertical ==> l.qin.0 % 4 == 0
}

/// Rows of the plane from one row of a macroblock to the next.
spec fn row_step(c: EdgeCtxV, addr: int) -> int {
    if c.flag(addr) {
        2
    } else {
        1
    }
}

proof fn lemma_origin(c: EdgeCtxV, addr: int, x: int, y: int)
    requires
        0 <= addr,
    ensures
        ({
            let o = c.g.origin(addr, true, c.flag(addr));
            place(c, addr, x, y) == (o.0 + x, o.1 + row_step(c, addr) * y)
        }),
        row_step(c, addr) * y == if c.flag(addr) {
            2 * y
        } else {
            y
        },
        row_step(c, addr) * -1 == -row_step(c, addr),
{
    assert(addr % 2 == 0 || addr % 2 == 1);
    assert(row_step(c, addr) * y == if c.flag(addr) {
        2 * y
    } else {
        y
    });
}

proof fn lemma_joins_down(c: EdgeCtxV, addr: int, n: int, k: int)
    requires
        c.mbaff,
        c.g.w >= 1,
        flags_agree(c),
        0 <= addr < c.g.info.len(),
        0 <= n < 4,
        0 <= k < 16,
    ensures
        mbaff_luma_line(c, addr, 16 * n + k) matches Some(l) ==> joined(c, addr, l),
{
    reveal(mbaff_luma_line);
    let e = 16 * n + k;
    assert(e / 16 == n && e % 16 == k);
    lemma_origin(c, addr, 4 * n, k);
    lemma_origin(c, addr, 4 * n - 1, k);
    let (x, y) = place(c, addr, 4 * n, k);
    if c.pixel_addr(x - 1, y) is Some {
        lemma_found(c, x - 1, y);
    }
}

proof fn lemma_joins_top(c: EdgeCtxV, addr: int, j: int, k: int)
    requires
        c.mbaff,
        c.g.w >= 1,
        flags_agree(c),
        0 <= addr < c.g.info.len(),
        0 <= j < 2,
        0 <= k < 16,
    ensures
        mbaff_luma_line(c, addr, 64 + 16 * j + k) matches Some(l) ==> joined(c, addr, l),
{
    reveal(mbaff_luma_line);
    let e = 64 + 16 * j + k;
    assert((e - 64) / 16 == j && e % 16 == k);
    lemma_origin(c, addr, k, j);
    if let Some(l) = mbaff_luma_line(c, addr, e) {
        assert(l.step * -1 == -l.step) by (nonlinear_arith);
        if c.pixel_addr(l.x, l.y - l.step) is Some {
            lemma_found(c, l.x, l.y - l.step);
        }
    }
}

proof fn lemma_joins_inner(c: EdgeCtxV, addr: int, n: int, k: int)
    requires
        c.mbaff,
        c.g.w >= 1,
        0 <= addr < c.g.info.len(),
        1 <= n < 4,
        0 <= k < 16,
    ensures
        mbaff_luma_line(c, addr, 80 + 16 * n + k) matches Some(l) ==> joined(c, addr, l),
{
    reveal(mbaff_luma_line);
    let e = 80 + 16 * n + k;
    assert(1 + (e - 96) / 16 == n && e % 16 == k);
    lemma_origin(c, addr, k, 4 * n);
    lemma_origin(c, addr, k, 4 * n - 1);
}

/// Inside a decoded macroblock of an MBAFF frame, there is a line for every sample on the left side
/// of a column of 4x4 blocks and on the upper side of a row of them, but for those inside 8x8
/// transform blocks. Lines across horizontal edges follow the macroblock's own rows.
pub proof fn law_mbaff_inner_edges(c: EdgeCtxV, addr: int, n: int, k: int)
    requires
        0 <= addr < c.g.info.len(),
        c.g.info[addr].available,
        1 <= n <= 3,
        0 <= k < 16,
        n % 2 == 1 ==> !c.g.info[addr].transform_size_8x8_flag,
    ensures
        ({
            let rows: int = if c.flag(addr) {
                2
            } else {
                1
            };
            let down = MbLineV {
                x: place(c, addr, 4 * n, k).0,
                y: place(c, addr, 4 * n, k).1,
                vertical: true,
                step: 1,
                p: addr,
                pin: (4 * n - 1, k),
                qin: (4 * n, k),
            };
            let across = MbLineV {
                x: place(c, addr, k, 4 * n).0,
                y: place(c, addr, k, 4 * n).1,
                vertical: false,
                step: rows,
                p: addr,
                pin: (k, 4 * n - 1),
                qin: (k, 4 * n),
            };
            &&& exists|e: int|
                0 <= e < 144 && #[trigger] mbaff_luma_line(c, addr, e) == Some(down)
            &&& exists|e: int|
                0 <= e < 144 && #[trigger] mbaff_luma_line(c, addr, e) == Some(across)
        }),
{
    lemma_inner_down(c, addr, n, k);
    lemma_inner_across(c, addr, n, k);
    let down = mbaff_luma_line(c, addr, 16 * n + k);
    let across = mbaff_luma_line(c, addr, 80 + 16 * n + k);
    assert(down is Some && across is Some);
}

#[verifier::spinoff_prover]
proof fn lemma_inner_down(c: EdgeCtxV, addr: int, n: int, k: int)
    requires
        0 <= addr < c.g.info.len(),
        c.g.info[addr].available,
        1 <= n <= 3,
        0 <= k < 16,
        n % 2 == 1 ==> !c.g.info[addr].transform_size_8x8_flag,
    ensures
        mbaff_luma_line(c, addr, 16 * n + k) == Some(
            MbLineV {
                x: place(c, addr, 4 * n, k).0,
                y: place(c, addr, 4 * n, k).1,
                vertical: true,
                step: 1,
                p: addr,
                pin: (4 * n - 1, k),
                qin: (4 * n, k),
            },
        ),
{
    reveal(mbaff_luma_line);
    let e = 16 * n + k;
    assert(e / 16 == n && e % 16 == k);
    lemma_origin(c, addr, 4 * n, k);
}

#[verifier::spinoff_prover]
proof fn lemma_inner_across(c: EdgeCtxV, addr: int, n: int, k: int)
    requires
        0 <= addr < c.g.info.len(),
        c.g.info[addr].available,
        1 <= n <= 3,
        0 <= k < 16,
        n % 2 == 1 ==> !c.g.info[addr].transform_size_8x8_flag,
    ensures
        mbaff_luma_line(c, addr, 80 + 16 * n + k) == Some(
            MbLineV {
                x: place(c, addr, k, 4 * n).0,
                y: place(c, addr, k, 4 * n).1,
                vertical: false,
                step: row_step(c, addr),
                p: addr,
                pin: (k, 4 * n - 1),
                qin: (k, 4 * n),
            },
        ),
{
    reveal(mbaff_luma_line);
    let e = 80 + 16 * n + k;
    assert(1 + (e - 96) / 16 == n && e % 16 == k);
    lemma_origin(c, addr, k, 4 * n);
}

/// At the left edge of a decoded macroblock of an MBAFF frame that has a pair to its left, there is
/// a line for every row.
#[verifier::spinoff_prover]
#[verifier::rlimit(40)]
pub proof fn law_mbaff_left_edge(c: EdgeCtxV, addr: int, k: int)
    requires
        c.mbaff,
        c.g.w >= 1,
        c.g.h % 2 == 0,
        c.g.info.len() == c.g.w * c.g.h,
        0 <= addr < c.g.info.len(),
        c.g.info[addr].available,
        addr / 2 % c.g.w != 0,
        0 <= k < 16,
    ensures
        exists|e: int|
            0 <= e < 144 && #[trigger] mbaff_luma_line(c, addr, e) is Some && ({
                let l = mbaff_luma_line(c, addr, e)->0;
                l.vertical && l.qin == (0int, k) && l.p / 2 == addr / 2 - 1
            }),
{
    reveal(mbaff_luma_line);
    let dy: int = if c.flag(addr) {
        2
    } else {
        1
    };
    assert(dy * k == if c.flag(addr) {
        2 * k
    } else {
        k
    });
    let (x, y) = place(c, addr, 0, k);
    lemma_pair_in_frame(c, addr / 2);
    crate::mb_address::lemma_div_mod_bound(addr / 2, c.g.w);
    assert(addr % 2 == 0 || addr % 2 == 1);
    let (column, row) = (addr / 2 % c.g.w, addr / 2 / c.g.w);
    assert((x - 1) / 16 == column - 1 && y / 32 == row);
    assert(row * c.g.w + column == addr / 2) by (nonlinear_arith)
        requires
            addr / 2 == c.g.w * row + column,
    ;
    lemma_pair_in_frame(c, addr / 2 - 1);
    assert(k / 16 == 0 && k % 16 == k);
    assert(mbaff_luma_line(c, addr, k) is Some);
}

/// At the upper edge of a decoded macroblock of an MBAFF frame below the first row, there is a line
/// for every column: to the row above in the frame, or, for field macroblocks, in the field; a
/// frame macroblock below field macroblocks has two, one to each field.
pub proof fn law_mbaff_upper_edge(c: EdgeCtxV, addr: int, k: int)
    requires
        c.mbaff,
        c.g.w >= 1,
        c.g.h % 2 == 0,
        c.g.info.len() == c.g.w * c.g.h,
        0 <= addr < c.g.info.len(),
        c.g.info[addr].available,
        addr / 2 >= c.g.w,
        flags_agree(c),
        0 <= k < 16,
    ensures
        ({
            let (x, y) = place(c, addr, k, 0);
            let field = c.flag(addr);
            let lower = addr % 2 == 1;
            let below_fields = !field && !lower && c.flag(addr - 2 * c.g.w);
            let joins = |j: int, step: int|
                exists|e: int|
                    0 <= e < 144 && #[trigger] mbaff_luma_line(c, addr, e) is Some && ({
                        let l = mbaff_luma_line(c, addr, e)->0;
                        !l.vertical && l.x == x && l.y == y + j && l.step == step && l.qin == (k, j)
                    });
            &&& field ==> joins(0, 2)
            &&& !field && !below_fields ==> joins(0, 1)
            &&& below_fields ==> joins(0, 2) && joins(1, 2)
        }),
{
    let w = c.g.w;
    let (x, y) = place(c, addr, k, 0);
    assert((addr - 2 * w) % 2 == addr % 2);
    if addr % 2 == 0 {
        assert(c.flag(addr - 2 * w) == c.flag(addr - 2 * w + 1));
    }
    lemma_top_line(c, addr, 0, k);
    lemma_top_line(c, addr, 1, k);
    let a = mbaff_luma_line(c, addr, 64 + k);
    let b = mbaff_luma_line(c, addr, 80 + k);
    assert(a is Some);
}

/// The upper line of column `k` is there, with the place and step that the flags give.
#[verifier::spinoff_prover]
#[verifier::rlimit(60)]
proof fn lemma_top_line(c: EdgeCtxV, addr: int, j: int, k: int)
    requires
        c.mbaff,
        c.g.w >= 1,
        c.g.h % 2 == 0,
        c.g.info.len() == c.g.w * c.g.h,
        0 <= addr < c.g.info.len(),
        c.g.info[addr].available,
        addr / 2 >= c.g.w,
        0 <= k < 16,
        0 <= j < 2,
    ensures
        ({
            let (x, y) = place(c, addr, k, 0);
            let twice = !c.flag(addr) && addr % 2 == 0 && c.flag(addr - 2 * c.g.w + 1);
            let step: int = if twice || c.flag(addr) {
                2
            } else {
                1
            };
            let r = mbaff_luma_line(c, addr, 64 + 16 * j + k);
            let l = r->0;
            j == 0 || twice ==> r is Some && !l.vertical && l.x == x && l.y == y + j && l.step
                == step && l.qin == (k, j)
        }),
{
    reveal(mbaff_luma_line);
    let e = 64 + 16 * j + k;
    assert((e - 64) / 16 == j && e % 16 == k);
    lemma_origin(c, addr, k, 0);
    let (x, y) = place(c, addr, k, 0);
    lemma_above_is_inside(c, addr, x, y - 1);
    lemma_above_is_inside(c, addr, x, y - 2);
    if addr % 2 == 0 || c.flag(addr) {
        lemma_above_is_inside(c, addr, x, y);
    }
}

/// A place in the column of a macroblock's pair, in the rows of that pair or of the pair above, has
/// a macroblock.
proof fn lemma_above_is_inside(c: EdgeCtxV, addr: int, x: int, y: int)
    requires
        c.mbaff,
        c.g.w >= 1,
        c.g.h % 2 == 0,
        c.g.info.len() == c.g.w * c.g.h,
        0 <= addr < c.g.info.len(),
        addr / 2 >= c.g.w,
        x / 16 == addr / 2 % c.g.w,
        32 * (addr / 2 / c.g.w) - 32 <= y < 32 * (addr / 2 / c.g.w) + 32,
    ensures
        c.pixel_addr(x, y) is Some,
        0 <= c.pixel_addr(x, y)->0 < c.g.info.len(),
{
    let w = c.g.w;
    let (pair, column, row) = (addr / 2, addr / 2 % w, addr / 2 / w);
    lemma_pair_in_frame(c, pair);
    crate::mb_address::lemma_div_mod_bound(pair, w);
    let v = y / 32;
    assert(v == row || v == row - 1);
    assert(row >= 1 && 0 <= v * w + column <= pair) by (nonlinear_arith)
        requires
            pair == w * row + column,
            v == row || v == row - 1,
            w >= 1,
            0 <= column < w,
            w <= pair,
    ;
}

proof fn lemma_pair_in_frame(c: EdgeCtxV, pair: int)
    requires
        c.g.w >= 1,
        c.g.h % 2 == 0,
        c.g.info.len() == c.g.w * c.g.h,
        0 <= pair,
        2 * pair < c.g.info.len(),
    ensures
        0 <= pair / c.g.w,
        2 * (pair / c.g.w) < c.g.h,
        0 <= pair % c.g.w < c.g.w,
        2 * pair + 1 < c.g.info.len(),
{
    let (row, column) = (pair / c.g.w, pair % c.g.w);
    crate::mb_address::lemma_div_mod_bound(pair, c.g.w);
    let half = c.g.h / 2;
    assert(c.g.h == 2 * half);
    assert(2 * row < 2 * half && 2 * pair + 1 < c.g.w * (2 * half)) by (nonlinear_arith)
        requires
            pair == c.g.w * row + column,
            0 <= column < c.g.w,
            2 * pair < c.g.w * (2 * half),
            row >= 0,
    ;
}

/// How line `e` of macroblock `addr` is filtered; `None` where it is not.
pub open spec fn mbaff_cut(c: EdgeCtxV, s: PlaneFilter, addr: int, e: int) -> Option<Cut> {
    match mbaff_luma_line(c, addr, e) {
        Some(l) => match edge_params(
            c,
            s,
            l.p,
            addr,
            edge_strength(c, l.p, addr, l.pin, l.qin, l.vertical),
        ) {
            Some(f) => Some(Cut { x: l.x, y: l.y, vertical: l.vertical, step: l.step, f }),
            None => None,
        },
        None => None,
    }
}

spec fn mbaff_cuts(c: EdgeCtxV, s: PlaneFilter) -> spec_fn(int) -> Option<Cut> {
    |k: int| mbaff_cut(c, s, k / 144, k % 144)
}

proof fn lemma_mbaff_run(p: PlaneV, c: EdgeCtxV, s: PlaneFilter, t: int, n: int)
    ensures
        mbaff_luma_from(p, c, s, t, n) == run(p, mbaff_cuts(c, s), t, 144 * n),
    decreases 144 * n - t,
{
    if t < 144 * n {
        let l = mbaff_luma_line(c, t / 144, t % 144);
        lemma_mbaff_run(line_step(p, c, s, t / 144, l), c, s, t + 1, n);
    }
}

/// No filtered line of an MBAFF frame touches the sample at `(a, b)`, but for line `e` of
/// macroblock `addr`.
pub open spec fn only_touched_by(
    c: EdgeCtxV,
    s: PlaneFilter,
    addr: int,
    e: int,
    a: int,
    b: int,
) -> bool {
    forall|m: int, i: int|
        0 <= i < 144 && 0 <= m < c.g.w * c.g.h && (m != addr || i != e) ==> match #[trigger] mbaff_cut(
            c,
            s,
            m,
            i,
        ) {
            Some(o) => !touches(o.x, o.y, o.vertical, o.step, a, b),
            None => true,
        }
}

/// In an MBAFF frame, a line that is filtered becomes the filtered line, where no other filtered
/// line touches its samples.
pub proof fn law_mbaff_lone_line_is_filtered(
    p: PlaneV,
    c: EdgeCtxV,
    s: PlaneFilter,
    addr: int,
    e: int,
    d: int,
)
    requires
        c.g.w >= 1,
        c.g.h >= 1,
        0 <= addr < c.g.w * c.g.h,
        0 <= e < 144,
        -3 <= d <= 2,
        mbaff_cut(c, s, addr, e) matches Some(l) && (l.step == 1 || l.step == 2) && l.f.bit_depth
            <= 14 && line_inside(p, l.x, l.y, l.vertical, l.step) && samples_in_range(
            line_at(p, l.x, l.y, l.vertical, l.step),
            l.f.bit_depth,
        ) && forall|i: int|
            -4 <= i <= 3 ==> only_touched_by(
                c,
                s,
                addr,
                e,
                (#[trigger] line_pos(l.x, l.y, l.vertical, l.step, i)).0,
                line_pos(l.x, l.y, l.vertical, l.step, i).1,
            ),
    ensures
        ({
            let l = mbaff_cut(c, s, addr, e)->0;
            let (a, b) = line_pos(l.x, l.y, l.vertical, l.step, d);
            (deblocked_mbaff_luma(p, c, s).at)(a, b) == part(
                filtered(line_at(p, l.x, l.y, l.vertical, l.step), l.f),
                d,
            )
        }),
{
    reveal(deblocked_mbaff_luma);
    let mbs = c.g.w * c.g.h;
    let n = 144 * mbs;
    let cut = mbaff_cuts(c, s);
    let m = 144 * addr + e;
    let l = mbaff_cut(c, s, addr, e)->0;
    assert(m / 144 == addr && m % 144 == e);
    lemma_mbaff_run(p, c, s, 0, mbs);
    assert forall|i: int| -4 <= i <= 3 implies misses(
        cut,
        0,
        m,
        (#[trigger] line_pos(l.x, l.y, l.vertical, l.step, i)).0,
        line_pos(l.x, l.y, l.vertical, l.step, i).1,
    ) && misses(
        cut,
        m + 1,
        n,
        line_pos(l.x, l.y, l.vertical, l.step, i).0,
        line_pos(l.x, l.y, l.vertical, l.step, i).1,
    ) by {
        let (a, b) = line_pos(l.x, l.y, l.vertical, l.step, i);
        assert(only_touched_by(c, s, addr, e, a, b));
        assert forall|k: int| 0 <= k < n && k != m implies match #[trigger] cut(k) {
            Some(o) => !touches(o.x, o.y, o.vertical, o.step, a, b),
            None => true,
        } by {
            let (q, r) = (k / 144, k % 144);
            assert(k == 144 * q + r);
            assert(mbaff_cut(c, s, q, r) == cut(k));
        }
    }
    lemma_run_line(p, cut, 0, m, n, d);
}

/// Where chroma sample `(x, y)` of macroblock `n` of an MBAFF frame lies; `sh` is the number of
/// luma rows to a chroma row, 1 or 2.
#[verifier::opaque]
pub open spec fn chroma_place(c: EdgeCtxV, n: int, x: int, y: int, sh: int) -> (int, int) {
    let pair = n / 2;
    let rows: int = if sh == 2 {
        8
    } else {
        16
    };
    (
        8 * (pair % c.g.w) + x,
        (if sh == 2 {
            16 * (pair / c.g.w)
        } else {
            32 * (pair / c.g.w)
        }) + if c.flag(n) {
            2 * y + n % 2
        } else if n % 2 == 0 {
            y
        } else {
            rows + y
        },
    )
}

/// The chroma row that a luma row of a macroblock goes with.
pub open spec fn chroma_row(sh: int, y: int) -> int {
    if sh == 2 {
        y / 2
    } else {
        y
    }
}

#[verifier::spinoff_prover]
#[verifier::rlimit(60)]
proof fn lemma_chroma_found(c: EdgeCtxV, px: int, py: int, sh: int)
    requires
        c.mbaff,
        c.g.w >= 1,
        flags_agree(c),
        sh == 1 || sh == 2,
        c.chroma_pixel_addr(px, py, sh) is Some,
    ensures
        ({
            let p = c.chroma_pixel_addr(px, py, sh)->0;
            let (x, y) = c.in_chroma(p, px, py, sh);
            0 <= x < 16 && 0 <= y < 16 && chroma_place(c, p, x / 2, chroma_row(sh, y), sh) == (px, py)
        }),
{
    reveal(chroma_place);
    let w = c.g.w;
    let rows: int = 32int / sh;
    assert(rows == if sh == 2 {
        16int
    } else {
        32int
    });
    let row = if sh == 2 {
        py / 16
    } else {
        py / 32
    };
    let low = if sh == 2 {
        py % 16
    } else {
        py % 32
    };
    assert(py / rows == row && py % rows == low);
    let pair = row * w + px / 8;
    let top = 2 * pair;
    vstd::arithmetic::div_mod::lemma_fundamental_div_mod_converse(pair, w, row, px / 8);
    assert(top % 2 == 0 && top / 2 == pair && (top + 1) / 2 == pair && (top + 1) % 2 == 1);
    assert(c.flag(top) == c.flag(top + 1));
    assert(px == 8 * (px / 8) + px % 8);
    let p = c.chroma_pixel_addr(px, py, sh)->0;
    let o = c.g.origin(p, true, c.flag(p));
    assert(o.0 == 16 * (px / 8));
    let y0 = (o.1 + sh - 1) / sh;
    assert(y0 == if sh == 2 {
        (o.1 + 1) / 2
    } else {
        o.1
    });
    let dy = py - y0;
    let cy = if c.flag(p) {
        dy / 2
    } else {
        dy
    };
    assert(16int / sh == if sh == 2 {
        8int
    } else {
        16int
    });
    assert(0 <= cy < 16int / sh);
    assert(sh * cy == if sh == 2 {
        2 * cy
    } else {
        cy
    });
}

spec fn chroma_joined(c: EdgeCtxV, addr: int, l: MbLineV, sh: int) -> bool {
    &&& 0 <= l.qin.0 < 16 && 0 <= l.qin.1 < 16
    &&& chroma_place(c, addr, l.qin.0 / 2, chroma_row(sh, l.qin.1), sh) == (l.x, l.y)
    &&& 0 <= l.pin.0 < 16 && 0 <= l.pin.1 < 16
    &&& chroma_place(c, l.p, l.pin.0 / 2, chroma_row(sh, l.pin.1), sh) == line_pos(
        l.x,
        l.y,
        l.vertical,
        l.step,
        -1,
    )
    &&& l.step == 1 || l.step == 2
}

/// The chroma samples of a macroblock lie where its luma origin says.
proof fn lemma_chroma_origin(c: EdgeCtxV, addr: int, m: MbEdgesV, sh: int, x: int, y: int)
    requires
        0 <= addr,
        sh == 1 || sh == 2,
        c.mb_edges(addr) == Some(m),
    ensures
        chroma_place(c, addr, x, y, sh) == (m.x0 / 2 + x, chroma_row0(m, sh) + picture_rows(m, y)),
        m.field == c.flag(addr),
{
    reveal(chroma_place);
    assert(addr % 2 == 0 || addr % 2 == 1);
}

#[verifier::spinoff_prover]
proof fn lemma_chroma_down(
    c: EdgeCtxV,
    addr: int,
    m: MbEdgesV,
    sh: int,
    edge: int,
    k: int,
)
    requires
        c.mbaff,
        c.g.w >= 1,
        flags_agree(c),
        sh == 1 || sh == 2,
        0 <= addr < c.g.info.len(),
        c.mb_edges(addr) == Some(m),
        0 <= edge < 2,
        0 <= k < (if sh == 2 {
            8int
        } else {
            16int
        }),
    ensures
        mbaff_chroma_vertical(c, sh, addr, m, edge, k) matches Some(l) ==> chroma_joined(
            c,
            addr,
            l,
            sh,
        ) && l.vertical && l.qin.0 == 8 * edge && chroma_row(sh, l.qin.1) == k,
{
    reveal(mbaff_chroma_vertical);
    lemma_chroma_origin(c, addr, m, sh, 4 * edge, k);
    lemma_chroma_origin(c, addr, m, sh, 3, k);
    if let Some(l) = mbaff_chroma_vertical(c, sh, addr, m, edge, k) {
        assert(chroma_row(sh, as_luma_row(sh, k)) == k && 0 <= as_luma_row(sh, k) < 16);
        if c.chroma_pixel_addr(l.x - 1, l.y, sh) is Some {
            lemma_chroma_found(c, l.x - 1, l.y, sh);
        }
    }
}

#[verifier::spinoff_prover]
proof fn lemma_chroma_upper(
    c: EdgeCtxV,
    addr: int,
    m: MbEdgesV,
    sh: int,
    edge: int,
    k: int,
)
    requires
        c.mbaff,
        c.g.w >= 1,
        flags_agree(c),
        sh == 1 || sh == 2,
        0 <= addr < c.g.info.len(),
        c.mb_edges(addr) == Some(m),
        0 <= edge < 2,
        0 <= k < 8,
    ensures
        mbaff_chroma_top(c, sh, addr, m, edge, k) matches Some(l) ==> chroma_joined(c, addr, l, sh)
            && !l.vertical && l.qin.0 == 2 * k && chroma_row(sh, l.qin.1) == edge,
{
    reveal(mbaff_chroma_top);
    lemma_chroma_origin(c, addr, m, sh, k, edge);
    if let Some(l) = mbaff_chroma_top(c, sh, addr, m, edge, k) {
        assert(l.step * -1 == -l.step) by (nonlinear_arith);
        assert(chroma_row(sh, as_luma_row(sh, edge)) == edge);
        assert(edge == 1 ==> !m.field);
        if c.chroma_pixel_addr(l.x, l.y - l.step, sh) is Some {
            lemma_chroma_found(c, l.x, l.y - l.step, sh);
        }
    }
}

#[verifier::spinoff_prover]
proof fn lemma_chroma_across(
    c: EdgeCtxV,
    addr: int,
    m: MbEdgesV,
    sh: int,
    edge: int,
    k: int,
)
    requires
        c.mbaff,
        c.g.w >= 1,
        flags_agree(c),
        sh == 1 || sh == 2,
        0 <= addr < c.g.info.len(),
        c.mb_edges(addr) == Some(m),
        1 <= edge < (if sh == 2 {
            2int
        } else {
            4int
        }),
        0 <= k < 8,
    ensures
        ({
            let l = mbaff_chroma_inner(sh, addr, m, edge, k);
            chroma_joined(c, addr, l, sh) && !l.vertical && l.qin.0 == 2 * k && chroma_row(
                sh,
                l.qin.1,
            ) == 4 * edge && l.step == row_step(c, addr)
        }),
{
    reveal(mbaff_chroma_inner);
    lemma_chroma_origin(c, addr, m, sh, k, 4 * edge);
    lemma_chroma_origin(c, addr, m, sh, k, 4 * edge - 1);
    let l = mbaff_chroma_inner(sh, addr, m, edge, k);
    assert(l.step * -1 == -l.step) by (nonlinear_arith);
}

/// Every chroma line across an edge of an MBAFF frame joins the samples it says: its far side
/// starts at the place of a sample of the macroblock, its near side at the place of a sample of the
/// neighbouring macroblock or of its own; the strength is that of the luma samples at their places.
pub proof fn law_mbaff_chroma_line_joins_samples(c: EdgeCtxV, sh: int, addr: int, e: int)
    requires
        c.mbaff,
        c.g.w >= 1,
        flags_agree(c),
        sh == 1 || sh == 2,
        0 <= addr < c.g.info.len(),
        0 <= e < (if sh == 2 {
            40int
        } else {
            72int
        }),
    ensures
        mbaff_chroma_line(c, sh, addr, e) matches Some(l) ==> ({
            &&& 0 <= l.qin.0 < 16 && 0 <= l.qin.1 < 16
            &&& chroma_place(c, addr, l.qin.0 / 2, chroma_row(sh, l.qin.1), sh) == (l.x, l.y)
            &&& 0 <= l.pin.0 < 16 && 0 <= l.pin.1 < 16
            &&& chroma_place(c, l.p, l.pin.0 / 2, chroma_row(sh, l.pin.1), sh) == line_pos(
                l.x,
                l.y,
                l.vertical,
                l.step,
                -1,
            )
            &&& l.step == 1 || l.step == 2
        }),
{
    reveal(mbaff_chroma_line);
    if let Some(m) = c.mb_edges(addr) {
        let rows: int = if sh == 2 {
            8
        } else {
            16
        };
        if e < 2 * rows {
            assert(e / rows == if sh == 2 {
                e / 8
            } else {
                e / 16
            });
            assert(e % rows == if sh == 2 {
                e % 8
            } else {
                e % 16
            });
            lemma_chroma_down(c, addr, m, sh, e / rows, e % rows);
        } else if e < 2 * rows + 16 {
            lemma_chroma_upper(c, addr, m, sh, (e - 2 * rows) / 8, (e - 2 * rows) % 8);
        } else {
            let i = e - 2 * rows - 16;
            lemma_chroma_across(c, addr, m, sh, 1 + i / 8, i % 8);
        }
    }
}

/// Inside a decoded macroblock of an MBAFF frame, there is a chroma line for every row at the
/// middle column, and for every column at each inner row of 4x4 blocks.
pub proof fn law_mbaff_chroma_inner_edges(c: EdgeCtxV, sh: int, addr: int, n: int, k: int)
    requires
        c.mbaff,
        c.g.w >= 1,
        flags_agree(c),
        sh == 1 || sh == 2,
        0 <= addr < c.g.info.len(),
        c.g.info[addr].available,
        1 <= n < (if sh == 2 {
            2int
        } else {
            4int
        }),
    ensures
        0 <= k < (if sh == 2 {
            8int
        } else {
            16int
        }) ==> exists|e: int|
            0 <= e < 72 && (#[trigger] mbaff_chroma_line(c, sh, addr, e)) is Some && ({
                let l = mbaff_chroma_line(c, sh, addr, e)->0;
                l.vertical && l.p == addr && (l.x, l.y) == chroma_place(c, addr, 4, k, sh)
            }),
        0 <= k < 8 ==> exists|e: int|
            0 <= e < 72 && (#[trigger] mbaff_chroma_line(c, sh, addr, e)) is Some && ({
                let l = mbaff_chroma_line(c, sh, addr, e)->0;
                !l.vertical && l.p == addr && (l.x, l.y) == chroma_place(c, addr, k, 4 * n, sh)
                    && l.step == if c.flag(addr) {
                    2int
                } else {
                    1int
                }
            }),
{
    let m = c.mb_edges(addr)->0;
    lemma_chroma_inner_found(c, sh, addr, n, k);
    let rows: int = if sh == 2 {
        8
    } else {
        16
    };
    if 0 <= k < rows {
        lemma_chroma_down(c, addr, m, sh, 1, k);
        assert(mbaff_chroma_line(c, sh, addr, rows + k) is Some);
    }
    if 0 <= k < 8 {
        lemma_chroma_across(c, addr, m, sh, n, k);
        assert(mbaff_chroma_line(c, sh, addr, 2 * rows + 8 + 8 * n + k) is Some);
    }
}

#[verifier::spinoff_prover]
proof fn lemma_chroma_inner_found(c: EdgeCtxV, sh: int, addr: int, n: int, k: int)
    requires
        sh == 1 || sh == 2,
        0 <= addr < c.g.info.len(),
        c.g.info[addr].available,
        1 <= n < (if sh == 2 {
            2int
        } else {
            4int
        }),
    ensures
        ({
            let m = c.mb_edges(addr)->0;
            let rows: int = if sh == 2 {
                8
            } else {
                16
            };
            let down = mbaff_chroma_vertical(c, sh, addr, m, 1, k);
            let across = mbaff_chroma_inner(sh, addr, m, n, k);
            &&& c.mb_edges(addr) is Some
            &&& 0 <= k < rows ==> mbaff_chroma_line(c, sh, addr, rows + k) == down && down is Some && (
            down->0).p == addr
            &&& 0 <= k < 8 ==> mbaff_chroma_line(c, sh, addr, 2 * rows + 8 + 8 * n + k) == Some(
                across,
            ) && across.p == addr
        }),
{
    reveal(mbaff_chroma_line);
    reveal(mbaff_chroma_vertical);
    reveal(mbaff_chroma_inner);
    let rows: int = if sh == 2 {
        8
    } else {
        16
    };
    if 0 <= k < rows {
        assert((rows + k) / rows == 1 && (rows + k) % rows == k) by {
            if sh == 2 {
                assert((8 + k) / 8 == 1 && (8 + k) % 8 == k);
            } else {
                assert((16 + k) / 16 == 1 && (16 + k) % 16 == k);
            }
        }
    }
    if 0 <= k < 8 {
        let i = 8 * n + k - 8;
        assert(1 + i / 8 == n && i % 8 == k);
    }
}

/// A chroma place in a column of pairs, in the rows of one of its pairs, has a macroblock.
#[verifier::spinoff_prover]
proof fn lemma_chroma_is_inside(c: EdgeCtxV, sh: int, x: int, y: int, pair: int)
    requires
        c.mbaff,
        c.g.w >= 1,
        c.g.h % 2 == 0,
        c.g.info.len() == c.g.w * c.g.h,
        sh == 1 || sh == 2,
        0 <= pair,
        2 * pair < c.g.info.len(),
        x / 8 == pair % c.g.w,
        (if sh == 2 {
            y / 16
        } else {
            y / 32
        }) == pair / c.g.w,
    ensures
        c.chroma_pixel_addr(x, y, sh) is Some,
        0 <= c.chroma_pixel_addr(x, y, sh)->0 < c.g.info.len(),
{
    let w = c.g.w;
    lemma_pair_in_frame(c, pair);
    crate::mb_address::lemma_div_mod_bound(pair, w);
    let rows: int = 32int / sh;
    let row = pair / w;
    assert(rows == if sh == 2 {
        16int
    } else {
        32int
    });
    assert(y / rows == row);
    assert(row * w + pair % w == pair) by (nonlinear_arith)
        requires
            pair == w * row + pair % w,
    ;
    assert(y >= 0 && x >= 0);
}

/// The pairs to the left of a pair and above it.
proof fn lemma_pair_beside(pair: int, w: int)
    requires
        0 <= pair,
        w >= 1,
    ensures
        pair % w > 0 ==> (pair - 1) % w == pair % w - 1 && (pair - 1) / w == pair / w,
        pair >= w ==> (pair - w) % w == pair % w && (pair - w) / w == pair / w - 1,
{
    crate::mb_address::lemma_div_mod_bound(pair, w);
    let (q, r) = (pair / w, pair % w);
    assert(w * q == q * w && (q - 1) * w == q * w - w) by (nonlinear_arith);
    if r > 0 {
        vstd::arithmetic::div_mod::lemma_fundamental_div_mod_converse(pair - 1, w, q, r - 1);
    }
    vstd::arithmetic::div_mod::lemma_fundamental_div_mod_converse(pair - w, w, q - 1, r);
}

/// At the left edge of a decoded macroblock of an MBAFF frame that has a pair to its left, there is
/// a chroma line for every row.
pub proof fn law_mbaff_chroma_left_edge(c: EdgeCtxV, sh: int, addr: int, k: int)
    requires
        c.mbaff,
        c.g.w >= 1,
        c.g.h % 2 == 0,
        c.g.info.len() == c.g.w * c.g.h,
        flags_agree(c),
        sh == 1 || sh == 2,
        0 <= addr < c.g.info.len(),
        c.g.info[addr].available,
        addr / 2 % c.g.w != 0,
        0 <= k < (if sh == 2 {
            8int
        } else {
            16int
        }),
    ensures
        exists|e: int|
            0 <= e < 32 && (#[trigger] mbaff_chroma_line(c, sh, addr, e)) is Some && ({
                let l = mbaff_chroma_line(c, sh, addr, e)->0;
                l.vertical && (l.x, l.y) == chroma_place(c, addr, 0, k, sh)
            }),
{
    let m = c.mb_edges(addr)->0;
    let (x, y) = chroma_place(c, addr, 0, k, sh);
    let pair = addr / 2;
    crate::mb_address::lemma_div_mod_bound(pair, c.g.w);
    lemma_pair_beside(pair, c.g.w);
    assert((x - 1) / 8 == pair % c.g.w - 1 && (if sh == 2 {
        y / 16
    } else {
        y / 32
    }) == pair / c.g.w) by {
        reveal(chroma_place);
        assert(addr % 2 == 0 || addr % 2 == 1);
    }
    lemma_chroma_is_inside(c, sh, x - 1, y, pair - 1);
    lemma_chroma_origin(c, addr, m, sh, 0, k);
    reveal(mbaff_chroma_line);
    reveal(mbaff_chroma_vertical);
    assert(k / 8 == 0 || sh == 1);
    assert(mbaff_chroma_line(c, sh, addr, k) is Some);
}

/// At the upper edge of a decoded macroblock of an MBAFF frame below the first row, there is a
/// chroma line for every column: to the row above in the plane, or, for field macroblocks, in the
/// field; a frame macroblock below field macroblocks has two, one to each field.
pub proof fn law_mbaff_chroma_upper_edge(c: EdgeCtxV, sh: int, addr: int, k: int)
    requires
        c.mbaff,
        c.g.w >= 1,
        c.g.h % 2 == 0,
        c.g.info.len() == c.g.w * c.g.h,
        flags_agree(c),
        sh == 1 || sh == 2,
        0 <= addr < c.g.info.len(),
        c.g.info[addr].available,
        addr / 2 >= c.g.w,
        0 <= k < 8,
    ensures
        ({
            let (x, y) = chroma_place(c, addr, k, 0, sh);
            let field = c.flag(addr);
            let below_fields = !field && addr % 2 == 0 && c.flag(addr - 2 * c.g.w);
            let joins = |j: int, step: int|
                exists|e: int|
                    0 <= e < 72 && (#[trigger] mbaff_chroma_line(c, sh, addr, e)) is Some && ({
                        let l = mbaff_chroma_line(c, sh, addr, e)->0;
                        !l.vertical && l.x == x && l.y == y + j && l.step == step
                    });
            &&& field ==> joins(0, 2)
            &&& !field && !below_fields ==> joins(0, 1)
            &&& below_fields ==> joins(0, 2) && joins(1, 2)
        }),
{
    let w = c.g.w;
    assert((addr - 2 * w) % 2 == addr % 2);
    if addr % 2 == 0 {
        assert(c.flag(addr - 2 * w) == c.flag(addr - 2 * w + 1));
    }
    let rows: int = if sh == 2 {
        8
    } else {
        16
    };
    lemma_chroma_top_line(c, sh, addr, 0, k);
    lemma_chroma_top_line(c, sh, addr, 1, k);
    assert(mbaff_chroma_line(c, sh, addr, 2 * rows + k) is Some);
    let b = mbaff_chroma_line(c, sh, addr, 2 * rows + 8 + k);
}

#[verifier::spinoff_prover]
#[verifier::rlimit(40)]
proof fn lemma_chroma_top_line(c: EdgeCtxV, sh: int, addr: int, j: int, k: int)
    requires
        c.mbaff,
        c.g.w >= 1,
        c.g.h % 2 == 0,
        c.g.info.len() == c.g.w * c.g.h,
        sh == 1 || sh == 2,
        0 <= addr < c.g.info.len(),
        c.g.info[addr].available,
        addr / 2 >= c.g.w,
        0 <= k < 8,
        0 <= j < 2,
    ensures
        ({
            let (x, y) = chroma_place(c, addr, k, 0, sh);
            let twice = !c.flag(addr) && addr % 2 == 0 && c.flag(addr - 2 * c.g.w + 1);
            let step: int = if twice || c.flag(addr) {
                2
            } else {
                1
            };
            let rows: int = if sh == 2 {
                8
            } else {
                16
            };
            let r = mbaff_chroma_line(c, sh, addr, 2 * rows + 8 * j + k);
            let l = r->0;
            j == 0 || twice ==> r is Some && !l.vertical && l.x == x && l.y == y + j && l.step
                == step
        }),
{
    let m = c.mb_edges(addr)->0;
    let pair = addr / 2;
    let w = c.g.w;
    let (x, y) = chroma_place(c, addr, k, 0, sh);
    let step: int = if m.twice || m.field {
        2
    } else {
        1
    };
    lemma_pair_beside(pair, w);
    crate::mb_address::lemma_div_mod_bound(pair, w);
    lemma_chroma_origin(c, addr, m, sh, k, 0);
    let v = y + j - step;
    if j == 0 || m.twice {
        let above = !(addr % 2 == 1 && !m.field);
        let other = if above {
            pair - w
        } else {
            pair
        };
        assert(x / 8 == pair % w && (if sh == 2 {
            v / 16
        } else {
            v / 32
        }) == other / w) by {
            reveal(chroma_place);
            assert(addr % 2 == 0 || addr % 2 == 1);
        }
        lemma_chroma_is_inside(c, sh, x, v, other);
    }
    let rows: int = if sh == 2 {
        8
    } else {
        16
    };
    let e = 2 * rows + 8 * j + k;
    assert((e - 2 * rows) / 8 == j && (e - 2 * rows) % 8 == k);
    assert(mbaff_chroma_line(c, sh, addr, e) == mbaff_chroma_top(c, sh, addr, m, j, k)) by {
        reveal(mbaff_chroma_line);
    }
    reveal(mbaff_chroma_top);
}

/// How chroma line `e` of macroblock `addr` is filtered; `None` where it is not.
pub open spec fn mbaff_chroma_cut(
    c: EdgeCtxV,
    s: PlaneFilter,
    sh: int,
    addr: int,
    e: int,
) -> Option<Cut> {
    match mbaff_chroma_line(c, sh, addr, e) {
        Some(l) => match edge_params(
            c,
            s,
            l.p,
            addr,
            edge_strength(c, l.p, addr, l.pin, l.qin, l.vertical),
        ) {
            Some(f) => Some(Cut { x: l.x, y: l.y, vertical: l.vertical, step: l.step, f }),
            None => None,
        },
        None => None,
    }
}

spec fn mbaff_chroma_cuts(c: EdgeCtxV, s: PlaneFilter, sh: int) -> spec_fn(int) -> Option<Cut> {
    |k: int| mbaff_chroma_cut(c, s, sh, k / lines(sh), k % lines(sh))
}

/// Chroma lines of a macroblock.
pub open spec fn lines(sh: int) -> int {
    if sh == 2 {
        40
    } else {
        72
    }
}

proof fn lemma_mbaff_chroma_run(
    p: PlaneV,
    c: EdgeCtxV,
    s: PlaneFilter,
    sh: int,
    t: int,
    n: int,
)
    ensures
        mbaff_chroma_from(p, c, s, sh, t, n) == run(
            p,
            mbaff_chroma_cuts(c, s, sh),
            t,
            lines(sh) * n,
        ),
    decreases lines(sh) * n - t,
{
    if t < lines(sh) * n {
        let m = lines(sh);
        let l = mbaff_chroma_line(c, sh, t / m, t % m);
        lemma_mbaff_chroma_run(line_step(p, c, s, t / m, l), c, s, sh, t + 1, n);
    }
}

/// No filtered chroma line of an MBAFF frame touches the sample at `(a, b)`, but for line `e` of
/// macroblock `addr`.
pub open spec fn only_chroma_touched_by(
    c: EdgeCtxV,
    s: PlaneFilter,
    sh: int,
    addr: int,
    e: int,
    a: int,
    b: int,
) -> bool {
    forall|m: int, i: int|
        0 <= i < lines(sh) && 0 <= m < c.g.w * c.g.h && (m != addr || i != e)
            ==> match #[trigger] mbaff_chroma_cut(
            c,
            s,
            sh,
            m,
            i,
        ) {
            Some(o) => !touches(o.x, o.y, o.vertical, o.step, a, b),
            None => true,
        }
}

/// In a chroma plane of an MBAFF frame, a line that is filtered becomes the filtered line, where no
/// other filtered line touches its samples.
pub proof fn law_mbaff_lone_chroma_line_is_filtered(
    p: PlaneV,
    c: EdgeCtxV,
    s: PlaneFilter,
    sh: int,
    addr: int,
    e: int,
    d: int,
)
    requires
        c.g.w >= 1,
        c.g.h >= 1,
        0 <= addr < c.g.w * c.g.h,
        sh == 1 || sh == 2,
        0 <= e < lines(sh),
        -3 <= d <= 2,
        mbaff_chroma_cut(c, s, sh, addr, e) matches Some(l) && (l.step == 1 || l.step == 2)
            && l.f.bit_depth <= 14 && line_inside(p, l.x, l.y, l.vertical, l.step) && samples_in_range(
            line_at(p, l.x, l.y, l.vertical, l.step),
            l.f.bit_depth,
        ) && forall|i: int|
            -4 <= i <= 3 ==> only_chroma_touched_by(
                c,
                s,
                sh,
                addr,
                e,
                (#[trigger] line_pos(l.x, l.y, l.vertical, l.step, i)).0,
                line_pos(l.x, l.y, l.vertical, l.step, i).1,
            ),
    ensures
        ({
            let l = mbaff_chroma_cut(c, s, sh, addr, e)->0;
            let (a, b) = line_pos(l.x, l.y, l.vertical, l.step, d);
            (deblocked_mbaff_chroma(p, c, s, sh).at)(a, b) == part(
                filtered(line_at(p, l.x, l.y, l.vertical, l.step), l.f),
                d,
            )
        }),
{
    reveal(deblocked_mbaff_chroma);
    let mbs = c.g.w * c.g.h;
    let n = lines(sh) * mbs;
    let cut = mbaff_chroma_cuts(c, s, sh);
    let m = lines(sh) * addr + e;
    let l = mbaff_chroma_cut(c, s, sh, addr, e)->0;
    lemma_line_number(lines(sh), addr, e, mbs);
    lemma_mbaff_chroma_run(p, c, s, sh, 0, mbs);
    assert forall|i: int| -4 <= i <= 3 implies misses(
        cut,
        0,
        m,
        (#[trigger] line_pos(l.x, l.y, l.vertical, l.step, i)).0,
        line_pos(l.x, l.y, l.vertical, l.step, i).1,
    ) && misses(
        cut,
        m + 1,
        n,
        line_pos(l.x, l.y, l.vertical, l.step, i).0,
        line_pos(l.x, l.y, l.vertical, l.step, i).1,
    ) by {
        let (a, b) = line_pos(l.x, l.y, l.vertical, l.step, i);
        assert(only_chroma_touched_by(c, s, sh, addr, e, a, b));
        assert forall|k: int| 0 <= k < n && k != m implies match #[trigger] cut(k) {
            Some(o) => !touches(o.x, o.y, o.vertical, o.step, a, b),
            None => true,
        } by {
            let (q, r) = (k / lines(sh), k % lines(sh));
            lemma_line_parts(lines(sh), k, mbs);
            assert(mbaff_chroma_cut(c, s, sh, q, r) == cut(k));
        }
    }
    lemma_run_line(p, cut, 0, m, n, d);
}

proof fn lemma_line_number(m: int, addr: int, e: int, n: int)
    requires
        m == 40 || m == 72,
        0 <= addr < n,
        0 <= e < m,
    ensures
        (m * addr + e) / m == addr,
        (m * addr + e) % m == e,
        0 <= m * addr + e < m * n,
{
    if m == 40 {
        assert((40 * addr + e) / 40 == addr && (40 * addr + e) % 40 == e);
    } else {
        assert((72 * addr + e) / 72 == addr && (72 * addr + e) % 72 == e);
    }
}

proof fn lemma_line_parts(m: int, k: int, n: int)
    requires
        m == 40 || m == 72,
        0 <= k < m * n,
    ensures
        k == m * (k / m) + k % m,
        0 <= k % m < m,
        0 <= k / m < n,
{
    if m == 40 {
        assert(k == 40 * (k / 40) + k % 40);
    } else {
        assert(k == 72 * (k / 72) + k % 72);
    }
}

} // verus!
