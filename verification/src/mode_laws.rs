//! Laws of intra prediction modes and of coded block masks.
use crate::geometry::{LUMA_4X4_XY, LUMA_8X8_XY};
use crate::intra_modes::{mode4, mode8};
use crate::intra_pred::IntraNxNMode;
use crate::macroblock_layer::{Macroblock, MbPred};
use crate::mb_grid::{GridV, MbInfoV};
use crate::motion_laws::z_order;
use crate::plane::PlaneV;
use crate::recon_blocks::{block4, block8, PlaneCtx};
use crate::recon_intra::{luma4_from, luma8_from};
use vstd::prelude::*;

verus! {

/// The prediction mode at a luma position of a macroblock: that of the 4x4 or 8x8 block there, DC
/// where the macroblock is not predicted by such blocks.
pub open spec fn mode_at(i: MbInfoV, x: int, y: int) -> int {
    if !i.is_intra || i.is_i_pcm || !i.is_intra_nxn {
        2
    } else if i.transform_size_8x8_flag {
        i.intra_8x8_pred_modes[y / 8 * 2 + x / 8] as int
    } else {
        i.intra_4x4_pred_modes[z_order(x / 4, y / 4)] as int
    }
}

/// The macroblock may be used to predict modes.
pub open spec fn tells_mode(i: MbInfoV, constrained: bool, slice_id: int) -> bool {
    &&& i.available
    &&& constrained ==> i.is_intra
    &&& slice_id >= 0 && i.slice_id >= 0 ==> i.slice_id == slice_id
}

/// The mode that is predicted at position `(x, y)` of macroblock `addr`: the smaller of the modes
/// at the samples to the left and above; DC where one of them cannot be used.
pub open spec fn is_predicted_mode(
    g: GridV,
    addr: int,
    x: int,
    y: int,
    constrained: bool,
    slice_id: int,
    m: int,
) -> bool {
    let left = if x > 0 {
        g.info[addr]
    } else {
        g.info[addr - 1]
    };
    let above = if y > 0 {
        g.info[addr]
    } else {
        g.info[addr - g.w]
    };
    let has_left = (x > 0 || addr % g.w > 0) && tells_mode(left, constrained, slice_id);
    let has_above = (y > 0 || addr >= g.w) && tells_mode(above, constrained, slice_id);
    let a = mode_at(left, (x + 15) % 16, y);
    let b = mode_at(above, x, (y + 15) % 16);
    if has_left && has_above {
        m <= a && m <= b && (m == a || m == b)
    } else {
        m == 2
    }
}

/// The mode a block gets: the predicted one where so signalled, else the remaining mode, which does
/// not count the predicted one.
pub open spec fn is_chosen(mode: int, predicted: int, prev: bool, rem: int) -> bool {
    if prev {
        mode == predicted
    } else {
        mode != predicted && rem == if mode < predicted {
            mode
        } else {
            mode - 1
        }
    }
}

/// Modes of the 4x4 and 8x8 blocks of a macroblock of a picture that is not MBAFF.
pub proof fn law_modes_follow_neighbours(
    g: GridV,
    addr: int,
    p: MbPred,
    constrained: bool,
    slice_id: int,
    column: int,
    row: int,
    m: int,
)
    requires
        !g.mbaff,
        g.w >= 1,
        0 <= addr < g.info.len(),
        0 <= column < 4,
        0 <= row < 4,
        is_predicted_mode(g, addr, 4 * column, 4 * row, constrained, slice_id, m),
    ensures
        ({
            let blk = z_order(column, row);
            is_chosen(
                mode4(g, addr, blk, p, constrained, slice_id),
                m,
                p.prev_intra4x4_pred_mode_flag@[blk],
                p.rem_intra4x4_pred_mode@[blk] as int,
            )
        }),
        column % 2 == 0 && row % 2 == 0 ==> ({
            let blk = row + column / 2;
            is_chosen(
                mode8(g, addr, blk, p, constrained, slice_id),
                m,
                p.prev_intra8x8_pred_mode_flag@[blk],
                p.rem_intra8x8_pred_mode@[blk] as int,
            )
        }),
{
    lemma_mode4(g, addr, p, constrained, slice_id, column, row, m);
    if column % 2 == 0 && row % 2 == 0 {
        lemma_mode8(g, addr, p, constrained, slice_id, column / 2, row / 2, m);
    }
}

#[verifier::spinoff_prover]
#[verifier::rlimit(40)]
proof fn lemma_mode4(
    g: GridV,
    addr: int,
    p: MbPred,
    constrained: bool,
    slice_id: int,
    column: int,
    row: int,
    m: int,
)
    requires
        !g.mbaff,
        g.w >= 1,
        0 <= addr < g.info.len(),
        0 <= column < 4,
        0 <= row < 4,
        is_predicted_mode(g, addr, 4 * column, 4 * row, constrained, slice_id, m),
    ensures
        ({
            let blk = z_order(column, row);
            is_chosen(
                mode4(g, addr, blk, p, constrained, slice_id),
                m,
                p.prev_intra4x4_pred_mode_flag@[blk],
                p.rem_intra4x4_pred_mode@[blk] as int,
            )
        }),
{
    reveal(mode4);
    let blk = z_order(column, row);
    let (x, y) = (4 * column, 4 * row);
    assert(LUMA_4X4_XY[blk].0 == x && LUMA_4X4_XY[blk].1 == y);
    lemma_rows(addr, g.w);
    lemma_left(g, addr, x, y);
    lemma_above(g, addr, x, y);
    lemma_quarter((x + 15) % 16, y);
    lemma_quarter(x, (y + 15) % 16);
    let predicted = crate::intra_modes::predicted4(g, addr, x, y, constrained, slice_id);
    assert(predicted == m);
}

#[verifier::spinoff_prover]
#[verifier::rlimit(40)]
proof fn lemma_mode8(
    g: GridV,
    addr: int,
    p: MbPred,
    constrained: bool,
    slice_id: int,
    column: int,
    row: int,
    m: int,
)
    requires
        !g.mbaff,
        g.w >= 1,
        0 <= addr < g.info.len(),
        0 <= column < 2,
        0 <= row < 2,
        is_predicted_mode(g, addr, 8 * column, 8 * row, constrained, slice_id, m),
    ensures
        ({
            let blk = 2 * row + column;
            is_chosen(
                mode8(g, addr, blk, p, constrained, slice_id),
                m,
                p.prev_intra8x8_pred_mode_flag@[blk],
                p.rem_intra8x8_pred_mode@[blk] as int,
            )
        }),
{
    reveal(mode8);
    let blk = 2 * row + column;
    let (x, y) = (8 * column, 8 * row);
    assert(LUMA_8X8_XY[blk].0 == x && LUMA_8X8_XY[blk].1 == y);
    lemma_rows(addr, g.w);
    lemma_left(g, addr, x, y);
    lemma_above(g, addr, x, y);
    let predicted = crate::intra_modes::predicted8(g, addr, x, y, constrained, slice_id);
    assert(z_order((x + 15) % 16 / 4, y / 4) == 4 * (y / 8 * 2 + (x + 15) % 16 / 8) + 1);
    assert(z_order(x / 4, (y + 15) % 16 / 4) == 4 * ((y + 15) % 16 / 8 * 2 + x / 8) + 2);
    assert(predicted == m);
}

proof fn lemma_quarter(x: int, y: int)
    requires
        0 <= x < 16,
        0 <= y < 16,
    ensures
        z_order(x / 4, y / 4) / 4 == y / 8 * 2 + x / 8,
{
}

proof fn lemma_left(g: GridV, addr: int, x: int, y: int)
    requires
        !g.mbaff,
        0 <= x < 16,
        0 <= y < 16,
    ensures
        ({
            let n = if x > 0 {
                Some(addr)
            } else if addr % g.w > 0 {
                Some(addr - 1)
            } else {
                None
            };
            let u = (x + 15) % 16;
            &&& g.block4_at(addr, x - 1, y) == match n {
                Some(n) => Some((n, z_order(u / 4, y / 4))),
                None => None,
            }
            &&& g.block8_at(addr, x - 1, y) == match n {
                Some(n) => Some((n, y / 8 * 2 + u / 8)),
                None => None,
            }
        }),
{
    assert((x - 1 + 16) % 16 == (x + 15) % 16 && (y + 16) % 16 == y);
}

proof fn lemma_above(g: GridV, addr: int, x: int, y: int)
    requires
        !g.mbaff,
        0 <= x < 16,
        0 <= y < 16,
    ensures
        ({
            let n = if y > 0 {
                Some(addr)
            } else if addr / g.w > 0 {
                Some(addr - g.w)
            } else {
                None
            };
            let v = (y + 15) % 16;
            &&& g.block4_at(addr, x, y - 1) == match n {
                Some(n) => Some((n, z_order(x / 4, v / 4))),
                None => None,
            }
            &&& g.block8_at(addr, x, y - 1) == match n {
                Some(n) => Some((n, v / 8 * 2 + x / 8)),
                None => None,
            }
        }),
{
    assert((y - 1 + 16) % 16 == (y + 15) % 16 && (x + 16) % 16 == x);
}

proof fn lemma_rows(addr: int, w: int)
    requires
        0 <= addr,
        w >= 1,
    ensures
        (addr / w > 0) == (addr >= w),
        addr % w <= addr,
{
    crate::mb_address::lemma_div_mod_bound(addr, w);
    let q = addr / w;
    assert((q > 0) == (addr >= w)) by (nonlinear_arith)
        requires
            addr == w * q + addr % w,
            0 <= addr % w < w,
            q >= 0,
    ;
}

/// The grids differ at most in the 4x4 modes of macroblock `addr` from number `k` on.
pub open spec fn same_before(g: GridV, h: GridV, addr: int, k: int) -> bool {
    &&& g.w == h.w && g.h == h.h && g.mbaff == h.mbaff && g.info.len() == h.info.len()
    &&& forall|n: int| 0 <= n < g.info.len() && n != addr ==> #[trigger] g.info[n] == h.info[n]
    &&& h.info[addr] == MbInfoV {
        intra_4x4_pred_modes: h.info[addr].intra_4x4_pred_modes,
        ..g.info[addr]
    }
    &&& g.info[addr].intra_4x4_pred_modes.len() == 16
    &&& h.info[addr].intra_4x4_pred_modes.len() == 16
    &&& forall|b: int|
        0 <= b < k ==> #[trigger] g.info[addr].intra_4x4_pred_modes[b]
            == h.info[addr].intra_4x4_pred_modes[b]
}

#[verifier::spinoff_prover]
#[verifier::rlimit(40)]
proof fn lemma_mode_early(
    g: GridV,
    h: GridV,
    addr: int,
    blk: int,
    p: MbPred,
    cip: bool,
    slice_id: int,
)
    requires
        !g.mbaff,
        g.w >= 1,
        0 <= addr < g.info.len(),
        0 <= blk < 16,
        same_before(g, h, addr, blk),
        !g.info[addr].transform_size_8x8_flag,
    ensures
        mode4(g, addr, blk, p, cip, slice_id) == mode4(h, addr, blk, p, cip, slice_id),
{
    reveal(mode4);
    lemma_rows(addr, g.w);
    let (x, y) = (LUMA_4X4_XY[blk].0 as int, LUMA_4X4_XY[blk].1 as int);
    lemma_left(g, addr, x, y);
    lemma_above(g, addr, x, y);
    lemma_left(h, addr, x, y);
    lemma_above(h, addr, x, y);
    lemma_earlier(blk);
    assert(crate::intra_modes::predicted4(g, addr, x, y, cip, slice_id)
        == crate::intra_modes::predicted4(h, addr, x, y, cip, slice_id));
}

proof fn lemma_earlier(blk: int)
    requires
        0 <= blk < 16,
    ensures
        ({
            let (x, y) = (LUMA_4X4_XY[blk].0 as int, LUMA_4X4_XY[blk].1 as int);
            &&& 0 <= x <= 12 && 0 <= y <= 12
            &&& x > 0 ==> 0 <= z_order((x + 15) % 16 / 4, y / 4) < blk
            &&& y > 0 ==> 0 <= z_order(x / 4, (y + 15) % 16 / 4) < blk
        }),
{
}

/// After the 4x4 blocks of a macroblock, the grid holds the mode of every block: the one that
/// follows from what the grid holds to the left of the block and above it. The other records stay.
pub proof fn law_4x4_modes_are_recorded(
    p: PlaneV,
    g: GridV,
    c: PlaneCtx,
    mb: Macroblock,
    pred: MbPred,
    w: Seq<int>,
    si_qs: Option<i64>,
    blk: int,
    b: int,
)
    requires
        !g.mbaff,
        g.w >= 1,
        (c.nb.addr as int) < g.info.len(),
        !g.info[c.nb.addr as int].transform_size_8x8_flag,
        g.info[c.nb.addr as int].intra_4x4_pred_modes.len() == 16,
        0 <= blk <= b < 16,
    ensures
        ({
            let r = luma4_from(p, g, c, mb, pred, w, si_qs, blk);
            let addr = c.nb.addr as int;
            r.2 is None ==> IntraNxNMode::of(
                mode4(r.1, addr, b, pred, c.nb.cip, c.nb.slice_id as int),
            ) == IntraNxNMode::of(r.1.info[addr].intra_4x4_pred_modes[b] as int)
        }),
{
    lemma_modes_from(p, g, c, mb, pred, w, si_qs, blk, b);
}

pub proof fn lemma_modes_from(
    p: PlaneV,
    g: GridV,
    c: PlaneCtx,
    mb: Macroblock,
    pred: MbPred,
    w: Seq<int>,
    si_qs: Option<i64>,
    blk: int,
    b: int,
)
    requires
        !g.mbaff,
        g.w >= 1,
        (c.nb.addr as int) < g.info.len(),
        !g.info[c.nb.addr as int].transform_size_8x8_flag,
        g.info[c.nb.addr as int].intra_4x4_pred_modes.len() == 16,
        0 <= blk <= 16,
    ensures
        ({
            let r = luma4_from(p, g, c, mb, pred, w, si_qs, blk);
            let addr = c.nb.addr as int;
            &&& same_before(g, r.1, addr, blk)
            &&& r.2 is None && blk <= b < 16 ==> IntraNxNMode::of(
                mode4(r.1, addr, b, pred, c.nb.cip, c.nb.slice_id as int),
            ) == IntraNxNMode::of(r.1.info[addr].intra_4x4_pred_modes[b] as int)
        }),
    decreases 16 - blk,
{
    let addr = c.nb.addr as int;
    if blk < 16 {
        let m = mode4(g, addr, blk, pred, c.nb.cip, c.nb.slice_id as int);
        let mode = IntraNxNMode::of(m);
        let step = block4(
            p,
            g,
            c,
            blk,
            mode,
            crate::residual::levels4(mb.residual_luma@, crate::residual::cbp_luma(mb), blk),
            w,
            si_qs,
        );
        if step.1 is None {
            let h = g.with_mode4(addr, blk, mode.index());
            lemma_modes_from(step.0, h, c, mb, pred, w, si_qs, blk + 1, b);
            let r = luma4_from(p, g, c, mb, pred, w, si_qs, blk);
            assert(same_before(g, h, addr, blk));
            assert(h.info[addr].intra_4x4_pred_modes[blk] == mode.index());
            assert(r.1.info[addr].intra_4x4_pred_modes[blk] == mode.index());
            assert(same_before(g, r.1, addr, blk));
            lemma_mode_early(g, r.1, addr, blk, pred, c.nb.cip, c.nb.slice_id as int);
        }
    }
}

/// The grids differ at most in the 8x8 modes of macroblock `addr` from number `k` on.
pub open spec fn same_before8(g: GridV, h: GridV, addr: int, k: int) -> bool {
    &&& g.w == h.w && g.h == h.h && g.mbaff == h.mbaff && g.info.len() == h.info.len()
    &&& forall|n: int| 0 <= n < g.info.len() && n != addr ==> #[trigger] g.info[n] == h.info[n]
    &&& h.info[addr] == MbInfoV {
        intra_8x8_pred_modes: h.info[addr].intra_8x8_pred_modes,
        ..g.info[addr]
    }
    &&& g.info[addr].intra_8x8_pred_modes.len() == 4
    &&& h.info[addr].intra_8x8_pred_modes.len() == 4
    &&& forall|b: int|
        0 <= b < k ==> #[trigger] g.info[addr].intra_8x8_pred_modes[b]
            == h.info[addr].intra_8x8_pred_modes[b]
}

#[verifier::spinoff_prover]
#[verifier::rlimit(40)]
proof fn lemma_mode_early8(
    g: GridV,
    h: GridV,
    addr: int,
    blk: int,
    p: MbPred,
    cip: bool,
    slice_id: int,
)
    requires
        !g.mbaff,
        g.w >= 1,
        0 <= addr < g.info.len(),
        0 <= blk < 4,
        same_before8(g, h, addr, blk),
        g.info[addr].transform_size_8x8_flag,
    ensures
        mode8(g, addr, blk, p, cip, slice_id) == mode8(h, addr, blk, p, cip, slice_id),
{
    reveal(mode8);
    lemma_rows(addr, g.w);
    let (x, y) = (LUMA_8X8_XY[blk].0 as int, LUMA_8X8_XY[blk].1 as int);
    lemma_left(g, addr, x, y);
    lemma_above(g, addr, x, y);
    lemma_left(h, addr, x, y);
    lemma_above(h, addr, x, y);
    lemma_earlier8(blk);
    assert(crate::intra_modes::predicted8(g, addr, x, y, cip, slice_id)
        == crate::intra_modes::predicted8(h, addr, x, y, cip, slice_id));
}

proof fn lemma_earlier8(blk: int)
    requires
        0 <= blk < 4,
    ensures
        ({
            let (x, y) = (LUMA_8X8_XY[blk].0 as int, LUMA_8X8_XY[blk].1 as int);
            &&& 0 <= x <= 8 && 0 <= y <= 8
            &&& x > 0 ==> 0 <= y / 8 * 2 + (x + 15) % 16 / 8 < blk
            &&& y > 0 ==> 0 <= (y + 15) % 16 / 8 * 2 + x / 8 < blk
        }),
{
}

/// After the 8x8 blocks of a macroblock, the grid holds the mode of every block: the one that
/// follows from what the grid holds to the left of the block and above it. The other records stay.
pub proof fn law_8x8_modes_are_recorded(
    p: PlaneV,
    g: GridV,
    c: PlaneCtx,
    mb: Macroblock,
    pred: MbPred,
    w: Seq<int>,
    blk: int,
    b: int,
)
    requires
        !g.mbaff,
        g.w >= 1,
        (c.nb.addr as int) < g.info.len(),
        g.info[c.nb.addr as int].transform_size_8x8_flag,
        g.info[c.nb.addr as int].intra_8x8_pred_modes.len() == 4,
        0 <= blk <= b < 4,
    ensures
        ({
            let r = luma8_from(p, g, c, mb, pred, w, blk);
            let addr = c.nb.addr as int;
            r.2 is None ==> IntraNxNMode::of(
                mode8(r.1, addr, b, pred, c.nb.cip, c.nb.slice_id as int),
            ) == IntraNxNMode::of(r.1.info[addr].intra_8x8_pred_modes[b] as int)
        }),
{
    lemma_modes_from8(p, g, c, mb, pred, w, blk, b);
}

pub proof fn lemma_modes_from8(
    p: PlaneV,
    g: GridV,
    c: PlaneCtx,
    mb: Macroblock,
    pred: MbPred,
    w: Seq<int>,
    blk: int,
    b: int,
)
    requires
        !g.mbaff,
        g.w >= 1,
        (c.nb.addr as int) < g.info.len(),
        g.info[c.nb.addr as int].transform_size_8x8_flag,
        g.info[c.nb.addr as int].intra_8x8_pred_modes.len() == 4,
        0 <= blk <= 4,
    ensures
        ({
            let r = luma8_from(p, g, c, mb, pred, w, blk);
            let addr = c.nb.addr as int;
            &&& same_before8(g, r.1, addr, blk)
            &&& r.2 is None && blk <= b < 4 ==> IntraNxNMode::of(
                mode8(r.1, addr, b, pred, c.nb.cip, c.nb.slice_id as int),
            ) == IntraNxNMode::of(r.1.info[addr].intra_8x8_pred_modes[b] as int)
        }),
    decreases 4 - blk,
{
    let addr = c.nb.addr as int;
    if blk < 4 {
        let m = mode8(g, addr, blk, pred, c.nb.cip, c.nb.slice_id as int);
        let mode = IntraNxNMode::of(m);
        let step = block8(
            p,
            g,
            c,
            blk,
            mode,
            crate::residual::levels8(mb.residual_luma@, crate::residual::cbp_luma(mb), blk),
            w,
        );
        if step.1 is None {
            let h = g.with_mode8(addr, blk, mode.index());
            lemma_modes_from8(step.0, h, c, mb, pred, w, blk + 1, b);
            let r = luma8_from(p, g, c, mb, pred, w, blk);
            assert(same_before8(g, h, addr, blk));
            assert(h.info[addr].intra_8x8_pred_modes[blk] == mode.index());
            assert(r.1.info[addr].intra_8x8_pred_modes[blk] == mode.index());
            assert(same_before8(g, r.1, addr, blk));
            lemma_mode_early8(g, r.1, addr, blk, pred, c.nb.cip, c.nb.slice_id as int);
        }
    }
}

} // verus!
