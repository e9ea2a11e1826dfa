//! Derivation of the prediction modes of 4x4 and 8x8 intra blocks.
use crate::geometry::{LUMA_4X4_XY, LUMA_8X8_XY};
use crate::macroblock_layer::MbPred;
use crate::math::min_of;
use crate::mb_address::{mbaff_neigh_location, MAX_ADDR};
use crate::mb_grid::{GridV, MbGrid, MbInfo, MbInfoV};
use vstd::prelude::*;

verus! {

impl GridV {
    /// Macroblock that covers a luma location given relative to macroblock `addr`, and the
    /// location inside it.
    pub open spec fn luma_location(self, addr: int, xn: int, yn: int) -> Option<(int, int, int)> {
        if self.mbaff {
            self.mbaff_location(addr, xn, yn, 16, 16)
        } else {
            let (a, b, c, d) = self.neighbours(addr);
            let n = if xn < 0 && yn < 0 {
                d
            } else if xn < 0 && yn < 16 {
                a
            } else if xn >= 0 && xn < 16 && yn < 0 {
                b
            } else if xn >= 0 && xn < 16 && yn < 16 {
                Some(addr)
            } else {
                None
            };
            match n {
                Some(m) => Some((m, (xn + 16) % 16, (yn + 16) % 16)),
                None => None,
            }
        }
    }

    /// Macroblock and 4x4 block at an offset from position `(bx, by)` of macroblock `addr`.
    pub open spec fn block4_at(self, addr: int, x: int, y: int) -> Option<(int, int)> {
        match self.luma_location(addr, x, y) {
            Some((n, xw, yw)) => Some((n, crate::geometry::blk4_of(xw / 4, yw / 4))),
            None => None,
        }
    }

    /// Macroblock and 8x8 block at a position relative to macroblock `addr`.
    pub open spec fn block8_at(self, addr: int, x: int, y: int) -> Option<(int, int)> {
        match self.luma_location(addr, x, y) {
            Some((n, xw, yw)) => Some((n, 2 * (yw / 8) + xw / 8)),
            None => None,
        }
    }

    /// Record of a neighbour that mode prediction may use: decoded, in the same slice, and intra
    /// where only intra macroblocks may be used.
    pub open spec fn mode_source(self, n: Option<(int, int)>, cip: bool, slice_id: int) -> Option<
        MbInfoV,
    > {
        match n {
            Some((addr, blk)) => match self.get(addr) {
                Some(i) => if i.available && !(cip && !i.is_intra) && !(slice_id >= 0 && i.slice_id
                    >= 0 && i.slice_id != slice_id) {
                    Some(i)
                } else {
                    None
                },
                None => None,
            },
            None => None,
        }
    }
}

/// The macroblock is predicted block by block.
pub open spec fn is_nxn(i: MbInfoV) -> bool {
    i.is_intra && !i.is_i_pcm && i.is_intra_nxn
}

/// Luma location relative to a macroblock.
pub fn luma_location(grid: &MbGrid, mb_addr: u32, xn: i32, yn: i32) -> (r: Option<(u32, i32, i32)>)
    requires
        grid.wf(),
        mb_addr <= MAX_ADDR,
        -16 <= xn <= 32,
        -16 <= yn <= 32,
    ensures
        match r {
            Some((n, xw, yw)) => grid@.luma_location(mb_addr as int, xn as int, yn as int) == Some(
                (n as int, xw as int, yw as int),
            ) && 0 <= xw < 16 && 0 <= yw < 16,
            None => grid@.luma_location(mb_addr as int, xn as int, yn as int) is None,
        },
{
    if grid.mbaff_frame_flag {
        mbaff_neigh_location(grid, mb_addr, xn, yn, 16, 16)
    } else {
        let nb = grid.neighbour_mb_addrs(mb_addr);
        let n = if xn < 0 && yn < 0 {
            nb[3]
        } else if xn < 0 && yn < 16 {
            nb[0]
        } else if xn >= 0 && xn < 16 && yn < 0 {
            nb[1]
        } else if xn >= 0 && xn < 16 && yn < 16 {
            Some(mb_addr)
        } else {
            None
        };
        match n {
            Some(m) => Some((m, (xn + 16) % 16, (yn + 16) % 16)),
            None => None,
        }
    }
}

pub open spec fn opt_pair(r: Option<(u32, usize)>) -> Option<(int, int)> {
    match r {
        Some((a, b)) => Some((a as int, b as int)),
        None => None,
    }
}

/// Macroblock and 4x4 block at offset `(xd, yd)` from position `(bx, by)` of a macroblock.
pub fn neighbour_4x4_addr(grid: &MbGrid, mb_addr: u32, bx: i32, by: i32, xd: i32, yd: i32) -> (r:
    Option<(u32, usize)>)
    requires
        grid.wf(),
        mb_addr <= MAX_ADDR,
        0 <= bx < 16,
        0 <= by < 16,
        -16 <= xd <= 16,
        -16 <= yd <= 16,
    ensures
        opt_pair(r) == grid@.block4_at(mb_addr as int, bx + xd, by + yd),
        r matches Some((n, blk)) ==> blk < 16,
{
    match luma_location(grid, mb_addr, bx + xd, by + yd) {
        Some((n, xw, yw)) => {
            let blk: usize = (8 * (yw / 8) + 4 * (xw / 8) + 2 * ((yw % 8) / 4) + (xw % 8)
                / 4) as usize;
            Some((n, blk))
        },
        None => None,
    }
}

/// Macroblock and 8x8 block at offset `(xd, yd)` from 8x8 block `blk8` of a macroblock.
pub fn neighbour_8x8_addr(grid: &MbGrid, mb_addr: u32, blk8: usize, xd: i32, yd: i32) -> (r: Option<
    (u32, usize),
>)
    requires
        grid.wf(),
        mb_addr <= MAX_ADDR,
        blk8 < 4,
        -8 <= xd <= 8,
        -8 <= yd <= 8,
    ensures
        opt_pair(r) == grid@.block8_at(
            mb_addr as int,
            LUMA_8X8_XY[blk8 as int].0 + xd,
            LUMA_8X8_XY[blk8 as int].1 + yd,
        ),
        r matches Some((n, blk)) ==> blk < 4,
{
    let (x, y) = LUMA_8X8_XY[blk8];
    match luma_location(grid, mb_addr, x + xd, y + yd) {
        Some((n, xw, yw)) => Some((n, (2 * (yw / 8) + xw / 8) as usize)),
        None => None,
    }
}

fn intra_neighbour_mb_info(
    grid: &MbGrid,
    n: Option<(u32, usize)>,
    constrained_intra_pred: bool,
    current_slice_id: i32,
) -> (r: Option<&MbInfo>)
    ensures
        match r {
            Some(i) => grid@.mode_source(
                opt_pair(n),
                constrained_intra_pred,
                current_slice_id as int,
            ) == Some(i@),
            None => grid@.mode_source(
                opt_pair(n),
                constrained_intra_pred,
                current_slice_id as int,
            ) is None,
        },
{
    match n {
        Some((addr, _)) => match grid.get(addr) {
            Some(i) => if i.available && !(constrained_intra_pred && !i.is_intra) && !(
            current_slice_id >= 0 && i.slice_id >= 0 && i.slice_id != current_slice_id) {
                Some(i)
            } else {
                None
            },
            None => None,
        },
        None => None,
    }
}

/// Mode that a neighbour contributes to a 4x4 block; DC for macroblocks not predicted by blocks.
pub open spec fn contributed4(i: MbInfoV, blk: int) -> int {
    if is_nxn(i) && !i.transform_size_8x8_flag {
        i.intra_4x4_pred_modes[blk] as int
    } else if is_nxn(i) {
        i.intra_8x8_pred_modes[blk / 4] as int
    } else {
        2
    }
}

/// Mode that a neighbour contributes to an 8x8 block; of a macroblock with 4x4 blocks, that of the
/// block with number `n` in the quadrant.
pub open spec fn contributed8(i: MbInfoV, blk: int, n: int) -> int {
    if is_nxn(i) && i.transform_size_8x8_flag {
        i.intra_8x8_pred_modes[blk] as int
    } else if is_nxn(i) {
        i.intra_4x4_pred_modes[4 * blk + n] as int
    } else {
        2
    }
}

/// Mode chosen by the syntax elements, given the predicted mode.
pub open spec fn chosen_mode(predicted: int, prev: bool, rem: int) -> int {
    if prev {
        predicted
    } else if rem < predicted {
        rem
    } else {
        rem + 1
    }
}

/// A mode that is not signalled as the predicted one differs from it.
pub proof fn law_remaining_mode_differs(predicted: int, rem: int)
    ensures
        chosen_mode(predicted, false, rem) != predicted,
{
}

/// Every mode other than the predicted one has exactly one remaining-mode value.
pub proof fn law_remaining_mode_unique(predicted: int, r1: int, r2: int)
    requires
        chosen_mode(predicted, false, r1) == chosen_mode(predicted, false, r2),
    ensures
        r1 == r2,
{
}

/// Predicted mode of the 4x4 block at `(x, y)` of macroblock `addr`: the smaller of the modes to
/// the left and above, DC where one of them is missing.
pub open spec fn predicted4(g: GridV, addr: int, x: int, y: int, cip: bool, slice_id: int) -> int {
    let na = g.block4_at(addr, x - 1, y);
    let nb = g.block4_at(addr, x, y - 1);
    match (g.mode_source(na, cip, slice_id), g.mode_source(nb, cip, slice_id), na, nb) {
        (Some(a), Some(b), Some((_, ka)), Some((_, kb))) => min_of(
            contributed4(a, ka),
            contributed4(b, kb),
        ),
        _ => 2,
    }
}

/// Predicted mode of the 8x8 block at `(x, y)` of macroblock `addr`.
pub open spec fn predicted8(g: GridV, addr: int, x: int, y: int, cip: bool, slice_id: int) -> int {
    let na = g.block8_at(addr, x - 1, y);
    let nb = g.block8_at(addr, x, y - 1);
    match (g.mode_source(na, cip, slice_id), g.mode_source(nb, cip, slice_id), na, nb) {
        (Some(a), Some(b), Some((_, ka)), Some((_, kb))) => min_of(
            contributed8(a, ka, 1),
            contributed8(b, kb, 2),
        ),
        _ => 2,
    }
}

/// Prediction mode of 4x4 block `blk` of macroblock `addr`.
#[verifier::opaque]
pub open spec fn mode4(g: GridV, addr: int, blk: int, p: MbPred, cip: bool, slice_id: int) -> int {
    chosen_mode(
        predicted4(
            g,
            addr,
            LUMA_4X4_XY[blk].0 as int,
            LUMA_4X4_XY[blk].1 as int,
            cip,
            slice_id,
        ),
        p.prev_intra4x4_pred_mode_flag@[blk],
        p.rem_intra4x4_pred_mode@[blk] as int,
    )
}

/// Prediction mode of 8x8 block `blk` of macroblock `addr`.
#[verifier::opaque]
pub open spec fn mode8(g: GridV, addr: int, blk: int, p: MbPred, cip: bool, slice_id: int) -> int {
    chosen_mode(
        predicted8(
            g,
            addr,
            LUMA_8X8_XY[blk].0 as int,
            LUMA_8X8_XY[blk].1 as int,
            cip,
            slice_id,
        ),
        p.prev_intra8x8_pred_mode_flag@[blk],
        p.rem_intra8x8_pred_mode@[blk] as int,
    )
}

fn mb_is_intra_nxn(info: &MbInfo) -> (r: bool)
    ensures
        r == is_nxn(info@),
{
    info.is_intra && !info.is_i_pcm && info.is_intra_nxn
}

fn mode_from_4x4(info: &MbInfo, blk: usize) -> (r: u8)
    requires
        blk < 16,
    ensures
        r == contributed4(info@, blk as int),
{
    if !mb_is_intra_nxn(info) {
        2
    } else if !info.transform_size_8x8_flag {
        info.intra_4x4_pred_modes[blk]
    } else {
        info.intra_8x8_pred_modes[blk / 4]
    }
}

fn mode_from_8x8(info: &MbInfo, blk: usize, n: usize) -> (r: u8)
    requires
        blk < 4,
        n < 4,
    ensures
        r == contributed8(info@, blk as int, n as int),
{
    if !mb_is_intra_nxn(info) {
        2
    } else if info.transform_size_8x8_flag {
        info.intra_8x8_pred_modes[blk]
    } else {
        info.intra_4x4_pred_modes[4 * blk + n]
    }
}

fn choose_mode(predicted: u8, prev: bool, rem: u8) -> (r: u8)
    requires
        prev || rem < 255,
    ensures
        r == chosen_mode(predicted as int, prev, rem as int),
{
    if prev {
        predicted
    } else if rem < predicted {
        rem
    } else {
        rem + 1
    }
}

/// Derives the prediction mode of a 4x4 block from its neighbours and the parsed elements.
pub fn derive_intra_4x4_pred_mode(
    grid: &MbGrid,
    mb_addr: u32,
    block_idx: usize,
    pred: &MbPred,
    constrained_intra_pred: bool,
    current_slice_id: i32,
) -> (r: u8)
    requires
        grid.wf(),
        mb_addr <= MAX_ADDR,
        block_idx < 16,
        pred.wf(),
    ensures
        r == mode4(
            grid@,
            mb_addr as int,
            block_idx as int,
            *pred,
            constrained_intra_pred,
            current_slice_id as int,
        ),
{
    proof {
        reveal(mode4);
    }
    let (bx, by) = LUMA_4X4_XY[block_idx];
    let na = neighbour_4x4_addr(grid, mb_addr, bx, by, -1, 0);
    let nb = neighbour_4x4_addr(grid, mb_addr, bx, by, 0, -1);
    let a = intra_neighbour_mb_info(grid, na, constrained_intra_pred, current_slice_id);
    let b = intra_neighbour_mb_info(grid, nb, constrained_intra_pred, current_slice_id);
    let predicted: u8 = match (a, b, na, nb) {
        (Some(ia), Some(ib), Some((_, ka)), Some((_, kb))) => {
            let ma = mode_from_4x4(ia, ka);
            let mb = mode_from_4x4(ib, kb);
            if ma <= mb {
                ma
            } else {
                mb
            }
        },
        _ => 2,
    };
    choose_mode(
        predicted,
        pred.prev_intra4x4_pred_mode_flag[block_idx],
        pred.rem_intra4x4_pred_mode[block_idx],
    )
}

/// Derives the prediction mode of an 8x8 block from its neighbours and the parsed elements.
pub fn derive_intra_8x8_pred_mode(
    grid: &MbGrid,
    mb_addr: u32,
    blk8: usize,
    pred: &MbPred,
    constrained_intra_pred: bool,
    current_slice_id: i32,
) -> (r: u8)
    requires
        grid.wf(),
        mb_addr <= MAX_ADDR,
        blk8 < 4,
        pred.wf(),
    ensures
        r == mode8(
            grid@,
            mb_addr as int,
            blk8 as int,
            *pred,
            constrained_intra_pred,
            current_slice_id as int,
        ),
{
    proof {
        reveal(mode8);
    }
    let na = neighbour_8x8_addr(grid, mb_addr, blk8, -1, 0);
    let nb = neighbour_8x8_addr(grid, mb_addr, blk8, 0, -1);
    let a = intra_neighbour_mb_info(grid, na, constrained_intra_pred, current_slice_id);
    let b = intra_neighbour_mb_info(grid, nb, constrained_intra_pred, current_slice_id);
    let predicted: u8 = match (a, b, na, nb) {
        (Some(ia), Some(ib), Some((_, ka)), Some((_, kb))) => {
            let ma = mode_from_8x8(ia, ka, 1);
            let mb = mode_from_8x8(ib, kb, 2);
            if ma <= mb {
                ma
            } else {
                mb
            }
        },
        _ => 2,
    };
    choose_mode(
        predicted,
        pred.prev_intra8x8_pred_mode_flag[blk8],
        pred.rem_intra8x8_pred_mode[blk8],
    )
}

} // verus!
