//! Motion vectors of inter partitions.
use crate::geometry::{blk4_of, blk4_raster_index};
use crate::math::{add_wrapping, floor_div, floor_mod, half_to_zero, wrap32};
use crate::mb_address::{mbaff_neigh_location, MAX_ADDR};
use crate::mb_grid::{GridV, MbGrid, MbInfoV};
use crate::mv_deriv::{
    derive_mvpred_with_d, derive_p_skip_mv_with_d, p_skip_mv, predicted_mv, Mv, MvpredShape,
    NeighbourMv, Neighbours,
};
use vstd::prelude::*;

verus! {

/// Lists that a partition is predicted from.
#[derive(Debug, Clone, Copy, PartialEq, Eq, Structural)]
pub enum PartMode {
    L0Only,
    L1Only,
    BiPred,
    /// Both lists, with vectors derived instead of coded.
    Direct,
}

/// A rectangle of a macroblock with its own motion, in luma samples.
#[derive(Debug, Clone, Copy)]
pub struct InterPartition {
    pub x: u8,
    pub y: u8,
    pub w: u8,
    pub h: u8,
    pub mode: PartMode,
    pub shape: MvpredShape,
    /// Negative where the list is not used.
    pub ref_idx_l0: i8,
    pub ref_idx_l1: i8,
    pub mvd_l0: (i32, i32),
    pub mvd_l1: (i32, i32),
    /// The macroblock was skipped.
    pub is_skip: bool,
    /// Vectors of direct prediction that are known already.
    pub precomputed_mv: Option<(Mv, Mv)>,
}

impl InterPartition {
    /// A rectangle of 4x4 blocks inside the macroblock.
    pub open spec fn wf(&self) -> bool {
        &&& self.x % 4 == 0
        &&& self.y % 4 == 0
        &&& self.w == 4 || self.w == 8 || self.w == 16
        &&& self.h == 4 || self.h == 8 || self.h == 16
        &&& self.x + self.w <= 16
        &&& self.y + self.h <= 16
    }

    pub open spec fn uses_l0(&self) -> bool {
        self.mode !is L1Only
    }

    pub open spec fn uses_l1(&self) -> bool {
        self.mode !is L0Only
    }
}

impl GridV {
    /// Macroblock and 4x4 block (column and row) at a luma location relative to macroblock `addr`.
    pub open spec fn mv_location(self, addr: int, xn: int, yn: int) -> Option<(int, int, int)> {
        if self.mbaff {
            match self.mbaff_location(addr, xn, yn, 16, 16) {
                Some((n, xw, yw)) => Some((n, xw / 4, yw / 4)),
                None => None,
            }
        } else {
            let nx = addr % self.w + xn / 16;
            let ny = addr / self.w + yn / 16;
            if nx < 0 || ny < 0 || nx >= self.w {
                None
            } else {
                Some((ny * self.w + nx, (xn % 16) / 4, (yn % 16) / 4))
            }
        }
    }
}

/// Motion of a block in one list.
pub open spec fn block_motion(i: MbInfoV, list: u8, blk: int) -> ((i16, i16), i8) {
    if list == 0 {
        (i.mv_l0[blk], i.ref_idx_l0[blk / 4])
    } else {
        (i.mv_l1[blk], i.ref_idx_l1[blk / 4])
    }
}

/// Motion of a neighbour in field or frame units of the current macroblock.
pub open spec fn in_units(mv: (i16, i16), ref_idx: i8, cur_field: bool, n_field: bool) -> NeighbourMv {
    let (y, r) = if cur_field && !n_field {
        (half_to_zero(mv.1 as int), ref_idx * 2)
    } else if !cur_field && n_field {
        (mv.1 * 2, ref_idx as int / 2)
    } else {
        (mv.1 as int, ref_idx as int)
    };
    NeighbourMv {
        mb_available: true,
        partition_available: true,
        ref_idx: r as i32,
        mv: Mv { x: mv.0 as i32, y: y as i32 },
    }
}

/// Motion at a luma location relative to macroblock `addr`.
///
/// The macroblock itself may be asked about its earlier partitions; those not decoded yet have no
/// reference in either list.
#[verifier::opaque]
pub open spec fn neighbour_mv(
    g: GridV,
    addr: int,
    xn: int,
    yn: int,
    list: u8,
    slice_id: int,
) -> NeighbourMv {
    match g.mv_location(addr, xn, yn) {
        None => NeighbourMv::absent(false, false),
        Some((n, bx, by)) => match g.get(n) {
            None => NeighbourMv::absent(false, false),
            Some(i) => {
                let blk = blk4_of(bx, by);
                let (mv, ref_idx) = block_motion(i, list, blk);
                let other = block_motion(
                    i,
                    if list == 0 {
                        1
                    } else {
                        0
                    },
                    blk,
                ).1;
                if n != addr && (!i.available || (slice_id >= 0 && i.slice_id >= 0 && i.slice_id
                    != slice_id)) {
                    NeighbourMv::absent(false, false)
                } else if i.is_intra {
                    NeighbourMv::absent(true, true)
                } else if ref_idx < 0 {
                    NeighbourMv::absent(true, !(n == addr && other < 0))
                } else {
                    in_units(
                        mv,
                        ref_idx,
                        g.mbaff && g.field_at(addr),
                        g.mbaff && i.mb_field_decoding_flag,
                    )
                }
            },
        },
    }
}

fn mv_location_of(grid: &MbGrid, mb_addr: u32, xn: i32, yn: i32) -> (r: Option<(u32, u8, u8)>)
    requires
        grid.wf(),
        mb_addr <= MAX_ADDR,
        -16 <= xn < 32,
        -16 <= yn < 32,
    ensures
        match r {
            Some((n, bx, by)) => grid@.mv_location(mb_addr as int, xn as int, yn as int) == Some(
                (n as int, bx as int, by as int),
            ) && bx < 4 && by < 4,
            None => grid@.mv_location(mb_addr as int, xn as int, yn as int) is None,
        },
{
    if grid.mbaff_frame_flag {
        match mbaff_neigh_location(grid, mb_addr, xn, yn, 16, 16) {
            Some((n, xw, yw)) => Some((n, (xw / 4) as u8, (yw / 4) as u8)),
            None => None,
        }
    } else {
        let (mx, my) = grid.mb_xy(mb_addr);
        let w: i64 = grid.width_in_mbs as i64;
        let nx: i64 = mx as i64 + floor_div(xn as i64, 16);
        let ny: i64 = my as i64 + floor_div(yn as i64, 16);
        if nx < 0 || ny < 0 || nx >= w {
            return None;
        }
        proof {
            crate::mb_address::lemma_div_mod_bound(mb_addr as int, w as int);
            let q = mb_addr as int / w as int;
            assert(w <= grid.info.len()) by (nonlinear_arith)
                requires
                    grid.info.len() == w * grid.height_in_mbs,
                    grid.height_in_mbs >= 1,
                    w >= 1,
            ;
            assert(0 <= ny * w <= mb_addr + w) by (nonlinear_arith)
                requires
                    0 <= ny <= q + 1,
                    w >= 1,
                    w * q <= mb_addr,
            ;
        }
        let n: u32 = (ny * w + nx) as u32;
        let bx: u8 = (floor_mod(xn as i64, 16) / 4) as u8;
        let by: u8 = (floor_mod(yn as i64, 16) / 4) as u8;
        Some((n, bx, by))
    }
}

fn motion_in_units(mv: (i16, i16), ref_idx: i8, cur_field: bool, n_field: bool) -> (r: NeighbourMv)
    requires
        ref_idx >= 0,
    ensures
        r == in_units(mv, ref_idx, cur_field, n_field),
{
    let y0: i32 = mv.1 as i32;
    let (y, r): (i32, i32) = if cur_field && !n_field {
        (
            if y0 < 0 {
                -((-y0) / 2)
            } else {
                y0 / 2
            },
            ref_idx as i32 * 2,
        )
    } else if !cur_field && n_field {
        (y0 * 2, ref_idx as i32 / 2)
    } else {
        (y0, ref_idx as i32)
    };
    NeighbourMv {
        mb_available: true,
        partition_available: true,
        ref_idx: r,
        mv: Mv { x: mv.0 as i32, y },
    }
}

/// Motion at a luma location relative to a macroblock.
pub fn neighbour_from_block(
    grid: &MbGrid,
    mb_addr: u32,
    xn: i32,
    yn: i32,
    list: u8,
    current_slice_id: i32,
) -> (r: NeighbourMv)
    requires
        grid.wf(),
        mb_addr <= MAX_ADDR,
        -16 <= xn < 32,
        -16 <= yn < 32,
    ensures
        r == neighbour_mv(
            grid@,
            mb_addr as int,
            xn as int,
            yn as int,
            list,
            current_slice_id as int,
        ),
{
    proof {
        reveal(neighbour_mv);
    }
    let (n, bx, by) = match mv_location_of(grid, mb_addr, xn, yn) {
        Some(t) => t,
        None => {
            return NeighbourMv::without_motion(false, false);
        },
    };
    let i = match grid.get(n) {
        Some(i) => i,
        None => {
            return NeighbourMv::without_motion(false, false);
        },
    };
    if n != mb_addr && (!i.available || (current_slice_id >= 0 && i.slice_id >= 0 && i.slice_id
        != current_slice_id)) {
        return NeighbourMv::without_motion(false, false);
    }
    if i.is_intra {
        return NeighbourMv::without_motion(true, true);
    }
    let blk: usize = blk4_raster_index(bx, by) as usize;
    let q: usize = blk / 4;
    let (mv, ref_idx, other) = if list == 0 {
        (i.mv_l0[blk], i.ref_idx_l0[q], i.ref_idx_l1[q])
    } else {
        (i.mv_l1[blk], i.ref_idx_l1[q], i.ref_idx_l0[q])
    };
    if ref_idx < 0 {
        return NeighbourMv::without_motion(true, !(n == mb_addr && other < 0));
    }
    let cur_field = grid.mbaff_frame_flag && grid.is_field(mb_addr);
    let n_field = grid.mbaff_frame_flag && i.mb_field_decoding_flag;
    motion_in_units(mv, ref_idx, cur_field, n_field)
}

/// Neighbours of the partition at `(x, y)` that is `w` wide.
pub open spec fn neighbours_of(
    g: GridV,
    addr: int,
    x: int,
    y: int,
    w: int,
    list: u8,
    slice_id: int,
) -> Neighbours {
    Neighbours {
        a: neighbour_mv(g, addr, x - 1, y, list, slice_id),
        b: neighbour_mv(g, addr, x, y - 1, list, slice_id),
        c: neighbour_mv(g, addr, x + w, y - 1, list, slice_id),
        d: neighbour_mv(g, addr, x - 1, y - 1, list, slice_id),
    }
}

pub fn neighbour_mvs_for_list(
    grid: &MbGrid,
    mb_addr: u32,
    x: u8,
    y: u8,
    w: u8,
    list: u8,
    current_slice_id: i32,
) -> (r: Neighbours)
    requires
        grid.wf(),
        mb_addr <= MAX_ADDR,
        x + w <= 16,
        y < 16,
    ensures
        r == neighbours_of(
            grid@,
            mb_addr as int,
            x as int,
            y as int,
            w as int,
            list,
            current_slice_id as int,
        ),
{
    let (px, py): (i32, i32) = (x as i32, y as i32);
    Neighbours {
        a: neighbour_from_block(grid, mb_addr, px - 1, py, list, current_slice_id),
        b: neighbour_from_block(grid, mb_addr, px, py - 1, list, current_slice_id),
        c: neighbour_from_block(grid, mb_addr, px + w as i32, py - 1, list, current_slice_id),
        d: neighbour_from_block(grid, mb_addr, px - 1, py - 1, list, current_slice_id),
    }
}

/// A prediction plus a coded difference, modulo `2^32`.
pub open spec fn mv_plus(p: Mv, d: (i32, i32)) -> Mv {
    Mv { x: wrap32(p.x + d.0) as i32, y: wrap32(p.y + d.1) as i32 }
}

fn add_mvd(p: Mv, d: (i32, i32)) -> (r: Mv)
    ensures
        r == mv_plus(p, d),
{
    Mv { x: add_wrapping(p.x, d.0), y: add_wrapping(p.y, d.1) }
}

pub open spec fn at_least_zero(r: i8) -> int {
    if r < 0 {
        0
    } else {
        r as int
    }
}

/// Predicted vector of a partition in one list; `used` says whether the list takes part.
pub open spec fn list_mvp(n: Neighbours, used: bool, ref_idx: i8, shape: MvpredShape) -> Mv {
    if used && ref_idx >= 0 {
        predicted_mv(n, ref_idx as int, shape)
    } else {
        Mv::zero()
    }
}

/// Motion vectors of a partition: those derived before, those of direct prediction, those of a
/// skipped macroblock, or prediction plus coded difference.
#[verifier::opaque]
pub open spec fn partition_mvs(part: InterPartition, g: GridV, addr: int, slice_id: int) -> (
    Mv,
    Mv,
) {
    let n0 = neighbours_of(g, addr, part.x as int, part.y as int, part.w as int, 0, slice_id);
    let n1 = neighbours_of(g, addr, part.x as int, part.y as int, part.w as int, 1, slice_id);
    match part.precomputed_mv {
        Some(mvs) => mvs,
        None => if part.mode is Direct {
            (
                predicted_mv(n0, at_least_zero(part.ref_idx_l0), MvpredShape::Default),
                predicted_mv(n1, at_least_zero(part.ref_idx_l1), MvpredShape::Default),
            )
        } else {
            let p0 = if part.is_skip && part.mode is L0Only && part.w == 16 && part.h == 16 {
                p_skip_mv(n0)
            } else {
                list_mvp(n0, part.uses_l0(), part.ref_idx_l0, part.shape)
            };
            let p1 = list_mvp(n1, part.uses_l1(), part.ref_idx_l1, part.shape);
            (mv_plus(p0, part.mvd_l0), mv_plus(p1, part.mvd_l1))
        },
    }
}

/// Derives the motion vectors of a partition in both lists.
pub fn derive_partition_mvs(
    part: &InterPartition,
    mb_addr: u32,
    grid: &MbGrid,
    current_slice_id: i32,
) -> (r: (Mv, Mv))
    requires
        part.wf(),
        grid.wf(),
        mb_addr <= MAX_ADDR,
    ensures
        r == partition_mvs(*part, grid@, mb_addr as int, current_slice_id as int),
{
    proof {
        reveal(partition_mvs);
    }
    if let Some(mvs) = part.precomputed_mv {
        return mvs;
    }
    let n0 = neighbour_mvs_for_list(grid, mb_addr, part.x, part.y, part.w, 0, current_slice_id);
    let n1 = neighbour_mvs_for_list(grid, mb_addr, part.x, part.y, part.w, 1, current_slice_id);
    let (r0, r1): (i32, i32) = (part.ref_idx_l0 as i32, part.ref_idx_l1 as i32);
    let zero = Mv { x: 0, y: 0 };
    let l0_only = matches!(part.mode, PartMode::L0Only);
    let l1_only = matches!(part.mode, PartMode::L1Only);
    if matches!(part.mode, PartMode::Direct) {
        let c0 = if r0 < 0 {
            0
        } else {
            r0
        };
        let c1 = if r1 < 0 {
            0
        } else {
            r1
        };
        return (
            derive_mvpred_with_d(&n0, c0, MvpredShape::Default),
            derive_mvpred_with_d(&n1, c1, MvpredShape::Default),
        );
    }
    let p0 = if part.is_skip && l0_only && part.w == 16 && part.h == 16 {
        derive_p_skip_mv_with_d(&n0)
    } else if !l1_only && r0 >= 0 {
        derive_mvpred_with_d(&n0, r0, part.shape)
    } else {
        zero
    };
    let p1 = if !l0_only && r1 >= 0 {
        derive_mvpred_with_d(&n1, r1, part.shape)
    } else {
        zero
    };
    (add_mvd(p0, part.mvd_l0), add_mvd(p1, part.mvd_l1))
}

} // verus!
