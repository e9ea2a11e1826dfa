//! The inter partitions of a macroblock.
use crate::direct::{
    col_motion, col_motion_of, derive_temporal_direct_mvs_for_block, refs_ok, temporal_direct,
    CurPic,
};
use crate::error::{decimal, text_with_number, ErrV, ReconstructError};
use crate::geometry::{blk4_of, blk4_raster_index};
use crate::macroblock_layer::{Macroblock, MbPred, MbType, SubMbPred, SubMbType};
use crate::math::{max_of, min_of};
use crate::mb_address::MAX_ADDR;
use crate::mb_grid::{GridV, MbGrid};
use crate::mv_deriv::{derive_median_mvpred, median_mv, Mv, MvpredShape, NeighbourMv, Neighbours};
use crate::partition_mvs::{neighbour_mvs_for_list, neighbours_of, InterPartition, PartMode};
use crate::picture::Picture;
use crate::ref_store::{RefPicProvider, RefsV};
use crate::slice_header::SliceHeader;
use crate::sps::Sps;
use vstd::prelude::*;

verus! {

/// Co-located block for the direct block at `(x, y)`: a corner block where direct prediction works
/// on 8x8 blocks.
pub open spec fn col_block(infer8: bool, x: int, y: int) -> int {
    if infer8 {
        5 * (2 * (y / 8) + x / 8)
    } else {
        blk4_of(x / 4, y / 4)
    }
}

/// Side of the blocks of direct prediction.
pub open spec fn direct_size(infer8: bool) -> int {
    if infer8 {
        8
    } else {
        4
    }
}

/// A partition with known vectors.
pub open spec fn known_part(
    x: int,
    y: int,
    size: int,
    mode: PartMode,
    r0: i8,
    r1: i8,
    is_skip: bool,
    mvs: (Mv, Mv),
) -> InterPartition {
    InterPartition {
        x: x as u8,
        y: y as u8,
        w: size as u8,
        h: size as u8,
        mode,
        shape: MvpredShape::Default,
        ref_idx_l0: r0,
        ref_idx_l1: r1,
        mvd_l0: (0, 0),
        mvd_l1: (0, 0),
        is_skip,
        precomputed_mv: Some(mvs),
    }
}

/// Block at `(x, y)` of a macroblock under temporal direct prediction.
pub open spec fn temporal_part(
    refs: RefsV,
    cur: CurPic,
    g: GridV,
    addr: int,
    infer8: bool,
    x: int,
    y: int,
    is_skip: bool,
) -> InterPartition {
    let (r0, a, b) = match temporal_direct(refs, cur, g, addr, col_block(infer8, x, y)) {
        Some(t) => t,
        None => (0i8, Mv::zero(), Mv::zero()),
    };
    known_part(x, y, direct_size(infer8), PartMode::Direct, r0, 0, is_skip, (a, b))
}

/// Position along one axis of block `i` of a region at `x0`.
pub open spec fn block_pos(x0: int, i: int, infer8: bool) -> int {
    x0 + i * direct_size(infer8)
}

/// Blocks of the square region at `(x0, y0)` under temporal direct prediction.
pub open spec fn temporal_parts(
    refs: RefsV,
    cur: CurPic,
    g: GridV,
    addr: int,
    infer8: bool,
    x0: int,
    y0: int,
    region: int,
    is_skip: bool,
) -> Seq<InterPartition> {
    let n = region / direct_size(infer8);
    Seq::new(
        (n * n) as nat,
        |k: int|
            temporal_part(
                refs,
                cur,
                g,
                addr,
                infer8,
                block_pos(x0, k % n, infer8),
                block_pos(y0, k / n, infer8),
                is_skip,
            ),
    )
}

/// All partitions are rectangles inside the macroblock.
pub open spec fn parts_ok(s: Seq<InterPartition>) -> bool {
    forall|i: int| 0 <= i < s.len() ==> (#[trigger] s[i]).wf()
}

fn col_block_of(infer8: bool, x: u8, y: u8) -> (r: usize)
    requires
        x < 16,
        y < 16,
    ensures
        r == col_block(infer8, x as int, y as int),
        r < 16,
{
    if infer8 {
        5 * (2 * (y / 8) as usize + (x / 8) as usize)
    } else {
        blk4_raster_index(x / 4, y / 4) as usize
    }
}

/// Number of direct blocks in a row of a region, and in the region.
fn blocks_per_row(region: u8, infer8: bool) -> (r: (u8, u8))
    requires
        region == 8 || region == 16,
    ensures
        r.0 == region as int / direct_size(infer8),
        r.0 == 1 || r.0 == 2 || r.0 == 4,
        r.1 == r.0 * r.0,
{
    if infer8 {
        if region == 8 {
            (1, 1)
        } else {
            (2, 4)
        }
    } else if region == 8 {
        (2, 4)
    } else {
        (4, 16)
    }
}

/// Position of block `k` of a region that has `n` blocks in a row.
fn block_xy(k: u8, n: u8, infer8: bool, x0: u8, y0: u8, region: u8) -> (r: (u8, u8))
    requires
        region == 8 || region == 16,
        n == region as int / direct_size(infer8),
        k < n * n,
        x0 % 8 == 0,
        y0 % 8 == 0,
        x0 + region <= 16,
        y0 + region <= 16,
    ensures
        r.0 == block_pos(x0 as int, k as int % n as int, infer8),
        r.1 == block_pos(y0 as int, k as int / n as int, infer8),
        r.0 % 4 == 0,
        r.1 % 4 == 0,
        r.0 + direct_size(infer8) <= 16,
        r.1 + direct_size(infer8) <= 16,
{
    let (bx, by): (u8, u8) = if n == 1 {
        (0, 0)
    } else if n == 2 {
        (k % 2, k / 2)
    } else {
        (k % 4, k / 4)
    };
    if infer8 {
        (x0 + bx * 8, y0 + by * 8)
    } else {
        (x0 + bx * 4, y0 + by * 4)
    }
}

/// Blocks of a square region under temporal direct prediction: four to sixteen for a whole
/// macroblock, one to four for an 8x8 block.
pub fn build_temporal_direct_partitions<R: RefPicProvider>(
    sps: &Sps,
    ref_pics: &R,
    cur: &CurPic,
    grid: &MbGrid,
    mb_addr: u32,
    region_x: u8,
    region_y: u8,
    region_size: u8,
    is_skip: bool,
) -> (r: Vec<InterPartition>)
    requires
        refs_ok(ref_pics.refs()),
        grid.wf(),
        mb_addr <= MAX_ADDR,
        region_size == 8 || region_size == 16,
        region_x % 8 == 0,
        region_y % 8 == 0,
        region_x + region_size <= 16,
        region_y + region_size <= 16,
    ensures
        r@ == temporal_parts(
            ref_pics.refs(),
            *cur,
            grid@,
            mb_addr as int,
            sps.direct_8x8_inference_flag,
            region_x as int,
            region_y as int,
            region_size as int,
            is_skip,
        ),
        parts_ok(r@),
{
    let infer8 = sps.direct_8x8_inference_flag;
    let size: u8 = if infer8 {
        8
    } else {
        4
    };
    let (n, total) = blocks_per_row(region_size, infer8);
    let mut r: Vec<InterPartition> = Vec::new();
    for k in 0..total
        invariant
            refs_ok(ref_pics.refs()),
            grid.wf(),
            mb_addr <= MAX_ADDR,
            infer8 == sps.direct_8x8_inference_flag,
            size == direct_size(infer8),
            n == region_size as int / direct_size(infer8),
            n == 1 || n == 2 || n == 4,
            total == n * n,
            region_size == 8 || region_size == 16,
            region_x % 8 == 0,
            region_y % 8 == 0,
            region_x + region_size <= 16,
            region_y + region_size <= 16,
            r.len() == k,
            parts_ok(r@),
            forall|i: int|
                0 <= i < k ==> #[trigger] r@[i] == temporal_part(
                    ref_pics.refs(),
                    *cur,
                    grid@,
                    mb_addr as int,
                    infer8,
                    block_pos(region_x as int, i % n as int, infer8),
                    block_pos(region_y as int, i / n as int, infer8),
                    is_skip,
                ),
    {
        let (x, y) = block_xy(k, n, infer8, region_x, region_y, region_size);
        let blk = col_block_of(infer8, x, y);
        let (ref_idx_l0, a, b) = match derive_temporal_direct_mvs_for_block(
            ref_pics,
            cur,
            grid,
            mb_addr,
            blk,
        ) {
            Some(t) => t,
            None => (0, Mv { x: 0, y: 0 }, Mv { x: 0, y: 0 }),
        };
        r.push(
            InterPartition {
                x,
                y,
                w: size,
                h: size,
                mode: PartMode::Direct,
                shape: MvpredShape::Default,
                ref_idx_l0,
                ref_idx_l1: 0,
                mvd_l0: (0, 0),
                mvd_l1: (0, 0),
                is_skip,
                precomputed_mv: Some((a, b)),
            },
        );
    }
    assert(r@ =~= temporal_parts(
        ref_pics.refs(),
        *cur,
        grid@,
        mb_addr as int,
        sps.direct_8x8_inference_flag,
        region_x as int,
        region_y as int,
        region_size as int,
        is_skip,
    ));
    r
}

/// The smaller of two indices; a negative one counts as absent.
pub open spec fn min_positive(x: int, y: int) -> int {
    if x >= 0 && y >= 0 {
        min_of(x, y)
    } else {
        max_of(x, y)
    }
}

/// The above-right neighbour, or the above-left one where only that is available.
pub open spec fn c_for_direct(n: Neighbours) -> NeighbourMv {
    if !n.c.partition_available && n.d.partition_available {
        n.d
    } else {
        n.c
    }
}

/// Smallest reference index among the neighbours of a macroblock; negative where none has one.
pub open spec fn smallest_ref(n: Neighbours) -> int {
    min_positive(
        n.a.ref_idx as int,
        min_positive(n.b.ref_idx as int, c_for_direct(n).ref_idx as int),
    )
}

/// Reference index of spatial direct prediction in a list, given the smallest ones of both lists.
pub open spec fn spatial_ref(own: int, other: int) -> i8 {
    if own < 0 && other < 0 {
        0
    } else if own < 0 {
        (-1) as i8
    } else {
        own as i8
    }
}

/// The co-located block is practically at rest.
pub open spec fn col_zero(c: Picture, addr: int, blk: int) -> bool {
    let (mv, r, l1) = col_motion(c, addr, blk);
    r == 0 && -1 <= mv.0 <= 1 && -1 <= mv.1 <= 1
}

/// Blocks at rest in the co-located picture stay at rest, unless it is a long-term reference.
pub open spec fn col_zero_flag(refs: RefsV, addr: int, blk: int) -> bool {
    !(refs.list_1_longterm.len() > 0 && refs.list_1_longterm[0]) && match (refs.pic)(1, 0) {
        Some(c) => col_zero(c, addr, blk),
        None => false,
    }
}

/// Vector of spatial direct prediction in a list.
pub open spec fn spatial_mv(n: Neighbours, r: i8, none: bool, at_rest: bool) -> Mv {
    if none || r < 0 || (r == 0 && at_rest) {
        Mv::zero()
    } else {
        median_mv(n.a, n.b, c_for_direct(n), r as int)
    }
}

pub open spec fn spatial_mode(r0: i8, r1: i8) -> PartMode {
    if r0 >= 0 && r1 < 0 {
        PartMode::L0Only
    } else if r0 < 0 && r1 >= 0 {
        PartMode::L1Only
    } else {
        PartMode::Direct
    }
}

/// Block at `(x, y)` of a macroblock under spatial direct prediction.
pub open spec fn spatial_part(
    refs: RefsV,
    g: GridV,
    addr: int,
    slice_id: int,
    infer8: bool,
    x: int,
    y: int,
    is_skip: bool,
) -> InterPartition {
    let n0 = neighbours_of(g, addr, 0, 0, 16, 0, slice_id);
    let n1 = neighbours_of(g, addr, 0, 0, 16, 1, slice_id);
    let (m0, m1) = (smallest_ref(n0), smallest_ref(n1));
    let none = m0 < 0 && m1 < 0;
    let r0 = spatial_ref(m0, m1);
    let r1 = spatial_ref(m1, m0);
    let rest = col_zero_flag(refs, addr, col_block(infer8, x, y));
    known_part(
        x,
        y,
        direct_size(infer8),
        spatial_mode(r0, r1),
        r0,
        r1,
        is_skip,
        (spatial_mv(n0, r0, none, rest), spatial_mv(n1, r1, none, rest)),
    )
}

/// Blocks of the square region at `(x0, y0)` under spatial direct prediction.
pub open spec fn spatial_parts(
    refs: RefsV,
    g: GridV,
    addr: int,
    slice_id: int,
    infer8: bool,
    x0: int,
    y0: int,
    region: int,
    is_skip: bool,
) -> Seq<InterPartition> {
    let n = region / direct_size(infer8);
    Seq::new(
        (n * n) as nat,
        |k: int|
            spatial_part(
                refs,
                g,
                addr,
                slice_id,
                infer8,
                block_pos(x0, k % n, infer8),
                block_pos(y0, k / n, infer8),
                is_skip,
            ),
    )
}

fn min_positive_of(x: i32, y: i32) -> (r: i32)
    ensures
        r == min_positive(x as int, y as int),
{
    if x >= 0 && y >= 0 {
        if x <= y {
            x
        } else {
            y
        }
    } else if x >= y {
        x
    } else {
        y
    }
}

fn c_for_direct_of(n: &Neighbours) -> (r: NeighbourMv)
    ensures
        r == c_for_direct(*n),
{
    if !n.c.partition_available && n.d.partition_available {
        n.d
    } else {
        n.c
    }
}

fn smallest_ref_of(n: &Neighbours) -> (r: i32)
    ensures
        r == smallest_ref(*n),
{
    let c = c_for_direct_of(n);
    min_positive_of(n.a.ref_idx, min_positive_of(n.b.ref_idx, c.ref_idx))
}

fn spatial_ref_of(own: i32, other: i32) -> (r: i8)
    ensures
        r == spatial_ref(own as int, other as int),
{
    if own < 0 && other < 0 {
        0
    } else if own < 0 {
        -1
    } else {
        #[verifier::truncate]
        (own as i8)
    }
}

pub fn is_colocated_zero_mv(col_pic: &Picture, mb_addr: u32, col_blk4: usize) -> (r: bool)
    ensures
        r == col_zero(*col_pic, mb_addr as int, col_blk4 as int),
{
    let (mv, r, _) = col_motion_of(col_pic, mb_addr, col_blk4);
    r == 0 && -1 <= mv.0 && mv.0 <= 1 && -1 <= mv.1 && mv.1 <= 1
}

fn col_zero_flag_of<R: RefPicProvider>(ref_pics: &R, mb_addr: u32, blk: usize) -> (r: bool)
    ensures
        r == col_zero_flag(ref_pics.refs(), mb_addr as int, blk as int),
{
    let lt = ref_pics.ref_list_1_longterm();
    if lt.len() > 0 && lt[0] {
        return false;
    }
    match ref_pics.ref_pic(1, 0) {
        Some(c) => is_colocated_zero_mv(c, mb_addr, blk),
        None => false,
    }
}

fn spatial_mv_of(n: &Neighbours, r: i8, none: bool, at_rest: bool) -> (mv: Mv)
    ensures
        mv == spatial_mv(*n, r, none, at_rest),
{
    if none || r < 0 || (r == 0 && at_rest) {
        Mv { x: 0, y: 0 }
    } else {
        derive_median_mvpred(n.a, n.b, c_for_direct_of(n), r as i32)
    }
}

/// Blocks of a square region under spatial direct prediction. References and vectors come from
/// the neighbours of the whole macroblock.
pub fn build_spatial_direct_partitions<R: RefPicProvider>(
    sps: &Sps,
    ref_pics: &R,
    mb_addr: u32,
    grid: &MbGrid,
    current_slice_id: i32,
    region_x: u8,
    region_y: u8,
    region_size: u8,
    is_skip: bool,
) -> (r: Vec<InterPartition>)
    requires
        grid.wf(),
        mb_addr <= MAX_ADDR,
        region_size == 8 || region_size == 16,
        region_x % 8 == 0,
        region_y % 8 == 0,
        region_x + region_size <= 16,
        region_y + region_size <= 16,
    ensures
        r@ == spatial_parts(
            ref_pics.refs(),
            grid@,
            mb_addr as int,
            current_slice_id as int,
            sps.direct_8x8_inference_flag,
            region_x as int,
            region_y as int,
            region_size as int,
            is_skip,
        ),
        parts_ok(r@),
{
    let n0 = neighbour_mvs_for_list(grid, mb_addr, 0, 0, 16, 0, current_slice_id);
    let n1 = neighbour_mvs_for_list(grid, mb_addr, 0, 0, 16, 1, current_slice_id);
    let (m0, m1) = (smallest_ref_of(&n0), smallest_ref_of(&n1));
    let none = m0 < 0 && m1 < 0;
    let r0 = spatial_ref_of(m0, m1);
    let r1 = spatial_ref_of(m1, m0);
    let mode = if r0 >= 0 && r1 < 0 {
        PartMode::L0Only
    } else if r0 < 0 && r1 >= 0 {
        PartMode::L1Only
    } else {
        PartMode::Direct
    };
    let infer8 = sps.direct_8x8_inference_flag;
    let size: u8 = if infer8 {
        8
    } else {
        4
    };
    let (n, total) = blocks_per_row(region_size, infer8);
    let mut r: Vec<InterPartition> = Vec::new();
    for k in 0..total
        invariant
            mb_addr <= MAX_ADDR,
            n0 == neighbours_of(grid@, mb_addr as int, 0, 0, 16, 0, current_slice_id as int),
            n1 == neighbours_of(grid@, mb_addr as int, 0, 0, 16, 1, current_slice_id as int),
            m0 == smallest_ref(n0),
            m1 == smallest_ref(n1),
            none == (m0 < 0 && m1 < 0),
            r0 == spatial_ref(m0 as int, m1 as int),
            r1 == spatial_ref(m1 as int, m0 as int),
            mode == spatial_mode(r0, r1),
            size == direct_size(infer8),
            n == region_size as int / direct_size(infer8),
            n == 1 || n == 2 || n == 4,
            total == n * n,
            region_size == 8 || region_size == 16,
            region_x % 8 == 0,
            region_y % 8 == 0,
            region_x + region_size <= 16,
            region_y + region_size <= 16,
            r.len() == k,
            parts_ok(r@),
            forall|i: int|
                0 <= i < k ==> #[trigger] r@[i] == spatial_part(
                    ref_pics.refs(),
                    grid@,
                    mb_addr as int,
                    current_slice_id as int,
                    infer8,
                    block_pos(region_x as int, i % n as int, infer8),
                    block_pos(region_y as int, i / n as int, infer8),
                    is_skip,
                ),
    {
        let (x, y) = block_xy(k, n, infer8, region_x, region_y, region_size);
        let blk = col_block_of(infer8, x, y);
        let rest = col_zero_flag_of(ref_pics, mb_addr, blk);
        let a = spatial_mv_of(&n0, r0, none, rest);
        let b = spatial_mv_of(&n1, r1, none, rest);
        r.push(
            InterPartition {
                x,
                y,
                w: size,
                h: size,
                mode,
                shape: MvpredShape::Default,
                ref_idx_l0: r0,
                ref_idx_l1: r1,
                mvd_l0: (0, 0),
                mvd_l1: (0, 0),
                is_skip,
                precomputed_mv: Some((a, b)),
            },
        );
    }
    assert(r@ =~= spatial_parts(
        ref_pics.refs(),
        grid@,
        mb_addr as int,
        current_slice_id as int,
        sps.direct_8x8_inference_flag,
        region_x as int,
        region_y as int,
        region_size as int,
        is_skip,
    ));
    r
}

/// Entry `i` of a list of reference indices; 0 past its end.
pub open spec fn ref_at(s: Seq<u32>, i: int) -> i8 {
    if 0 <= i < s.len() {
        s[i] as i8
    } else {
        0
    }
}

/// Entry `i` of a list of vector differences; zero past its end.
pub open spec fn mvd_at(s: Seq<[i32; 2]>, i: int) -> (i32, i32) {
    if 0 <= i < s.len() {
        (s[i]@[0], s[i]@[1])
    } else {
        (0, 0)
    }
}

fn ref_of(s: &Vec<u32>, i: usize) -> (r: i8)
    ensures
        r == ref_at(s@, i as int),
{
    if i < s.len() {
        #[verifier::truncate]
        (s[i] as i8)
    } else {
        0
    }
}

fn mvd_of(s: &Vec<[i32; 2]>, i: usize) -> (r: (i32, i32))
    ensures
        r == mvd_at(s@, i as int),
{
    if i < s.len() {
        (s[i][0], s[i][1])
    } else {
        (0, 0)
    }
}

/// A partition with coded vectors.
pub open spec fn coded_part(
    x: int,
    y: int,
    w: int,
    h: int,
    mode: PartMode,
    shape: MvpredShape,
    r0: i8,
    r1: i8,
    d0: (i32, i32),
    d1: (i32, i32),
) -> InterPartition {
    InterPartition {
        x: x as u8,
        y: y as u8,
        w: w as u8,
        h: h as u8,
        mode,
        shape,
        ref_idx_l0: r0,
        ref_idx_l1: r1,
        mvd_l0: d0,
        mvd_l1: d1,
        is_skip: false,
        precomputed_mv: None,
    }
}

fn coded(
    x: u8,
    y: u8,
    w: u8,
    h: u8,
    mode: PartMode,
    shape: MvpredShape,
    r0: i8,
    r1: i8,
    d0: (i32, i32),
    d1: (i32, i32),
) -> (r: InterPartition)
    ensures
        r == coded_part(x as int, y as int, w as int, h as int, mode, shape, r0, r1, d0, d1),
{
    InterPartition {
        x,
        y,
        w,
        h,
        mode,
        shape,
        ref_idx_l0: r0,
        ref_idx_l1: r1,
        mvd_l0: d0,
        mvd_l1: d1,
        is_skip: false,
        precomputed_mv: None,
    }
}

/// Reference indices of a partition: -1 in the list its mode does not use.
pub open spec fn refs_for(p: MbPred, i: int, mode: PartMode) -> (i8, i8) {
    (
        if mode is L1Only {
            (-1) as i8
        } else {
            ref_at(p.ref_idx_l0@, i)
        },
        if mode is L0Only {
            (-1) as i8
        } else {
            ref_at(p.ref_idx_l1@, i)
        },
    )
}

fn ref_idx_for_part(p: &MbPred, i: usize, mode: PartMode) -> (r: (i8, i8))
    ensures
        r == refs_for(*p, i as int, mode),
{
    (
        if matches!(mode, PartMode::L1Only) {
            -1
        } else {
            ref_of(&p.ref_idx_l0, i)
        },
        if matches!(mode, PartMode::L0Only) {
            -1
        } else {
            ref_of(&p.ref_idx_l1, i)
        },
    )
}

/// Partition `i` of a macroblock; `b` says whether the slice has a second list.
pub open spec fn mb_part(
    p: MbPred,
    i: int,
    x: int,
    y: int,
    w: int,
    h: int,
    mode: PartMode,
    shape: MvpredShape,
    b: bool,
) -> InterPartition {
    let (r0, r1) = refs_for(p, i, mode);
    coded_part(
        x,
        y,
        w,
        h,
        mode,
        shape,
        r0,
        r1,
        mvd_at(p.mvd_l0@, i),
        if b {
            mvd_at(p.mvd_l1@, i)
        } else {
            (0, 0)
        },
    )
}

fn mb_part_of(
    p: &MbPred,
    i: usize,
    x: u8,
    y: u8,
    w: u8,
    h: u8,
    mode: PartMode,
    shape: MvpredShape,
    b: bool,
) -> (r: InterPartition)
    ensures
        r == mb_part(*p, i as int, x as int, y as int, w as int, h as int, mode, shape, b),
{
    let (r0, r1) = ref_idx_for_part(p, i, mode);
    let d1 = if b {
        mvd_of(&p.mvd_l1, i)
    } else {
        (0, 0)
    };
    coded(x, y, w, h, mode, shape, r0, r1, mvd_of(&p.mvd_l0, i), d1)
}

/// How a macroblock with one or two partitions is divided.
#[derive(Debug, Clone, Copy, PartialEq, Eq, Structural)]
pub enum Division {
    Whole,
    /// Upper and lower half.
    Rows,
    /// Left and right half.
    Columns,
}

/// Division of a macroblock type with coded vectors for whole macroblocks or halves, the modes of
/// the parts, and whether it is a type of B slices.
pub open spec fn division(t: MbType) -> Option<(Division, PartMode, PartMode, bool)> {
    match t {
        MbType::PL016x16 => Some((Division::Whole, PartMode::L0Only, PartMode::L0Only, false)),
        MbType::PL0L016x8 => Some((Division::Rows, PartMode::L0Only, PartMode::L0Only, false)),
        MbType::PL0L08x16 => Some((Division::Columns, PartMode::L0Only, PartMode::L0Only, false)),
        MbType::BL016x16 => Some((Division::Whole, PartMode::L0Only, PartMode::L0Only, true)),
        MbType::BL116x16 => Some((Division::Whole, PartMode::L1Only, PartMode::L1Only, true)),
        MbType::BBi16x16 => Some((Division::Whole, PartMode::BiPred, PartMode::BiPred, true)),
        MbType::BL0L016x8 => Some((Division::Rows, PartMode::L0Only, PartMode::L0Only, true)),
        MbType::BL1L116x8 => Some((Division::Rows, PartMode::L1Only, PartMode::L1Only, true)),
        MbType::BL0L116x8 => Some((Division::Rows, PartMode::L0Only, PartMode::L1Only, true)),
        MbType::BL1L016x8 => Some((Division::Rows, PartMode::L1Only, PartMode::L0Only, true)),
        MbType::BL0Bi16x8 => Some((Division::Rows, PartMode::L0Only, PartMode::BiPred, true)),
        MbType::BL1Bi16x8 => Some((Division::Rows, PartMode::L1Only, PartMode::BiPred, true)),
        MbType::BBiL016x8 => Some((Division::Rows, PartMode::BiPred, PartMode::L0Only, true)),
        MbType::BBiL116x8 => Some((Division::Rows, PartMode::BiPred, PartMode::L1Only, true)),
        MbType::BBiBi16x8 => Some((Division::Rows, PartMode::BiPred, PartMode::BiPred, true)),
        MbType::BL0L08x16 => Some((Division::Columns, PartMode::L0Only, PartMode::L0Only, true)),
        MbType::BL1L18x16 => Some((Division::Columns, PartMode::L1Only, PartMode::L1Only, true)),
        MbType::BL0L18x16 => Some((Division::Columns, PartMode::L0Only, PartMode::L1Only, true)),
        MbType::BL1L08x16 => Some((Division::Columns, PartMode::L1Only, PartMode::L0Only, true)),
        MbType::BL0Bi8x16 => Some((Division::Columns, PartMode::L0Only, PartMode::BiPred, true)),
        MbType::BL1Bi8x16 => Some((Division::Columns, PartMode::L1Only, PartMode::BiPred, true)),
        MbType::BBiL08x16 => Some((Division::Columns, PartMode::BiPred, PartMode::L0Only, true)),
        MbType::BBiL18x16 => Some((Division::Columns, PartMode::BiPred, PartMode::L1Only, true)),
        MbType::BBiBi8x16 => Some((Division::Columns, PartMode::BiPred, PartMode::BiPred, true)),
        _ => None,
    }
}

fn division_of(t: &MbType) -> (r: Option<(Division, PartMode, PartMode, bool)>)
    ensures
        r == division(*t),
{
    match t {
        MbType::PL016x16 => Some((Division::Whole, PartMode::L0Only, PartMode::L0Only, false)),
        MbType::PL0L016x8 => Some((Division::Rows, PartMode::L0Only, PartMode::L0Only, false)),
        MbType::PL0L08x16 => Some((Division::Columns, PartMode::L0Only, PartMode::L0Only, false)),
        MbType::BL016x16 => Some((Division::Whole, PartMode::L0Only, PartMode::L0Only, true)),
        MbType::BL116x16 => Some((Division::Whole, PartMode::L1Only, PartMode::L1Only, true)),
        MbType::BBi16x16 => Some((Division::Whole, PartMode::BiPred, PartMode::BiPred, true)),
        MbType::BL0L016x8 => Some((Division::Rows, PartMode::L0Only, PartMode::L0Only, true)),
        MbType::BL1L116x8 => Some((Division::Rows, PartMode::L1Only, PartMode::L1Only, true)),
        MbType::BL0L116x8 => Some((Division::Rows, PartMode::L0Only, PartMode::L1Only, true)),
        MbType::BL1L016x8 => Some((Division::Rows, PartMode::L1Only, PartMode::L0Only, true)),
        MbType::BL0Bi16x8 => Some((Division::Rows, PartMode::L0Only, PartMode::BiPred, true)),
        MbType::BL1Bi16x8 => Some((Division::Rows, PartMode::L1Only, PartMode::BiPred, true)),
        MbType::BBiL016x8 => Some((Division::Rows, PartMode::BiPred, PartMode::L0Only, true)),
        MbType::BBiL116x8 => Some((Division::Rows, PartMode::BiPred, PartMode::L1Only, true)),
        MbType::BBiBi16x8 => Some((Division::Rows, PartMode::BiPred, PartMode::BiPred, true)),
        MbType::BL0L08x16 => Some((Division::Columns, PartMode::L0Only, PartMode::L0Only, true)),
        MbType::BL1L18x16 => Some((Division::Columns, PartMode::L1Only, PartMode::L1Only, true)),
        MbType::BL0L18x16 => Some((Division::Columns, PartMode::L0Only, PartMode::L1Only, true)),
        MbType::BL1L08x16 => Some((Division::Columns, PartMode::L1Only, PartMode::L0Only, true)),
        MbType::BL0Bi8x16 => Some((Division::Columns, PartMode::L0Only, PartMode::BiPred, true)),
        MbType::BL1Bi8x16 => Some((Division::Columns, PartMode::L1Only, PartMode::BiPred, true)),
        MbType::BBiL08x16 => Some((Division::Columns, PartMode::BiPred, PartMode::L0Only, true)),
        MbType::BBiL18x16 => Some((Division::Columns, PartMode::BiPred, PartMode::L1Only, true)),
        MbType::BBiBi8x16 => Some((Division::Columns, PartMode::BiPred, PartMode::BiPred, true)),
        _ => None,
    }
}

/// Message about a macroblock without prediction syntax.
pub open spec fn missing_pred_text(d: Division, b: bool) -> Seq<char> {
    match d {
        Division::Whole => if b {
            "B_*_16x16 without mb_pred"@
        } else {
            "P_L0_16x16 without mb_pred"@
        },
        Division::Rows => if b {
            "B_*_16x8 without mb_pred"@
        } else {
            "P_L0_L0_16x8 without mb_pred"@
        },
        Division::Columns => if b {
            "B_*_8x16 without mb_pred"@
        } else {
            "P_L0_L0_8x16 without mb_pred"@
        },
    }
}

fn missing_pred(d: Division, b: bool) -> (r: ReconstructError)
    ensures
        r@ == ErrV::UnsupportedInterMbType(missing_pred_text(d, b)),
{
    let text = match d {
        Division::Whole => if b {
            "B_*_16x16 without mb_pred"
        } else {
            "P_L0_16x16 without mb_pred"
        },
        Division::Rows => if b {
            "B_*_16x8 without mb_pred"
        } else {
            "P_L0_L0_16x8 without mb_pred"
        },
        Division::Columns => if b {
            "B_*_8x16 without mb_pred"
        } else {
            "P_L0_L0_8x16 without mb_pred"
        },
    };
    ReconstructError::UnsupportedInterMbType(text.to_string())
}

/// The parts of a divided macroblock.
pub open spec fn divided(p: MbPred, d: Division, m0: PartMode, m1: PartMode, b: bool) -> Seq<
    InterPartition,
> {
    match d {
        Division::Whole => seq![mb_part(p, 0, 0, 0, 16, 16, m0, MvpredShape::Default, b)],
        Division::Rows => seq![
            mb_part(p, 0, 0, 0, 16, 8, m0, MvpredShape::Partition16x8Top, b),
            mb_part(p, 1, 0, 8, 16, 8, m1, MvpredShape::Partition16x8Bottom, b),
        ],
        Division::Columns => seq![
            mb_part(p, 0, 0, 0, 8, 16, m0, MvpredShape::Partition8x16Left, b),
            mb_part(p, 1, 8, 0, 8, 16, m1, MvpredShape::Partition8x16Right, b),
        ],
    }
}

fn divide(p: &MbPred, d: Division, m0: PartMode, m1: PartMode, b: bool) -> (r: Vec<InterPartition>)
    ensures
        r@ == divided(*p, d, m0, m1, b),
        parts_ok(r@),
{
    let r = match d {
        Division::Whole => vec![mb_part_of(p, 0, 0, 0, 16, 16, m0, MvpredShape::Default, b)],
        Division::Rows => vec![
            mb_part_of(p, 0, 0, 0, 16, 8, m0, MvpredShape::Partition16x8Top, b),
            mb_part_of(p, 1, 0, 8, 16, 8, m1, MvpredShape::Partition16x8Bottom, b),
        ],
        Division::Columns => vec![
            mb_part_of(p, 0, 0, 0, 8, 16, m0, MvpredShape::Partition8x16Left, b),
            mb_part_of(p, 1, 8, 0, 8, 16, m1, MvpredShape::Partition8x16Right, b),
        ],
    };
    assert(r@ =~= divided(*p, d, m0, m1, b));
    r
}

/// Width and height of the parts of an 8x8 sub-macroblock.
pub open spec fn sub_size(t: SubMbType) -> (int, int) {
    match t {
        SubMbType::PL08x4 | SubMbType::BL08x4 | SubMbType::BL18x4 | SubMbType::BBi8x4 => (8, 4),
        SubMbType::PL04x8 | SubMbType::BL04x8 | SubMbType::BL14x8 | SubMbType::BBi4x8 => (4, 8),
        SubMbType::PL04x4 | SubMbType::BL04x4 | SubMbType::BL14x4 | SubMbType::BBi4x4 => (4, 4),
        _ => (8, 8),
    }
}

/// Number of parts of an 8x8 sub-macroblock.
pub open spec fn sub_count(t: SubMbType) -> int {
    let (w, h) = sub_size(t);
    if w == 8 && h == 8 {
        1
    } else if w == 4 && h == 4 {
        4
    } else {
        2
    }
}

/// Position of part `k` in its sub-macroblock.
pub open spec fn sub_pos(t: SubMbType, k: int) -> (int, int) {
    let (w, h) = sub_size(t);
    if w == 8 {
        (0, k * h)
    } else {
        (4 * (k % 2), 4 * (k / 2))
    }
}

/// Layout of a sub-macroblock: size and number of its parts.
fn sub_mb_partitions(t: SubMbType) -> (r: (u8, u8, usize))
    ensures
        (r.0 as int, r.1 as int) == sub_size(t),
        r.2 == sub_count(t),
        r.0 == 4 || r.0 == 8,
        r.1 == 4 || r.1 == 8,
        1 <= r.2 <= 4,
{
    match t {
        SubMbType::PL08x4 | SubMbType::BL08x4 | SubMbType::BL18x4 | SubMbType::BBi8x4 => (8, 4, 2),
        SubMbType::PL04x8 | SubMbType::BL04x8 | SubMbType::BL14x8 | SubMbType::BBi4x8 => (4, 8, 2),
        SubMbType::PL04x4 | SubMbType::BL04x4 | SubMbType::BL14x4 | SubMbType::BBi4x4 => (4, 4, 4),
        _ => (8, 8, 1),
    }
}

/// Position of sub-macroblock `q`.
pub open spec fn quadrant(q: int) -> (int, int) {
    (8 * (q % 2), 8 * (q / 2))
}

/// Parts of sub-macroblock `q` with coded vectors.
pub open spec fn sub_parts(
    sm: SubMbPred,
    q: int,
    mode: PartMode,
    r0: i8,
    r1: i8,
    b: bool,
) -> Seq<InterPartition> {
    let t = sm.sub_mb_type@[q];
    let (w, h) = sub_size(t);
    Seq::new(
        sub_count(t) as nat,
        |k: int|
            coded_part(
                quadrant(q).0 + sub_pos(t, k).0,
                quadrant(q).1 + sub_pos(t, k).1,
                w,
                h,
                mode,
                MvpredShape::Default,
                r0,
                r1,
                mvd_at(sm.mvd_l0@[q]@, k),
                if b {
                    mvd_at(sm.mvd_l1@[q]@, k)
                } else {
                    (0, 0)
                },
            ),
    )
}

fn sub_parts_of(sm: &SubMbPred, q: usize, mode: PartMode, r0: i8, r1: i8, b: bool) -> (r: Vec<
    InterPartition,
>)
    requires
        q < 4,
    ensures
        r@ == sub_parts(*sm, q as int, mode, r0, r1, b),
        parts_ok(r@),
{
    let t = sm.sub_mb_type[q];
    let (w, h, n) = sub_mb_partitions(t);
    let (qx, qy): (u8, u8) = ((q % 2) as u8 * 8, (q / 2) as u8 * 8);
    let mut r: Vec<InterPartition> = Vec::new();
    for k in 0..n
        invariant
            q < 4,
            t == sm.sub_mb_type@[q as int],
            (w as int, h as int) == sub_size(t),
            n == sub_count(t),
            (qx as int, qy as int) == quadrant(q as int),
            r.len() == k,
            parts_ok(r@),
            forall|i: int|
                0 <= i < k ==> #[trigger] r@[i] == sub_parts(
                    *sm,
                    q as int,
                    mode,
                    r0,
                    r1,
                    b,
                )[i],
    {
        let (sx, sy): (u8, u8) = if w == 8 {
            if k == 0 {
                (0, 0)
            } else {
                (0, h)
            }
        } else {
            ((k % 2) as u8 * 4, (k / 2) as u8 * 4)
        };
        assert((sx as int, sy as int) == sub_pos(t, k as int)) by {
            if w == 8 {
                assert(k == 0 || k == 1);
                assert(k * h == (if k == 0 {
                    0
                } else {
                    h as int
                })) by (nonlinear_arith)
                    requires
                        k == 0 || k == 1,
                ;
            }
        }
        let d0 = mvd_of(&sm.mvd_l0[q], k);
        let d1 = if b {
            mvd_of(&sm.mvd_l1[q], k)
        } else {
            (0, 0)
        };
        let part = coded(qx + sx, qy + sy, w, h, mode, MvpredShape::Default, r0, r1, d0, d1);
        r.push(part);
    }
    assert(r@ =~= sub_parts(*sm, q as int, mode, r0, r1, b));
    r
}

/// Mode and references of sub-macroblock `q` of a P macroblock.
pub open spec fn p_sub(sm: SubMbPred, q: int, ref0: bool) -> (PartMode, i8) {
    (
        if sm.sub_mb_type@[q] is BDirect8x8 {
            PartMode::Direct
        } else {
            PartMode::L0Only
        },
        if ref0 {
            0
        } else {
            sm.ref_idx_l0@[q] as i8
        },
    )
}

/// Partitions of a P macroblock with sub-macroblocks, from `q` on.
pub open spec fn p8x8_from(sm: SubMbPred, ref0: bool, q: int) -> Seq<InterPartition>
    decreases 4 - q,
{
    if q >= 4 {
        Seq::empty()
    } else {
        let (mode, r0) = p_sub(sm, q, ref0);
        sub_parts(sm, q, mode, r0, (-1) as i8, false) + p8x8_from(sm, ref0, q + 1)
    }
}

/// Mode and references of a sub-macroblock of a B macroblock with coded vectors.
pub open spec fn b_sub(t: SubMbType, r0: i8, r1: i8) -> (PartMode, i8, i8) {
    match t {
        SubMbType::BL18x8 | SubMbType::BL18x4 | SubMbType::BL14x8 | SubMbType::BL14x4 => (
            PartMode::L1Only,
            (-1) as i8,
            r1,
        ),
        SubMbType::BBi8x8 | SubMbType::BBi8x4 | SubMbType::BBi4x8 | SubMbType::BBi4x4 => (
            PartMode::BiPred,
            r0,
            r1,
        ),
        _ => (PartMode::L0Only, r0, (-1) as i8),
    }
}

fn b_sub_mode(t: SubMbType, r0: i8, r1: i8) -> (r: (PartMode, i8, i8))
    ensures
        r == b_sub(t, r0, r1),
{
    match t {
        SubMbType::BL18x8 | SubMbType::BL18x4 | SubMbType::BL14x8 | SubMbType::BL14x4 => (
            PartMode::L1Only,
            -1,
            r1,
        ),
        SubMbType::BBi8x8 | SubMbType::BBi8x4 | SubMbType::BBi4x8 | SubMbType::BBi4x4 => (
            PartMode::BiPred,
            r0,
            r1,
        ),
        _ => (PartMode::L0Only, r0, -1),
    }
}

/// What the partitions of a macroblock depend on.
pub struct PartArgs {
    pub mb: Macroblock,
    pub spatial: bool,
    pub infer8: bool,
    pub refs: RefsV,
    pub cur: CurPic,
    pub addr: int,
    pub g: GridV,
    pub slice_id: int,
}

/// Partitions of a region under direct prediction.
pub open spec fn direct_parts(a: PartArgs, x: int, y: int, region: int, is_skip: bool) -> Seq<
    InterPartition,
> {
    if a.spatial {
        spatial_parts(a.refs, a.g, a.addr, a.slice_id, a.infer8, x, y, region, is_skip)
    } else {
        temporal_parts(a.refs, a.cur, a.g, a.addr, a.infer8, x, y, region, is_skip)
    }
}

/// Partitions of a B macroblock with sub-macroblocks, from `q` on.
pub open spec fn b8x8_from(a: PartArgs, sm: SubMbPred, q: int) -> Seq<InterPartition>
    decreases 4 - q,
{
    if q >= 4 {
        Seq::empty()
    } else {
        let t = sm.sub_mb_type@[q];
        let (mode, r0, r1) = b_sub(t, sm.ref_idx_l0@[q] as i8, sm.ref_idx_l1@[q] as i8);
        let own = if t is BDirect8x8 {
            direct_parts(a, quadrant(q).0, quadrant(q).1, 8, false)
        } else {
            sub_parts(sm, q, mode, r0, r1, true)
        };
        own + b8x8_from(a, sm, q + 1)
    }
}

/// Text for a macroblock type without inter prediction.
pub open spec fn intra_type_text(t: MbType) -> Seq<char> {
    match t {
        MbType::INxN => "INxN"@,
        MbType::IPcm => "IPcm"@,
        MbType::Intra16x16(c) => ("Intra16x16(Intra16x16 { pred_mode: "@ + decimal(
            c.pred_mode as int,
        ) + ", cbp_luma: "@) + decimal(c.cbp_luma as int) + ", cbp_chroma: "@ + decimal(
            c.cbp_chroma as int,
        ) + " })"@,
        _ => "SI"@,
    }
}

fn intra_type_name(t: &MbType) -> (r: String)
    requires
        t.intra(),
    ensures
        r@ == intra_type_text(*t),
{
    match t {
        MbType::INxN => "INxN".to_string(),
        MbType::IPcm => "IPcm".to_string(),
        MbType::Intra16x16(c) => {
            let a = text_with_number(
                "Intra16x16(Intra16x16 { pred_mode: ",
                c.pred_mode as i64,
                ", cbp_luma: ",
            );
            let b = text_with_number(a.as_str(), c.cbp_luma as i64, ", cbp_chroma: ");
            text_with_number(b.as_str(), c.cbp_chroma as i64, " })")
        },
        _ => "SI".to_string(),
    }
}

/// The partition of a skipped macroblock of a P slice.
pub open spec fn skip_part() -> InterPartition {
    InterPartition {
        is_skip: true,
        ..coded_part(
            0,
            0,
            16,
            16,
            PartMode::L0Only,
            MvpredShape::Default,
            0,
            (-1) as i8,
            (0, 0),
            (0, 0),
        )
    }
}

/// The inter partitions of a macroblock, in decoding order.
#[verifier::opaque]
pub open spec fn partitions(a: PartArgs) -> Result<Seq<InterPartition>, ErrV> {
    let mb = a.mb;
    match mb.mb_type {
        MbType::PSkip => Ok(seq![skip_part()]),
        MbType::P8x8 | MbType::P8x8Ref0 => match mb.sub_mb_pred {
            None => Err(ErrV::UnsupportedInterMbType("P_8x8 without sub_mb_pred"@)),
            Some(sm) => Ok(p8x8_from(sm, mb.mb_type is P8x8Ref0, 0)),
        },
        MbType::BSkip | MbType::BDirect16x16 => Ok(
            direct_parts(a, 0, 0, 16, mb.mb_type is BSkip),
        ),
        MbType::B8x8 => match mb.sub_mb_pred {
            None => Err(ErrV::UnsupportedInterMbType("B_8x8 without sub_mb_pred"@)),
            Some(sm) => Ok(b8x8_from(a, sm, 0)),
        },
        _ => match division(mb.mb_type) {
            Some((d, m0, m1, b)) => match mb.mb_pred {
                None => Err(ErrV::UnsupportedInterMbType(missing_pred_text(d, b))),
                Some(p) => Ok(divided(p, d, m0, m1, b)),
            },
            None => Err(ErrV::UnsupportedInterMbType(intra_type_text(mb.mb_type))),
        },
    }
}

pub open spec fn parts_result(r: Result<Vec<InterPartition>, ReconstructError>) -> Result<
    Seq<InterPartition>,
    ErrV,
> {
    match r {
        Ok(v) => Ok(v@),
        Err(e) => Err(e@),
    }
}

fn extend_parts(r: &mut Vec<InterPartition>, more: Vec<InterPartition>)
    requires
        parts_ok(old(r)@),
        parts_ok(more@),
    ensures
        final(r)@ == old(r)@ + more@,
        parts_ok(final(r)@),
{
    let n = more.len();
    for i in 0..n
        invariant
            n == more.len(),
            parts_ok(more@),
            parts_ok(r@),
            r@ == old(r)@ + more@.take(i as int),
    {
        r.push(more[i]);
        assert(r@ =~= old(r)@ + more@.take(i + 1));
    }
    assert(more@.take(n as int) =~= more@);
}

fn direct_parts_of<R: RefPicProvider>(
    slice_header: &SliceHeader,
    sps: &Sps,
    ref_pics: &R,
    cur: &CurPic,
    mb_addr: u32,
    grid: &MbGrid,
    current_slice_id: i32,
    x: u8,
    y: u8,
    region: u8,
    is_skip: bool,
    Ghost(a): Ghost<PartArgs>,
) -> (r: Vec<InterPartition>)
    requires
        a.spatial == slice_header.direct_spatial_mv_pred_flag,
        a.infer8 == sps.direct_8x8_inference_flag,
        a.refs == ref_pics.refs(),
        a.cur == *cur,
        a.addr == mb_addr,
        a.g == grid@,
        a.slice_id == current_slice_id,
        refs_ok(ref_pics.refs()),
        grid.wf(),
        mb_addr <= MAX_ADDR,
        region == 8 || region == 16,
        x % 8 == 0,
        y % 8 == 0,
        x + region <= 16,
        y + region <= 16,
    ensures
        r@ == direct_parts(a, x as int, y as int, region as int, is_skip),
        parts_ok(r@),
{
    if slice_header.direct_spatial_mv_pred_flag {
        build_spatial_direct_partitions(
            sps,
            ref_pics,
            mb_addr,
            grid,
            current_slice_id,
            x,
            y,
            region,
            is_skip,
        )
    } else {
        build_temporal_direct_partitions(
            sps,
            ref_pics,
            cur,
            grid,
            mb_addr,
            x,
            y,
            region,
            is_skip,
        )
    }
}

fn p8x8_parts(sm: &SubMbPred, ref0: bool) -> (r: Vec<InterPartition>)
    ensures
        r@ == p8x8_from(*sm, ref0, 0),
        parts_ok(r@),
{
    let mut r: Vec<InterPartition> = Vec::new();
    let mut q: usize = 0;
    assert(r@ + p8x8_from(*sm, ref0, 0) =~= p8x8_from(*sm, ref0, 0));
    while q < 4
        invariant
            q <= 4,
            parts_ok(r@),
            r@ + p8x8_from(*sm, ref0, q as int) == p8x8_from(*sm, ref0, 0),
        decreases 4 - q,
    {
        let mode = if matches!(sm.sub_mb_type[q], SubMbType::BDirect8x8) {
            PartMode::Direct
        } else {
            PartMode::L0Only
        };
        let r0: i8 = if ref0 {
            0
        } else {
            #[verifier::truncate]
            (sm.ref_idx_l0[q] as i8)
        };
        let more = sub_parts_of(sm, q, mode, r0, -1, false);
        let ghost before = r@;
        let ghost own = more@;
        extend_parts(&mut r, more);
        assert(r@ + p8x8_from(*sm, ref0, q + 1) =~= before + (own + p8x8_from(*sm, ref0, q + 1)));
        q += 1;
    }
    assert(r@ + p8x8_from(*sm, ref0, 4) =~= r@);
    r
}

/// Derives the inter partitions of a macroblock.
pub fn derive_inter_partitions<R: RefPicProvider>(
    mb: &Macroblock,
    slice_header: &SliceHeader,
    sps: &Sps,
    ref_pics: &R,
    cur: &CurPic,
    mb_addr: u32,
    grid: &MbGrid,
    current_slice_id: i32,
) -> (r: Result<Vec<InterPartition>, ReconstructError>)
    requires
        refs_ok(ref_pics.refs()),
        grid.wf(),
        mb_addr <= MAX_ADDR,
    ensures
        parts_result(r) == partitions(
            (PartArgs {
                mb: *mb,
                spatial: slice_header.direct_spatial_mv_pred_flag,
                infer8: sps.direct_8x8_inference_flag,
                refs: ref_pics.refs(),
                cur: *cur,
                addr: mb_addr as int,
                g: grid@,
                slice_id: current_slice_id as int,
            }),
        ),
        r matches Ok(v) ==> parts_ok(v@),
{
    let ghost a = PartArgs {
        mb: *mb,
        spatial: slice_header.direct_spatial_mv_pred_flag,
        infer8: sps.direct_8x8_inference_flag,
        refs: ref_pics.refs(),
        cur: *cur,
        addr: mb_addr as int,
        g: grid@,
        slice_id: current_slice_id as int,
    };
    proof {
        reveal(partitions);
    }
    match &mb.mb_type {
        MbType::PSkip => {
            let mut p = coded(
                0,
                0,
                16,
                16,
                PartMode::L0Only,
                MvpredShape::Default,
                0,
                -1,
                (0, 0),
                (0, 0),
            );
            p.is_skip = true;
            let r = vec![p];
            assert(r@ =~= seq![skip_part()]);
            Ok(r)
        },
        MbType::P8x8 | MbType::P8x8Ref0 => match &mb.sub_mb_pred {
            None => Err(
                ReconstructError::UnsupportedInterMbType("P_8x8 without sub_mb_pred".to_string()),
            ),
            Some(sm) => Ok(p8x8_parts(sm, matches!(mb.mb_type, MbType::P8x8Ref0))),
        },
        MbType::BSkip | MbType::BDirect16x16 => {
            let is_skip = matches!(mb.mb_type, MbType::BSkip);
            Ok(
                direct_parts_of(
                    slice_header,
                    sps,
                    ref_pics,
                    cur,
                    mb_addr,
                    grid,
                    current_slice_id,
                    0,
                    0,
                    16,
                    is_skip,
                    Ghost(a),
                ),
            )
        },
        MbType::B8x8 => {
            let sm = match &mb.sub_mb_pred {
                None => {
                    return Err(
                        ReconstructError::UnsupportedInterMbType(
                            "B_8x8 without sub_mb_pred".to_string(),
                        ),
                    );
                },
                Some(sm) => sm,
            };
            let mut r: Vec<InterPartition> = Vec::new();
            let mut q: usize = 0;
            assert(r@ + b8x8_from(a, *sm, 0) =~= b8x8_from(a, *sm, 0));
            while q < 4
                invariant
                    q <= 4,
                    a.spatial == slice_header.direct_spatial_mv_pred_flag,
                    a.infer8 == sps.direct_8x8_inference_flag,
                    a.refs == ref_pics.refs(),
                    a.cur == *cur,
                    a.addr == mb_addr,
                    a.g == grid@,
                    a.slice_id == current_slice_id,
                    refs_ok(ref_pics.refs()),
                    grid.wf(),
                    mb_addr <= MAX_ADDR,
                    parts_ok(r@),
                    r@ + b8x8_from(a, *sm, q as int) == b8x8_from(a, *sm, 0),
                decreases 4 - q,
            {
                let t = sm.sub_mb_type[q];
                let more = if matches!(t, SubMbType::BDirect8x8) {
                    direct_parts_of(
                        slice_header,
                        sps,
                        ref_pics,
                        cur,
                        mb_addr,
                        grid,
                        current_slice_id,
                        (q % 2) as u8 * 8,
                        (q / 2) as u8 * 8,
                        8,
                        false,
                        Ghost(a),
                    )
                } else {
                    let (mode, r0, r1) = b_sub_mode(
                        t,
                        #[verifier::truncate]
                        (sm.ref_idx_l0[q] as i8),
                        #[verifier::truncate]
                        (sm.ref_idx_l1[q] as i8),
                    );
                    sub_parts_of(sm, q, mode, r0, r1, true)
                };
                let ghost before = r@;
                let ghost own = more@;
                extend_parts(&mut r, more);
                assert(r@ + b8x8_from(a, *sm, q + 1) =~= before + (own + b8x8_from(
                    a,
                    *sm,
                    q + 1,
                )));
                q += 1;
            }
            assert(r@ + b8x8_from(a, *sm, 4) =~= r@);
            Ok(r)
        },
        _ => match division_of(&mb.mb_type) {
            Some((d, m0, m1, b)) => match &mb.mb_pred {
                None => Err(missing_pred(d, b)),
                Some(p) => Ok(divide(p, d, m0, m1, b)),
            },
            None => Err(
                ReconstructError::UnsupportedInterMbType(intra_type_name(&mb.mb_type)),
            ),
        },
    }
}

} // verus!
