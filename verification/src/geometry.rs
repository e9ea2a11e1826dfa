//! Where the samples of a macroblock stand in the picture.
use crate::mb_grid::{GridV, MbGrid};
use crate::picture::{same_meta, Picture};
use vstd::prelude::*;

verus! {

pub const LUMA_4X4_XY: [(i32, i32); 16] = [
    (0, 0),
    (4, 0),
    (0, 4),
    (4, 4),
    (8, 0),
    (12, 0),
    (8, 4),
    (12, 4),
    (0, 8),
    (4, 8),
    (0, 12),
    (4, 12),
    (8, 8),
    (12, 8),
    (8, 12),
    (12, 12),
];

pub const LUMA_8X8_XY: [(i32, i32); 4] = [(0, 0), (8, 0), (0, 8), (8, 8)];

/// Index of the 4x4 luma block in column `bx` and row `by` of blocks.
pub open spec fn blk4_of(bx: int, by: int) -> int {
    4 * (2 * (by / 2) + bx / 2) + 2 * (by % 2) + bx % 2
}

pub fn blk4_raster_index(bx_b: u8, by_b: u8) -> (r: u8)
    requires
        bx_b < 4,
        by_b < 4,
    ensures
        r == blk4_of(bx_b as int, by_b as int),
        r < 16,
{
    4 * (2 * (by_b / 2) + bx_b / 2) + 2 * (by_b % 2) + bx_b % 2
}

/// The block index is the inverse of the table of block positions.
pub proof fn law_blk4_inverts_positions(i: int)
    requires
        0 <= i < 16,
    ensures
        blk4_of(LUMA_4X4_XY[i].0 as int / 4, LUMA_4X4_XY[i].1 as int / 4) == i,
{
}

/// Width of the chroma block of a macroblock.
pub open spec fn mb_w_c(cat: u32) -> int {
    if cat == 1 || cat == 2 {
        8
    } else if cat == 3 {
        16
    } else {
        0
    }
}

/// Height of the chroma block of a macroblock.
pub open spec fn mb_h_c(cat: u32) -> int {
    if cat == 1 {
        8
    } else if cat == 2 || cat == 3 {
        16
    } else {
        0
    }
}

pub fn chroma_mb_dims(chroma_array_type: u32) -> (r: (u32, u32))
    ensures
        r.0 == mb_w_c(chroma_array_type),
        r.1 == mb_h_c(chroma_array_type),
{
    match chroma_array_type {
        1 => (8, 8),
        2 => (8, 16),
        3 => (16, 16),
        _ => (0, 0),
    }
}

/// Luma columns per chroma column.
pub open spec fn sub_w(cat: u32) -> int {
    if cat == 1 || cat == 2 {
        2
    } else {
        1
    }
}

/// Luma rows per chroma row.
pub open spec fn sub_h(cat: u32) -> int {
    if cat == 1 {
        2
    } else {
        1
    }
}

pub fn chroma_subsample(chroma_array_type: u32) -> (r: (i32, i32))
    ensures
        r.0 == sub_w(chroma_array_type),
        r.1 == sub_h(chroma_array_type),
        1 <= r.0 <= 2,
        1 <= r.1 <= 2,
{
    match chroma_array_type {
        1 => (2, 2),
        2 => (2, 1),
        _ => (1, 1),
    }
}

/// Places the samples of one macroblock.
///
/// The rows of a field macroblock are two picture rows apart, so that the two macroblocks of a
/// field pair interleave.
#[derive(Debug, Clone, Copy)]
pub struct MbWriter {
    pub mb_px: i32,
    pub mb_py: i32,
    pub mb_field: bool,
    pub mbaff_frame: bool,
    pub pair_px: i32,
    pub pair_py: i32,
    pub mb_is_top: bool,
    pub chroma_array_type: u32,
}

impl MbWriter {
    /// Coordinates that stay within 32 bits when a macroblock is added to them.
    pub open spec fn wf(&self) -> bool {
        &&& 0 <= self.mb_px <= 0x4000_0010
        &&& 0 <= self.mb_py <= 0x4000_0020
        &&& 0 <= self.pair_px <= 0x4000_0010
        &&& 0 <= self.pair_py <= 0x4000_0020
    }

    /// Picture rows from one row of the macroblock to the next.
    pub open spec fn step(&self) -> int {
        if self.mb_field {
            2
        } else {
            1
        }
    }

    /// First chroma column.
    pub open spec fn cx(&self) -> int {
        self.pair_px as int / sub_w(self.chroma_array_type)
    }

    /// First chroma row.
    pub open spec fn cy(&self) -> int {
        let sh = sub_h(self.chroma_array_type);
        if !self.mbaff_frame {
            self.mb_py as int / sh
        } else if self.mb_is_top {
            self.pair_py as int / sh
        } else if self.mb_field {
            self.pair_py as int / sh + 1
        } else {
            self.pair_py as int / sh + mb_h_c(self.chroma_array_type)
        }
    }

    pub fn new(
        grid: &MbGrid,
        mb_addr: u32,
        mb_px: i32,
        mb_py: i32,
        mbaff_frame: bool,
        mb_field: bool,
        chroma_array_type: u32,
    ) -> (r: MbWriter)
        requires
            grid.width_in_mbs >= 1,
            mb_addr <= crate::mb_address::MAX_ADDR,
        ensures
            r == writer_of(
                grid@,
                mb_addr as int,
                mb_px,
                mb_py,
                mbaff_frame,
                mb_field,
                chroma_array_type,
            ),
            0 <= mb_px <= 0x4000_0010 && 0 <= mb_py <= 0x4000_0020 ==> r.wf(),
    {
        if mbaff_frame {
            let w = grid.width_in_mbs;
            let pair: u32 = mb_addr / 2;
            proof {
                crate::mb_address::lemma_div_mod_bound(pair as int, w as int);
            }
            MbWriter {
                mb_px,
                mb_py,
                mb_field,
                mbaff_frame,
                pair_px: ((pair % w) * 16) as i32,
                pair_py: ((pair / w) * 32) as i32,
                mb_is_top: mb_addr % 2 == 0,
                chroma_array_type,
            }
        } else {
            MbWriter {
                mb_px,
                mb_py,
                mb_field,
                mbaff_frame,
                pair_px: mb_px,
                pair_py: mb_py,
                mb_is_top: true,
                chroma_array_type,
            }
        }
    }

    pub fn y_stride(&self) -> (r: i32)
        ensures
            r == self.step(),
    {
        if self.mb_field {
            2
        } else {
            1
        }
    }

    pub fn chroma_mb_px(&self) -> (r: i32)
        requires
            self.wf(),
        ensures
            r == self.cx(),
            0 <= r <= 0x4000_0010,
            sub_w(self.chroma_array_type) == 2 ==> r <= 0x2000_0010,
    {
        let (sw, _) = chroma_subsample(self.chroma_array_type);
        if sw == 2 {
            self.pair_px / 2
        } else {
            self.pair_px
        }
    }

    pub fn chroma_mb_py(&self) -> (r: i32)
        requires
            self.wf(),
        ensures
            r == self.cy(),
            0 <= r <= 0x4000_0030,
            sub_h(self.chroma_array_type) == 2 ==> r <= 0x2000_0030,
    {
        let (_, sh) = chroma_subsample(self.chroma_array_type);
        let luma_row = if self.mbaff_frame {
            self.pair_py
        } else {
            self.mb_py
        };
        let row: i32 = if sh == 2 {
            luma_row / 2
        } else {
            luma_row
        };
        if !self.mbaff_frame || self.mb_is_top {
            row
        } else if self.mb_field {
            row + 1
        } else {
            let (_, h) = chroma_mb_dims(self.chroma_array_type);
            row + h as i32
        }
    }

    /// Writes the luma sample at column `x_in_mb` and row `y_in_mb` of the macroblock.
    pub fn set_luma(&self, pic: &mut Picture, x_in_mb: i32, y_in_mb: i32, v: i32)
        requires
            self.wf(),
            -0x1000_0000 <= x_in_mb <= 0x1000_0000,
            -0x1000_0000 <= y_in_mb <= 0x1000_0000,
        ensures
            final(pic).luma@ == old(pic).luma@.set(
                self.mb_px + x_in_mb,
                self.mb_py + y_in_mb * self.step(),
                v as int,
            ),
            final(pic).cb == old(pic).cb,
            final(pic).cr == old(pic).cr,
            same_meta(*final(pic), *old(pic)),
    {
        let y: i32 = if self.mb_field {
            y_in_mb * 2
        } else {
            y_in_mb
        };
        pic.set_luma(self.mb_px + x_in_mb, self.mb_py + y, v);
    }
}

/// The writer of a macroblock.
pub open spec fn writer_of(
    g: GridV,
    addr: int,
    mb_px: i32,
    mb_py: i32,
    mbaff_frame: bool,
    mb_field: bool,
    chroma_array_type: u32,
) -> MbWriter {
    if mbaff_frame {
        MbWriter {
            mb_px,
            mb_py,
            mb_field,
            mbaff_frame,
            pair_px: (((addr / 2) % g.w) * 16) as i32,
            pair_py: (((addr / 2) / g.w) * 32) as i32,
            mb_is_top: addr % 2 == 0,
            chroma_array_type,
        }
    } else {
        MbWriter {
            mb_px,
            mb_py,
            mb_field,
            mbaff_frame,
            pair_px: mb_px,
            pair_py: mb_py,
            mb_is_top: true,
            chroma_array_type,
        }
    }
}

/// The two macroblocks of a field pair write different rows, and together every row of the pair.
pub proof fn law_field_pair_rows_interleave(g: GridV, pair: int, k: int, j: int)
    requires
        g.w >= 1,
        pair >= 0,
        0 <= k < 16,
        0 <= j < 16,
    ensures
        ({
            let top = g.origin(2 * pair, true, true);
            let bottom = g.origin(2 * pair + 1, true, true);
            let y0 = (pair / g.w) * 32;
            &&& top.0 == bottom.0
            &&& top.1 + 2 * k != bottom.1 + 2 * j
            &&& top.1 + 2 * k == y0 + 2 * k
            &&& bottom.1 + 2 * j == y0 + 2 * j + 1
        }),
{
}

} // verus!
