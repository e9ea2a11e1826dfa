//! Macroblock addressing: sample origins, neighbours in MBAFF frames, and slice groups.
use crate::mb_grid::{GridV, MbGrid};
use vstd::prelude::*;

verus! {

/// Largest macroblock address that sample coordinates can be derived for.
pub const MAX_ADDR: u32 = 0x0400_0000;

impl GridV {
    /// `mb_field_decoding_flag` of macroblock `addr`; false where the picture has no such macroblock.
    pub open spec fn field_at(self, addr: int) -> bool {
        match self.get(addr) {
            Some(i) => i.mb_field_decoding_flag,
            None => false,
        }
    }

    /// Luma sample position of the first sample of macroblock `addr`.
    ///
    /// In an MBAFF frame the macroblocks of a pair are stacked when frame coded, and interleaved
    /// row by row when field coded.
    pub open spec fn origin(self, addr: int, mbaff: bool, field: bool) -> (int, int) {
        if mbaff {
            let x = ((addr / 2) % self.w) * 16;
            let y = ((addr / 2) / self.w) * 32;
            if addr % 2 == 0 {
                (x, y)
            } else if field {
                (x, y + 1)
            } else {
                (x, y + 16)
            }
        } else {
            ((addr % self.w) * 16, (addr / self.w) * 16)
        }
    }

    /// Top macroblocks of the pairs left, above, above-right and above-left of a macroblock's pair.
    pub open spec fn pair_neighbours(self, addr: int) -> (
        Option<int>,
        Option<int>,
        Option<int>,
        Option<int>,
    ) {
        let pair = addr / 2;
        let left = pair % self.w > 0;
        let above = pair >= self.w;
        let right = (pair + 1) % self.w != 0;
        (
            if left {
                Some(2 * (pair - 1))
            } else {
                None
            },
            if above {
                Some(2 * (pair - self.w))
            } else {
                None
            },
            if above && right {
                Some(2 * (pair - self.w + 1))
            } else {
                None
            },
            if above && left {
                Some(2 * (pair - self.w - 1))
            } else {
                None
            },
        )
    }

    /// Location, in a pair above the current one, of row `yn < 0` relative to macroblock `addr`.
    pub open spec fn row_in_pair_above(self, addr: int, p: int, yn: int) -> (int, int) {
        if !self.field_at(addr) || addr % 2 == 1 {
            (p + 1, yn)
        } else if self.field_at(p) {
            (p, yn)
        } else {
            (p + 1, 2 * yn)
        }
    }

    /// Location, in the pair `p` to the left, of row `0 <= yn < mh` of macroblock `addr`.
    pub open spec fn row_in_pair_left(self, addr: int, p: int, yn: int, mh: int) -> (int, int) {
        let bottom = addr % 2;
        if self.field_at(addr) == self.field_at(p) {
            (p + bottom, yn)
        } else if self.field_at(p) {
            (p + yn % 2, (if bottom == 1 {
                yn + mh
            } else {
                yn
            }) / 2)
        } else if yn < mh / 2 {
            (p, 2 * yn + bottom)
        } else {
            (p + 1, 2 * yn + bottom - mh)
        }
    }

    /// Macroblock that covers a location given relative to macroblock `addr` of an MBAFF frame,
    /// with the row in that macroblock before it is reduced to `0..mh`.
    pub open spec fn mbaff_cover(self, addr: int, xn: int, yn: int, mw: int, mh: int) -> Option<
        (int, int),
    > {
        let (a, b, c, d) = self.pair_neighbours(addr);
        if yn >= mh || (xn >= mw && yn >= 0) {
            None
        } else if yn < 0 && !self.field_at(addr) && addr % 2 == 1 {
            if xn < 0 {
                match a {
                    Some(p) => if self.field_at(p) {
                        Some((p + 1, (yn + mh) / 2))
                    } else {
                        Some((p, yn))
                    },
                    None => None,
                }
            } else if xn < mw {
                Some((addr - 1, yn))
            } else {
                None
            }
        } else if yn < 0 {
            match (if xn < 0 {
                d
            } else if xn < mw {
                b
            } else {
                c
            }) {
                Some(p) => Some(self.row_in_pair_above(addr, p, yn)),
                None => None,
            }
        } else if xn < 0 {
            match a {
                Some(p) => Some(self.row_in_pair_left(addr, p, yn, mh)),
                None => None,
            }
        } else {
            Some((addr, yn))
        }
    }

    /// Macroblock that covers a location given relative to macroblock `addr` of an MBAFF frame, and
    /// the location inside it. Macroblocks are `mw` by `mh` samples.
    pub open spec fn mbaff_location(self, addr: int, xn: int, yn: int, mw: int, mh: int) -> Option<
        (int, int, int),
    > {
        match self.mbaff_cover(addr, xn, yn, mw, mh) {
            Some((n, ym)) => Some((n, (xn + mw) % mw, (ym + mh) % mh)),
            None => None,
        }
    }
}

impl MbGrid {
    pub fn is_field(&self, mb_addr: u32) -> (r: bool)
        ensures
            r == self@.field_at(mb_addr as int),
    {
        match self.get(mb_addr) {
            Some(i) => i.mb_field_decoding_flag,
            None => false,
        }
    }
}

/// Luma sample position of the first sample of a macroblock.
pub fn mb_sample_origin(
    grid: &MbGrid,
    mb_addr: u32,
    mbaff_frame_flag: bool,
    mb_field_decoding_flag: bool,
) -> (r: (i32, i32))
    requires
        grid.width_in_mbs >= 1,
        mb_addr <= MAX_ADDR + 1,
    ensures
        (r.0 as int, r.1 as int) == grid@.origin(
            mb_addr as int,
            mbaff_frame_flag,
            mb_field_decoding_flag,
        ),
        0 <= r.0 <= 0x4000_0010,
        0 <= r.1 <= 0x4000_0020,
{
    let w = grid.width_in_mbs;
    proof {
        lemma_div_mod_bound(mb_addr as int, w as int);
        lemma_div_mod_bound(mb_addr as int / 2, w as int);
    }
    if mbaff_frame_flag {
        let pair: u32 = mb_addr / 2;
        let x: i32 = ((pair % w) * 16) as i32;
        let y: i32 = ((pair / w) * 32) as i32;
        if mb_addr % 2 == 0 {
            (x, y)
        } else if mb_field_decoding_flag {
            (x, y + 1)
        } else {
            (x, y + 16)
        }
    } else {
        (((mb_addr % w) * 16) as i32, ((mb_addr / w) * 16) as i32)
    }
}

pub proof fn lemma_div_mod_bound(n: int, d: int)
    requires
        n >= 0,
        d >= 1,
    ensures
        0 <= n % d <= n,
        0 <= n / d <= n,
        n == d * (n / d) + n % d,
        n % d < d,
{
    vstd::arithmetic::div_mod::lemma_fundamental_div_mod(n, d);
    let q = n / d;
    let m = n % d;
    assert(0 <= q <= n && m <= n) by (nonlinear_arith)
        requires
            n == d * q + m,
            0 <= m < d,
            d >= 1,
            n >= 0,
    ;
}

/// Top macroblocks of the pairs left, above, above-right and above-left of a macroblock's pair.
pub fn mbaff_pair_neighbour_addrs(grid: &MbGrid, mb_addr: u32) -> (r: (
    Option<u32>,
    Option<u32>,
    Option<u32>,
    Option<u32>,
))
    requires
        grid.width_in_mbs >= 1,
        mb_addr <= MAX_ADDR + 1,
    ensures
        ({
            let n = grid@.pair_neighbours(mb_addr as int);
            &&& crate::mb_grid::opt_eq(r.0, n.0)
            &&& crate::mb_grid::opt_eq(r.1, n.1)
            &&& crate::mb_grid::opt_eq(r.2, n.2)
            &&& crate::mb_grid::opt_eq(r.3, n.3)
        }),
{
    let w = grid.width_in_mbs;
    let pair: u32 = mb_addr / 2;
    proof {
        lemma_div_mod_bound(pair as int, w as int);
        if pair as int >= w && pair as int % w as int > 0 {
            let q = pair as int / w as int;
            let m = pair as int % w as int;
            assert(pair > w) by (nonlinear_arith)
                requires
                    pair == w * q + m,
                    m > 0,
                    m < w,
                    pair >= w,
            ;
        }
    }
    let left = pair % w > 0;
    let above = pair >= w;
    let right = (pair + 1) % w != 0;
    (
        if left {
            Some(2 * (pair - 1))
        } else {
            None
        },
        if above {
            Some(2 * (pair - w))
        } else {
            None
        },
        if above && right {
            Some(2 * (pair - w + 1))
        } else {
            None
        },
        if above && left {
            Some(2 * (pair - w - 1))
        } else {
            None
        },
    )
}

fn mbaff_cover_of(grid: &MbGrid, mb_addr: u32, xn: i32, yn: i32, max_w: i32, max_h: i32) -> (r:
    Option<(u32, i32)>)
    requires
        grid.width_in_mbs >= 1,
        mb_addr <= MAX_ADDR,
        -64 <= xn <= 64,
        -64 <= yn <= 64,
        1 <= max_w <= 64,
        1 <= max_h <= 64,
    ensures
        match r {
            Some((n, ym)) => grid@.mbaff_cover(
                mb_addr as int,
                xn as int,
                yn as int,
                max_w as int,
                max_h as int,
            ) == Some((n as int, ym as int)) && n <= MAX_ADDR + 1 && -128 <= ym <= 192,
            None => grid@.mbaff_cover(
                mb_addr as int,
                xn as int,
                yn as int,
                max_w as int,
                max_h as int,
            ) is None,
        },
{
    if yn >= max_h || (xn >= max_w && yn >= 0) {
        return None;
    }
    let (a, b, c, d) = mbaff_pair_neighbour_addrs(grid, mb_addr);
    let field = grid.is_field(mb_addr);
    let bottom: i32 = (mb_addr % 2) as i32;
    if yn < 0 && !field && bottom == 1 {
        if xn < 0 {
            match a {
                Some(p) => if grid.is_field(p) {
                    Some((p + 1, (yn as i64 + max_h as i64).checked_div_euclid(2).unwrap() as i32))
                } else {
                    Some((p, yn))
                },
                None => None,
            }
        } else if xn < max_w {
            Some((mb_addr - 1, yn))
        } else {
            None
        }
    } else if yn < 0 {
        let p = match (if xn < 0 {
            d
        } else if xn < max_w {
            b
        } else {
            c
        }) {
            Some(p) => p,
            None => {
                return None;
            },
        };
        if !field || bottom == 1 {
            Some((p + 1, yn))
        } else if grid.is_field(p) {
            Some((p, yn))
        } else {
            Some((p + 1, 2 * yn))
        }
    } else if xn < 0 {
        let p = match a {
            Some(p) => p,
            None => {
                return None;
            },
        };
        let p_field = grid.is_field(p);
        if field == p_field {
            Some((p + bottom as u32, yn))
        } else if p_field {
            Some((
                    p + (yn % 2) as u32,
                    (yn + if bottom == 1 {
                        max_h
                    } else {
                        0
                    }) / 2,
                ))
        } else if yn < max_h / 2 {
            Some((p, 2 * yn + bottom))
        } else {
            Some((p + 1, 2 * yn + bottom - max_h))
        }
    } else {
        Some((mb_addr, yn))
    }
}

/// Macroblock that covers a location given relative to a macroblock of an MBAFF frame, and the
/// location inside it.
pub fn mbaff_neigh_location(
    grid: &MbGrid,
    mb_addr: u32,
    xn: i32,
    yn: i32,
    max_w: i32,
    max_h: i32,
) -> (r: Option<(u32, i32, i32)>)
    requires
        grid.width_in_mbs >= 1,
        mb_addr <= MAX_ADDR,
        -64 <= xn <= 64,
        -64 <= yn <= 64,
        1 <= max_w <= 64,
        1 <= max_h <= 64,
    ensures
        match r {
            Some((n, xw, yw)) => grid@.mbaff_location(
                mb_addr as int,
                xn as int,
                yn as int,
                max_w as int,
                max_h as int,
            ) == Some((n as int, xw as int, yw as int)) && n <= MAX_ADDR + 1 && 0 <= xw < max_w
                && 0 <= yw < max_h,
            None => grid@.mbaff_location(
                mb_addr as int,
                xn as int,
                yn as int,
                max_w as int,
                max_h as int,
            ) is None,
        },
{
    match mbaff_cover_of(grid, mb_addr, xn, yn, max_w, max_h) {
        Some((n, ym)) => {
            let xw = crate::math::floor_mod(xn as i64 + max_w as i64, max_w as i64);
            let yw = crate::math::floor_mod(ym as i64 + max_h as i64, max_h as i64);
            Some((n, xw as i32, yw as i32))
        },
        None => None,
    }
}

/// First address after `i` of the same slice group as `addr`, at least `i`; the length of the map
/// when there is none.
pub open spec fn next_in_group(map: Seq<u32>, addr: int, i: int) -> int
    decreases map.len() - i,
{
    if i < map.len() && map[i] != map[addr] {
        next_in_group(map, addr, i + 1)
    } else {
        i
    }
}

/// Address of the macroblock that follows `addr` in its slice group.
pub open spec fn next_addr(map: Option<Seq<u32>>, addr: int) -> int {
    match map {
        Some(m) => if addr < m.len() {
            next_in_group(m, addr, addr + 1)
        } else {
            addr + 1
        },
        None => addr + 1,
    }
}

/// View of an optional slice group map.
pub open spec fn map_view(map: Option<Vec<u32>>) -> Option<Seq<u32>> {
    match map {
        Some(m) => Some(m@),
        None => None,
    }
}

/// Address of the macroblock that follows `addr` in its slice group. Without a map every
/// macroblock belongs to one group.
pub fn advance_mb_addr(addr: u32, map: &Option<Vec<u32>>) -> (r: u32)
    requires
        addr < MAX_ADDR,
        *map matches Some(m) ==> m.len() <= MAX_ADDR,
    ensures
        r == next_addr(map_view(*map), addr as int),
        r <= MAX_ADDR,
        r > addr,
{
    match map {
        Some(m) => {
            if addr as usize >= m.len() {
                return addr + 1;
            }
            let mut i: u32 = addr + 1;
            while (i as usize) < m.len() && m[i as usize] != m[addr as usize]
                invariant
                    addr < i <= m.len(),
                    m.len() <= MAX_ADDR,
                    next_in_group(m@, addr as int, i as int) == next_in_group(
                        m@,
                        addr as int,
                        addr + 1,
                    ),
                decreases m.len() - i,
            {
                i += 1;
            }
            i
        },
        None => addr + 1,
    }
}

proof fn lemma_next_in_group(m: Seq<u32>, addr: int, i: int, k: int)
    requires
        0 <= addr < m.len(),
        addr < i <= m.len(),
    ensures
        i <= next_in_group(m, addr, i) <= m.len(),
        next_in_group(m, addr, i) < m.len() ==> m[next_in_group(m, addr, i)] == m[addr],
        i <= k < next_in_group(m, addr, i) ==> m[k] != m[addr],
    decreases m.len() - i,
{
    if i < m.len() && m[i] != m[addr] {
        lemma_next_in_group(m, addr, i + 1, k);
    }
}

/// The next address belongs to the same slice group, and none between the two does.
pub proof fn law_next_address_in_group(m: Seq<u32>, addr: int, k: int)
    requires
        0 <= addr < m.len(),
    ensures
        addr < next_addr(Some(m), addr) <= m.len(),
        next_addr(Some(m), addr) < m.len() ==> m[next_addr(Some(m), addr)] == m[addr],
        addr < k < next_addr(Some(m), addr) ==> m[k] != m[addr],
{
    lemma_next_in_group(m, addr, addr + 1, k);
}

} // verus!
