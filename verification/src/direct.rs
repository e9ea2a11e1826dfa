//! Direct prediction: motion derived from a co-located macroblock or from neighbours.
use crate::geometry::{blk4_of, blk4_raster_index, LUMA_4X4_XY};
use crate::inter_pred::{dist_scale, dist_scale_factor};
use crate::math::{abs_of, clip3, clip3_i64, floor_div, half_to_zero};
use crate::mb_address::MAX_ADDR;
use crate::mb_grid::{GridV, MbGrid};
use crate::mv_deriv::Mv;
use crate::picture::{colocated_of, PicCodingStruct, Picture};
use crate::ref_store::{RefPicProvider, RefsV};
use vstd::prelude::*;

verus! {

/// What direct prediction reads of the current picture.
#[derive(Debug, Clone, Copy)]
pub struct CurPic {
    pub coding_struct: PicCodingStruct,
    pub is_bottom_field: bool,
    pub poc: i32,
    pub top_poc: i32,
    pub bottom_poc: i32,
}

pub open spec fn cur_pic(p: Picture) -> CurPic {
    CurPic {
        coding_struct: p.coding_struct,
        is_bottom_field: p.is_bottom_field,
        poc: p.pic_order_cnt,
        top_poc: p.top_field_order_cnt,
        bottom_poc: p.bottom_field_order_cnt,
    }
}

pub fn cur_pic_of(p: &Picture) -> (r: CurPic)
    ensures
        r == cur_pic(*p),
{
    CurPic {
        coding_struct: p.coding_struct,
        is_bottom_field: p.is_bottom_field,
        poc: p.pic_order_cnt,
        top_poc: p.top_field_order_cnt,
        bottom_poc: p.bottom_field_order_cnt,
    }
}

/// Lists short enough for their indices to be doubled.
pub open spec fn refs_ok(refs: RefsV) -> bool {
    refs.list_0_unit_keys.len() <= 0x3fff_ffff && refs.list_0_pocs.len() <= 0x3fff_ffff
}

/// How vertical motion of the co-located macroblock relates to that of the current one.
#[derive(Debug, Clone, Copy, PartialEq, Eq, Structural)]
pub enum VertMvScale {
    OneToOne,
    FrmToFld,
    FldToFrm,
}

/// The current macroblock is a field macroblock of an MBAFF frame.
pub open spec fn cur_mb_field(cur: CurPic, g: GridV, addr: int) -> bool {
    cur.coding_struct is Afrm && g.field_at(addr)
}

/// The second of two fields is at least as close to the current picture as the first.
pub open spec fn bottom_closer(cur: CurPic, t: int, b: int) -> bool {
    abs_of(t - cur.poc) >= abs_of(b - cur.poc)
}

/// The co-located picture and how it is coded.
pub open spec fn col_pic(refs: RefsV, cur: CurPic, g: GridV, addr: int) -> Option<
    (Picture, PicCodingStruct),
> {
    if cur.coding_struct is Fld {
        match (refs.pic)(1, 0) {
            Some(c) => Some(
                (
                    c,
                    if c.view_of_frame_parity is Some {
                        c.coding_struct
                    } else {
                        PicCodingStruct::Fld
                    },
                ),
            ),
            None => None,
        }
    } else if (refs.pair_field)(1, 0, false) is Some {
        let bottom = if cur_mb_field(cur, g, addr) {
            Some(addr % 2 != 0)
        } else {
            match (refs.entry_unit_focs)(1, 0) {
                Some((t, b)) => Some(bottom_closer(cur, t as int, b as int)),
                None => None,
            }
        };
        match bottom {
            Some(b) => match (refs.pair_field)(1, 0, b) {
                Some(c) => Some((c, PicCodingStruct::Fld)),
                None => None,
            },
            None => None,
        }
    } else {
        match (refs.pic)(1, 0) {
            Some(c) => Some((c, c.coding_struct)),
            None => None,
        }
    }
}

/// `mb_field_decoding_flag` of a macroblock of the co-located picture.
pub open spec fn col_field(c: Picture, addr: int) -> bool {
    0 <= addr < c.mb_field_flags@.len() && c.mb_field_flags@[addr]
}

/// Co-located macroblock, row in it, and scale of vertical motion.
pub open spec fn col_location(
    refs: RefsV,
    cur: CurPic,
    g: GridV,
    c: Picture,
    cs: PicCodingStruct,
    addr: int,
    y: int,
) -> (int, int, VertMvScale) {
    let w = g.w;
    let field = cur_mb_field(cur, g, addr);
    match cur.coding_struct {
        PicCodingStruct::Fld => match cs {
            PicCodingStruct::Fld => (addr, y, VertMvScale::OneToOne),
            PicCodingStruct::Frm => (
                2 * w * (addr / w) + addr % w + w * (y / 8),
                (2 * y) % 16,
                VertMvScale::FrmToFld,
            ),
            PicCodingStruct::Afrm => if !col_field(c, 2 * addr) {
                (2 * addr + y / 8, (2 * y) % 16, VertMvScale::FrmToFld)
            } else {
                (
                    2 * addr + if cur.is_bottom_field {
                        1int
                    } else {
                        0int
                    },
                    y,
                    VertMvScale::OneToOne,
                )
            },
        },
        PicCodingStruct::Frm => if cs is Fld {
            (
                w * (addr / (2 * w)) + addr % w,
                8 * ((addr / w) % 2) + 4 * (y / 8),
                VertMvScale::FldToFrm,
            )
        } else {
            (addr, y, VertMvScale::OneToOne)
        },
        PicCodingStruct::Afrm => if cs is Fld {
            if !field {
                (addr / 2, 8 * (addr % 2) + 4 * (y / 8), VertMvScale::FldToFrm)
            } else {
                (addr / 2, y, VertMvScale::OneToOne)
            }
        } else if field == col_field(c, addr) {
            (addr, y, VertMvScale::OneToOne)
        } else if !field {
            let (t, b) = match (refs.entry_unit_focs)(1, 0) {
                Some(p) => p,
                None => (c.top_field_order_cnt, c.bottom_field_order_cnt),
            };
            (
                2 * (addr / 2) + if bottom_closer(cur, t as int, b as int) {
                    1int
                } else {
                    0int
                },
                8 * (addr % 2) + 4 * (y / 8),
                VertMvScale::FldToFrm,
            )
        } else {
            (2 * (addr / 2) + y / 8, (2 * y) % 16, VertMvScale::FrmToFld)
        },
    }
}

/// Motion of a co-located block: list 0 where it is used, else list 1; none for intra blocks. The
/// last part says whether it is that of list 1.
pub open spec fn col_motion(c: Picture, addr: int, blk: int) -> ((i16, i16), i8, bool) {
    let l0 = colocated_of(c, 0, addr, blk);
    let l1 = colocated_of(c, 1, addr, blk);
    match (l0, l1) {
        (Some((mv0, r0, intra)), Some((mv1, r1, _))) => if intra {
            ((0, 0), (-1) as i8, false)
        } else if r0 >= 0 {
            (mv0, r0, false)
        } else if r1 >= 0 {
            (mv1, r1, true)
        } else {
            ((0, 0), (-1) as i8, false)
        },
        _ => ((0, 0), (-1) as i8, false),
    }
}

/// Vertical motion in units of the current macroblock.
pub open spec fn scaled_col_mv(mv: (i16, i16), v: VertMvScale) -> Mv {
    Mv {
        x: mv.0 as i32,
        y: (match v {
            VertMvScale::FrmToFld => half_to_zero(mv.1 as int),
            VertMvScale::FldToFrm => mv.1 * 2,
            VertMvScale::OneToOne => mv.1 as int,
        }) as i32,
    }
}

pub open spec fn parity_at(p: Seq<Option<u8>>, i: int) -> Option<u8> {
    if 0 <= i < p.len() {
        p[i]
    } else {
        None
    }
}

/// The frame, and field of it, that the co-located block refers to.
pub open spec fn col_ref(
    c: Picture,
    cs: PicCodingStruct,
    col_addr: int,
    ref_idx: i8,
    used_l1: bool,
) -> Option<(u32, Option<u8>)> {
    let keys = if used_l1 {
        c.ref_list_1_keys@
    } else {
        c.ref_list_0_keys@
    };
    let units = if used_l1 {
        c.ref_list_1_unit_keys@
    } else {
        c.ref_list_0_unit_keys@
    };
    let parities = if used_l1 {
        c.ref_list_1_parities@
    } else {
        c.ref_list_0_parities@
    };
    let i = ref_idx as int;
    if i < 0 {
        None
    } else if cs is Afrm && col_field(c, col_addr) {
        if i / 2 < units.len() {
            Some(
                (
                    units[i / 2],
                    Some(
                        (if i % 2 == 0 {
                            col_addr % 2
                        } else {
                            1 - col_addr % 2
                        }) as u8,
                    ),
                ),
            )
        } else {
            None
        }
    } else if i < keys.len() && i < units.len() {
        Some((units[i], parity_at(parities, i)))
    } else {
        None
    }
}

/// First entry from `k` on with the given frame key, and parity where one is asked for.
pub open spec fn find_unit(
    units: Seq<u32>,
    parities: Seq<Option<u8>>,
    unit: u32,
    parity: Option<Option<u8>>,
    k: int,
) -> Option<int>
    decreases units.len() - k,
{
    if k >= units.len() {
        None
    } else if units[k] == unit && (parity matches Some(p) ==> parity_at(parities, k) == p) {
        Some(k)
    } else {
        find_unit(units, parities, unit, parity, k + 1)
    }
}

/// First entry from `k` on with the given picture order count.
pub open spec fn find_poc(pocs: Seq<i32>, poc: i32, k: int) -> Option<int>
    decreases pocs.len() - k,
{
    if k >= pocs.len() {
        None
    } else if pocs[k] == poc {
        Some(k)
    } else {
        find_poc(pocs, poc, k + 1)
    }
}

pub open spec fn or_zero(k: Option<int>) -> int {
    match k {
        Some(v) => v,
        None => 0,
    }
}

/// Index in list 0 of what the co-located block refers to.
pub open spec fn mapped_ref(
    refs: RefsV,
    cur: CurPic,
    field: bool,
    addr: int,
    v: VertMvScale,
    r: Option<(u32, Option<u8>)>,
) -> int {
    let units = refs.list_0_unit_keys;
    let parities = refs.list_0_parities;
    match r {
        None => 0,
        Some((unit, parity)) => {
            let frame = find_unit(units, parities, unit, None, 0);
            if cur.coding_struct is Fld && v is OneToOne {
                or_zero(find_unit(units, parities, unit, Some(parity), 0))
            } else if cur.coding_struct is Fld && v is FrmToFld {
                let own = if cur.is_bottom_field {
                    1u8
                } else {
                    0u8
                };
                or_zero(find_unit(units, parities, unit, Some(Some(own)), 0))
            } else if v is OneToOne && field {
                let own = addr % 2;
                let p = match parity {
                    Some(q) => q as int,
                    None => own,
                };
                match frame {
                    Some(k) => 2 * k + if p != own {
                        1int
                    } else {
                        0int
                    },
                    None => 0,
                }
            } else if v is FrmToFld {
                2 * or_zero(frame)
            } else {
                or_zero(frame)
            }
        },
    }
}

/// Index in list 0 of what the co-located block refers to; by picture order count where list 0
/// carries no keys.
pub open spec fn direct_ref(
    refs: RefsV,
    cur: CurPic,
    field: bool,
    addr: int,
    v: VertMvScale,
    c: Picture,
    cs: PicCodingStruct,
    col_addr: int,
    ref_idx: i8,
    used_l1: bool,
) -> int {
    if refs.list_0_unit_keys.len() == 0 && ref_idx >= 0 && refs.list_0_pocs.len() > 0 {
        let pocs = if used_l1 {
            c.ref_list_1_pocs@
        } else {
            c.ref_list_0_pocs@
        };
        if ref_idx < pocs.len() {
            or_zero(find_poc(refs.list_0_pocs, pocs[ref_idx as int], 0))
        } else {
            0
        }
    } else {
        mapped_ref(refs, cur, field, addr, v, col_ref(c, cs, col_addr, ref_idx, used_l1))
    }
}

pub open spec fn flag_at(s: Seq<bool>, i: int) -> bool {
    0 <= i < s.len() && s[i]
}

/// Picture order counts of the current picture or field and of the two references, and whether
/// the first reference is a long-term one.
pub open spec fn direct_pocs(
    refs: RefsV,
    cur: CurPic,
    field: bool,
    addr: int,
    c: Picture,
    ref_l0: int,
) -> Option<(int, int, int, bool)> {
    if field {
        let bottom = addr % 2 != 0;
        match ((refs.entry_unit_focs)(1, 0), (refs.entry_unit_focs)(0, (ref_l0 / 2) as u32)) {
            (Some((t1, b1)), Some((t0, b0))) => Some(
                (
                    if bottom {
                        cur.bottom_poc as int
                    } else {
                        cur.top_poc as int
                    },
                    if bottom {
                        b1 as int
                    } else {
                        t1 as int
                    },
                    if bottom == (ref_l0 % 2 == 0) {
                        b0 as int
                    } else {
                        t0 as int
                    },
                    flag_at(refs.list_0_longterm, ref_l0 / 2),
                ),
            ),
            _ => None,
        }
    } else {
        Some(
            (
                cur.poc as int,
                match refs.poc(1, 0) {
                    Some(p) => p as int,
                    None => c.pic_order_cnt as int,
                },
                match refs.poc(0, ref_l0 as u32) {
                    Some(p) => p as int,
                    None => cur.poc as int,
                },
                flag_at(refs.list_0_longterm, ref_l0),
            ),
        )
    }
}

/// Vectors of a direct block from that of the co-located block.
pub open spec fn scaled_mvs(mv: Mv, cur: int, poc1: int, poc0: int, long_term: bool) -> (Mv, Mv) {
    let tb = clip3(-128, 127, cur - poc0);
    let td = clip3(-128, 127, poc1 - poc0);
    if long_term || poc1 == poc0 {
        (mv, Mv::zero())
    } else {
        let s = dist_scale(tb, td);
        let x = (s * mv.x + 128) / 256;
        let y = (s * mv.y + 128) / 256;
        (Mv { x: x as i32, y: y as i32 }, Mv { x: (x - mv.x) as i32, y: (y - mv.y) as i32 })
    }
}

/// Reference index in list 0 and the two vectors of a block under temporal direct prediction;
/// `blk` is the co-located block.
#[verifier::opaque]
pub open spec fn temporal_direct(
    refs: RefsV,
    cur: CurPic,
    g: GridV,
    addr: int,
    blk: int,
) -> Option<(i8, Mv, Mv)> {
    let field = cur_mb_field(cur, g, addr);
    match col_pic(refs, cur, g, addr) {
        None => None,
        Some((c, cs)) => {
            let xy = LUMA_4X4_XY[blk];
            let (col_addr, ym, v) = col_location(refs, cur, g, c, cs, addr, xy.1 as int);
            let (mv0, ref_idx, used_l1) = col_motion(
                c,
                col_addr,
                blk4_of(xy.0 as int / 4, ym / 4),
            );
            let mv = scaled_col_mv(mv0, v);
            let r = direct_ref(refs, cur, field, addr, v, c, cs, col_addr, ref_idx, used_l1);
            match direct_pocs(refs, cur, field, addr, c, r) {
                None => None,
                Some((p, poc1, poc0, long_term)) => {
                    let (a, b) = scaled_mvs(mv, p, poc1, poc0, long_term);
                    Some((r as i8, a, b))
                },
            }
        },
    }
}

fn is_bottom_closer(cur: &CurPic, t: i32, b: i32) -> (r: bool)
    ensures
        r == bottom_closer(*cur, t as int, b as int),
{
    let dt: i64 = t as i64 - cur.poc as i64;
    let db: i64 = b as i64 - cur.poc as i64;
    let at: i64 = if dt < 0 {
        -dt
    } else {
        dt
    };
    let ab: i64 = if db < 0 {
        -db
    } else {
        db
    };
    at >= ab
}

fn is_cur_mb_field(cur: &CurPic, grid: &MbGrid, mb_addr: u32) -> (r: bool)
    ensures
        r == cur_mb_field(*cur, grid@, mb_addr as int),
{
    matches!(cur.coding_struct, PicCodingStruct::Afrm) && grid.is_field(mb_addr)
}

fn col_picture<'a, R: RefPicProvider>(
    ref_pics: &'a R,
    cur: &CurPic,
    grid: &MbGrid,
    mb_addr: u32,
) -> (r: Option<(&'a Picture, PicCodingStruct)>)
    ensures
        match r {
            Some((c, cs)) => col_pic(ref_pics.refs(), *cur, grid@, mb_addr as int) == Some((*c, cs)),
            None => col_pic(ref_pics.refs(), *cur, grid@, mb_addr as int) is None,
        },
{
    if matches!(cur.coding_struct, PicCodingStruct::Fld) {
        return match ref_pics.ref_pic(1, 0) {
            Some(c) => Some(
                (
                    c,
                    if c.view_of_frame_parity.is_some() {
                        c.coding_struct
                    } else {
                        PicCodingStruct::Fld
                    },
                ),
            ),
            None => None,
        };
    }
    if ref_pics.ref_pair_field(1, 0, false).is_some() {
        let bottom = if is_cur_mb_field(cur, grid, mb_addr) {
            mb_addr % 2 != 0
        } else {
            match ref_pics.ref_entry_unit_focs(1, 0) {
                Some((t, b)) => is_bottom_closer(cur, t, b),
                None => {
                    return None;
                },
            }
        };
        return match ref_pics.ref_pair_field(1, 0, bottom) {
            Some(c) => Some((c, PicCodingStruct::Fld)),
            None => None,
        };
    }
    match ref_pics.ref_pic(1, 0) {
        Some(c) => Some((c, c.coding_struct)),
        None => None,
    }
}

fn is_col_field(c: &Picture, addr: u32) -> (r: bool)
    ensures
        r == col_field(*c, addr as int),
{
    (addr as usize) < c.mb_field_flags.len() && c.mb_field_flags[addr as usize]
}

fn col_location_of<R: RefPicProvider>(
    ref_pics: &R,
    cur: &CurPic,
    grid: &MbGrid,
    c: &Picture,
    cs: PicCodingStruct,
    mb_addr: u32,
    y: u32,
) -> (r: (u32, u32, VertMvScale))
    requires
        grid.wf(),
        mb_addr <= MAX_ADDR,
        y < 16,
    ensures
        ({
            let l = col_location(
                ref_pics.refs(),
                *cur,
                grid@,
                *c,
                cs,
                mb_addr as int,
                y as int,
            );
            r.0 == l.0 && r.1 == l.1 && r.2 == l.2 && 0 <= r.1 < 16
        }),
{
    let w = grid.width_in_mbs;
    let a = mb_addr;
    proof {
        crate::mb_address::lemma_div_mod_bound(a as int, w as int);
        let q = a as int / w as int;
        let m = a as int % w as int;
        assert(w <= grid.info.len()) by (nonlinear_arith)
            requires
                grid.info.len() == w * grid.height_in_mbs,
                grid.height_in_mbs >= 1,
                w >= 1,
        ;
        assert(w * q == q * w) by (nonlinear_arith);
        assert(2 * w * q == 2 * (w * q)) by (nonlinear_arith);
        let q2 = a as int / (2 * w);
        crate::mb_address::lemma_div_mod_bound(a as int, 2 * w);
        assert(2 * w * q2 == 2 * (w * q2)) by (nonlinear_arith);
        assert(0 <= w * q2) by (nonlinear_arith)
            requires
                w >= 1,
                q2 >= 0,
        ;
        assert(0 <= w * q) by (nonlinear_arith)
            requires
                w >= 1,
                q >= 0,
        ;
    }
    let field = is_cur_mb_field(cur, grid, mb_addr);
    match cur.coding_struct {
        PicCodingStruct::Fld => match cs {
            PicCodingStruct::Fld => (a, y, VertMvScale::OneToOne),
            PicCodingStruct::Frm => {
                let lower: u32 = if y >= 8 {
                    w
                } else {
                    0
                };
                assert(lower == w * (y as int / 8)) by (nonlinear_arith)
                    requires
                        y < 16,
                        lower == (if y >= 8 {
                            w as int
                        } else {
                            0
                        }),
                ;
                (2 * w * (a / w) + a % w + lower, (2 * y) % 16, VertMvScale::FrmToFld)
            },
            PicCodingStruct::Afrm => if !is_col_field(c, 2 * a) {
                (2 * a + y / 8, (2 * y) % 16, VertMvScale::FrmToFld)
            } else {
                (
                    2 * a + if cur.is_bottom_field {
                        1
                    } else {
                        0
                    },
                    y,
                    VertMvScale::OneToOne,
                )
            },
        },
        PicCodingStruct::Frm => if matches!(cs, PicCodingStruct::Fld) {
            (
                w * (a / (2 * w)) + a % w,
                8 * ((a / w) % 2) + 4 * (y / 8),
                VertMvScale::FldToFrm,
            )
        } else {
            (a, y, VertMvScale::OneToOne)
        },
        PicCodingStruct::Afrm => if matches!(cs, PicCodingStruct::Fld) {
            if !field {
                (a / 2, 8 * (a % 2) + 4 * (y / 8), VertMvScale::FldToFrm)
            } else {
                (a / 2, y, VertMvScale::OneToOne)
            }
        } else if field == is_col_field(c, a) {
            (a, y, VertMvScale::OneToOne)
        } else if !field {
            let (t, b) = match ref_pics.ref_entry_unit_focs(1, 0) {
                Some(p) => p,
                None => (c.top_field_order_cnt, c.bottom_field_order_cnt),
            };
            (
                2 * (a / 2) + if is_bottom_closer(cur, t, b) {
                    1
                } else {
                    0
                },
                8 * (a % 2) + 4 * (y / 8),
                VertMvScale::FldToFrm,
            )
        } else {
            (2 * (a / 2) + y / 8, (2 * y) % 16, VertMvScale::FrmToFld)
        },
    }
}

pub fn col_motion_of(c: &Picture, addr: u32, blk: usize) -> (r: ((i16, i16), i8, bool))
    ensures
        r == col_motion(*c, addr as int, blk as int),
{
    let l0 = c.colocated_in(0, addr, blk);
    let l1 = c.colocated_in(1, addr, blk);
    match (l0, l1) {
        (Some((mv0, r0, intra)), Some((mv1, r1, _))) => if intra {
            ((0, 0), -1, false)
        } else if r0 >= 0 {
            (mv0, r0, false)
        } else if r1 >= 0 {
            (mv1, r1, true)
        } else {
            ((0, 0), -1, false)
        },
        _ => ((0, 0), -1, false),
    }
}

fn scale_col_mv(mv: (i16, i16), v: VertMvScale) -> (r: Mv)
    ensures
        r == scaled_col_mv(mv, v),
{
    let y: i32 = mv.1 as i32;
    Mv {
        x: mv.0 as i32,
        y: match v {
            VertMvScale::FrmToFld => if y < 0 {
                -((-y) / 2)
            } else {
                y / 2
            },
            VertMvScale::FldToFrm => y * 2,
            VertMvScale::OneToOne => y,
        },
    }
}

fn parity_of(p: &[Option<u8>], i: usize) -> (r: Option<u8>)
    ensures
        r == parity_at(p@, i as int),
{
    if i < p.len() {
        p[i]
    } else {
        None
    }
}

fn col_ref_of(c: &Picture, cs: PicCodingStruct, col_addr: u32, ref_idx: i8, used_l1: bool) -> (r:
    Option<(u32, Option<u8>)>)
    ensures
        r == col_ref(*c, cs, col_addr as int, ref_idx, used_l1),
{
    if ref_idx < 0 {
        return None;
    }
    let i: usize = ref_idx as usize;
    let (keys, units, parities) = if used_l1 {
        (&c.ref_list_1_keys, &c.ref_list_1_unit_keys, &c.ref_list_1_parities)
    } else {
        (&c.ref_list_0_keys, &c.ref_list_0_unit_keys, &c.ref_list_0_parities)
    };
    if matches!(cs, PicCodingStruct::Afrm) && is_col_field(c, col_addr) {
        if i / 2 < units.len() {
            let own: u8 = (col_addr % 2) as u8;
            let parity: u8 = if i % 2 == 0 {
                own
            } else {
                1 - own
            };
            Some((units[i / 2], Some(parity)))
        } else {
            None
        }
    } else if i < keys.len() && i < units.len() {
        Some((units[i], parity_of(parities.as_slice(), i)))
    } else {
        None
    }
}

/// An index as an integer.
pub open spec fn opt_index(r: Option<usize>) -> Option<int> {
    match r {
        Some(k) => Some(k as int),
        None => None,
    }
}

/// Structural equality of optional parities.
fn same_parity(a: Option<u8>, b: Option<u8>) -> (r: bool)
    ensures
        r == (a == b),
{
    match (a, b) {
        (Some(x), Some(y)) => x == y,
        (None, None) => true,
        _ => false,
    }
}

fn find_unit_in(
    units: &[u32],
    parities: &[Option<u8>],
    unit: u32,
    parity: Option<Option<u8>>,
) -> (r: Option<usize>)
    ensures
        opt_index(r) == find_unit(units@, parities@, unit, parity, 0),
        r matches Some(k) ==> k < units@.len(),
{
    let mut k: usize = 0;
    while k < units.len()
        invariant
            k <= units@.len(),
            find_unit(units@, parities@, unit, parity, 0) == find_unit(
                units@,
                parities@,
                unit,
                parity,
                k as int,
            ),
        decreases units@.len() - k,
    {
        let fits = match parity {
            Some(p) => same_parity(parity_of(parities, k), p),
            None => true,
        };
        if units[k] == unit && fits {
            return Some(k);
        }
        k += 1;
    }
    None
}

fn find_poc_in(pocs: &[i32], poc: i32) -> (r: Option<usize>)
    ensures
        opt_index(r) == find_poc(pocs@, poc, 0),
        r matches Some(k) ==> k < pocs@.len(),
{
    let mut k: usize = 0;
    while k < pocs.len()
        invariant
            k <= pocs@.len(),
            find_poc(pocs@, poc, 0) == find_poc(pocs@, poc, k as int),
        decreases pocs@.len() - k,
    {
        if pocs[k] == poc {
            return Some(k);
        }
        k += 1;
    }
    None
}

fn index_or_zero(k: Option<usize>) -> (r: i64)
    requires
        k matches Some(v) ==> v <= 0x3fff_ffff,
    ensures
        r == or_zero(opt_index(k)),
        0 <= r <= 0x3fff_ffff,
{
    match k {
        Some(v) => v as i64,
        None => 0,
    }
}

fn mapped_ref_of<R: RefPicProvider>(
    ref_pics: &R,
    cur: &CurPic,
    field: bool,
    mb_addr: u32,
    v: VertMvScale,
    r: Option<(u32, Option<u8>)>,
) -> (res: i64)
    requires
        refs_ok(ref_pics.refs()),
    ensures
        res == mapped_ref(ref_pics.refs(), *cur, field, mb_addr as int, v, r),
        0 <= res <= 0x7fff_ffff,
{
    let (unit, parity) = match r {
        Some(t) => t,
        None => {
            return 0;
        },
    };
    let units = ref_pics.ref_list_0_unit_keys();
    let parities = ref_pics.ref_list_0_parities();
    let fld = matches!(cur.coding_struct, PicCodingStruct::Fld);
    if fld && matches!(v, VertMvScale::OneToOne) {
        return index_or_zero(find_unit_in(units, parities, unit, Some(parity)));
    }
    if fld && matches!(v, VertMvScale::FrmToFld) {
        let own: u8 = if cur.is_bottom_field {
            1
        } else {
            0
        };
        return index_or_zero(find_unit_in(units, parities, unit, Some(Some(own))));
    }
    let frame = find_unit_in(units, parities, unit, None);
    if matches!(v, VertMvScale::OneToOne) && field {
        let own: u8 = (mb_addr % 2) as u8;
        let p: u8 = match parity {
            Some(q) => q,
            None => own,
        };
        match frame {
            Some(k) => 2 * (k as i64) + if p != own {
                1
            } else {
                0
            },
            None => 0,
        }
    } else if matches!(v, VertMvScale::FrmToFld) {
        2 * index_or_zero(frame)
    } else {
        index_or_zero(frame)
    }
}

fn direct_ref_of<R: RefPicProvider>(
    ref_pics: &R,
    cur: &CurPic,
    field: bool,
    mb_addr: u32,
    v: VertMvScale,
    c: &Picture,
    cs: PicCodingStruct,
    col_addr: u32,
    ref_idx: i8,
    used_l1: bool,
) -> (r: i64)
    requires
        refs_ok(ref_pics.refs()),
    ensures
        r == direct_ref(
            ref_pics.refs(),
            *cur,
            field,
            mb_addr as int,
            v,
            *c,
            cs,
            col_addr as int,
            ref_idx,
            used_l1,
        ),
        0 <= r <= 0x7fff_ffff,
{
    let pocs = ref_pics.ref_list_0_pocs();
    if ref_pics.ref_list_0_unit_keys().len() == 0 && ref_idx >= 0 && pocs.len() > 0 {
        let col_pocs = if used_l1 {
            &c.ref_list_1_pocs
        } else {
            &c.ref_list_0_pocs
        };
        let i: usize = ref_idx as usize;
        if i < col_pocs.len() {
            index_or_zero(find_poc_in(pocs, col_pocs[i]))
        } else {
            0
        }
    } else {
        let t = col_ref_of(c, cs, col_addr, ref_idx, used_l1);
        mapped_ref_of(ref_pics, cur, field, mb_addr, v, t)
    }
}

fn flag_of(s: &[bool], i: usize) -> (r: bool)
    ensures
        r == flag_at(s@, i as int),
{
    i < s.len() && s[i]
}

pub open spec fn pocs_view(r: Option<(i32, i32, i32, bool)>) -> Option<(int, int, int, bool)> {
    match r {
        Some((a, b, c, d)) => Some((a as int, b as int, c as int, d)),
        None => None,
    }
}

fn direct_pocs_of<R: RefPicProvider>(
    ref_pics: &R,
    cur: &CurPic,
    field: bool,
    mb_addr: u32,
    c: &Picture,
    ref_l0: i64,
) -> (r: Option<(i32, i32, i32, bool)>)
    requires
        0 <= ref_l0 <= 0x7fff_ffff,
    ensures
        pocs_view(r) == direct_pocs(
            ref_pics.refs(),
            *cur,
            field,
            mb_addr as int,
            *c,
            ref_l0 as int,
        ),
{
    let lt = ref_pics.ref_list_0_longterm();
    if field {
        let bottom = mb_addr % 2 != 0;
        match (
            ref_pics.ref_entry_unit_focs(1, 0),
            ref_pics.ref_entry_unit_focs(0, (ref_l0 / 2) as u32),
        ) {
            (Some((t1, b1)), Some((t0, b0))) => Some(
                (
                    if bottom {
                        cur.bottom_poc
                    } else {
                        cur.top_poc
                    },
                    if bottom {
                        b1
                    } else {
                        t1
                    },
                    if bottom == (ref_l0 % 2 == 0) {
                        b0
                    } else {
                        t0
                    },
                    flag_of(lt, (ref_l0 / 2) as usize),
                ),
            ),
            _ => None,
        }
    } else {
        Some(
            (
                cur.poc,
                match ref_pics.ref_pic_poc(1, 0) {
                    Some(p) => p,
                    None => c.pic_order_cnt,
                },
                match ref_pics.ref_pic_poc(0, ref_l0 as u32) {
                    Some(p) => p,
                    None => cur.poc,
                },
                flag_of(lt, ref_l0 as usize),
            ),
        )
    }
}

fn scale_mvs(mv: Mv, cur: i32, poc1: i32, poc0: i32, long_term: bool) -> (r: (Mv, Mv))
    requires
        -0x1_0000 <= mv.x <= 0x1_0000,
        -0x1_0000 <= mv.y <= 0x1_0000,
    ensures
        r == scaled_mvs(mv, cur as int, poc1 as int, poc0 as int, long_term),
{
    if long_term || poc1 == poc0 {
        return (mv, Mv { x: 0, y: 0 });
    }
    let tb = clip3_i64(-128, 127, cur as i64 - poc0 as i64);
    let td = clip3_i64(-128, 127, poc1 as i64 - poc0 as i64);
    let s = dist_scale_factor(tb, td);
    let (mx, my): (i64, i64) = (mv.x as i64, mv.y as i64);
    proof {
        assert(-0x400_0000 <= s * mx <= 0x400_0000) by (nonlinear_arith)
            requires
                -1024 <= s <= 1023,
                -0x1_0000 <= mx <= 0x1_0000,
        ;
        assert(-0x400_0000 <= s * my <= 0x400_0000) by (nonlinear_arith)
            requires
                -1024 <= s <= 1023,
                -0x1_0000 <= my <= 0x1_0000,
        ;
    }
    let x = floor_div(s * mx + 128, 256);
    let y = floor_div(s * my + 128, 256);
    (Mv { x: x as i32, y: y as i32 }, Mv { x: (x - mx) as i32, y: (y - my) as i32 })
}

/// Derives the motion of a block under temporal direct prediction; `None` where there is no
/// co-located picture.
pub fn derive_temporal_direct_mvs_for_block<R: RefPicProvider>(
    ref_pics: &R,
    cur: &CurPic,
    grid: &MbGrid,
    mb_addr: u32,
    luma4x4_blk_idx: usize,
) -> (r: Option<(i8, Mv, Mv)>)
    requires
        refs_ok(ref_pics.refs()),
        grid.wf(),
        mb_addr <= MAX_ADDR,
        luma4x4_blk_idx < 16,
    ensures
        r == temporal_direct(
            ref_pics.refs(),
            *cur,
            grid@,
            mb_addr as int,
            luma4x4_blk_idx as int,
        ),
{
    proof {
        reveal(temporal_direct);
    }
    let (c, cs) = match col_picture(ref_pics, cur, grid, mb_addr) {
        Some(t) => t,
        None => {
            return None;
        },
    };
    let field = is_cur_mb_field(cur, grid, mb_addr);
    let (x, y) = LUMA_4X4_XY[luma4x4_blk_idx];
    let (col_addr, ym, v) = col_location_of(ref_pics, cur, grid, c, cs, mb_addr, y as u32);
    let blk: usize = blk4_raster_index((x / 4) as u8, (ym / 4) as u8) as usize;
    let (mv0, ref_idx, used_l1) = col_motion_of(c, col_addr, blk);
    let mv = scale_col_mv(mv0, v);
    let r = direct_ref_of(
        ref_pics,
        cur,
        field,
        mb_addr,
        v,
        c,
        cs,
        col_addr,
        ref_idx,
        used_l1,
    );
    match direct_pocs_of(ref_pics, cur, field, mb_addr, c, r) {
        Some((p, poc1, poc0, long_term)) => {
            let (a, b) = scale_mvs(mv, p, poc1, poc0, long_term);
            Some(
                (
                    #[verifier::truncate]
                    (r as i8),
                    a,
                    b,
                ),
            )
        },
        None => None,
    }
}

} // verus!
