//! Laws of temporal direct prediction.
use crate::direct::{
    col_location, col_motion, col_pic, col_ref, direct_pocs, direct_ref, find_poc, find_unit,
    mapped_ref, scaled_mvs, temporal_direct, CurPic, VertMvScale,
};
use crate::inter_pred::dist_scale;
use crate::mb_grid::GridV;
use crate::mv_deriv::Mv;
use crate::picture::{PicCodingStruct, Picture};
use crate::ref_store::RefsV;
use vstd::prelude::*;

verus! {

/// Where the co-located block lies, for pictures of one kind and for frames over fields or fields
/// over frames: in the same column of macroblocks; in the same row of samples, twice as far down
/// for a field over a frame, half as far, from the upper row of the block's half of the macroblock,
/// for a frame over a field. Vertical motion scales with it.
pub proof fn law_colocated_place(
    refs: RefsV,
    cur: CurPic,
    g: GridV,
    c: Picture,
    cs: PicCodingStruct,
    addr: int,
    y: int,
)
    requires
        g.w >= 1,
        0 <= addr,
        0 <= y < 16,
        y % 4 == 0,
        !(cur.coding_struct is Afrm),
        !(cs is Afrm),
    ensures
        ({
            let (n, v, scale) = col_location(refs, cur, g, c, cs, addr, y);
            let here = 16 * (addr / g.w) + y;
            let there = 16 * (n / g.w) + v;
            let (field, col_field) = (cur.coding_struct is Fld, cs is Fld);
            &&& 0 <= v < 16
            &&& n % g.w == addr % g.w
            &&& field == col_field ==> n == addr && v == y && scale is OneToOne
            &&& field && !col_field ==> there == 2 * here && scale is FrmToFld
            &&& !field && col_field ==> 2 * there == here - here % 8 && scale is FldToFrm
        }),
{
    let w = g.w;
    let (row, column) = (addr / w, addr % w);
    crate::mb_address::lemma_div_mod_bound(addr, w);
    let (n, v, scale) = col_location(refs, cur, g, c, cs, addr, y);
    if cur.coding_struct is Fld && cs is Frm {
        let k = 2 * row + y / 8;
        assert(n == k * w + column) by (nonlinear_arith)
            requires
                n == 2 * w * row + column + w * (y / 8),
                k == 2 * row + y / 8,
        ;
        vstd::arithmetic::div_mod::lemma_fundamental_div_mod_converse(n, w, k, column);
    } else if cur.coding_struct is Frm && cs is Fld {
        lemma_halved(addr, w);
        let k = row / 2;
        assert(n == k * w + column) by (nonlinear_arith)
            requires
                n == w * k + column,
        ;
        vstd::arithmetic::div_mod::lemma_fundamental_div_mod_converse(n, w, k, column);
        assert(here_rounds(row, y));
    }
}

spec fn here_rounds(row: int, y: int) -> bool {
    2 * (16 * (row / 2) + 8 * (row % 2) + 4 * (y / 8)) == 16 * row + y - (16 * row + y) % 8
}

proof fn lemma_halved(addr: int, w: int)
    requires
        0 <= addr,
        w >= 1,
    ensures
        addr / (2 * w) == addr / w / 2,
{
    vstd::arithmetic::div_mod::lemma_div_denominator(addr, w, 2);
    assert(w * 2 == 2 * w);
}

/// Where the co-located block lies for a field over an MBAFF frame: in the pair of the same number;
/// in a frame pair twice as far down, in a field pair in the macroblock of the field's own parity.
pub proof fn law_colocated_pair_of_field(
    refs: RefsV,
    cur: CurPic,
    g: GridV,
    c: Picture,
    addr: int,
    y: int,
)
    requires
        0 <= addr,
        0 <= y < 16,
        cur.coding_struct is Fld,
    ensures
        ({
            let (n, v, scale) = col_location(refs, cur, g, c, PicCodingStruct::Afrm, addr, y);
            let fields = 2 * addr < c.mb_field_flags@.len() && c.mb_field_flags@[2 * addr];
            &&& n / 2 == addr
            &&& 0 <= v < 16
            &&& !fields ==> 16 * (n % 2) + v == 2 * y && scale is FrmToFld
            &&& fields ==> v == y && (n % 2 == 1) == cur.is_bottom_field && scale is OneToOne
        }),
{
}

/// Where the co-located block lies for a macroblock of an MBAFF frame: in the pair of the same
/// number, or in the macroblock of that number of a field. Between a frame macroblock and field
/// motion rows are halved, from the upper row of the block's half of the macroblock; between a
/// field macroblock and frame motion they are doubled. Of two field macroblocks a frame macroblock
/// takes the one closer in time.
pub proof fn law_colocated_of_pair(
    refs: RefsV,
    cur: CurPic,
    g: GridV,
    c: Picture,
    cs: PicCodingStruct,
    addr: int,
    y: int,
)
    requires
        0 <= addr,
        0 <= y < 16,
        cur.coding_struct is Afrm,
    ensures
        ({
            let (n, v, scale) = col_location(refs, cur, g, c, cs, addr, y);
            let field = g.field_at(addr);
            let fields = addr < c.mb_field_flags@.len() && c.mb_field_flags@[addr];
            let row = 16 * (addr % 2) + y;
            let (t, b) = match (refs.entry_unit_focs)(1, 0) {
                Some(p) => p,
                None => (c.top_field_order_cnt, c.bottom_field_order_cnt),
            };
            let (dt, db) = (t - cur.poc, b - cur.poc);
            let far_top = if dt < 0 {
                -dt
            } else {
                dt
            };
            let far_bottom = if db < 0 {
                -db
            } else {
                db
            };
            &&& 0 <= v < 16
            &&& cs is Fld ==> n == addr / 2
            &&& !(cs is Fld) ==> n / 2 == addr / 2
            &&& cs is Fld && field ==> v == y && scale is OneToOne
            &&& (cs is Fld || fields) && !field ==> 2 * v == row - row % 8 && scale is FldToFrm
            &&& !(cs is Fld) && fields && !field ==> (n % 2 == 1) == (far_bottom <= far_top)
            &&& !(cs is Fld) && !fields && field ==> 16 * (n % 2) + v == 2 * y && scale is FrmToFld
            &&& !(cs is Fld) && fields == field ==> n == addr && v == y && scale is OneToOne
        }),
{
}

/// A vector of the co-located block in units of the current one.
pub open spec fn is_rescaled(v: Mv, mv: (i16, i16), scale: VertMvScale) -> bool {
    &&& v.x == mv.0
    &&& scale is OneToOne ==> v.y == mv.1
    &&& scale is FldToFrm ==> v.y == 2 * mv.1
    &&& scale is FrmToFld ==> if mv.1 >= 0 {
        2 * v.y <= mv.1 < 2 * v.y + 2
    } else {
        2 * v.y - 2 < mv.1 <= 2 * v.y
    }
}

/// The two vectors of a direct block: the first is the co-located vector times the ratio of the
/// distances, in units of 1/256 and rounded; the second is what the co-located vector lacks of it.
/// Towards a long-term reference, or without a distance, the first is the co-located vector itself
/// and the second zero.
pub proof fn law_direct_vectors(
    mv: (i16, i16),
    scale: VertMvScale,
    cur: int,
    poc1: int,
    poc0: int,
    long_term: bool,
)
    requires
        -128 <= cur - poc0 <= 127,
        -128 <= poc1 - poc0 <= 127,
    ensures
        ({
            let m = crate::direct::scaled_col_mv(mv, scale);
            let (a, b) = scaled_mvs(m, cur, poc1, poc0, long_term);
            let ratio = dist_scale(cur - poc0, poc1 - poc0);
            &&& is_rescaled(m, mv, scale)
            &&& a.x - b.x == m.x && a.y - b.y == m.y
            &&& long_term || poc1 == poc0 ==> a == m
            &&& !long_term && poc1 != poc0 ==> 256 * a.x <= ratio * m.x + 128 < 256 * a.x + 256
            &&& !long_term && poc1 != poc0 ==> 256 * a.y <= ratio * m.y + 128 < 256 * a.y + 256
        }),
{
    let m = crate::direct::scaled_col_mv(mv, scale);
    let (tb, td) = (cur - poc0, poc1 - poc0);
    let s = dist_scale(tb, td);
    assert(-1024 <= s <= 1023);
    assert(-0x1_0000 <= m.x <= 0x1_0000 && -0x1_0000 <= m.y <= 0x1_0000);
    assert(-0x400_0000 <= s * m.x <= 0x400_0000) by (nonlinear_arith)
        requires
            -1024 <= s <= 1023,
            -0x1_0000 <= m.x <= 0x1_0000,
    ;
    assert(-0x400_0000 <= s * m.y <= 0x400_0000) by (nonlinear_arith)
        requires
            -1024 <= s <= 1023,
            -0x1_0000 <= m.y <= 0x1_0000,
    ;
}

/// The index is that of the first entry with the key, 0 where there is none.
pub open spec fn is_first(units: Seq<u32>, unit: u32, r: int) -> bool {
    ||| 0 <= r < units.len() && units[r] == unit && forall|k: int| 0 <= k < r ==> units[k] != unit
    ||| r == 0 && forall|k: int| 0 <= k < units.len() ==> units[k] != unit
}

proof fn lemma_find(units: Seq<u32>, parities: Seq<Option<u8>>, unit: u32, k: int)
    requires
        0 <= k,
    ensures
        match find_unit(units, parities, unit, None, k) {
            Some(r) => k <= r < units.len() && units[r] == unit && forall|i: int|
                k <= i < r ==> units[i] != unit,
            None => forall|i: int| k <= i < units.len() ==> units[i] != unit,
        },
    decreases units.len() - k,
{
    if k < units.len() {
        lemma_find(units, parities, unit, k + 1);
    }
}

/// Direct blocks of a frame over a frame refer, in the first list, to the first entry for the
/// picture that the co-located block refers to, and to the first entry of all where that block is
/// intra.
pub proof fn law_direct_reference(
    refs: RefsV,
    cur: CurPic,
    g: GridV,
    addr: int,
    blk: int,
    mv: (i16, i16),
    ref_idx: i8,
    used_l1: bool,
)
    requires
        cur.coding_struct is Frm,
        0 <= addr,
        0 <= blk < 16,
        (refs.pair_field)(1, 0, false) is None,
        (refs.pic)(1, 0) is Some,
        (refs.pic)(1, 0)->0.coding_struct is Frm,
        0 < refs.list_0_unit_keys.len() <= 127,
        col_motion((refs.pic)(1, 0)->0, addr, blk) == (mv, ref_idx, used_l1),
        temporal_direct(refs, cur, g, addr, blk) is Some,
    ensures
        ({
            let c = (refs.pic)(1, 0)->0;
            let r = (temporal_direct(refs, cur, g, addr, blk)->0).0 as int;
            let units = if used_l1 {
                c.ref_list_1_unit_keys@
            } else {
                c.ref_list_0_unit_keys@
            };
            let keys = if used_l1 {
                c.ref_list_1_keys@
            } else {
                c.ref_list_0_keys@
            };
            &&& ref_idx < 0 ==> r == 0
            &&& 0 <= ref_idx < units.len() && ref_idx < keys.len() ==> is_first(
                refs.list_0_unit_keys,
                units[ref_idx as int],
                r,
            )
        }),
{
    reveal(temporal_direct);
    let c = (refs.pic)(1, 0)->0;
    crate::geometry::law_blk4_inverts_positions(blk);
    let units = if used_l1 {
        c.ref_list_1_unit_keys@
    } else {
        c.ref_list_0_unit_keys@
    };
    if 0 <= ref_idx < units.len() {
        lemma_find(refs.list_0_unit_keys, refs.list_0_parities, units[ref_idx as int], 0);
    }
}

/// Direct blocks of a frame measure distances between the frame itself, the first picture of the
/// second list and the picture referred to in the first list; direct blocks of a field macroblock
/// between the fields of its own parity and the field referred to, which has that parity at even
/// indices.
pub proof fn law_direct_distances(
    refs: RefsV,
    cur: CurPic,
    field: bool,
    addr: int,
    c: Picture,
    r: int,
)
    requires
        0 <= r,
        0 <= addr,
    ensures
        ({
            let d = direct_pocs(refs, cur, field, addr, c, r);
            let (first, second) = (
                (refs.entry_unit_focs)(0, (r / 2) as u32),
                (refs.entry_unit_focs)(1, 0),
            );
            let lower = addr % 2 == 1;
            &&& !field ==> d is Some && ({
                let (p, poc1, poc0, long) = d->0;
                &&& p == cur.poc
                &&& refs.poc(1, 0) is Some ==> poc1 == refs.poc(1, 0)->0
                &&& refs.poc(0, r as u32) is Some ==> poc0 == refs.poc(0, r as u32)->0
                &&& r < refs.list_0_longterm.len() ==> long == refs.list_0_longterm[r]
            })
            &&& field && first is Some && second is Some ==> d is Some && ({
                let (p, poc1, poc0, long) = d->0;
                let ((t0, b0), (t1, b1)) = (first->0, second->0);
                &&& lower ==> p == cur.bottom_poc && poc1 == b1
                &&& !lower ==> p == cur.top_poc && poc1 == t1
                &&& lower && r % 2 == 0 ==> poc0 == b0
                &&& lower && r % 2 == 1 ==> poc0 == t0
                &&& !lower && r % 2 == 0 ==> poc0 == t0
                &&& !lower && r % 2 == 1 ==> poc0 == b0
                &&& r / 2 < refs.list_0_longterm.len() ==> long == refs.list_0_longterm[r / 2]
            })
        }),
{
}

/// The vector and reference that a co-located block passes on: those of the first list where it
/// uses it, else those of the second; none from intra blocks.
pub proof fn law_colocated_motion(c: Picture, addr: int, blk: int)
    ensures
        ({
            let (mv, r, second) = col_motion(c, addr, blk);
            let l0 = crate::picture::colocated_of(c, 0, addr, blk);
            let l1 = crate::picture::colocated_of(c, 1, addr, blk);
            match (l0, l1) {
                (Some((m0, r0, intra)), Some((m1, r1, _))) => {
                    &&& intra || (r0 < 0 && r1 < 0) ==> r < 0 && mv == (0i16, 0i16)
                    &&& !intra && r0 >= 0 ==> mv == m0 && r == r0 && !second
                    &&& !intra && r0 < 0 && r1 >= 0 ==> mv == m1 && r == r1 && second
                },
                _ => r < 0 && mv == (0i16, 0i16),
            }
        }),
{
}

/// The co-located picture: the first of the second list; of an entry that is a pair of fields, a
/// field macroblock takes the field of its own parity and any other block the field closer in time,
/// the bottom one where both are as close.
pub proof fn law_colocated_picture(refs: RefsV, cur: CurPic, g: GridV, addr: int, t: i32, b: i32)
    requires
        0 <= addr,
        (refs.entry_unit_focs)(1, 0) == Some((t, b)),
    ensures
        ({
            let r = col_pic(refs, cur, g, addr);
            let pair = (refs.pair_field)(1, 0, false) is Some;
            let field_mb = cur.coding_struct is Afrm && g.field_at(addr);
            let (dt, db) = (t - cur.poc, b - cur.poc);
            let far_top = if dt < 0 {
                -dt
            } else {
                dt
            };
            let far_bottom = if db < 0 {
                -db
            } else {
                db
            };
            let of_parity = |bottom: bool|
                match (refs.pair_field)(1, 0, bottom) {
                    Some(p) => r == Some((p, PicCodingStruct::Fld)),
                    None => r is None,
                };
            &&& cur.coding_struct is Fld || !pair ==> match (refs.pic)(1, 0) {
                Some(p) => r is Some && (r->0).0 == p,
                None => r is None,
            }
            &&& !(cur.coding_struct is Fld) && pair && field_mb ==> of_parity(addr % 2 == 1)
            &&& !(cur.coding_struct is Fld) && pair && !field_mb && far_top < far_bottom
                ==> of_parity(false)
            &&& !(cur.coding_struct is Fld) && pair && !field_mb && far_top >= far_bottom
                ==> of_parity(true)
        }),
{
}

proof fn lemma_find_parity(
    units: Seq<u32>,
    parities: Seq<Option<u8>>,
    unit: u32,
    parity: Option<u8>,
    k: int,
)
    requires
        0 <= k,
        parities.len() == units.len(),
    ensures
        match find_unit(units, parities, unit, Some(parity), k) {
            Some(r) => k <= r < units.len() && units[r] == unit && parities[r] == parity
                && forall|i: int| k <= i < r ==> units[i] != unit || parities[i] != parity,
            None => forall|i: int|
                k <= i < units.len() ==> units[i] != unit || parities[i] != parity,
        },
    decreases units.len() - k,
{
    if k < units.len() {
        lemma_find_parity(units, parities, unit, parity, k + 1);
    }
}

/// The index in the first list that a direct block of a frame or frame macroblock refers to: the
/// first entry for the frame that the co-located block refers to.
pub proof fn law_frame_reference(
    refs: RefsV,
    cur: CurPic,
    addr: int,
    scale: VertMvScale,
    unit: u32,
    parity: Option<u8>,
)
    requires
        !(cur.coding_struct is Fld),
        !(scale is FrmToFld),
    ensures
        is_first(
            refs.list_0_unit_keys,
            unit,
            mapped_ref(refs, cur, false, addr, scale, Some((unit, parity))),
        ),
{
    lemma_find(refs.list_0_unit_keys, refs.list_0_parities, unit, 0);
}

/// The index that a direct block of a field macroblock refers to, where the first list has the
/// frame at `r`: over field motion the field of the parity that the co-located block refers to,
/// which is even for the macroblock's own parity; over frame motion the field of its own parity.
pub proof fn law_field_macroblock_reference(
    refs: RefsV,
    cur: CurPic,
    addr: int,
    unit: u32,
    parity: u8,
    r: int,
)
    requires
        !(cur.coding_struct is Fld),
        0 <= addr,
        parity <= 1,
        0 <= r < refs.list_0_unit_keys.len(),
        refs.list_0_unit_keys[r] == unit,
        forall|k: int| 0 <= k < r ==> refs.list_0_unit_keys[k] != unit,
    ensures
        ({
            let over_field = mapped_ref(
                refs,
                cur,
                true,
                addr,
                VertMvScale::OneToOne,
                Some((unit, Some(parity))),
            );
            let over_frame = mapped_ref(
                refs,
                cur,
                true,
                addr,
                VertMvScale::FrmToFld,
                Some((unit, None)),
            );
            &&& over_field / 2 == r && (over_field % 2 == 0) == (parity == addr % 2)
            &&& over_frame == 2 * r
        }),
{
    lemma_find(refs.list_0_unit_keys, refs.list_0_parities, unit, 0);
}

/// The index that a direct block of a field refers to, where the first list has that field at `r`:
/// over field motion the field that the co-located block refers to, over frame motion the field of
/// its own parity of the frame referred to.
pub proof fn law_field_reference(
    refs: RefsV,
    cur: CurPic,
    addr: int,
    unit: u32,
    parity: Option<u8>,
    over_frame: bool,
    r: int,
)
    requires
        cur.coding_struct is Fld,
        refs.list_0_parities.len() == refs.list_0_unit_keys.len(),
        over_frame ==> parity == Some(
            if cur.is_bottom_field {
                1u8
            } else {
                0u8
            },
        ),
        0 <= r < refs.list_0_unit_keys.len(),
        refs.list_0_unit_keys[r] == unit,
        refs.list_0_parities[r] == parity,
        forall|k: int|
            0 <= k < r ==> refs.list_0_unit_keys[k] != unit || refs.list_0_parities[k] != parity,
    ensures
        over_frame ==> mapped_ref(
            refs,
            cur,
            false,
            addr,
            VertMvScale::FrmToFld,
            Some((unit, None)),
        ) == r,
        !over_frame ==> mapped_ref(
            refs,
            cur,
            false,
            addr,
            VertMvScale::OneToOne,
            Some((unit, parity)),
        ) == r,
{
    lemma_find_parity(refs.list_0_unit_keys, refs.list_0_parities, unit, parity, 0);
}

/// What a co-located block refers to: the entry of its picture's own list at its index; in a field
/// macroblock of an MBAFF frame indices count fields, of which even ones have the parity of the
/// macroblock.
pub proof fn law_colocated_reference(
    c: Picture,
    cs: PicCodingStruct,
    n: int,
    ref_idx: i8,
    used_l1: bool,
)
    requires
        0 <= n,
        0 <= ref_idx,
    ensures
        ({
            let units = if used_l1 {
                c.ref_list_1_unit_keys@
            } else {
                c.ref_list_0_unit_keys@
            };
            let keys = if used_l1 {
                c.ref_list_1_keys@
            } else {
                c.ref_list_0_keys@
            };
            let parities = if used_l1 {
                c.ref_list_1_parities@
            } else {
                c.ref_list_0_parities@
            };
            let i = ref_idx as int;
            let fields = cs is Afrm && n < c.mb_field_flags@.len() && c.mb_field_flags@[n];
            let r = col_ref(c, cs, n, ref_idx, used_l1);
            &&& !fields && i < keys.len() && i < units.len() ==> r is Some && (r->0).0 == units[i] && (
            i < parities.len() ==> (r->0).1 == parities[i])
            &&& fields && i / 2 < units.len() ==> r is Some && (r->0).0 == units[i / 2] && (
            r->0).1 is Some && (((r->0).1->0 == n % 2) == (i % 2 == 0)) && (r->0).1->0 <= 1
        }),
{
}

/// Where the first list carries no keys, a direct block refers to its first entry with the order
/// count of the picture that the co-located block refers to.
pub proof fn law_reference_by_order_count(
    refs: RefsV,
    cur: CurPic,
    field: bool,
    addr: int,
    scale: VertMvScale,
    c: Picture,
    cs: PicCodingStruct,
    n: int,
    ref_idx: i8,
    used_l1: bool,
    r: int,
)
    requires
        refs.list_0_unit_keys.len() == 0,
        ref_idx >= 0,
        ({
            let pocs = if used_l1 {
                c.ref_list_1_pocs@
            } else {
                c.ref_list_0_pocs@
            };
            &&& ref_idx < pocs.len()
            &&& 0 <= r < refs.list_0_pocs.len()
            &&& refs.list_0_pocs[r] == pocs[ref_idx as int]
            &&& forall|k: int| 0 <= k < r ==> refs.list_0_pocs[k] != pocs[ref_idx as int]
        }),
    ensures
        direct_ref(refs, cur, field, addr, scale, c, cs, n, ref_idx, used_l1) == r,
{
    let pocs = if used_l1 {
        c.ref_list_1_pocs@
    } else {
        c.ref_list_0_pocs@
    };
    lemma_find_poc(refs.list_0_pocs, pocs[ref_idx as int], 0, r);
}

proof fn lemma_find_poc(pocs: Seq<i32>, poc: i32, k: int, r: int)
    requires
        0 <= k <= r < pocs.len(),
        pocs[r] == poc,
        forall|i: int| k <= i < r ==> pocs[i] != poc,
    ensures
        find_poc(pocs, poc, k) == Some(r),
    decreases r - k,
{
    if k < r {
        lemma_find_poc(pocs, poc, k + 1, r);
    }
}

} // verus!
