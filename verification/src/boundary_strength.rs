//! Boundary strengths of block edges.
use crate::geometry::{blk4_of, blk4_raster_index};
use crate::math::{abs_of, p2, pow2};
use crate::mb_grid::{GridV, MbGrid, MbInfo, MbInfoV};
use vstd::prelude::*;

verus! {

/// The vectors differ by less than a sample; field vectors by less than half of one vertically.
pub open spec fn mv_close(a: (i16, i16), b: (i16, i16), field: bool) -> bool {
    &&& abs_of(a.0 - b.0) < 4
    &&& abs_of(a.1 - b.1) < if field {
        2int
    } else {
        4int
    }
}

fn mv_delta_below_4(a: (i16, i16), b: (i16, i16), field_units: bool) -> (r: bool)
    ensures
        r == mv_close(a, b, field_units),
{
    let dx: i32 = a.0 as i32 - b.0 as i32;
    let dy: i32 = a.1 as i32 - b.1 as i32;
    let lim: i32 = if field_units {
        2
    } else {
        4
    };
    -4 < dx && dx < 4 && -lim < dy && dy < lim
}

/// Motion of the block at a luma position of a macroblock: for each list the number of the picture
/// referred to, if the list is used, and the vector.
pub struct BlockMotion {
    pub pic0: Option<i32>,
    pub pic1: Option<i32>,
    pub mv0: (i16, i16),
    pub mv1: (i16, i16),
}

pub open spec fn motion_at(i: MbInfoV, x: int, y: int) -> BlockMotion {
    let b = blk4_of(x / 4, y / 4);
    let q = 2 * (y / 8) + x / 8;
    BlockMotion {
        pic0: if i.ref_idx_l0[q] >= 0 {
            Some(i.ref_poc_l0[q])
        } else {
            None
        },
        pic1: if i.ref_idx_l1[q] >= 0 {
            Some(i.ref_poc_l1[q])
        } else {
            None
        },
        mv0: i.mv_l0[b],
        mv1: i.mv_l1[b],
    }
}

/// Two blocks move differently: different pictures, a different number of vectors, or vectors that
/// differ by a sample or more. Which list a picture is in does not matter.
pub open spec fn moves_differ(p: BlockMotion, q: BlockMotion, field: bool) -> bool {
    match (p.pic0, p.pic1, q.pic0, q.pic1) {
        (Some(p0), Some(p1), Some(q0), Some(q1)) => {
            let straight = p0 == q0 && p1 == q1;
            let swapped = p0 == q1 && p1 == q0;
            let straight_close = mv_close(p.mv0, q.mv0, field) && mv_close(p.mv1, q.mv1, field);
            let swapped_close = mv_close(p.mv0, q.mv1, field) && mv_close(p.mv1, q.mv0, field);
            if !straight && !swapped {
                true
            } else if p0 == p1 && q0 == q1 {
                !straight_close && !swapped_close
            } else {
                (straight && !straight_close) || (swapped && !swapped_close)
            }
        },
        (Some(p0), None, Some(q0), None) => p0 != q0 || !mv_close(p.mv0, q.mv0, field),
        (Some(p0), None, None, Some(q1)) => p0 != q1 || !mv_close(p.mv0, q.mv1, field),
        (None, Some(p1), Some(q0), None) => p1 != q0 || !mv_close(p.mv1, q.mv0, field),
        (None, Some(p1), None, Some(q1)) => p1 != q1 || !mv_close(p.mv1, q.mv1, field),
        (None, None, None, None) => false,
        _ => true,
    }
}

fn motion_of(i: &MbInfo, x: u32, y: u32) -> (r: BlockMotion)
    requires
        x < 16,
        y < 16,
    ensures
        r == motion_at(i@, x as int, y as int),
{
    let b: usize = blk4_raster_index((x / 4) as u8, (y / 4) as u8) as usize;
    let q: usize = (2 * (y / 8) + x / 8) as usize;
    BlockMotion {
        pic0: if i.ref_idx_l0[q] >= 0 {
            Some(i.ref_poc_l0[q])
        } else {
            None
        },
        pic1: if i.ref_idx_l1[q] >= 0 {
            Some(i.ref_poc_l1[q])
        } else {
            None
        },
        mv0: i.mv_l0[b],
        mv1: i.mv_l1[b],
    }
}

/// Whether two blocks on both sides of an edge move differently. The positions are those of the
/// samples next to the edge, in their macroblocks.
pub fn different_ref_or_mv_luma(
    p_info: &MbInfo,
    q_info: &MbInfo,
    p_in: (u32, u32),
    q_in: (u32, u32),
    field_units: bool,
) -> (r: bool)
    requires
        p_in.0 < 16,
        p_in.1 < 16,
        q_in.0 < 16,
        q_in.1 < 16,
    ensures
        r == moves_differ(
            motion_at(p_info@, p_in.0 as int, p_in.1 as int),
            motion_at(q_info@, q_in.0 as int, q_in.1 as int),
            field_units,
        ),
{
    let p = motion_of(p_info, p_in.0, p_in.1);
    let q = motion_of(q_info, q_in.0, q_in.1);
    match (p.pic0, p.pic1, q.pic0, q.pic1) {
        (Some(p0), Some(p1), Some(q0), Some(q1)) => {
            let straight = p0 == q0 && p1 == q1;
            let swapped = p0 == q1 && p1 == q0;
            let straight_close = mv_delta_below_4(p.mv0, q.mv0, field_units) && mv_delta_below_4(
                p.mv1,
                q.mv1,
                field_units,
            );
            let swapped_close = mv_delta_below_4(p.mv0, q.mv1, field_units) && mv_delta_below_4(
                p.mv1,
                q.mv0,
                field_units,
            );
            if !straight && !swapped {
                true
            } else if p0 == p1 && q0 == q1 {
                !straight_close && !swapped_close
            } else {
                (straight && !straight_close) || (swapped && !swapped_close)
            }
        },
        (Some(p0), None, Some(q0), None) => p0 != q0 || !mv_delta_below_4(
            p.mv0,
            q.mv0,
            field_units,
        ),
        (Some(p0), None, None, Some(q1)) => p0 != q1 || !mv_delta_below_4(
            p.mv0,
            q.mv1,
            field_units,
        ),
        (None, Some(p1), Some(q0), None) => p1 != q0 || !mv_delta_below_4(
            p.mv1,
            q.mv0,
            field_units,
        ),
        (None, Some(p1), None, Some(q1)) => p1 != q1 || !mv_delta_below_4(
            p.mv1,
            q.mv1,
            field_units,
        ),
        (None, None, None, None) => false,
        _ => true,
    }
}

/// Two blocks with the same motion do not move differently.
pub proof fn law_same_motion_does_not_differ(m: BlockMotion, field: bool)
    ensures
        !moves_differ(m, m, field),
{
}

/// Moving differently does not depend on the side of the edge.
pub proof fn law_moves_differ_symmetric(p: BlockMotion, q: BlockMotion, field: bool)
    ensures
        moves_differ(p, q, field) == moves_differ(q, p, field),
{
}

/// What decides the strength of an edge.
#[derive(Debug, Clone, Copy)]
pub struct BsInputs {
    pub p_is_intra: bool,
    pub q_is_intra: bool,
    pub is_mb_edge: bool,
    pub is_sp_or_si: bool,
    pub either_has_nonzero_coeffs: bool,
    pub different_ref_or_mv: bool,
    pub mixed_mode_edge: bool,
    pub vertical_edge: bool,
    pub mbaff_or_field: bool,
    pub both_in_frame_mbs: bool,
}

/// Strength of an edge: 4 and 3 next to intra samples, 2 next to coded coefficients, 1 where
/// motion differs, else 0.
pub open spec fn strength(i: BsInputs) -> u8 {
    let intra = i.p_is_intra || i.q_is_intra || i.is_sp_or_si;
    if intra && i.is_mb_edge && (i.both_in_frame_mbs || (i.mbaff_or_field && i.vertical_edge)) {
        4
    } else if intra {
        3
    } else if i.either_has_nonzero_coeffs {
        2
    } else if i.mixed_mode_edge || i.different_ref_or_mv {
        1
    } else {
        0
    }
}

pub fn derive_boundary_strength(i: BsInputs) -> (r: u8)
    ensures
        r == strength(i),
{
    let intra = i.p_is_intra || i.q_is_intra || i.is_sp_or_si;
    if intra && i.is_mb_edge && (i.both_in_frame_mbs || (i.mbaff_or_field && i.vertical_edge)) {
        4
    } else if intra {
        3
    } else if i.either_has_nonzero_coeffs {
        2
    } else if i.mixed_mode_edge || i.different_ref_or_mv {
        1
    } else {
        0
    }
}

/// How the macroblocks of a picture were coded, as far as edges are concerned.
pub struct EdgeCtxV {
    pub g: GridV,
    pub mbaff: bool,
    pub field_pic: bool,
    /// `mb_field_decoding_flag` by macroblock.
    pub flags: Seq<bool>,
}

/// How the macroblocks of a picture were coded, as far as edges are concerned.
pub struct EdgeCtx<'a> {
    pub grid: &'a MbGrid,
    pub mbaff: bool,
    pub field_pic: bool,
    pub flags: &'a [bool],
}

impl<'a> View for EdgeCtx<'a> {
    type V = EdgeCtxV;

    open spec fn view(&self) -> EdgeCtxV {
        EdgeCtxV {
            g: self.grid@,
            mbaff: self.mbaff,
            field_pic: self.field_pic,
            flags: self.flags@,
        }
    }
}

impl EdgeCtxV {
    pub open spec fn flag(self, addr: int) -> bool {
        0 <= addr < self.flags.len() && self.flags[addr]
    }

    /// Vectors on both sides are field vectors.
    pub open spec fn field_units(self, p: int, q: int) -> bool {
        if self.mbaff {
            self.flag(p) && self.flag(q)
        } else {
            self.field_pic
        }
    }

    /// Frame or MBAFF facts about an edge: frame macroblocks on both sides, and a frame macroblock
    /// next to a field macroblock of another pair.
    pub open spec fn both_frame(self, p: int, q: int) -> bool {
        if self.mbaff {
            !self.flag(p) && !self.flag(q)
        } else {
            !self.field_pic
        }
    }

    pub open spec fn mixed(self, p: int, q: int) -> bool {
        self.mbaff && p / 2 != q / 2 && self.flag(p) != self.flag(q)
    }
}

/// 4x4 block at a luma position of a macroblock has coded coefficients.
pub open spec fn has_coeffs(i: MbInfoV, x: int, y: int) -> bool {
    (i.luma_nonzero_4x4 as int / p2(blk4_of(x / 4, y / 4))) % 2 == 1
}

fn has_coeffs_at(i: &MbInfo, x: u32, y: u32) -> (r: bool)
    requires
        x < 16,
        y < 16,
    ensures
        r == has_coeffs(i@, x as int, y as int),
{
    let b = blk4_raster_index((x / 4) as u8, (y / 4) as u8);
    let d = pow2(b as u32);
    (i.luma_nonzero_4x4 as i64 / d) % 2 == 1
}

/// Inputs for the strength of the edge between position `pin` of macroblock `p` and position
/// `qin` of macroblock `q`.
pub open spec fn bs_inputs(
    c: EdgeCtxV,
    p: int,
    q: int,
    pi: MbInfoV,
    qi: MbInfoV,
    pin: (int, int),
    qin: (int, int),
    vertical: bool,
) -> BsInputs {
    BsInputs {
        p_is_intra: pi.is_intra,
        q_is_intra: qi.is_intra,
        is_mb_edge: p != q,
        is_sp_or_si: pi.in_sp_si_slice || qi.in_sp_si_slice,
        either_has_nonzero_coeffs: has_coeffs(pi, pin.0, pin.1) || has_coeffs(qi, qin.0, qin.1),
        different_ref_or_mv: !pi.is_intra && !qi.is_intra && moves_differ(
            motion_at(pi, pin.0, pin.1),
            motion_at(qi, qin.0, qin.1),
            c.field_units(p, q),
        ),
        mixed_mode_edge: c.mixed(p, q),
        vertical_edge: vertical,
        mbaff_or_field: c.mbaff || c.field_pic,
        both_in_frame_mbs: c.both_frame(p, q),
    }
}

/// Records on both sides of an edge, where both macroblocks were decoded.
pub open spec fn edge_infos(c: EdgeCtxV, p: int, q: int) -> Option<(MbInfoV, MbInfoV)> {
    match (c.g.get(p), c.g.get(q)) {
        (Some(pi), Some(qi)) => if pi.available && qi.available {
            Some((pi, qi))
        } else {
            None
        },
        _ => None,
    }
}

/// Strength of an edge; 0 where a macroblock next to it was not decoded.
#[verifier::opaque]
pub open spec fn edge_strength(
    c: EdgeCtxV,
    p: int,
    q: int,
    pin: (int, int),
    qin: (int, int),
    vertical: bool,
) -> u8 {
    match edge_infos(c, p, q) {
        Some((pi, qi)) => strength(bs_inputs(c, p, q, pi, qi, pin, qin, vertical)),
        None => 0,
    }
}

impl<'a> EdgeCtx<'a> {
    pub open spec fn wf(&self) -> bool {
        self.grid.wf()
    }

    pub fn flag_of(&self, addr: u32) -> (r: bool)
        ensures
            r == self@.flag(addr as int),
    {
        (addr as usize) < self.flags.len() && self.flags[addr as usize]
    }
}

/// Derives the strength of the edge between two positions.
pub fn mbaff_edge_bs(
    c: &EdgeCtx,
    p_addr: u32,
    q_addr: u32,
    p_in: (u32, u32),
    q_in: (u32, u32),
    vertical_edge: bool,
) -> (r: u8)
    requires
        p_in.0 < 16,
        p_in.1 < 16,
        q_in.0 < 16,
        q_in.1 < 16,
    ensures
        r == edge_strength(
            c@,
            p_addr as int,
            q_addr as int,
            (p_in.0 as int, p_in.1 as int),
            (q_in.0 as int, q_in.1 as int),
            vertical_edge,
        ),
{
    proof {
        reveal(edge_strength);
    }
    let (pi, qi) = match (c.grid.get(p_addr), c.grid.get(q_addr)) {
        (Some(pi), Some(qi)) => (pi, qi),
        _ => {
            return 0;
        },
    };
    if !(pi.available && qi.available) {
        return 0;
    }
    let (pf, qf) = (c.flag_of(p_addr), c.flag_of(q_addr));
    let field_units = if c.mbaff {
        pf && qf
    } else {
        c.field_pic
    };
    let both_frame = if c.mbaff {
        !pf && !qf
    } else {
        !c.field_pic
    };
    let mixed = c.mbaff && p_addr / 2 != q_addr / 2 && pf != qf;
    let differ = !pi.is_intra && !qi.is_intra && different_ref_or_mv_luma(
        pi,
        qi,
        p_in,
        q_in,
        field_units,
    );
    let p_nz = has_coeffs_at(pi, p_in.0, p_in.1);
    let q_nz = has_coeffs_at(qi, q_in.0, q_in.1);
    derive_boundary_strength(
        BsInputs {
            p_is_intra: pi.is_intra,
            q_is_intra: qi.is_intra,
            is_mb_edge: p_addr != q_addr,
            is_sp_or_si: pi.in_sp_si_slice || qi.in_sp_si_slice,
            either_has_nonzero_coeffs: p_nz || q_nz,
            different_ref_or_mv: differ,
            mixed_mode_edge: mixed,
            vertical_edge,
            mbaff_or_field: c.mbaff || c.field_pic,
            both_in_frame_mbs: both_frame,
        },
    )
}

/// The strength is 4 only at macroblock edges next to intra samples, at least 3 wherever there are
/// intra samples, and never more than 2 elsewhere.
pub proof fn law_strength_by_intra(i: BsInputs)
    ensures
        strength(i) <= 4,
        strength(i) >= 3 <==> i.p_is_intra || i.q_is_intra || i.is_sp_or_si,
        strength(i) == 4 ==> i.is_mb_edge,
{
}

} // verus!
