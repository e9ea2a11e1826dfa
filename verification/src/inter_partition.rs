//! Prediction of one inter partition.
use crate::direct::CurPic;
use crate::error::{ErrV, ReconstructError};
use crate::geometry::{mb_h_c, mb_w_c, LUMA_4X4_XY};
use crate::inter_pred::{
    chroma_weight, chroma_weight_entry, combine, combined, explicit_active, implicit_active,
    implicit_bipred_weights, implicit_weights, law_whole_sample_motion_copies_luma, luma_weight,
    luma_weight_entry, mc_chroma, mc_chroma_444, mc_chroma_partition, mc_chroma_partition_444,
    mc_luma, mc_luma_partition, opt_ints, pred_ok, ref_sample, weighted_explicit_active,
    weighted_implicit_active, WeightedEntry, Weighting,
};
use crate::intra_pred::samples_ok;
use crate::math::{add_wrapping, ints, max_of, wrap32, wrap_to_32};
use crate::mb_address::MAX_ADDR;
use crate::mb_grid::{GridV, MbGrid, MbInfo, MbInfoV};
use crate::mv_deriv::Mv;
use crate::partition_mvs::{derive_partition_mvs, partition_mvs, InterPartition, PartMode};
use crate::picture::Picture;
use crate::pps::Pps;
use crate::ref_store::{RefPicProvider, RefsV};
use crate::slice_header::SliceHeader;
use crate::sps::Sps;
use vstd::prelude::*;

verus! {

/// What the prediction of a macroblock depends on besides its partitions and the grid.
pub struct InterArgs {
    pub sh: SliceHeader,
    pub sps: Sps,
    pub pps: Pps,
    pub refs: RefsV,
    pub cur: CurPic,
    pub addr: u32,
    pub mb_px: i32,
    pub mb_py: i32,
    /// Parity of a field macroblock of an MBAFF frame: 0 top, 1 bottom.
    pub parity: Option<u8>,
    pub slice_id: i32,
}

/// Index into a list of reference pictures, at least zero.
pub open spec fn list_index(ref_idx: i8) -> u32 {
    if ref_idx < 0 {
        0
    } else {
        ref_idx as u32
    }
}

fn list_index_of(ref_idx: i8) -> (r: u32)
    ensures
        r == list_index(ref_idx),
        r <= 127,
{
    if ref_idx < 0 {
        0
    } else {
        ref_idx as u32
    }
}

/// Parity of the field that a field macroblock refers to: its own for even indices.
pub open spec fn referred_parity(idx: u32, own: u8) -> u8 {
    if idx % 2 == 0 {
        own
    } else {
        (1 - own) as u8
    }
}

/// Number that tells reference pictures apart: four times the picture order count, plus 1 or 2 for
/// a top or bottom field.
pub open spec fn ref_key(a: InterArgs, list: u8, ref_idx: i8) -> i32 {
    let idx = list_index(ref_idx);
    match a.parity {
        Some(own) => match a.refs.poc(list, idx / 2) {
            Some(p) => wrap32(4 * p + 1 + referred_parity(idx, own)) as i32,
            None => i32::MIN,
        },
        None => {
            let term = if a.sh.field_pic_flag {
                match (a.refs.field_parity)(list, idx) {
                    Some(p) => 1 + p as int,
                    None => 0,
                }
            } else {
                0
            };
            match a.refs.poc(list, idx) {
                Some(p) => wrap32(4 * p + term) as i32,
                None => i32::MIN,
            }
        },
    }
}

/// The partition covers 4x4 block `b`.
pub open spec fn covers4(part: InterPartition, b: int) -> bool {
    part.x <= LUMA_4X4_XY[b].0 < part.x + part.w && part.y <= LUMA_4X4_XY[b].1 < part.y + part.h
}

/// The partition covers the 8x8 block `q` or part of it.
pub open spec fn covers8(part: InterPartition, q: int) -> bool {
    &&& part.x as int / 8 <= q % 2 < part.x as int / 8 + max_of(part.w as int, 8) / 8
    &&& part.y as int / 8 <= q / 2 < part.y as int / 8 + max_of(part.h as int, 8) / 8
}

pub open spec fn stored_mv(mv: Mv) -> (i16, i16) {
    (mv.x as i16, mv.y as i16)
}

/// The record of a macroblock with the vectors of a partition entered.
pub open spec fn mvs_entered(i: MbInfoV, part: InterPartition, mvs: (Mv, Mv)) -> MbInfoV {
    MbInfoV {
        mv_l0: Seq::new(
            16,
            |b: int|
                if part.uses_l0() && covers4(part, b) {
                    stored_mv(mvs.0)
                } else {
                    i.mv_l0[b]
                },
        ),
        mv_l1: Seq::new(
            16,
            |b: int|
                if part.uses_l1() && covers4(part, b) {
                    stored_mv(mvs.1)
                } else {
                    i.mv_l1[b]
                },
        ),
        ..i
    }
}

/// The record of a macroblock with the references of a partition entered; `k0` and `k1` are the
/// numbers of the pictures referred to.
pub open spec fn refs_entered(i: MbInfoV, part: InterPartition, k0: i32, k1: i32) -> MbInfoV {
    MbInfoV {
        ref_idx_l0: Seq::new(
            4,
            |q: int|
                if part.uses_l0() && covers8(part, q) {
                    part.ref_idx_l0
                } else {
                    i.ref_idx_l0[q]
                },
        ),
        ref_idx_l1: Seq::new(
            4,
            |q: int|
                if part.uses_l1() && covers8(part, q) {
                    part.ref_idx_l1
                } else {
                    i.ref_idx_l1[q]
                },
        ),
        ref_poc_l0: Seq::new(
            4,
            |q: int|
                if part.uses_l0() && part.ref_idx_l0 >= 0 && covers8(part, q) {
                    k0
                } else {
                    i.ref_poc_l0[q]
                },
        ),
        ref_poc_l1: Seq::new(
            4,
            |q: int|
                if part.uses_l1() && part.ref_idx_l1 >= 0 && covers8(part, q) {
                    k1
                } else {
                    i.ref_poc_l1[q]
                },
        ),
        ..i
    }
}

/// The record of a macroblock with the motion of a partition entered.
pub open spec fn with_motion(i: MbInfoV, a: InterArgs, part: InterPartition, mvs: (Mv, Mv)) -> MbInfoV {
    refs_entered(
        mvs_entered(i, part, mvs),
        part,
        ref_key(a, 0, part.ref_idx_l0),
        ref_key(a, 1, part.ref_idx_l1),
    )
}

/// The grid with the motion of a partition entered.
pub open spec fn grid_with_motion(g: GridV, a: InterArgs, part: InterPartition, mvs: (Mv, Mv)) -> GridV {
    match g.get(a.addr as int) {
        Some(i) => g.set(a.addr as int, with_motion(i, a, part, mvs)),
        None => g,
    }
}

fn ref_key_of<R: RefPicProvider>(
    ref_pics: &R,
    slice_header: &SliceHeader,
    parity: Option<u8>,
    list: u8,
    ref_idx: i8,
    Ghost(a): Ghost<InterArgs>,
) -> (r: i32)
    requires
        a.refs == ref_pics.refs(),
        a.sh == *slice_header,
        a.parity == parity,
        parity matches Some(p) ==> p <= 1,
    ensures
        r == ref_key(a, list, ref_idx),
{
    let idx = list_index_of(ref_idx);
    let (poc, term): (Option<i32>, i32) = match parity {
        Some(own) => {
            let sel: u8 = if idx % 2 == 0 {
                own
            } else {
                1 - own
            };
            (ref_pics.ref_pic_poc(list, idx / 2), 1 + sel as i32)
        },
        None => {
            let term: i32 = if slice_header.field_pic_flag {
                match ref_pics.ref_field_parity(list, idx) {
                    Some(p) => 1 + p as i32,
                    None => 0,
                }
            } else {
                0
            };
            (ref_pics.ref_pic_poc(list, idx), term)
        },
    };
    match poc {
        Some(p) => wrap_to_32(4 * p as i64 + term as i64),
        None => i32::MIN,
    }
}

fn enter_mvs(info: &MbInfo, part: &InterPartition, mvs: (Mv, Mv)) -> (r: MbInfo)
    requires
        part.wf(),
    ensures
        r@ == mvs_entered(info@, *part, mvs),
{
    let mut i = *info;
    let ghost before = i@;
    let u0 = !matches!(part.mode, PartMode::L1Only);
    let u1 = !matches!(part.mode, PartMode::L0Only);
    let s0: (i16, i16) = (
        #[verifier::truncate]
        (mvs.0.x as i16),
        #[verifier::truncate]
        (mvs.0.y as i16),
    );
    let s1: (i16, i16) = (
        #[verifier::truncate]
        (mvs.1.x as i16),
        #[verifier::truncate]
        (mvs.1.y as i16),
    );
    let (px, py): (i32, i32) = (part.x as i32, part.y as i32);
    let (pw, ph): (i32, i32) = (part.w as i32, part.h as i32);
    for b in 0..16usize
        invariant
            part.wf(),
            u0 == part.uses_l0(),
            u1 == part.uses_l1(),
            s0 == stored_mv(mvs.0),
            s1 == stored_mv(mvs.1),
            px == part.x,
            py == part.y,
            pw == part.w,
            ph == part.h,
            i@ == (MbInfoV { mv_l0: i@.mv_l0, mv_l1: i@.mv_l1, ..before }),
            before.mv_l0.len() == 16,
            before.mv_l1.len() == 16,
            forall|k: int|
                0 <= k < 16 ==> #[trigger] i@.mv_l0[k] == (if k < b && u0 && covers4(*part, k) {
                    s0
                } else {
                    before.mv_l0[k]
                }),
            forall|k: int|
                0 <= k < 16 ==> #[trigger] i@.mv_l1[k] == (if k < b && u1 && covers4(*part, k) {
                    s1
                } else {
                    before.mv_l1[k]
                }),
    {
        let (x, y) = LUMA_4X4_XY[b];
        let inside = px <= x && x < px + pw && py <= y && y < py + ph;
        if u0 && inside {
            i.mv_l0[b] = s0;
        }
        if u1 && inside {
            i.mv_l1[b] = s1;
        }
    }
    assert(i@ =~= mvs_entered(before, *part, mvs));
    i
}

#[verifier::spinoff_prover]
#[verifier::rlimit(40)]
fn enter_refs(info: &MbInfo, part: &InterPartition, k0: i32, k1: i32) -> (r: MbInfo)
    requires
        part.wf(),
    ensures
        r@ == refs_entered(info@, *part, k0, k1),
{
    let mut i = *info;
    let ghost mid = i@;
    let u0 = !matches!(part.mode, PartMode::L1Only);
    let u1 = !matches!(part.mode, PartMode::L0Only);
    let (px, py): (i32, i32) = (part.x as i32, part.y as i32);
    let nx: i32 = if part.w > 8 {
        2
    } else {
        1
    };
    let ny: i32 = if part.h > 8 {
        2
    } else {
        1
    };
    for q in 0..4usize
        invariant
            part.wf(),
            u0 == part.uses_l0(),
            u1 == part.uses_l1(),
            px == part.x,
            py == part.y,
            nx == max_of(part.w as int, 8) / 8,
            ny == max_of(part.h as int, 8) / 8,
            i@ == (MbInfoV {
                ref_idx_l0: i@.ref_idx_l0,
                ref_idx_l1: i@.ref_idx_l1,
                ref_poc_l0: i@.ref_poc_l0,
                ref_poc_l1: i@.ref_poc_l1,
                ..mid
            }),
            mid.ref_idx_l0.len() == 4,
            mid.ref_idx_l1.len() == 4,
            mid.ref_poc_l0.len() == 4,
            mid.ref_poc_l1.len() == 4,
            forall|k: int|
                0 <= k < 4 ==> #[trigger] i@.ref_idx_l0[k] == (if k < q && u0 && covers8(*part, k) {
                    part.ref_idx_l0
                } else {
                    mid.ref_idx_l0[k]
                }),
            forall|k: int|
                0 <= k < 4 ==> #[trigger] i@.ref_idx_l1[k] == (if k < q && u1 && covers8(*part, k) {
                    part.ref_idx_l1
                } else {
                    mid.ref_idx_l1[k]
                }),
            forall|k: int|
                0 <= k < 4 ==> #[trigger] i@.ref_poc_l0[k] == (if k < q && u0 && part.ref_idx_l0
                    >= 0 && covers8(*part, k) {
                    k0
                } else {
                    mid.ref_poc_l0[k]
                }),
            forall|k: int|
                0 <= k < 4 ==> #[trigger] i@.ref_poc_l1[k] == (if k < q && u1 && part.ref_idx_l1
                    >= 0 && covers8(*part, k) {
                    k1
                } else {
                    mid.ref_poc_l1[k]
                }),
    {
        let (qx, qy): (i32, i32) = ((q % 2) as i32, (q / 2) as i32);
        let inside = px / 8 <= qx && qx < px / 8 + nx && py / 8 <= qy && qy < py / 8 + ny;
        assert(inside == covers8(*part, q as int));
        if u0 && inside {
            i.ref_idx_l0[q] = part.ref_idx_l0;
            if part.ref_idx_l0 >= 0 {
                i.ref_poc_l0[q] = k0;
            }
        }
        if u1 && inside {
            i.ref_idx_l1[q] = part.ref_idx_l1;
            if part.ref_idx_l1 >= 0 {
                i.ref_poc_l1[q] = k1;
            }
        }
    }
    assert(i@ =~= refs_entered(mid, *part, k0, k1));
    i
}

fn record_motion<R: RefPicProvider>(
    grid: &mut MbGrid,
    mb_addr: u32,
    ref_pics: &R,
    slice_header: &SliceHeader,
    parity: Option<u8>,
    part: &InterPartition,
    mvs: (Mv, Mv),
    Ghost(a): Ghost<InterArgs>,
)
    requires
        old(grid).wf(),
        a.refs == ref_pics.refs(),
        a.sh == *slice_header,
        a.parity == parity,
        a.addr == mb_addr,
        parity matches Some(p) ==> p <= 1,
        part.wf(),
    ensures
        final(grid)@ == grid_with_motion(old(grid)@, a, *part, mvs),
        final(grid).wf(),
        final(grid)@.same_shape(old(grid)@),
{
    if (mb_addr as usize) < grid.info.len() {
        let k0 = ref_key_of(ref_pics, slice_header, parity, 0, part.ref_idx_l0, Ghost(a));
        let k1 = ref_key_of(ref_pics, slice_header, parity, 1, part.ref_idx_l1, Ghost(a));
        let i = enter_mvs(&grid.info[mb_addr as usize], part, mvs);
        let j = enter_refs(&i, part, k0, k1);
        grid.put(mb_addr, j);
    }
}

/// The picture a partition refers to, and the field of it for field macroblocks.
pub open spec fn resolve(a: InterArgs, list: u8, ref_idx: i8) -> Result<
    (Picture, Option<u8>),
    ErrV,
> {
    let idx = list_index(ref_idx);
    let (place, field) = match a.parity {
        Some(own) => ((idx / 2) as u32, Some(referred_parity(idx, own))),
        None => (idx, None),
    };
    match (a.refs.pic)(list, place) {
        Some(p) => Ok((p, field)),
        None => Err(ErrV::MissingRefPic { list, idx: place }),
    }
}

fn resolve_ref<'a, R: RefPicProvider>(
    ref_pics: &'a R,
    parity: Option<u8>,
    list: u8,
    ref_idx: i8,
    Ghost(a): Ghost<InterArgs>,
) -> (r: Result<(&'a Picture, Option<u8>), ReconstructError>)
    requires
        a.refs == ref_pics.refs(),
        a.parity == parity,
        parity matches Some(p) ==> p <= 1,
    ensures
        match r {
            Ok((p, f)) => resolve(a, list, ref_idx) == Ok::<_, ErrV>((*p, f)),
            Err(e) => resolve(a, list, ref_idx) == Err::<(Picture, Option<u8>), ErrV>(e@),
        },
{
    let idx = list_index_of(ref_idx);
    let (place, field): (u32, Option<u8>) = match parity {
        Some(own) => (
            idx / 2,
            Some(
                if idx % 2 == 0 {
                    own
                } else {
                    1 - own
                },
            ),
        ),
        None => (idx, None),
    };
    match ref_pics.ref_pic(list, place) {
        Some(p) => Ok((p, field)),
        None => Err(ReconstructError::MissingRefPic { list, idx: place }),
    }
}

/// Row of the macroblock in the reference: field rows for field macroblocks.
pub open spec fn mc_row(a: InterArgs) -> int {
    match a.parity {
        Some(p) => (a.mb_py - p) / 2,
        None => a.mb_py as int,
    }
}

/// The partition takes a prediction from a list.
pub open spec fn takes(part: InterPartition, list: u8) -> bool {
    if list == 0 {
        part.uses_l0() && part.ref_idx_l0 >= 0
    } else {
        part.uses_l1() && part.ref_idx_l1 >= 0
    }
}

pub open spec fn part_ref(part: InterPartition, list: u8) -> i8 {
    if list == 0 {
        part.ref_idx_l0
    } else {
        part.ref_idx_l1
    }
}

/// Luma prediction of a partition from one list.
pub open spec fn luma_from(a: InterArgs, part: InterPartition, mv: Mv, list: u8) -> Result<
    Option<Seq<int>>,
    ErrV,
> {
    if !takes(part, list) {
        Ok(None)
    } else {
        match resolve(a, list, part_ref(part, list)) {
            Err(e) => Err(e),
            Ok((p, f)) => match mc_luma(
                p,
                a.mb_px + part.x,
                mc_row(a) + part.y,
                mv,
                part.w as int,
                part.h as int,
                (8 + a.sps.bit_depth_luma_minus8) as u32,
                f,
            ) {
                Ok(v) => Ok(Some(v)),
                Err(e) => Err(e),
            },
        }
    }
}

/// Parity of the current field: that of a field macroblock, or of a field picture.
pub open spec fn own_parity(a: InterArgs) -> Option<u8> {
    match a.parity {
        Some(p) => Some(p),
        None => if a.sh.field_pic_flag {
            Some(
                if a.sh.bottom_field_flag {
                    1u8
                } else {
                    0u8
                },
            )
        } else {
            None
        },
    }
}

/// Parity of the field referred to.
pub open spec fn target_parity(a: InterArgs, list: u8, ref_idx: i8, field: Option<u8>) -> Option<
    u8,
> {
    match field {
        Some(f) => Some(f),
        None => if a.sh.field_pic_flag {
            (a.refs.field_parity)(list, list_index(ref_idx))
        } else {
            None
        },
    }
}

/// Chroma vector: in 4:2:0, references to a field of the other parity are shifted by a quarter
/// chroma row.
pub open spec fn chroma_mv(a: InterArgs, mv: Mv, list: u8, ref_idx: i8, field: Option<u8>) -> Mv {
    match (own_parity(a), target_parity(a, list, ref_idx, field)) {
        (Some(c), Some(t)) => if a.sps.cat() == 1 && c != t {
            Mv {
                x: mv.x,
                y: wrap32(
                    mv.y + if t == 0 {
                        2int
                    } else {
                        -2int
                    },
                ) as i32,
            }
        } else {
            mv
        },
        _ => mv,
    }
}

/// Position and size of the chroma part of a partition, in its macroblock.
pub open spec fn chroma_rect(cat: u32, part: InterPartition) -> (int, int, int, int) {
    if cat == 3 {
        (part.x as int, part.y as int, part.w as int, part.h as int)
    } else if cat == 1 {
        (part.x as int / 2, part.y as int / 2, part.w as int / 2, part.h as int / 2)
    } else {
        (part.x as int / 2, part.y as int, part.w as int / 2, part.h as int)
    }
}

/// First chroma column and row of the macroblock in the reference.
pub open spec fn chroma_origin(a: InterArgs) -> (int, int) {
    let cat = a.sps.cat();
    if cat == 3 {
        (a.mb_px as int, mc_row(a))
    } else if cat == 1 {
        (a.mb_px as int / 2, mc_row(a) / 2)
    } else {
        (a.mb_px as int / 2, mc_row(a))
    }
}

/// Chroma predictions of a partition from one list: Cb and Cr.
pub open spec fn chroma_from(a: InterArgs, part: InterPartition, mv: Mv, list: u8) -> Result<
    Option<(Seq<int>, Seq<int>)>,
    ErrV,
> {
    let cat = a.sps.cat();
    let (x, y, w, h) = chroma_rect(cat, part);
    let (ox, oy) = chroma_origin(a);
    let r = part_ref(part, list);
    if !takes(part, list) {
        Ok(None)
    } else {
        match resolve(a, list, r) {
            Err(e) => Err(e),
            Ok((p, f)) => match (if cat == 3 {
                mc_chroma_444(
                    p,
                    ox + x,
                    oy + y,
                    mv,
                    w,
                    h,
                    (8 + a.sps.bit_depth_chroma_minus8) as u32,
                    f,
                )
            } else {
                mc_chroma(p, ox + x, oy + y, chroma_mv(a, mv, list, r, f), w, h, cat, f)
            }) {
                Ok(v) => Ok(Some(v)),
                Err(e) => Err(e),
            },
        }
    }
}

/// Index into the weight tables: frames, not fields, have weights.
pub open spec fn weight_index(a: InterArgs, ref_idx: i8) -> int {
    if a.parity is Some && ref_idx >= 0 {
        ref_idx as int / 2
    } else {
        ref_idx as int
    }
}

/// Weights from the distances of the two reference pictures of a partition.
pub open spec fn implicit_weighting(a: InterArgs, part: InterPartition) -> Weighting {
    match (resolve(a, 0, part.ref_idx_l0), resolve(a, 1, part.ref_idx_l1)) {
        (Ok((p0, _)), Ok((p1, _))) => {
            let (w0, w1) = implicit_weights(
                a.cur.poc as int,
                p0.pic_order_cnt as int,
                p1.pic_order_cnt as int,
                false,
            );
            Weighting::Weighted {
                l0: WeightedEntry { weight: w0 as i32, offset: 0 },
                l1: WeightedEntry { weight: w1 as i32, offset: 0 },
                log2_wd: 5,
            }
        },
        _ => Weighting::Plain,
    }
}

/// How the luma predictions of a partition are combined (`plane` 0), or those of Cb (1) and Cr (2).
pub open spec fn weighting(a: InterArgs, part: InterPartition, plane: int) -> Weighting {
    match a.sh.pred_weight_table {
        Some(t) if explicit_active(a.sh, a.pps) => {
            let (i0, i1) = (weight_index(a, part.ref_idx_l0), weight_index(a, part.ref_idx_l1));
            if plane == 0 {
                Weighting::Weighted {
                    l0: luma_weight(t, 0, i0),
                    l1: luma_weight(t, 1, i1),
                    log2_wd: t.luma_log2_weight_denom,
                }
            } else {
                Weighting::Weighted {
                    l0: chroma_weight(t, 0, plane - 1, i0),
                    l1: chroma_weight(t, 1, plane - 1, i1),
                    log2_wd: t.chroma_log2_weight_denom,
                }
            }
        },
        _ => if implicit_active(a.sh, a.pps) && takes(part, 0) && takes(part, 1) {
            implicit_weighting(a, part)
        } else {
            Weighting::Plain
        },
    }
}

/// Prediction samples of a macroblock: luma, Cb, Cr, each row by row.
#[verifier::ext_equal]
pub struct PredV {
    pub luma: Seq<int>,
    pub cb: Seq<int>,
    pub cr: Seq<int>,
}

/// The prediction with a rectangle replaced; `stride` is the width of the macroblock's block.
#[verifier::opaque]
pub open spec fn placed(
    buf: Seq<int>,
    stride: int,
    x: int,
    y: int,
    w: int,
    h: int,
    vals: Seq<int>,
) -> Seq<int> {
    Seq::new(
        buf.len(),
        |k: int|
            {
                let (dx, dy) = (k % stride - x, k / stride - y);
                if 0 <= dx < w && 0 <= dy < h {
                    vals[dy * w + dx]
                } else {
                    buf[k]
                }
            },
    )
}

fn place(
    buf: &Vec<i32>,
    stride: usize,
    x: usize,
    y: usize,
    w: usize,
    h: usize,
    vals: &Vec<i32>,
) -> (r: Vec<i32>)
    requires
        stride == 8 || stride == 16,
        x <= 16,
        y <= 16,
        1 <= w <= 16,
        1 <= h <= 16,
        vals.len() == w * h,
        samples_ok(buf@),
        samples_ok(vals@),
        buf.len() <= 256,
    ensures
        ints(r@) == placed(
            ints(buf@),
            stride as int,
            x as int,
            y as int,
            w as int,
            h as int,
            ints(vals@),
        ),
        samples_ok(r@),
        r.len() == buf.len(),
{
    let mut r: Vec<i32> = Vec::new();
    let n = buf.len();
    for k in 0..n
        invariant
            n == buf.len(),
            n <= 256,
            stride == 8 || stride == 16,
            x <= 16,
            y <= 16,
            1 <= w <= 16,
            1 <= h <= 16,
            vals.len() == w * h,
            samples_ok(buf@),
            samples_ok(vals@),
            r.len() == k,
            samples_ok(r@),
            forall|i: int|
                0 <= i < k ==> #[trigger] r@[i] == placed(
                    ints(buf@),
                    stride as int,
                    x as int,
                    y as int,
                    w as int,
                    h as int,
                    ints(vals@),
                )[i],
    {
        let (cx, cy): (usize, usize) = if stride == 8 {
            (k % 8, k / 8)
        } else {
            (k % 16, k / 16)
        };
        proof {
            reveal(placed);
        }
        if x <= cx && cx < x + w && y <= cy && cy < y + h {
            proof {
                crate::neighbours::lemma_raster(cx - x, cy - y, w as int, h as int);
            }
            r.push(vals[(cy - y) * w + (cx - x)]);
        } else {
            r.push(buf[k]);
        }
    }
    proof {
        reveal(placed);
        assert(ints(r@) =~= placed(
            ints(buf@),
            stride as int,
            x as int,
            y as int,
            w as int,
            h as int,
            ints(vals@),
        ));
    }
    r
}

/// Prediction after a partition, or the error that ended it.
pub open spec fn partition_pred(
    a: InterArgs,
    part: InterPartition,
    mvs: (Mv, Mv),
    p: PredV,
) -> Result<PredV, ErrV> {
    let cat = a.sps.cat();
    let bd = (8 + a.sps.bit_depth_luma_minus8) as u32;
    let bdc = (8 + a.sps.bit_depth_chroma_minus8) as u32;
    match (luma_from(a, part, mvs.0, 0), luma_from(a, part, mvs.1, 1)) {
        (Err(e), _) => Err(e),
        (_, Err(e)) => Err(e),
        (Ok(y0), Ok(y1)) => {
            let luma = placed(
                p.luma,
                16,
                part.x as int,
                part.y as int,
                part.w as int,
                part.h as int,
                combined(y0, y1, weighting(a, part, 0), bd, part.w * part.h),
            );
            if cat == 0 {
                Ok(PredV { luma, ..p })
            } else {
                match (chroma_from(a, part, mvs.0, 0), chroma_from(a, part, mvs.1, 1)) {
                    (Err(e), _) => Err(e),
                    (_, Err(e)) => Err(e),
                    (Ok(c0), Ok(c1)) => {
                        let (x, y, w, h) = chroma_rect(cat, part);
                        Ok(
                            PredV {
                                luma,
                                cb: placed(
                                    p.cb,
                                    mb_w_c(cat),
                                    x,
                                    y,
                                    w,
                                    h,
                                    combined(
                                        cb_of(c0),
                                        cb_of(c1),
                                        weighting(a, part, 1),
                                        bdc,
                                        w * h,
                                    ),
                                ),
                                cr: placed(
                                    p.cr,
                                    mb_w_c(cat),
                                    x,
                                    y,
                                    w,
                                    h,
                                    combined(
                                        cr_of(c0),
                                        cr_of(c1),
                                        weighting(a, part, 2),
                                        bdc,
                                        w * h,
                                    ),
                                ),
                            },
                        )
                    },
                }
            }
        },
    }
}

pub open spec fn cb_of(c: Option<(Seq<int>, Seq<int>)>) -> Option<Seq<int>> {
    match c {
        Some((b, r)) => Some(b),
        None => None,
    }
}

pub open spec fn cr_of(c: Option<(Seq<int>, Seq<int>)>) -> Option<Seq<int>> {
    match c {
        Some((b, r)) => Some(r),
        None => None,
    }
}

/// Grid and prediction after a partition, and the error that ended it if any.
#[verifier::opaque]
pub open spec fn partition_step(g: GridV, p: PredV, a: InterArgs, part: InterPartition) -> (
    GridV,
    Result<PredV, ErrV>,
) {
    let mvs = partition_mvs(part, g, a.addr as int, a.slice_id as int);
    (grid_with_motion(g, a, part, mvs), partition_pred(a, part, mvs, p))
}

/// Prediction samples of a macroblock.
pub struct MbPrediction {
    pub luma: Vec<i32>,
    pub cb: Vec<i32>,
    pub cr: Vec<i32>,
}

impl View for MbPrediction {
    type V = PredV;

    open spec fn view(&self) -> PredV {
        PredV { luma: ints(self.luma@), cb: ints(self.cb@), cr: ints(self.cr@) }
    }
}

impl MbPrediction {
    pub open spec fn wf(&self, cat: u32) -> bool {
        &&& self.luma.len() == 256
        &&& self.cb.len() == mb_w_c(cat) * mb_h_c(cat)
        &&& self.cr.len() == mb_w_c(cat) * mb_h_c(cat)
        &&& samples_ok(self.luma@)
        &&& samples_ok(self.cb@)
        &&& samples_ok(self.cr@)
    }
}

/// What the prediction of the partitions of a macroblock reads.
pub struct InterInputs<'a, R: RefPicProvider> {
    pub slice_header: &'a SliceHeader,
    pub sps: &'a Sps,
    pub pps: &'a Pps,
    pub ref_pics: &'a R,
    pub cur: CurPic,
    pub mb_addr: u32,
    pub mb_px: i32,
    pub mb_py: i32,
    pub parity: Option<u8>,
    pub slice_id: i32,
}

impl<'a, R: RefPicProvider> InterInputs<'a, R> {
    pub open spec fn args(&self) -> InterArgs {
        InterArgs {
            sh: *self.slice_header,
            sps: *self.sps,
            pps: *self.pps,
            refs: self.ref_pics.refs(),
            cur: self.cur,
            addr: self.mb_addr,
            mb_px: self.mb_px,
            mb_py: self.mb_py,
            parity: self.parity,
            slice_id: self.slice_id,
        }
    }

    pub open spec fn wf(&self) -> bool {
        &&& self.sps.wf()
        &&& self.slice_header.wf()
        &&& self.mb_addr <= MAX_ADDR
        &&& 0 <= self.mb_px <= 0x4000_0010
        &&& 0 <= self.mb_py <= 0x4000_0020
        &&& self.parity matches Some(p) ==> p <= 1 && p <= self.mb_py
    }
}

pub open spec fn opt_result(r: Result<Option<Vec<i32>>, ReconstructError>) -> Result<
    Option<Seq<int>>,
    ErrV,
> {
    match r {
        Ok(v) => Ok(opt_ints(v)),
        Err(e) => Err(e@),
    }
}

fn takes_list(part: &InterPartition, list: u8) -> (r: bool)
    ensures
        r == takes(*part, list),
{
    if list == 0 {
        !matches!(part.mode, PartMode::L1Only) && part.ref_idx_l0 >= 0
    } else {
        !matches!(part.mode, PartMode::L0Only) && part.ref_idx_l1 >= 0
    }
}

fn mc_row_of<R: RefPicProvider>(a: &InterInputs<R>) -> (r: i32)
    requires
        a.wf(),
    ensures
        r == mc_row(a.args()),
        0 <= r <= 0x4000_0020,
{
    match a.parity {
        Some(p) => (a.mb_py - p as i32) / 2,
        None => a.mb_py,
    }
}

fn luma_prediction<R: RefPicProvider>(
    a: &InterInputs<R>,
    part: &InterPartition,
    mv: Mv,
    list: u8,
) -> (r: Result<Option<Vec<i32>>, ReconstructError>)
    requires
        a.wf(),
        part.wf(),
    ensures
        opt_result(r) == luma_from(a.args(), *part, mv, list),
        r matches Ok(v) ==> pred_ok(v, part.w * part.h) && (v is Some == takes(*part, list)),
{
    if !takes_list(part, list) {
        return Ok(None);
    }
    let ref_idx = if list == 0 {
        part.ref_idx_l0
    } else {
        part.ref_idx_l1
    };
    let (p, f) = match resolve_ref(a.ref_pics, a.parity, list, ref_idx, Ghost(a.args())) {
        Ok(t) => t,
        Err(e) => {
            return Err(e);
        },
    };
    match mc_luma_partition(
        p,
        a.mb_px + part.x as i32,
        mc_row_of(a) + part.y as i32,
        mv,
        part.w as u32,
        part.h as u32,
        8 + a.sps.bit_depth_luma_minus8,
        f,
    ) {
        Ok(v) => Ok(Some(v)),
        Err(e) => Err(e),
    }
}

fn chroma_mv_of<R: RefPicProvider>(
    a: &InterInputs<R>,
    mv: Mv,
    list: u8,
    ref_idx: i8,
    field: Option<u8>,
) -> (r: Mv)
    requires
        a.wf(),
    ensures
        r == chroma_mv(a.args(), mv, list, ref_idx, field),
{
    let field_pic = a.slice_header.field_pic_flag;
    let own: Option<u8> = match a.parity {
        Some(p) => Some(p),
        None => if field_pic {
            Some(
                if a.slice_header.bottom_field_flag {
                    1
                } else {
                    0
                },
            )
        } else {
            None
        },
    };
    let target: Option<u8> = match field {
        Some(f) => Some(f),
        None => if field_pic {
            a.ref_pics.ref_field_parity(list, list_index_of(ref_idx))
        } else {
            None
        },
    };
    match (own, target) {
        (Some(c), Some(t)) => if a.sps.chroma_array_type() == 1 && c != t {
            let d: i32 = if t == 0 {
                2
            } else {
                -2
            };
            Mv { x: mv.x, y: add_wrapping(mv.y, d) }
        } else {
            mv
        },
        _ => mv,
    }
}

pub open spec fn chroma_result(r: Result<(Option<Vec<i32>>, Option<Vec<i32>>), ReconstructError>) -> Result<
    (Option<Seq<int>>, Option<Seq<int>>),
    ErrV,
> {
    match r {
        Ok((b, c)) => Ok((opt_ints(b), opt_ints(c))),
        Err(e) => Err(e@),
    }
}

pub open spec fn split_pair(r: Result<Option<(Seq<int>, Seq<int>)>, ErrV>) -> Result<
    (Option<Seq<int>>, Option<Seq<int>>),
    ErrV,
> {
    match r {
        Ok(c) => Ok((cb_of(c), cr_of(c))),
        Err(e) => Err(e),
    }
}

fn chroma_rect_of(cat: u32, part: &InterPartition) -> (r: (u32, u32, u32, u32))
    requires
        part.wf(),
    ensures
        (r.0 as int, r.1 as int, r.2 as int, r.3 as int) == chroma_rect(cat, *part),
        r.0 <= 12,
        r.1 <= 12,
        1 <= r.2 <= 16,
        1 <= r.3 <= 16,
{
    let (x, y): (u32, u32) = (part.x as u32, part.y as u32);
    let (w, h): (u32, u32) = (part.w as u32, part.h as u32);
    if cat == 3 {
        (x, y, w, h)
    } else if cat == 1 {
        (x / 2, y / 2, w / 2, h / 2)
    } else {
        (x / 2, y, w / 2, h)
    }
}

fn chroma_prediction<R: RefPicProvider>(
    a: &InterInputs<R>,
    part: &InterPartition,
    mv: Mv,
    list: u8,
) -> (r: Result<(Option<Vec<i32>>, Option<Vec<i32>>), ReconstructError>)
    requires
        a.wf(),
        part.wf(),
    ensures
        chroma_result(r) == split_pair(chroma_from(a.args(), *part, mv, list)),
        r matches Ok((b, c)) ==> ({
            let (x, y, w, h) = chroma_rect(a.sps.cat(), *part);
            pred_ok(b, w * h) && pred_ok(c, w * h)
        }),
{
    if !takes_list(part, list) {
        return Ok((None, None));
    }
    let ref_idx = if list == 0 {
        part.ref_idx_l0
    } else {
        part.ref_idx_l1
    };
    let (p, f) = match resolve_ref(a.ref_pics, a.parity, list, ref_idx, Ghost(a.args())) {
        Ok(t) => t,
        Err(e) => {
            return Err(e);
        },
    };
    let cat = a.sps.chroma_array_type();
    let (x, y, w, h) = chroma_rect_of(cat, part);
    let row = mc_row_of(a);
    let (ox, oy): (i32, i32) = if cat == 3 {
        (a.mb_px, row)
    } else if cat == 1 {
        (a.mb_px / 2, row / 2)
    } else {
        (a.mb_px / 2, row)
    };
    let res = if cat == 3 {
        mc_chroma_partition_444(
            p,
            ox + x as i32,
            oy + y as i32,
            mv,
            w,
            h,
            8 + a.sps.bit_depth_chroma_minus8,
            f,
        )
    } else {
        let cmv = chroma_mv_of(a, mv, list, ref_idx, f);
        mc_chroma_partition(p, ox + x as i32, oy + y as i32, cmv, w, h, cat, f)
    };
    match res {
        Ok((b, c)) => Ok((Some(b), Some(c))),
        Err(e) => Err(e),
    }
}

fn weight_index_of<R: RefPicProvider>(a: &InterInputs<R>, ref_idx: i8) -> (r: i8)
    ensures
        r == weight_index(a.args(), ref_idx),
{
    if a.parity.is_some() && ref_idx >= 0 {
        ref_idx / 2
    } else {
        ref_idx
    }
}

fn implicit_weighting_of<R: RefPicProvider>(a: &InterInputs<R>, part: &InterPartition) -> (r:
    Weighting)
    requires
        a.wf(),
    ensures
        r == implicit_weighting(a.args(), *part),
        r matches Weighting::Weighted { l0, l1, log2_wd } ==> log2_wd <= 30,
{
    let r0 = resolve_ref(a.ref_pics, a.parity, 0, part.ref_idx_l0, Ghost(a.args()));
    let r1 = resolve_ref(a.ref_pics, a.parity, 1, part.ref_idx_l1, Ghost(a.args()));
    match (r0, r1) {
        (Ok((p0, _)), Ok((p1, _))) => {
            let (w0, w1, log2_wd) = implicit_bipred_weights(
                a.cur.poc,
                p0.pic_order_cnt,
                p1.pic_order_cnt,
                false,
            );
            Weighting::Weighted {
                l0: WeightedEntry { weight: w0, offset: 0 },
                l1: WeightedEntry { weight: w1, offset: 0 },
                log2_wd,
            }
        },
        _ => Weighting::Plain,
    }
}

fn weighting_of<R: RefPicProvider>(a: &InterInputs<R>, part: &InterPartition, plane: usize) -> (r:
    Weighting)
    requires
        a.wf(),
        plane <= 2,
    ensures
        r == weighting(a.args(), *part, plane as int),
        r matches Weighting::Weighted { l0, l1, log2_wd } ==> log2_wd <= 30,
{
    if weighted_explicit_active(a.slice_header, a.pps) {
        if let Some(t) = &a.slice_header.pred_weight_table {
            let i0 = weight_index_of(a, part.ref_idx_l0);
            let i1 = weight_index_of(a, part.ref_idx_l1);
            return if plane == 0 {
                Weighting::Weighted {
                    l0: luma_weight_entry(t, 0, i0),
                    l1: luma_weight_entry(t, 1, i1),
                    log2_wd: t.luma_log2_weight_denom,
                }
            } else {
                Weighting::Weighted {
                    l0: chroma_weight_entry(t, 0, plane - 1, i0),
                    l1: chroma_weight_entry(t, 1, plane - 1, i1),
                    log2_wd: t.chroma_log2_weight_denom,
                }
            };
        }
    }
    if weighted_implicit_active(a.slice_header, a.pps) && takes_list(part, 0) && takes_list(
        part,
        1,
    ) {
        implicit_weighting_of(a, part)
    } else {
        Weighting::Plain
    }
}

/// Derives the motion of a partition, enters it in the grid, and predicts its samples.
pub fn process_partition<R: RefPicProvider>(
    a: &InterInputs<R>,
    part: &InterPartition,
    grid: &mut MbGrid,
    pred: &mut MbPrediction,
) -> (r: Result<(), ReconstructError>)
    requires
        a.wf(),
        part.wf(),
        old(grid).wf(),
        old(pred).wf(a.sps.cat()),
    ensures
        ({
            let (g, res) = partition_step(old(grid)@, old(pred)@, a.args(), *part);
            &&& final(grid)@ == g
            &&& match r {
                Ok(_) => res == Ok::<PredV, ErrV>(final(pred)@),
                Err(e) => res == Err::<PredV, ErrV>(e@),
            }
        }),
        final(grid).wf(),
        final(grid)@.same_shape(old(grid)@),
        r is Ok ==> final(pred).wf(a.sps.cat()),
{
    let ghost ga = a.args();
    proof {
        reveal(partition_step);
    }
    let mvs = derive_partition_mvs(part, a.mb_addr, grid, a.slice_id);
    record_motion(
        grid,
        a.mb_addr,
        a.ref_pics,
        a.slice_header,
        a.parity,
        part,
        mvs,
        Ghost(ga),
    );
    let y0 = match luma_prediction(a, part, mvs.0, 0) {
        Ok(v) => v,
        Err(e) => {
            return Err(e);
        },
    };
    let y1 = match luma_prediction(a, part, mvs.1, 1) {
        Ok(v) => v,
        Err(e) => {
            return Err(e);
        },
    };
    let (w, h): (usize, usize) = (part.w as usize, part.h as usize);
    assert(w * h <= 256) by (nonlinear_arith)
        requires
            w <= 16,
            h <= 16,
    ;
    let wt = weighting_of(a, part, 0);
    let bd = 8 + a.sps.bit_depth_luma_minus8;
    let y = combine(&y0, &y1, &wt, bd, w * h);
    pred.luma = place(&pred.luma, 16, part.x as usize, part.y as usize, w, h, &y);
    let cat = a.sps.chroma_array_type();
    if cat == 0 {
        return Ok(());
    }
    let (cb0, cr0) = match chroma_prediction(a, part, mvs.0, 0) {
        Ok(v) => v,
        Err(e) => {
            return Err(e);
        },
    };
    let (cb1, cr1) = match chroma_prediction(a, part, mvs.1, 1) {
        Ok(v) => v,
        Err(e) => {
            return Err(e);
        },
    };
    let (cx, cy, cw, ch) = chroma_rect_of(cat, part);
    let (cx, cy): (usize, usize) = (cx as usize, cy as usize);
    let (cw, ch): (usize, usize) = (cw as usize, ch as usize);
    assert(cw * ch <= 256) by (nonlinear_arith)
        requires
            cw <= 16,
            ch <= 16,
    ;
    let bdc = 8 + a.sps.bit_depth_chroma_minus8;
    let wt_cb = weighting_of(a, part, 1);
    let wt_cr = weighting_of(a, part, 2);
    let cb = combine(&cb0, &cb1, &wt_cb, bdc, cw * ch);
    let cr = combine(&cr0, &cr1, &wt_cr, bdc, cw * ch);
    let stride: usize = if cat == 3 {
        16
    } else {
        8
    };
    pred.cb = place(&pred.cb, stride, cx, cy, cw, ch, &cb);
    pred.cr = place(&pred.cr, stride, cx, cy, cw, ch, &cr);
    Ok(())
}

/// An unweighted partition with a vector of whole samples copies luma samples of its reference.
pub proof fn law_whole_sample_partition_copies(
    a: InterArgs,
    part: InterPartition,
    mvs: (Mv, Mv),
    p: PredV,
    q: PredV,
    list: u8,
    x: int,
    y: int,
)
    requires
        part.wf(),
        list <= 1,
        takes(part, list),
        !takes(part, (1 - list) as u8),
        weighting(a, part, 0) is Plain,
        partition_pred(a, part, mvs, p) == Ok::<PredV, ErrV>(q),
        p.luma.len() == 256,
        ({
            let mv = if list == 0 {
                mvs.0
            } else {
                mvs.1
            };
            mv.x % 4 == 0 && mv.y % 4 == 0
        }),
        0 <= x < part.w,
        0 <= y < part.h,
    ensures
        ({
            let mv = if list == 0 {
                mvs.0
            } else {
                mvs.1
            };
            match resolve(a, list, part_ref(part, list)) {
                Ok((r, f)) => q.luma[(part.y + y) * 16 + part.x + x] == ref_sample(
                    r.luma@,
                    f,
                    a.mb_px + part.x + mv.x as int / 4 + x,
                    mc_row(a) + part.y + mv.y as int / 4 + y,
                ),
                Err(_) => false,
            }
        }),
{
    reveal(placed);
    reveal(combined);
    let mv = if list == 0 {
        mvs.0
    } else {
        mvs.1
    };
    if let Ok((r, f)) = resolve(a, list, part_ref(part, list)) {
        law_whole_sample_motion_copies_luma(
            r.luma@,
            f,
            (8 + a.sps.bit_depth_luma_minus8) as u32,
            a.mb_px + part.x,
            mc_row(a) + part.y,
            mv.x as int,
            mv.y as int,
            part.w as int,
            part.h as int,
            x,
            y,
        );
        crate::neighbours::lemma_raster(x, y, part.w as int, part.h as int);
        let k = (part.y + y) * 16 + part.x + x;
        assert(k % 16 == part.x + x && k / 16 == part.y + y);
    }
}

} // verus!
