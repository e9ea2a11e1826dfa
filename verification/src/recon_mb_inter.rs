//! Reconstruction of one inter macroblock.
use crate::direct::{cur_pic, cur_pic_of, refs_ok, CurPic};
use crate::error::{outcome, ErrV, ReconstructError};
use crate::geometry::{chroma_mb_dims, mb_h_c, mb_w_c, MbWriter, LUMA_4X4_XY};
use crate::inter_partition::{
    partition_step, process_partition, InterArgs, InterInputs, MbPrediction, PredV,
};
use crate::intra_pred::samples_ok;
use crate::macroblock_layer::Macroblock;
use crate::math::{ints, longs, within};
use crate::mb_address::{mb_sample_origin, MAX_ADDR};
use crate::mb_grid::{GridV, MbGrid, MbInfoV};
use crate::partition_mvs::InterPartition;
use crate::partitions::{derive_inter_partitions, partitions, parts_ok, PartArgs};
use crate::picture::{same_meta, PicV, Picture};
use crate::plane::{Plane, PlaneV};
use crate::pps::Pps;
use crate::recon_blocks::{
    assemble, block_list, mosaic, put_block, transform_error, write_block, PlaneCtx, PlaneStep,
};
use crate::recon_intra::{
    chroma_residual, chroma_residual_of, longs_result, residual_or_error, sp_chroma_samples,
    sp_reconstruct_chroma_plane,
};
use crate::recon_mb_intra::{
    cb_then_cr, chroma_qp_prime, chroma_qp_prime_of, plane_contexts, sp_ok, MbArgs, MbStep, SpSiCtx,
};
use crate::ref_store::{RefPicProvider, RefsV};
use crate::residual::{
    add_residual, cbp_chroma, cbp_chroma_of, cbp_luma, cbp_luma_of, clip_residual, clipped,
    lemma_uncoded, levels4, levels8, levels_of_4x4, levels_of_8x8, reconstructed,
};
use crate::scan::{
    inv_scan_4x4, inv_scan_8x8, law_scan4_is_bijective, unscan4, unscan8, widen,
};
use crate::slice_header::SliceHeader;
use crate::sp_transform::{
    law_sp_parameter_scales_levels_only, sp_luma, sp_luma_non_switching, sp_luma_switch,
    sp_luma_switching,
};
use crate::sps::Sps;
use crate::transform::{
    inverse_transform_4x4, inverse_transform_8x8, qp_ok, residual4x4, residual8x8,
    select_scaling_list_4x4, select_scaling_list_8x8, weights4, weights8, weights_ok,
    RESIDUAL_BOUND,
};
use vstd::prelude::*;

verus! {

/// The 16x16 area made of four 8x8 blocks.
#[verifier::opaque]
pub open spec fn mosaic8(blocks: Seq<Seq<int>>) -> Seq<int> {
    Seq::new(
        256,
        |k: int|
            blocks[2 * (k / 16 / 8) + k % 16 / 8][((k / 16) % 8) * 8 + (k % 16) % 8],
    )
}

fn assemble8(blocks: &Vec<Vec<i64>>, Ghost(bound): Ghost<int>) -> (r: Vec<i64>)
    requires
        blocks.len() == 4,
        forall|i: int|
            0 <= i < blocks.len() ==> (#[trigger] blocks@[i]).len() == 64 && within(
                blocks@[i]@,
                bound,
            ),
    ensures
        longs(r@) == mosaic8(block_list(blocks@)),
        r.len() == 256,
        within(r@, bound),
{
    let mut r: Vec<i64> = Vec::new();
    for k in 0..256usize
        invariant
            blocks.len() == 4,
            forall|i: int|
                0 <= i < blocks.len() ==> (#[trigger] blocks@[i]).len() == 64 && within(
                    blocks@[i]@,
                    bound,
                ),
            r.len() == k,
            within(r@, bound),
            forall|i: int| 0 <= i < k ==> r@[i] == #[trigger] mosaic8(block_list(blocks@))[i],
    {
        let (x, y): (usize, usize) = (k % 16, k / 16);
        let b: usize = 2 * (y / 8) + x / 8;
        let v = blocks[b][(y % 8) * 8 + x % 8];
        proof {
            reveal(mosaic8);
            assert(within(blocks@[b as int]@, bound));
            assert(block_list(blocks@)[b as int] == longs(blocks@[b as int]@));
        }
        r.push(v);
    }
    proof {
        reveal(mosaic8);
        assert(longs(r@) =~= mosaic8(block_list(blocks@)));
    }
    r
}

/// Residual of an inter 4x4 block.
pub open spec fn inter_block4(c: PlaneCtx, levels: Seq<i32>, w: Seq<int>) -> Seq<int> {
    let coeffs = ints(unscan4(levels, c.field_scan));
    if c.bypass {
        coeffs
    } else {
        residual4x4(coeffs, c.qp as int, w)
    }
}

/// Residual of an inter 8x8 block.
pub open spec fn inter_block8(c: PlaneCtx, levels: Seq<i32>, w: Seq<int>) -> Seq<int> {
    let coeffs = ints(unscan8(levels, c.field_scan));
    if c.bypass {
        coeffs
    } else {
        residual8x8(coeffs, c.qp as int, w)
    }
}

/// Residual of a 16x16 plane of an inter macroblock.
#[verifier::opaque]
pub open spec fn inter_residual(
    c: PlaneCtx,
    by8: bool,
    blocks: Seq<[i32; 16]>,
    cbp: int,
    w4: Seq<int>,
    w8: Seq<int>,
) -> Seq<int> {
    if by8 {
        mosaic8(Seq::new(4, |b: int| inter_block8(c, levels8(blocks, cbp, b), w8)))
    } else {
        mosaic(Seq::new(16, |b: int| inter_block4(c, levels4(blocks, cbp, b), w4)), 16, 256)
    }
}

fn inter_residual_of(
    c: &PlaneCtx,
    by8: bool,
    blocks: &Vec<[i32; 16]>,
    cbp: u32,
    w4: &Vec<i64>,
    w8: &Vec<i64>,
) -> (r: Result<Vec<i64>, ReconstructError>)
    requires
        c.wf(),
        weights_ok(w4@, 16),
        weights_ok(w8@, 64),
    ensures
        longs_result(r) == residual_or_error(
            *c,
            inter_residual(*c, by8, blocks@, cbp as int, longs(w4@), longs(w8@)),
        ),
        r matches Ok(v) ==> v.len() == 256 && within(v@, RESIDUAL_BOUND as int),
{
    let ghost bound = RESIDUAL_BOUND as int;
    let mut list: Vec<Vec<i64>> = Vec::new();
    if by8 {
        let ghost want = Seq::new(
            4,
            |b: int| inter_block8(*c, levels8(blocks@, cbp as int, b), longs(w8@)),
        );
        let mut b: usize = 0;
        while b < 4
            invariant
                b <= 4,
                c.wf(),
                weights_ok(w8@, 64),
                bound == RESIDUAL_BOUND as int,
                b > 0 && !c.bypass ==> qp_ok(c.qp as int, c.bit_depth),
                want == Seq::new(
                    4,
                    |b: int| inter_block8(*c, levels8(blocks@, cbp as int, b), longs(w8@)),
                ),
                list.len() == b,
                forall|i: int|
                    0 <= i < b ==> (#[trigger] list@[i]).len() == 64 && within(list@[i]@, bound)
                        && longs(list@[i]@) == want[i],
            decreases 4 - b,
        {
            let l = levels_of_8x8(blocks, cbp, b);
            let u = inv_scan_8x8(&l, c.field_scan);
            let coeffs = widen(&u);
            if c.bypass {
                list.push(coeffs);
            } else {
                match inverse_transform_8x8(&coeffs, c.qp, w8, c.bit_depth) {
                    Ok(v) => list.push(v),
                    Err(e) => {
                        return Err(ReconstructError::Transform(e));
                    },
                }
            }
            b += 1;
        }
        assert(block_list(list@) =~= want);
        proof {
            reveal(inter_residual);
        }
        return Ok(assemble8(&list, Ghost(bound)));
    }
    let ghost want = Seq::new(
        16,
        |b: int| inter_block4(*c, levels4(blocks@, cbp as int, b), longs(w4@)),
    );
    let mut b: usize = 0;
    while b < 16
        invariant
            b <= 16,
            c.wf(),
            weights_ok(w4@, 16),
            bound == RESIDUAL_BOUND as int,
            b > 0 && !c.bypass ==> qp_ok(c.qp as int, c.bit_depth),
            want == Seq::new(
                16,
                |b: int| inter_block4(*c, levels4(blocks@, cbp as int, b), longs(w4@)),
            ),
            list.len() == b,
            forall|i: int|
                0 <= i < b ==> (#[trigger] list@[i]).len() == 16 && within(list@[i]@, bound)
                    && longs(list@[i]@) == want[i],
        decreases 16 - b,
    {
        let l = levels_of_4x4(blocks, cbp, b);
        let u = inv_scan_4x4(&l, c.field_scan);
        let coeffs = widen(&u);
        if c.bypass {
            list.push(coeffs);
        } else {
            match inverse_transform_4x4(&coeffs, c.qp, w4, c.bit_depth) {
                Ok(v) => list.push(v),
                Err(e) => {
                    return Err(ReconstructError::Transform(e));
                },
            }
        }
        b += 1;
    }
    assert(block_list(list@) =~= want);
    proof {
        reveal(inter_residual);
    }
    Ok(assemble(&list, 16, 16, Ghost(bound)))
}

/// A 16x16 plane of an inter macroblock: prediction plus residual.
pub open spec fn inter_plane(
    p: PlaneV,
    c: PlaneCtx,
    pred: Seq<int>,
    by8: bool,
    blocks: Seq<[i32; 16]>,
    cbp: int,
    w4: Seq<int>,
    w8: Seq<int>,
) -> PlaneStep {
    if !c.bypass && !qp_ok(c.qp as int, c.bit_depth) {
        (p, Some(transform_error(c.qp as int)))
    } else {
        (
            put_block(
                p,
                c,
                0,
                0,
                16,
                reconstructed(
                    pred,
                    inter_residual(c, by8, blocks, cbp, w4, w8),
                    c.bit_depth,
                ),
            ),
            None,
        )
    }
}

/// A chroma plane of a 4:2:0 or 4:2:2 inter macroblock: prediction plus residual.
pub open spec fn inter_chroma_plane(
    p: PlaneV,
    c: PlaneCtx,
    pred: Seq<int>,
    h: int,
    cbp: int,
    dc: Seq<i32>,
    acs: Seq<[i32; 16]>,
    w: Seq<int>,
) -> PlaneStep {
    if !c.bypass && !qp_ok(c.qp as int, c.bit_depth) {
        (p, Some(transform_error(c.qp as int)))
    } else {
        (
            put_block(
                p,
                c,
                0,
                0,
                8,
                reconstructed(pred, chroma_residual(c, h, cbp, dc, acs, w), c.bit_depth),
            ),
            None,
        )
    }
}

fn reconstruct_inter_plane(
    p: &mut Plane,
    c: &PlaneCtx,
    pred: &Vec<i32>,
    by8: bool,
    blocks: &Vec<[i32; 16]>,
    cbp: u32,
    w4: &Vec<i64>,
    w8: &Vec<i64>,
) -> (r: Result<(), ReconstructError>)
    requires
        c.wf(),
        pred.len() == 256,
        weights_ok(w4@, 16),
        weights_ok(w8@, 64),
    ensures
        (final(p)@, outcome(r)) == inter_plane(
            old(p)@,
            *c,
            ints(pred@),
            by8,
            blocks@,
            cbp as int,
            longs(w4@),
            longs(w8@),
        ),
        final(p)@.same_size(old(p)@),
{
    match inter_residual_of(c, by8, blocks, cbp, w4, w8) {
        Ok(res) => {
            let v = add_residual(pred, &res, c.bit_depth);
            write_block(p, c, 0, 0, 16, &v);
            Ok(())
        },
        Err(e) => Err(e),
    }
}

fn reconstruct_inter_chroma_residual(
    p: &mut Plane,
    c: &PlaneCtx,
    pred: &Vec<i32>,
    h: usize,
    cbp: u32,
    dc: &Vec<i32>,
    acs: &Vec<[i32; 16]>,
    w: &Vec<i64>,
) -> (r: Result<(), ReconstructError>)
    requires
        c.wf(),
        h == 8 || h == 16,
        pred.len() == 8 * h,
        weights_ok(w@, 16),
        c.qp <= 84,
    ensures
        (final(p)@, outcome(r)) == inter_chroma_plane(
            old(p)@,
            *c,
            ints(pred@),
            h as int,
            cbp as int,
            dc@,
            acs@,
            longs(w@),
        ),
        final(p)@.same_size(old(p)@),
{
    match chroma_residual_of(c, h, cbp, dc, acs, w) {
        Ok(res) => {
            let v = add_residual(pred, &res, c.bit_depth);
            write_block(p, c, 0, 0, 8, &v);
            Ok(())
        },
        Err(e) => Err(e),
    }
}

/// 4x4 block `b` of a 16x16 prediction.
pub open spec fn block_of_16(pred: Seq<int>, b: int) -> Seq<int> {
    Seq::new(
        16,
        |k: int| pred[(LUMA_4X4_XY[b].1 + k / 4) * 16 + LUMA_4X4_XY[b].0 + k % 4],
    )
}

fn block_from_16(pred: &Vec<i32>, b: usize) -> (r: Vec<i32>)
    requires
        pred.len() == 256,
        samples_ok(pred@),
        b < 16,
    ensures
        ints(r@) == block_of_16(ints(pred@), b as int),
        r.len() == 16,
        samples_ok(r@),
{
    let (x, y) = LUMA_4X4_XY[b];
    let mut r: Vec<i32> = Vec::new();
    for k in 0..16usize
        invariant
            pred.len() == 256,
            samples_ok(pred@),
            b < 16,
            x == LUMA_4X4_XY[b as int].0,
            y == LUMA_4X4_XY[b as int].1,
            0 <= x <= 12,
            0 <= y <= 12,
            r.len() == k,
            samples_ok(r@),
            forall|i: int| 0 <= i < k ==> r@[i] == #[trigger] block_of_16(ints(pred@), b as int)[i],
    {
        r.push(pred[(y as usize + k / 4) * 16 + x as usize + k % 4]);
    }
    assert(ints(r@) =~= block_of_16(ints(pred@), b as int));
    r
}

/// Samples of a luma block of an SP macroblock, before clipping.
pub open spec fn sp_luma_block(
    c: PlaneCtx,
    pred: Seq<int>,
    levels: Seq<i32>,
    s: SpSiCtx,
    w: Seq<int>,
) -> Seq<int> {
    let coeffs = ints(unscan4(levels, c.field_scan));
    residual4x4(
        if s.switching {
            sp_luma_switch(pred, coeffs, s.qs_y as int)
        } else {
            sp_luma(pred, coeffs, c.qp as int, s.qs_y as int, w)
        },
        s.qs_y as int,
        w,
    )
}

/// Luma samples of an SP macroblock.
#[verifier::opaque]
pub open spec fn sp_luma_samples(
    c: PlaneCtx,
    pred: Seq<int>,
    blocks: Seq<[i32; 16]>,
    cbp: int,
    s: SpSiCtx,
    w: Seq<int>,
) -> Seq<int> {
    clipped(
        mosaic(
            Seq::new(
                16,
                |b: int| sp_luma_block(c, block_of_16(pred, b), levels4(blocks, cbp, b), s, w),
            ),
            16,
            256,
        ),
        c.bit_depth,
    )
}

fn sp_reconstruct_luma(
    p: &mut Plane,
    c: &PlaneCtx,
    pred: &Vec<i32>,
    blocks: &Vec<[i32; 16]>,
    cbp: u32,
    s: SpSiCtx,
    w: &Vec<i64>,
)
    requires
        c.wf(),
        pred.len() == 256,
        samples_ok(pred@),
        weights_ok(w@, 16),
        0 <= s.qs_y <= 51,
        s.switching || 0 <= c.qp <= 51 || cbp == 0,
    ensures
        final(p)@ == put_block(
            old(p)@,
            *c,
            0,
            0,
            16,
            sp_luma_samples(*c, ints(pred@), blocks@, cbp as int, s, longs(w@)),
        ),
        final(p)@.same_size(old(p)@),
{
    let ghost bound = RESIDUAL_BOUND as int;
    let ghost want = Seq::new(
        16,
        |b: int|
            sp_luma_block(
                *c,
                block_of_16(ints(pred@), b),
                levels4(blocks@, cbp as int, b),
                s,
                longs(w@),
            ),
    );
    let qs: i64 = s.qs_y as i64;
    // Without levels the result does not depend on the parameter.
    let qp: i64 = if 0 <= c.qp && c.qp <= 51 {
        c.qp
    } else {
        0
    };
    let mut list: Vec<Vec<i64>> = Vec::new();
    for b in 0..16usize
        invariant
            p@.same_size(old(p)@),
            c.wf(),
            pred.len() == 256,
            samples_ok(pred@),
            weights_ok(w@, 16),
            0 <= s.qs_y <= 51,
            s.switching || 0 <= c.qp <= 51 || cbp == 0,
            0 <= qp <= 51,
            0 <= c.qp <= 51 ==> qp == c.qp,
            qs == s.qs_y,
            bound == RESIDUAL_BOUND as int,
            want == Seq::new(
                16,
                |b: int|
                    sp_luma_block(
                        *c,
                        block_of_16(ints(pred@), b),
                        levels4(blocks@, cbp as int, b),
                        s,
                        longs(w@),
                    ),
            ),
            list.len() == b,
            forall|i: int|
                0 <= i < b ==> (#[trigger] list@[i]).len() == 16 && within(list@[i]@, bound)
                    && longs(list@[i]@) == want[i],
    {
        let pb = block_from_16(pred, b);
        let l = levels_of_4x4(blocks, cbp, b);
        let u = inv_scan_4x4(&l, c.field_scan);
        let coeffs = widen(&u);
        let levels = if s.switching {
            sp_luma_switching(&pb, &coeffs, qs)
        } else {
            proof {
                if cbp == 0 {
                    lemma_uncoded(b as int / 4);
                    assert forall|k: int| 0 <= k < 16 implies #[trigger] longs(
                        coeffs@,
                    )[k] == 0 by {
                        law_scan4_is_bijective(c.field_scan, k);
                        assert(u@[k] == 0);
                    }
                    law_sp_parameter_scales_levels_only(
                        ints(pb@),
                        longs(coeffs@),
                        qp as int,
                        c.qp as int,
                        qs as int,
                        longs(w@),
                    );
                }
            }
            sp_luma_non_switching(&pb, &coeffs, qp, qs, w)
        };
        match inverse_transform_4x4(&levels, qs, w, c.bit_depth) {
            Ok(v) => list.push(v),
            Err(_) => {
                assert(false);
            },
        }
    }
    assert(block_list(list@) =~= want);
    let m = assemble(&list, 16, 16, Ghost(bound));
    let v = clip_residual(&m, c.bit_depth);
    proof {
        reveal(sp_luma_samples);
    }
    write_block(p, c, 0, 0, 16, &v);
}

/// Luma levels of a macroblock of an SP slice that is not a switching one are scaled with a
/// parameter in range.
pub open spec fn sp_levels_ok(mb: Macroblock, qp_y: i32, sp: Option<SpSiCtx>) -> bool {
    sp matches Some(s) ==> s.switching || 0 <= qp_y <= 51 || cbp_luma(mb) == 0
}

/// Samples of an inter macroblock from its prediction.
#[verifier::opaque]
pub open spec fn inter_samples(pv: PicV, g: GridV, a: MbArgs, luma_list: int, pred: PredV) -> (
    PicV,
    Option<ErrV>,
) {
    let mb = a.mb;
    let cat = a.sps.cat();
    let y = a.luma_ctx(g);
    let b = a.chroma_ctx(g, false);
    let r = a.chroma_ctx(g, true);
    let by8 = mb.transform_size_8x8_flag;
    match a.sp {
        Some(s) => if by8 {
            (
                pv,
                Some(
                    ErrV::SpSiUnsupported("SP inter macroblock with transform_size_8x8_flag"@),
                ),
            )
        } else {
            (
                PicV {
                    luma: put_block(
                        pv.luma,
                        y,
                        0,
                        0,
                        16,
                        sp_luma_samples(
                            y,
                            pred.luma,
                            mb.residual_luma@,
                            cbp_luma(mb),
                            s,
                            weights4(3, a.sps, a.pps),
                        ),
                    ),
                    cb: put_block(
                        pv.cb,
                        b,
                        0,
                        0,
                        8,
                        sp_chroma_samples(
                            b,
                            cbp_chroma(mb),
                            mb.residual_chroma_dc_cb@,
                            mb.residual_chroma_ac_cb@,
                            pred.cb,
                            s.switching,
                            chroma_qp_prime(s.qs_y as int, a.sps, a.pps, false),
                            weights4(4, a.sps, a.pps),
                        ),
                    ),
                    cr: put_block(
                        pv.cr,
                        r,
                        0,
                        0,
                        8,
                        sp_chroma_samples(
                            r,
                            cbp_chroma(mb),
                            mb.residual_chroma_dc_cr@,
                            mb.residual_chroma_ac_cr@,
                            pred.cr,
                            s.switching,
                            chroma_qp_prime(s.qs_y as int, a.sps, a.pps, true),
                            weights4(5, a.sps, a.pps),
                        ),
                    ),
                },
                None,
            )
        },
        None => match inter_plane(
            pv.luma,
            y,
            pred.luma,
            by8,
            mb.residual_luma@,
            cbp_luma(mb),
            weights4(luma_list + 3, a.sps, a.pps),
            weights8(2 * luma_list + 1, a.sps, a.pps),
        ) {
            (q, Some(e)) => (PicV { luma: q, ..pv }, Some(e)),
            (q, None) => {
                let qv = PicV { luma: q, ..pv };
                if cat == 0 {
                    (qv, None)
                } else if cat == 3 {
                    cb_then_cr(
                        qv,
                        inter_plane(
                            pv.cb,
                            b,
                            pred.cb,
                            by8,
                            mb.residual_cb_luma_like@,
                            cbp_luma(mb),
                            weights4(4, a.sps, a.pps),
                            weights8(3, a.sps, a.pps),
                        ),
                        inter_plane(
                            pv.cr,
                            r,
                            pred.cr,
                            by8,
                            mb.residual_cr_luma_like@,
                            cbp_luma(mb),
                            weights4(5, a.sps, a.pps),
                            weights8(5, a.sps, a.pps),
                        ),
                    )
                } else {
                    cb_then_cr(
                        qv,
                        inter_chroma_plane(
                            pv.cb,
                            b,
                            pred.cb,
                            mb_h_c(cat),
                            cbp_chroma(mb),
                            mb.residual_chroma_dc_cb@,
                            mb.residual_chroma_ac_cb@,
                            weights4(4, a.sps, a.pps),
                        ),
                        inter_chroma_plane(
                            pv.cr,
                            r,
                            pred.cr,
                            mb_h_c(cat),
                            cbp_chroma(mb),
                            mb.residual_chroma_dc_cr@,
                            mb.residual_chroma_ac_cr@,
                            weights4(5, a.sps, a.pps),
                        ),
                    )
                }
            },
        },
    }
}

/// Grid and prediction after the partitions from `i` on, or the error that ended them.
pub open spec fn partitions_from(
    g: GridV,
    p: PredV,
    ia: InterArgs,
    parts: Seq<InterPartition>,
    i: int,
) -> (GridV, Result<PredV, ErrV>)
    decreases parts.len() - i,
{
    if i >= parts.len() {
        (g, Ok(p))
    } else {
        match partition_step(g, p, ia, parts[i]) {
            (h, Err(e)) => (h, Err(e)),
            (h, Ok(q)) => partitions_from(h, q, ia, parts, i + 1),
        }
    }
}

/// The prediction before any partition: zeros.
pub open spec fn empty_pred(cat: u32) -> PredV {
    PredV {
        luma: Seq::new(256, |i: int| 0),
        cb: Seq::new((mb_w_c(cat) * mb_h_c(cat)) as nat, |i: int| 0),
        cr: Seq::new((mb_w_c(cat) * mb_h_c(cat)) as nat, |i: int| 0),
    }
}

/// The grid at the start of an inter macroblock.
pub open spec fn inter_start(g: GridV, a: MbArgs) -> GridV {
    match g.get(a.addr as int) {
        Some(i) => g.set(
            a.addr as int,
            MbInfoV { slice_id: a.slice_id, mb_field_decoding_flag: a.field, ..i },
        ),
        None => g,
    }
}

/// Parity of a field macroblock of an MBAFF frame.
pub open spec fn mb_parity(a: MbArgs) -> Option<u8> {
    if a.mbaff && a.field {
        Some((a.addr % 2) as u8)
    } else {
        None
    }
}

pub open spec fn inter_args(g: GridV, a: MbArgs, sh: SliceHeader, refs: RefsV, cur: CurPic) -> InterArgs {
    let o = g.origin(a.addr as int, a.mbaff, a.field);
    InterArgs {
        sh,
        sps: a.sps,
        pps: a.pps,
        refs,
        cur,
        addr: a.addr,
        mb_px: o.0 as i32,
        mb_py: o.1 as i32,
        parity: mb_parity(a),
        slice_id: a.slice_id,
    }
}

/// Reconstruction of an inter macroblock.
#[verifier::opaque]
pub open spec fn inter_mb(
    pv: PicV,
    g0: GridV,
    a: MbArgs,
    sh: SliceHeader,
    refs: RefsV,
    cur: CurPic,
    luma_list: int,
) -> MbStep {
    let g = inter_start(g0, a);
    match partitions(
        PartArgs {
            mb: a.mb,
            spatial: sh.direct_spatial_mv_pred_flag,
            infer8: a.sps.direct_8x8_inference_flag,
            refs,
            cur,
            addr: a.addr as int,
            g,
            slice_id: a.slice_id as int,
        },
    ) {
        Err(e) => (pv, g, Some(e)),
        Ok(parts) => match partitions_from(
            g,
            empty_pred(a.sps.cat()),
            inter_args(g, a, sh, refs, cur),
            parts,
            0,
        ) {
            (h, Err(e)) => (pv, h, Some(e)),
            (h, Ok(pred)) => {
                let r = inter_samples(pv, h, a, luma_list, pred);
                (r.0, h, r.1)
            },
        },
    }
}

fn zero_samples(n: usize) -> (r: Vec<i32>)
    ensures
        ints(r@) == Seq::new(n as nat, |i: int| 0int),
        r.len() == n,
        samples_ok(r@),
{
    let r: Vec<i32> = vec![0i32; n];
    assert(ints(r@) =~= Seq::new(n as nat, |i: int| 0int));
    r
}

fn start_inter(grid: &mut MbGrid, addr: u32, field: bool, slice_id: i32, Ghost(a): Ghost<MbArgs>)
    requires
        old(grid).wf(),
        a.addr == addr,
        a.field == field,
        a.slice_id == slice_id,
    ensures
        final(grid)@ == inter_start(old(grid)@, a),
        final(grid).wf(),
        final(grid)@.same_shape(old(grid)@),
{
    if (addr as usize) < grid.info.len() {
        let mut i = grid.info[addr as usize];
        i.slice_id = slice_id;
        i.mb_field_decoding_flag = field;
        grid.put(addr, i);
    }
}

/// Writes the samples of an inter macroblock from its prediction.
fn reconstruct_inter_samples(
    mb: &Macroblock,
    sps: &Sps,
    pps: &Pps,
    y: &PlaneCtx,
    b: &PlaneCtx,
    r: &PlaneCtx,
    luma_plane: usize,
    sp_si: Option<SpSiCtx>,
    pred: &MbPrediction,
    pic: &mut Picture,
    Ghost(a): Ghost<MbArgs>,
    Ghost(g): Ghost<GridV>,
) -> (res: Result<(), ReconstructError>)
    requires
        a.mb == *mb,
        a.sps == *sps,
        a.pps == *pps,
        a.sp == sp_si,
        *y == a.luma_ctx(g),
        *b == a.chroma_ctx(g, false),
        *r == a.chroma_ctx(g, true),
        y.wf(),
        b.wf(),
        r.wf(),
        sps.wf(),
        0 <= b.qp <= 75,
        0 <= r.qp <= 75,
        sps.bit_depth_chroma_minus8 == 0 ==> b.qp <= 39 && r.qp <= 39,
        sp_ok(sp_si, *sps),
        sp_levels_ok(*mb, a.qp_y, sp_si),
        luma_plane <= 2,
        pred.wf(sps.cat()),
    ensures
        (final(pic).planes(), outcome(res)) == inter_samples(
            old(pic).planes(),
            g,
            a,
            luma_plane as int,
            pred@,
        ),
        same_meta(*final(pic), *old(pic)),
{
    proof {
        reveal(inter_samples);
    }
    let cat = sps.chroma_array_type();
    let by8 = mb.transform_size_8x8_flag;
    let cbp = cbp_luma_of(mb);
    let cbp_c = cbp_chroma_of(mb);
    let w_cb = select_scaling_list_4x4(4, sps, pps);
    let w_cr = select_scaling_list_4x4(5, sps, pps);
    if let Some(s) = sp_si {
        if by8 {
            return Err(
                ReconstructError::SpSiUnsupported(
                    "SP inter macroblock with transform_size_8x8_flag".to_string(),
                ),
            );
        }
        let w = select_scaling_list_4x4(3, sps, pps);
        sp_reconstruct_luma(&mut pic.luma, y, &pred.luma, &mb.residual_luma, cbp, s, &w);
        let qs_cb = chroma_qp_prime_of(s.qs_y, sps, pps, false);
        let qs_cr = chroma_qp_prime_of(s.qs_y, sps, pps, true);
        sp_reconstruct_chroma_plane(
            &mut pic.cb,
            b,
            cbp_c,
            &mb.residual_chroma_dc_cb,
            &mb.residual_chroma_ac_cb,
            &pred.cb,
            s.switching,
            qs_cb,
            &w_cb,
        );
        sp_reconstruct_chroma_plane(
            &mut pic.cr,
            r,
            cbp_c,
            &mb.residual_chroma_dc_cr,
            &mb.residual_chroma_ac_cr,
            &pred.cr,
            s.switching,
            qs_cr,
            &w_cr,
        );
        return Ok(());
    }
    let w4 = select_scaling_list_4x4(luma_plane + 3, sps, pps);
    let w8 = select_scaling_list_8x8(2 * luma_plane + 1, sps, pps);
    match reconstruct_inter_plane(
        &mut pic.luma,
        y,
        &pred.luma,
        by8,
        &mb.residual_luma,
        cbp,
        &w4,
        &w8,
    ) {
        Ok(_) => {},
        Err(e) => {
            return Err(e);
        },
    }
    if cat == 0 {
        return Ok(());
    }
    if cat == 3 {
        let w8_cb = select_scaling_list_8x8(3, sps, pps);
        let w8_cr = select_scaling_list_8x8(5, sps, pps);
        match reconstruct_inter_plane(
            &mut pic.cb,
            b,
            &pred.cb,
            by8,
            &mb.residual_cb_luma_like,
            cbp,
            &w_cb,
            &w8_cb,
        ) {
            Ok(_) => {},
            Err(e) => {
                return Err(e);
            },
        }
        return reconstruct_inter_plane(
            &mut pic.cr,
            r,
            &pred.cr,
            by8,
            &mb.residual_cr_luma_like,
            cbp,
            &w_cr,
            &w8_cr,
        );
    }
    let h: usize = if cat == 1 {
        8
    } else {
        16
    };
    match reconstruct_inter_chroma_residual(
        &mut pic.cb,
        b,
        &pred.cb,
        h,
        cbp_c,
        &mb.residual_chroma_dc_cb,
        &mb.residual_chroma_ac_cb,
        &w_cb,
    ) {
        Ok(_) => {},
        Err(e) => {
            return Err(e);
        },
    }
    reconstruct_inter_chroma_residual(
        &mut pic.cr,
        r,
        &pred.cr,
        h,
        cbp_c,
        &mb.residual_chroma_dc_cr,
        &mb.residual_chroma_ac_cr,
        &w_cr,
    )
}

/// Reconstructs one inter macroblock.
#[verifier::loop_isolation(false)]
pub fn reconstruct_mb_inter<R: RefPicProvider>(
    mb: &Macroblock,
    mb_addr: u32,
    qp_y: i32,
    slice_header: &SliceHeader,
    sps: &Sps,
    pps: &Pps,
    ref_pics: &R,
    pic: &mut Picture,
    grid: &mut MbGrid,
    mbaff_frame_flag: bool,
    mb_field_decoding_flag: bool,
    current_slice_id: i32,
    field_scan: bool,
    luma_plane: usize,
    sp_si: Option<SpSiCtx>,
) -> (r: Result<(), ReconstructError>)
    requires
        mb_addr <= MAX_ADDR,
        sps.wf(),
        slice_header.wf(),
        refs_ok(ref_pics.refs()),
        old(grid).wf(),
        sp_ok(sp_si, *sps),
        sp_levels_ok(*mb, qp_y, sp_si),
        luma_plane <= 2,
    ensures
        (final(pic).planes(), final(grid)@, outcome(r)) == inter_mb(
            old(pic).planes(),
            old(grid)@,
            (MbArgs {
                mb: *mb,
                addr: mb_addr,
                qp_y,
                sps: *sps,
                pps: *pps,
                pic_cat: old(pic).chroma_array_type,
                pic_w: old(pic).luma@.w as u32,
                mbaff: mbaff_frame_flag,
                field: mb_field_decoding_flag,
                slice_id: current_slice_id,
                field_scan,
                sp: sp_si,
            }),
            *slice_header,
            ref_pics.refs(),
            cur_pic(*old(pic)),
            luma_plane as int,
        ),
        same_meta(*final(pic), *old(pic)),
        final(grid)@.same_shape(old(grid)@),
        final(grid).wf(),
{
    let ghost a = MbArgs {
        mb: *mb,
        addr: mb_addr,
        qp_y,
        sps: *sps,
        pps: *pps,
        pic_cat: pic.chroma_array_type,
        pic_w: pic.luma@.w as u32,
        mbaff: mbaff_frame_flag,
        field: mb_field_decoding_flag,
        slice_id: current_slice_id,
        field_scan,
        sp: sp_si,
    };
    proof {
        reveal(inter_mb);
    }
    let cat = sps.chroma_array_type();
    let (mb_px, mb_py) = mb_sample_origin(grid, mb_addr, mbaff_frame_flag, mb_field_decoding_flag);
    let writer = MbWriter::new(
        grid,
        mb_addr,
        mb_px,
        mb_py,
        mbaff_frame_flag,
        mb_field_decoding_flag,
        cat,
    );
    let cur = cur_pic_of(pic);
    start_inter(grid, mb_addr, mb_field_decoding_flag, current_slice_id, Ghost(a));
    let ghost g = grid@;
    assert(a.writer(g) == writer);
    let parts = match derive_inter_partitions(
        mb,
        slice_header,
        sps,
        ref_pics,
        &cur,
        mb_addr,
        grid,
        current_slice_id,
    ) {
        Ok(v) => v,
        Err(e) => {
            return Err(e);
        },
    };
    let (cw, ch) = chroma_mb_dims(cat);
    assert(cw * ch <= 256) by (nonlinear_arith)
        requires
            cw <= 16,
            ch <= 16,
    ;
    let n: usize = (cw * ch) as usize;
    let mut pred = MbPrediction {
        luma: zero_samples(256),
        cb: zero_samples(n),
        cr: zero_samples(n),
    };
    assert(pred@ =~= empty_pred(cat));
    let parity: Option<u8> = if mbaff_frame_flag && mb_field_decoding_flag {
        Some((mb_addr % 2) as u8)
    } else {
        None
    };
    let inputs = InterInputs {
        slice_header,
        sps,
        pps,
        ref_pics,
        cur,
        mb_addr,
        mb_px,
        mb_py,
        parity,
        slice_id: current_slice_id,
    };
    let ghost ia = inputs.args();
    assert(ia == inter_args(g, a, *slice_header, ref_pics.refs(), cur));
    let ghost goal = partitions_from(g, pred@, ia, parts@, 0);
    let mut i: usize = 0;
    while i < parts.len()
        invariant
            i <= parts.len(),
            inputs.wf(),
            ia == inputs.args(),
            parts_ok(parts@),
            grid.wf(),
            grid@.same_shape(g),
            pred.wf(inputs.sps.cat()),
            goal == partitions_from(grid@, pred@, ia, parts@, i as int),
            pic.planes() == old(pic).planes(),
            same_meta(*pic, *old(pic)),
            inter_mb(
                old(pic).planes(),
                old(grid)@,
                a,
                *slice_header,
                ref_pics.refs(),
                cur,
                luma_plane as int,
            ) == (match goal {
                (h, Err(e)) => (old(pic).planes(), h, Some(e)),
                (h, Ok(p)) => {
                    let r = inter_samples(old(pic).planes(), h, a, luma_plane as int, p);
                    (r.0, h, r.1)
                },
            }),
        decreases parts.len() - i,
    {
        match process_partition(&inputs, &parts[i], grid, &mut pred) {
            Ok(_) => {},
            Err(e) => {
                return Err(e);
            },
        }
        i += 1;
    }
    assert(a.writer(grid@) == writer);
    let (y, b, r) = plane_contexts(
        mb_addr,
        qp_y,
        sps,
        pps,
        pic,
        &writer,
        current_slice_id,
        field_scan,
        Ghost(a),
        Ghost(grid@),
    );
    reconstruct_inter_samples(
        mb,
        sps,
        pps,
        &y,
        &b,
        &r,
        luma_plane,
        sp_si,
        &pred,
        pic,
        Ghost(a),
        Ghost(grid@),
    )
}

} // verus!
