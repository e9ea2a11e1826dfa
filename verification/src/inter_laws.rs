//! Laws of inter macroblocks.
use crate::direct::CurPic;
use crate::error::ErrV;
use crate::inter_partition::{
    law_whole_sample_partition_copies, partition_pred, partition_step, placed, weighting, PredV,
};
use crate::math::{ints, lemma_p2_mono, lemma_p2_values, p2};
use crate::mb_address::MAX_ADDR;
use crate::mb_grid::GridV;
use crate::mv_deriv::{p_skip_mv, Mv};
use crate::partition_mvs::{neighbours_of, partition_mvs};
use crate::partitions::{partitions, skip_part};
use crate::picture::PicV;
use crate::plane::PlaneV;
use crate::recon_blocks::{law_block_is_written, mosaic, mosaic_block, put_block, PlaneCtx};
use crate::recon_mb_inter::{
    empty_pred, inter_args, inter_block4, inter_block8, inter_mb, inter_plane, inter_residual,
    inter_samples, inter_start, mosaic8, partitions_from,
};
use crate::recon_mb_intra::MbArgs;
use crate::ref_store::RefsV;
use crate::residual::{law_no_residual_keeps_prediction, lemma_uncoded, levels4, levels8};
use crate::scan::{law_scan4_is_bijective, law_scan8_is_bijective, unscan4, unscan8};
use crate::slice_header::SliceHeader;
use crate::transform::{law_zero_levels_have_no_residual, qp_ok, weights4, weights8};
use vstd::prelude::*;

verus! {

/// A skipped macroblock of a P slice without a first reference picture is reported, and leaves the
/// picture as it was.
pub proof fn law_skip_without_reference_fails(
    pv: PicV,
    g: GridV,
    a: MbArgs,
    sh: SliceHeader,
    refs: RefsV,
    cur: CurPic,
    luma_list: int,
)
    requires
        a.mb.mb_type is PSkip,
        (refs.pic)(0, 0) is None,
    ensures
        ({
            let r = inter_mb(pv, g, a, sh, refs, cur, luma_list);
            r.0 == pv && r.2 == Some(ErrV::MissingRefPic { list: 0, idx: 0 })
        }),
{
    reveal(inter_mb);
    reveal(partitions);
    reveal(partition_step);
    reveal_with_fuel(partitions_from, 2);
}

proof fn lemma_no_residual(
    c: PlaneCtx,
    by8: bool,
    blocks: Seq<[i32; 16]>,
    w4: Seq<int>,
    w8: Seq<int>,
)
    requires
        c.bypass || 0 <= c.qp,
    ensures
        inter_residual(c, by8, blocks, 0, w4, w8) == Seq::new(256, |i: int| 0int),
{
    reveal(inter_residual);
    let z4 = Seq::new(16, |i: int| 0int);
    let z8 = Seq::new(64, |i: int| 0int);
    if by8 {
        let parts = Seq::new(4, |b: int| inter_block8(c, levels8(blocks, 0, b), w8));
        assert forall|b: int| 0 <= b < 4 implies #[trigger] parts[b] == z8 by {
            lemma_uncoded(b);
            let u = unscan8(levels8(blocks, 0, b), c.field_scan);
            assert forall|p: int| 0 <= p < 64 implies #[trigger] u[p] == 0 by {
                law_scan8_is_bijective(c.field_scan, p);
            }
            assert(ints(u) =~= z8);
            if !c.bypass {
                law_zero_levels_have_no_residual(c.qp as int, w4, w8);
            }
        }
        reveal(mosaic8);
        assert(mosaic8(parts) =~= Seq::new(256, |i: int| 0int));
    } else {
        let parts = Seq::new(16, |b: int| inter_block4(c, levels4(blocks, 0, b), w4));
        assert forall|b: int| 0 <= b < 16 implies #[trigger] parts[b] == z4 by {
            lemma_uncoded(b / 4);
            let u = unscan4(levels4(blocks, 0, b), c.field_scan);
            assert forall|p: int| 0 <= p < 16 implies #[trigger] u[p] == 0 by {
                law_scan4_is_bijective(c.field_scan, p);
            }
            assert(ints(u) =~= z4);
            if !c.bypass {
                law_zero_levels_have_no_residual(c.qp as int, w4, w8);
            }
        }
        reveal(mosaic);
        assert forall|k: int| 0 <= k < 256 implies #[trigger] mosaic(parts, 16, 256)[k] == 0 by {
            let (x, y) = (k % 16, k / 16);
            let b = mosaic_block(16, k);
            assert(0 <= x / 4 < 4 && 0 <= y / 4 < 4);
            assert(0 <= b < 16);
            assert(parts[b] == z4);
        }
        assert(mosaic(parts, 16, 256) =~= Seq::new(256, |i: int| 0int));
    }
}

/// Without coded coefficients a plane of an inter macroblock is its prediction.
pub proof fn law_uncoded_plane_is_prediction(
    p: PlaneV,
    c: PlaneCtx,
    pred: Seq<int>,
    by8: bool,
    blocks: Seq<[i32; 16]>,
    w4: Seq<int>,
    w8: Seq<int>,
)
    requires
        pred.len() == 256,
        forall|i: int| 0 <= i < 256 ==> 0 <= #[trigger] pred[i] < p2(c.bit_depth as int),
        c.bypass || qp_ok(c.qp as int, c.bit_depth),
    ensures
        inter_plane(p, c, pred, by8, blocks, 0, w4, w8) == (
            put_block(p, c, 0, 0, 16, pred),
            None::<ErrV>,
        ),
{
    lemma_no_residual(c, by8, blocks, w4, w8);
    law_no_residual_keeps_prediction(pred, c.bit_depth);
    assert(Seq::new(256, |i: int| 0int) =~= Seq::new(pred.len(), |i: int| 0int));
}

/// A skipped macroblock of a P slice that is at rest and not weighted copies the luma samples of
/// its place in the first reference picture.
pub proof fn law_skip_at_rest_copies(
    pv: PicV,
    g: GridV,
    a: MbArgs,
    sh: SliceHeader,
    refs: RefsV,
    cur: CurPic,
    luma_list: int,
    x: int,
    y: int,
)
    requires
        a.mb.mb_type is PSkip,
        a.mb.coded_block_pattern == 0,
        a.sp is None,
        !a.mbaff && !a.field,
        a.addr <= MAX_ADDR,
        a.sps.wf(),
        g.w >= 1,
        weighting(inter_args(g, a, sh, refs, cur), skip_part(), 0) is Plain,
        p_skip_mv(
            neighbours_of(inter_start(g, a), a.addr as int, 0, 0, 16, 0, a.slice_id as int),
        ) == Mv::zero(),
        (refs.pic)(0, 0) is Some,
        forall|u: int, v: int|
            0 <= #[trigger] (refs.pic)(0, 0)->0.luma@.get(u, v) < p2(
                8 + a.sps.bit_depth_luma_minus8,
            ),
        inter_mb(pv, g, a, sh, refs, cur, luma_list).2 is None,
        0 <= x < 16,
        0 <= y < 16,
    ensures
        ({
            let o = g.origin(a.addr as int, false, false);
            let r = inter_mb(pv, g, a, sh, refs, cur, luma_list).0;
            pv.luma.has(o.0 + x, o.1 + y) ==> (r.luma.at)(o.0 + x, o.1 + y) == (refs.pic)(
                0,
                0,
            )->0.luma@.get(o.0 + x, o.1 + y)
        }),
{
    reveal(inter_mb);
    reveal(partitions);
    reveal(partition_step);
    reveal(partition_mvs);
    reveal(inter_samples);
    reveal_with_fuel(partitions_from, 2);
    let h = inter_start(g, a);
    let part = skip_part();
    let ia = inter_args(h, a, sh, refs, cur);
    assert(ia == inter_args(g, a, sh, refs, cur));
    let mvs = partition_mvs(part, h, a.addr as int, a.slice_id as int);
    assert(mvs.0 == Mv::zero());
    let bd = (8 + a.sps.bit_depth_luma_minus8) as u32;
    let r = (refs.pic)(0, 0)->0;
    let (g2, q) = match partition_step(h, empty_pred(a.sps.cat()), ia, part) {
        (k, Ok(q)) => (k, q),
        (k, Err(_)) => (k, empty_pred(a.sps.cat())),
    };
    assert(partition_pred(ia, part, mvs, empty_pred(a.sps.cat())) == Ok::<PredV, ErrV>(q));
    let o = g.origin(a.addr as int, false, false);
    crate::mb_address::lemma_div_mod_bound(a.addr as int, g.w);
    assert(ia.mb_px == o.0 && ia.mb_py == o.1);
    assert forall|i: int| 0 <= i < 256 implies #[trigger] q.luma[i] == r.luma@.get(
        o.0 + i % 16,
        o.1 + i / 16,
    ) by {
        law_whole_sample_partition_copies(
            ia,
            part,
            mvs,
            empty_pred(a.sps.cat()),
            q,
            0,
            i % 16,
            i / 16,
        );
    }
    reveal(placed);
    assert(q.luma.len() == 256);
    let c = a.luma_ctx(g2);
    law_uncoded_plane_is_prediction(
        pv.luma,
        c,
        q.luma,
        a.mb.transform_size_8x8_flag,
        a.mb.residual_luma@,
        weights4(luma_list + 3, a.sps, a.pps),
        weights8(2 * luma_list + 1, a.sps, a.pps),
    );
    assert(c.wx == o.0 && c.wy == o.1 && c.step == 1);
    assert(inter_mb(pv, g, a, sh, refs, cur, luma_list).0.luma == put_block(
        pv.luma,
        c,
        0,
        0,
        16,
        q.luma,
    ));
    law_block_is_written(pv.luma, c, 0, 0, 16, q.luma, o.0 + x, o.1 + y);
    lemma_p2_mono(bd as int, 16);
    lemma_p2_values();
    assert(q.luma[y * 16 + x] == r.luma@.get(o.0 + x, o.1 + y));
}

} // verus!
