//! Reconstruction of intra macroblocks.
use crate::error::{outcome, text_with_number, ErrV, ReconstructError};
use crate::intra_modes::{derive_intra_4x4_pred_mode, derive_intra_8x8_pred_mode, mode4, mode8};
use crate::intra_pred::{
    error_16x16, error_chroma, predict_16x16, predict_16x16_spec, predict_chroma,
    predict_chroma_spec, require_intra_16x16_mode, require_intra_chroma_mode, samples_ok,
    Intra16x16Mode, IntraChromaMode, IntraNxNMode,
};
use crate::macroblock_layer::{Macroblock, MbPred};
use crate::math::{ints, longs, within};
use crate::mb_grid::{GridV, MbGrid, MbInfoV};
use crate::neighbours::{gather, gather_samples};
use crate::plane::{Plane, PlaneV};
use crate::recon_blocks::{
    assemble, block4, block8, block_list, mosaic, put_block, reconstruct_block4, reconstruct_block8,
    transform_error, write_block, PlaneCtx, PlaneStep,
};
use crate::residual::{
    add_residual, block_levels, block_or_zeros, cbp_luma, cbp_luma_of, clip_residual, clipped,
    levels4, levels8, levels_of_4x4, levels_of_8x8, reconstructed, zeros,
};
use crate::scan::{inv_scan_4x4, inv_scan_4x4_ac, unscan4, unscan4_ac, widen};
use crate::sp_transform::{sp_chroma, sp_chroma_block, sp_chroma_dc_scaled};
use crate::transform::{
    chroma_dc_420, chroma_dc_422, chroma_dc_422_matrix, dc422_matrix, dpcm, intra_bypass_dpcm,
    inverse_hadamard_chroma_dc_420, inverse_hadamard_chroma_dc_422, inverse_hadamard_luma_dc_16x16,
    inverse_transform_4x4_dc_preserved, luma_dc, qp_ok, residual4x4_ac, weights_ok, DC_BOUND,
    LEVEL_BOUND, RESIDUAL_BOUND,
};
use vstd::prelude::*;

verus! {

impl GridV {
    /// The grid with the mode of 4x4 block `blk` of macroblock `addr` recorded.
    pub open spec fn with_mode4(self, addr: int, blk: int, m: u8) -> GridV {
        match self.get(addr) {
            Some(i) => self.set(
                addr,
                MbInfoV { intra_4x4_pred_modes: i.intra_4x4_pred_modes.update(blk, m), ..i },
            ),
            None => self,
        }
    }

    /// The grid with the mode of 8x8 block `blk` of macroblock `addr` recorded.
    pub open spec fn with_mode8(self, addr: int, blk: int, m: u8) -> GridV {
        match self.get(addr) {
            Some(i) => self.set(
                addr,
                MbInfoV { intra_8x8_pred_modes: i.intra_8x8_pred_modes.update(blk, m), ..i },
            ),
            None => self,
        }
    }
}

fn record_mode4(grid: &mut MbGrid, addr: u32, blk: usize, m: u8)
    requires
        old(grid).wf(),
        blk < 16,
    ensures
        final(grid)@ == old(grid)@.with_mode4(addr as int, blk as int, m),
        final(grid).wf(),
{
    if (addr as usize) < grid.info.len() {
        let mut i = grid.info[addr as usize];
        let ghost before = i@;
        i.intra_4x4_pred_modes[blk] = m;
        assert(i@ =~= (MbInfoV {
            intra_4x4_pred_modes: before.intra_4x4_pred_modes.update(blk as int, m),
            ..before
        }));
        grid.put(addr, i);
    }
}

fn record_mode8(grid: &mut MbGrid, addr: u32, blk: usize, m: u8)
    requires
        old(grid).wf(),
        blk < 4,
    ensures
        final(grid)@ == old(grid)@.with_mode8(addr as int, blk as int, m),
        final(grid).wf(),
{
    if (addr as usize) < grid.info.len() {
        let mut i = grid.info[addr as usize];
        let ghost before = i@;
        i.intra_8x8_pred_modes[blk] = m;
        assert(i@ =~= (MbInfoV {
            intra_8x8_pred_modes: before.intra_8x8_pred_modes.update(blk as int, m),
            ..before
        }));
        grid.put(addr, i);
    }
}

/// Plane and grid after part of a macroblock, and an error if one ended the work.
pub type NxnStep = (PlaneV, GridV, Option<ErrV>);

/// Reconstruction of the 4x4 luma blocks from `blk` on.
pub open spec fn luma4_from(
    p: PlaneV,
    g: GridV,
    c: PlaneCtx,
    mb: Macroblock,
    pred: MbPred,
    w: Seq<int>,
    si_qs: Option<i64>,
    blk: int,
) -> NxnStep
    decreases 16 - blk,
{
    if blk >= 16 {
        (p, g, None)
    } else {
        let mode = IntraNxNMode::of(
            mode4(g, c.nb.addr as int, blk, pred, c.nb.cip, c.nb.slice_id as int),
        );
        match block4(
            p,
            g,
            c,
            blk,
            mode,
            levels4(mb.residual_luma@, cbp_luma(mb), blk),
            w,
            si_qs,
        ) {
            (q, Some(e)) => (q, g, Some(e)),
            (q, None) => luma4_from(
                q,
                g.with_mode4(c.nb.addr as int, blk, mode.index()),
                c,
                mb,
                pred,
                w,
                si_qs,
                blk + 1,
            ),
        }
    }
}

/// Reconstruction of the 8x8 luma blocks from `blk` on.
pub open spec fn luma8_from(
    p: PlaneV,
    g: GridV,
    c: PlaneCtx,
    mb: Macroblock,
    pred: MbPred,
    w: Seq<int>,
    blk: int,
) -> NxnStep
    decreases 4 - blk,
{
    if blk >= 4 {
        (p, g, None)
    } else {
        let mode = IntraNxNMode::of(
            mode8(g, c.nb.addr as int, blk, pred, c.nb.cip, c.nb.slice_id as int),
        );
        match block8(
            p,
            g,
            c,
            blk,
            mode,
            levels8(mb.residual_luma@, cbp_luma(mb), blk),
            w,
        ) {
            (q, Some(e)) => (q, g, Some(e)),
            (q, None) => luma8_from(
                q,
                g.with_mode8(c.nb.addr as int, blk, mode.index()),
                c,
                mb,
                pred,
                w,
                blk + 1,
            ),
        }
    }
}

/// The record of a macroblock at the start of its block-wise prediction.
pub open spec fn nxn_start(i: MbInfoV, mb: Macroblock, field: bool, slice_id: i32) -> MbInfoV {
    MbInfoV {
        available: true,
        is_intra: true,
        is_i_pcm: false,
        is_intra_nxn: true,
        mb_type_raw: mb.mb_type_raw,
        transform_size_8x8_flag: mb.transform_size_8x8_flag,
        mb_field_decoding_flag: field,
        intra_4x4_pred_modes: Seq::new(16, |k: int| 0u8),
        intra_8x8_pred_modes: Seq::new(4, |k: int| 0u8),
        slice_id,
        ..i
    }
}

impl GridV {
    pub open spec fn with_nxn_start(self, addr: int, mb: Macroblock, field: bool, slice_id: i32) -> GridV {
        match self.get(addr) {
            Some(i) => self.set(addr, nxn_start(i, mb, field, slice_id)),
            None => self,
        }
    }
}

/// Reconstruction of the luma samples of a macroblock with 4x4 or 8x8 prediction.
#[verifier::opaque]
pub open spec fn luma_nxn(
    p: PlaneV,
    g: GridV,
    c: PlaneCtx,
    mb: Macroblock,
    w4: Seq<int>,
    w8: Seq<int>,
    si_qs: Option<i64>,
) -> NxnStep {
    match mb.mb_pred {
        None => (p, g, Some(ErrV::UnsupportedMbType("I_NxN without mb_pred"@))),
        Some(pred) => {
            let s = g.with_nxn_start(c.nb.addr as int, mb, c.step == 2, c.nb.slice_id);
            if !mb.transform_size_8x8_flag {
                luma4_from(p, s, c, mb, pred, w4, si_qs, 0)
            } else if si_qs is Some {
                (p, s, Some(ErrV::SpSiUnsupported("SI macroblock with transform_size_8x8_flag"@)))
            } else {
                luma8_from(p, s, c, mb, pred, w8, 0)
            }
        },
    }
}

fn start_nxn(grid: &mut MbGrid, addr: u32, mb: &Macroblock, field: bool, slice_id: i32)
    requires
        old(grid).wf(),
    ensures
        final(grid)@ == old(grid)@.with_nxn_start(addr as int, *mb, field, slice_id),
        final(grid).wf(),
{
    if (addr as usize) < grid.info.len() {
        let mut i = grid.info[addr as usize];
        let ghost before = i@;
        i.available = true;
        i.is_intra = true;
        i.is_i_pcm = false;
        i.is_intra_nxn = true;
        i.mb_type_raw = mb.mb_type_raw;
        i.transform_size_8x8_flag = mb.transform_size_8x8_flag;
        i.mb_field_decoding_flag = field;
        i.intra_4x4_pred_modes = [0; 16];
        i.intra_8x8_pred_modes = [0; 4];
        i.slice_id = slice_id;
        assert(i@ =~= nxn_start(before, *mb, field, slice_id));
        grid.put(addr, i);
    }
}

/// Reconstructs the luma samples of a macroblock with 4x4 or 8x8 prediction, and records its
/// modes.
///
/// With `si_qs` the prediction is requantised in the transform domain with that parameter.
pub fn reconstruct_intra_nxn(
    p: &mut Plane,
    grid: &mut MbGrid,
    c: &PlaneCtx,
    mb: &Macroblock,
    w4: &Vec<i64>,
    w8: &Vec<i64>,
    si_qs: Option<i64>,
) -> (r: Result<(), ReconstructError>)
    requires
        c.wf(),
        old(grid).wf(),
        weights_ok(w4@, 16),
        weights_ok(w8@, 64),
        si_qs matches Some(qs) ==> 0 <= qs <= 51,
        mb.mb_pred matches Some(pred) ==> pred.wf(),
    ensures
        (final(p)@, final(grid)@, outcome(r)) == luma_nxn(
            old(p)@,
            old(grid)@,
            *c,
            *mb,
            longs(w4@),
            longs(w8@),
            si_qs,
        ),
        final(grid)@.same_shape(old(grid)@),
        final(grid).wf(),
        final(p)@.same_size(old(p)@),
{
    proof {
        reveal(luma_nxn);
    }
    let pred = match &mb.mb_pred {
        Some(pred) => pred,
        None => {
            return Err(ReconstructError::UnsupportedMbType("I_NxN without mb_pred".to_string()));
        },
    };
    let cbp = cbp_luma_of(mb);
    start_nxn(grid, c.nb.addr, mb, c.step == 2, c.nb.slice_id);
    if !mb.transform_size_8x8_flag {
        let ghost goal = luma4_from(p@, grid@, *c, *mb, *pred, longs(w4@), si_qs, 0);
        let mut blk: usize = 0;
        while blk < 16
            invariant
                p@.same_size(old(p)@),
                blk <= 16,
                c.wf(),
                grid.wf(),
                grid@.same_shape(old(grid)@),
                pred.wf(),
                cbp == cbp_luma(*mb),
                weights_ok(w4@, 16),
                si_qs matches Some(qs) ==> 0 <= qs <= 51,
                goal == luma4_from(p@, grid@, *c, *mb, *pred, longs(w4@), si_qs, blk as int),
                goal == luma_nxn(
                    old(p)@,
                    old(grid)@,
                    *c,
                    *mb,
                    longs(w4@),
                    longs(w8@),
                    si_qs,
                ),
            decreases 16 - blk,
        {
            let m = derive_intra_4x4_pred_mode(grid, c.nb.addr, blk, pred, c.nb.cip, c.nb.slice_id);
            let mode = IntraNxNMode::from_index(m);
            let levels = levels_of_4x4(&mb.residual_luma, cbp, blk);
            match reconstruct_block4(p, grid, c, blk, mode, &levels, w4, si_qs) {
                Ok(_) => {},
                Err(e) => {
                    return Err(e);
                },
            }
            record_mode4(grid, c.nb.addr, blk, mode.as_index());
            blk += 1;
        }
        return Ok(());
    }
    if si_qs.is_some() {
        return Err(
            ReconstructError::SpSiUnsupported(
                "SI macroblock with transform_size_8x8_flag".to_string(),
            ),
        );
    }
    let ghost goal = luma8_from(p@, grid@, *c, *mb, *pred, longs(w8@), 0);
    let mut blk: usize = 0;
    while blk < 4
        invariant
            p@.same_size(old(p)@),
            blk <= 4,
            c.wf(),
            grid.wf(),
            grid@.same_shape(old(grid)@),
            pred.wf(),
            cbp == cbp_luma(*mb),
            weights_ok(w8@, 64),
            goal == luma8_from(p@, grid@, *c, *mb, *pred, longs(w8@), blk as int),
            goal == luma_nxn(
                old(p)@,
                old(grid)@,
                *c,
                *mb,
                longs(w4@),
                longs(w8@),
                si_qs,
            ),
        decreases 4 - blk,
    {
        let m = derive_intra_8x8_pred_mode(grid, c.nb.addr, blk, pred, c.nb.cip, c.nb.slice_id);
        let mode = IntraNxNMode::from_index(m);
        let levels = levels_of_8x8(&mb.residual_luma, cbp, blk);
        match reconstruct_block8(p, grid, c, blk, mode, &levels, w8) {
            Ok(_) => {},
            Err(e) => {
                return Err(e);
            },
        }
        record_mode8(grid, c.nb.addr, blk, mode.as_index());
        blk += 1;
    }
    Ok(())
}

/// Reconstruction of the 4x4 blocks of a 4:4:4 chroma plane from `blk` on.
pub open spec fn chroma4_from(
    p: PlaneV,
    g: GridV,
    c: PlaneCtx,
    blocks: Seq<[i32; 16]>,
    cbp: int,
    modes: Seq<u8>,
    w: Seq<int>,
    blk: int,
) -> PlaneStep
    decreases 16 - blk,
{
    if blk >= 16 {
        (p, None)
    } else {
        match block4(
            p,
            g,
            c,
            blk,
            IntraNxNMode::of(modes[blk] as int),
            levels4(blocks, cbp, blk),
            w,
            None,
        ) {
            (q, Some(e)) => (q, Some(e)),
            (q, None) => chroma4_from(q, g, c, blocks, cbp, modes, w, blk + 1),
        }
    }
}

/// Reconstruction of the 8x8 blocks of a 4:4:4 chroma plane from `blk` on.
pub open spec fn chroma8_from(
    p: PlaneV,
    g: GridV,
    c: PlaneCtx,
    blocks: Seq<[i32; 16]>,
    cbp: int,
    modes: Seq<u8>,
    w: Seq<int>,
    blk: int,
) -> PlaneStep
    decreases 4 - blk,
{
    if blk >= 4 {
        (p, None)
    } else {
        match block8(
            p,
            g,
            c,
            blk,
            IntraNxNMode::of(modes[blk] as int),
            levels8(blocks, cbp, blk),
            w,
        ) {
            (q, Some(e)) => (q, Some(e)),
            (q, None) => chroma8_from(q, g, c, blocks, cbp, modes, w, blk + 1),
        }
    }
}

/// Modes of the 4x4 blocks of macroblock `addr`.
pub open spec fn modes4_of(g: GridV, addr: int) -> Seq<u8> {
    match g.get(addr) {
        Some(i) => i.intra_4x4_pred_modes,
        None => Seq::new(16, |k: int| 0u8),
    }
}

/// Modes of the 8x8 blocks of macroblock `addr`.
pub open spec fn modes8_of(g: GridV, addr: int) -> Seq<u8> {
    match g.get(addr) {
        Some(i) => i.intra_8x8_pred_modes,
        None => Seq::new(4, |k: int| 0u8),
    }
}

/// Reconstruction of one chroma plane of a 4:4:4 macroblock with 4x4 or 8x8 prediction: as luma,
/// with the modes of the luma blocks.
#[verifier::opaque]
pub open spec fn chroma_nxn_444(
    p: PlaneV,
    g: GridV,
    c: PlaneCtx,
    mb: Macroblock,
    blocks: Seq<[i32; 16]>,
    w4: Seq<int>,
    w8: Seq<int>,
) -> PlaneStep {
    if mb.transform_size_8x8_flag {
        chroma8_from(p, g, c, blocks, cbp_luma(mb), modes8_of(g, c.nb.addr as int), w8, 0)
    } else {
        chroma4_from(p, g, c, blocks, cbp_luma(mb), modes4_of(g, c.nb.addr as int), w4, 0)
    }
}

/// Reconstructs one chroma plane of a 4:4:4 macroblock with 4x4 or 8x8 prediction.
pub fn reconstruct_chroma_intra_nxn_444(
    p: &mut Plane,
    grid: &MbGrid,
    c: &PlaneCtx,
    mb: &Macroblock,
    blocks: &Vec<[i32; 16]>,
    w4: &Vec<i64>,
    w8: &Vec<i64>,
) -> (r: Result<(), ReconstructError>)
    requires
        c.wf(),
        grid.wf(),
        weights_ok(w4@, 16),
        weights_ok(w8@, 64),
    ensures
        (final(p)@, outcome(r)) == chroma_nxn_444(
            old(p)@,
            grid@,
            *c,
            *mb,
            blocks@,
            longs(w4@),
            longs(w8@),
        ),
        final(p)@.same_size(old(p)@),
{
    proof {
        reveal(chroma_nxn_444);
    }
    let cbp = cbp_luma_of(mb);
    let (modes4, modes8): ([u8; 16], [u8; 4]) = match grid.get(c.nb.addr) {
        Some(i) => (i.intra_4x4_pred_modes, i.intra_8x8_pred_modes),
        None => ([0u8; 16], [0u8; 4]),
    };
    assert(modes4@ =~= modes4_of(grid@, c.nb.addr as int));
    assert(modes8@ =~= modes8_of(grid@, c.nb.addr as int));
    if mb.transform_size_8x8_flag {
        let ghost goal = chroma8_from(
            p@,
            grid@,
            *c,
            blocks@,
            cbp as int,
            modes8@,
            longs(w8@),
            0,
        );
        let mut blk: usize = 0;
        while blk < 4
            invariant
                p@.same_size(old(p)@),
                blk <= 4,
                c.wf(),
                grid.wf(),
                weights_ok(w8@, 64),
                goal == chroma8_from(
                    p@,
                    grid@,
                    *c,
                    blocks@,
                    cbp as int,
                    modes8@,
                    longs(w8@),
                    blk as int,
                ),
                goal == chroma_nxn_444(
                    old(p)@,
                    grid@,
                    *c,
                    *mb,
                    blocks@,
                    longs(w4@),
                    longs(w8@),
                ),
            decreases 4 - blk,
        {
            let mode = IntraNxNMode::from_index(modes8[blk]);
            let levels = levels_of_8x8(blocks, cbp, blk);
            match reconstruct_block8(p, grid, c, blk, mode, &levels, w8) {
                Ok(_) => {},
                Err(e) => {
                    return Err(e);
                },
            }
            blk += 1;
        }
    } else {
        let ghost goal = chroma4_from(
            p@,
            grid@,
            *c,
            blocks@,
            cbp as int,
            modes4@,
            longs(w4@),
            0,
        );
        let mut blk: usize = 0;
        while blk < 16
            invariant
                p@.same_size(old(p)@),
                blk <= 16,
                c.wf(),
                grid.wf(),
                weights_ok(w4@, 16),
                goal == chroma4_from(
                    p@,
                    grid@,
                    *c,
                    blocks@,
                    cbp as int,
                    modes4@,
                    longs(w4@),
                    blk as int,
                ),
                goal == chroma_nxn_444(
                    old(p)@,
                    grid@,
                    *c,
                    *mb,
                    blocks@,
                    longs(w4@),
                    longs(w8@),
                ),
            decreases 16 - blk,
        {
            let mode = IntraNxNMode::from_index(modes4[blk]);
            let levels = levels_of_4x4(blocks, cbp, blk);
            match reconstruct_block4(p, grid, c, blk, mode, &levels, w4, None) {
                Ok(_) => {},
                Err(e) => {
                    return Err(e);
                },
            }
            blk += 1;
        }
    }
    Ok(())
}

/// DC coefficients of the blocks of a 16x16 plane, row by row of blocks.
pub open spec fn dc_of_16x16(c: PlaneCtx, dc: Seq<i32>, w: Seq<int>) -> Seq<int> {
    let m = ints(unscan4(dc, c.field_scan));
    if c.bypass {
        m
    } else {
        luma_dc(m, c.qp as int, w)
    }
}

/// AC levels of a block; zeros where none are coded.
pub open spec fn ac_block(c: PlaneCtx, acs: Seq<[i32; 16]>, coded: bool, blk: int) -> Seq<int> {
    if coded {
        ints(unscan4_ac(block_levels(acs, blk), c.field_scan))
    } else {
        ints(zeros(16))
    }
}

/// Residual of a block with a separately coded DC coefficient.
pub open spec fn dc_ac_residual(c: PlaneCtx, dc: int, ac: Seq<int>, w: Seq<int>) -> Seq<int> {
    if c.bypass {
        ac.update(0, dc)
    } else {
        residual4x4_ac(ac.update(0, dc), c.qp as int, w)
    }
}

/// Residual of the blocks of a 16x16 plane.
pub open spec fn blocks_of_16x16(
    c: PlaneCtx,
    dc: Seq<i32>,
    acs: Seq<[i32; 16]>,
    coded: bool,
    w: Seq<int>,
) -> Seq<Seq<int>> {
    Seq::new(
        16,
        |b: int|
            dc_ac_residual(
                c,
                dc_of_16x16(
                    c,
                    dc,
                    w,
                )[crate::geometry::LUMA_4X4_XY[b].1 as int / 4 * 4
                    + crate::geometry::LUMA_4X4_XY[b].0 as int / 4],
                ac_block(c, acs, coded, b),
                w,
            ),
    )
}

/// Residual of a 16x16 plane.
#[verifier::opaque]
pub open spec fn residual_16x16(
    c: PlaneCtx,
    mode_idx: u8,
    dc: Seq<i32>,
    acs: Seq<[i32; 16]>,
    coded: bool,
    w: Seq<int>,
) -> Seq<int> {
    let m = mosaic(blocks_of_16x16(c, dc, acs, coded, w), 16, 256);
    if c.bypass && mode_idx <= 1 {
        dpcm(m, 16, mode_idx == 1)
    } else {
        m
    }
}

/// Reconstruction of a plane with 16x16 prediction; `text` opens the message about an unknown
/// mode.
#[verifier::opaque]
pub open spec fn plane_16x16(
    p: PlaneV,
    g: GridV,
    c: PlaneCtx,
    mode_idx: u8,
    text: Seq<char>,
    dc: Seq<i32>,
    acs: Seq<[i32; 16]>,
    coded: bool,
    w: Seq<int>,
) -> PlaneStep {
    let s = gather(p, g, c.nb, c.gx as int, c.gy as int, 0, 0, 16, 16, false, 1, 1);
    match Intra16x16Mode::of(mode_idx as int) {
        None => (
            p,
            Some(
                ErrV::UnsupportedMbType(text + crate::error::decimal(mode_idx as int) + ""@),
            ),
        ),
        Some(mode) => match error_16x16(mode, s.av) {
            Some(e) => (p, Some(e)),
            None => if !c.bypass && !qp_ok(c.qp as int, c.bit_depth) {
                (p, Some(transform_error(c.qp as int)))
            } else {
                (
                    put_block(
                        p,
                        c,
                        0,
                        0,
                        16,
                        reconstructed(
                            predict_16x16_spec(mode, s, c.bit_depth),
                            residual_16x16(c, mode_idx, dc, acs, coded, w),
                            c.bit_depth,
                        ),
                    ),
                    None,
                )
            },
        },
    }
}

pub open spec fn longs_result(r: Result<Vec<i64>, ReconstructError>) -> Result<Seq<int>, ErrV> {
    match r {
        Ok(v) => Ok(longs(v@)),
        Err(e) => Err(e@),
    }
}

/// A residual, or the error of a parameter out of range.
pub open spec fn residual_or_error(c: PlaneCtx, v: Seq<int>) -> Result<Seq<int>, ErrV> {
    if !c.bypass && !qp_ok(c.qp as int, c.bit_depth) {
        Err(transform_error(c.qp as int))
    } else {
        Ok(v)
    }
}

pub fn ac_of(c: &PlaneCtx, acs: &Vec<[i32; 16]>, coded: bool, blk: usize) -> (r: Vec<i64>)
    ensures
        longs(r@) == ac_block(*c, acs@, coded, blk as int),
        r.len() == 16,
        within(r@, LEVEL_BOUND as int),
{
    if coded {
        let b = block_or_zeros(acs, blk);
        let u = inv_scan_4x4_ac(&b, c.field_scan);
        widen(&u)
    } else {
        let z = [0i32; 16];
        assert(z@ =~= zeros(16));
        widen(&z)
    }
}

/// Residual of a block with a separately coded DC coefficient.
fn dc_ac_residual_of(c: &PlaneCtx, dc: i64, ac: Vec<i64>, w: &Vec<i64>) -> (r: Result<
    Vec<i64>,
    ReconstructError,
>)
    requires
        c.wf(),
        ac.len() == 16,
        within(ac@, LEVEL_BOUND as int),
        -DC_BOUND <= dc <= DC_BOUND,
        c.bypass ==> -LEVEL_BOUND <= dc <= LEVEL_BOUND,
        weights_ok(w@, 16),
    ensures
        longs_result(r) == residual_or_error(
            *c,
            dc_ac_residual(*c, dc as int, longs(ac@), longs(w@)),
        ),
        r matches Ok(v) ==> v.len() == 16 && within(v@, RESIDUAL_BOUND as int) && (c.bypass
            ==> within(v@, LEVEL_BOUND as int)),
{
    let mut v = ac;
    let ghost before = v@;
    v[0] = dc;
    assert(longs(v@) =~= longs(before).update(0, dc as int));
    if c.bypass {
        return Ok(v);
    }
    match inverse_transform_4x4_dc_preserved(&v, c.qp, w, c.bit_depth) {
        Ok(v) => Ok(v),
        Err(e) => Err(ReconstructError::Transform(e)),
    }
}

fn dc_of_plane(c: &PlaneCtx, dc: &[i32; 16], w: &Vec<i64>) -> (r: Result<
    Vec<i64>,
    ReconstructError,
>)
    requires
        c.wf(),
        weights_ok(w@, 16),
    ensures
        longs_result(r) == residual_or_error(*c, dc_of_16x16(*c, dc@, longs(w@))),
        r matches Ok(v) ==> v.len() == 16 && within(v@, DC_BOUND as int) && (c.bypass ==> within(
            v@,
            LEVEL_BOUND as int,
        )),
{
    let u = inv_scan_4x4(dc, c.field_scan);
    let m = widen(&u);
    if c.bypass {
        return Ok(m);
    }
    match inverse_hadamard_luma_dc_16x16(&m, c.qp, w, c.bit_depth) {
        Ok(v) => Ok(v),
        Err(e) => Err(ReconstructError::Transform(e)),
    }
}

/// Residual of a 16x16 plane with separately coded DC coefficients.
fn residual_of_16x16(
    c: &PlaneCtx,
    mode_idx: u8,
    dc: &[i32; 16],
    acs: &Vec<[i32; 16]>,
    coded: bool,
    w: &Vec<i64>,
) -> (r: Result<Vec<i64>, ReconstructError>)
    requires
        c.wf(),
        weights_ok(w@, 16),
    ensures
        longs_result(r) == residual_or_error(
            *c,
            residual_16x16(*c, mode_idx, dc@, acs@, coded, longs(w@)),
        ),
        r matches Ok(v) ==> v.len() == 256 && within(v@, RESIDUAL_BOUND as int),
{
    let dcs = match dc_of_plane(c, dc, w) {
        Ok(v) => v,
        Err(e) => {
            return Err(e);
        },
    };
    let ghost want = blocks_of_16x16(*c, dc@, acs@, coded, longs(w@));
    let ghost bound = if c.bypass {
        LEVEL_BOUND as int
    } else {
        RESIDUAL_BOUND as int
    };
    let mut blocks: Vec<Vec<i64>> = Vec::new();
    let mut b: usize = 0;
    while b < 16
        invariant
            b <= 16,
            c.wf(),
            weights_ok(w@, 16),
            dcs.len() == 16,
            within(dcs@, DC_BOUND as int),
            c.bypass ==> within(dcs@, LEVEL_BOUND as int),
            longs(dcs@) == dc_of_16x16(*c, dc@, longs(w@)),
            !c.bypass ==> qp_ok(c.qp as int, c.bit_depth),
            want == blocks_of_16x16(*c, dc@, acs@, coded, longs(w@)),
            bound == (if c.bypass {
                LEVEL_BOUND as int
            } else {
                RESIDUAL_BOUND as int
            }),
            blocks.len() == b,
            forall|i: int|
                0 <= i < b ==> (#[trigger] blocks@[i]).len() == 16 && within(blocks@[i]@, bound)
                    && longs(blocks@[i]@) == want[i],
        decreases 16 - b,
    {
        let (x, y) = crate::geometry::LUMA_4X4_XY[b];
        let at: usize = (y / 4 * 4 + x / 4) as usize;
        let ac = ac_of(c, acs, coded, b);
        let d = dcs[at];
        assert(longs(dcs@)[at as int] == d);
        match dc_ac_residual_of(c, d, ac, w) {
            Ok(v) => blocks.push(v),
            Err(e) => {
                return Err(e);
            },
        }
        b += 1;
    }
    assert(block_list(blocks@) =~= want);
    let m = assemble(&blocks, 16, 16, Ghost(bound));
    proof {
        reveal(residual_16x16);
    }
    if c.bypass && mode_idx <= 1 {
        Ok(intra_bypass_dpcm(&m, 16, 16, mode_idx == 1))
    } else {
        Ok(m)
    }
}

/// Reconstructs a plane with 16x16 prediction.
pub fn reconstruct_plane_16x16(
    p: &mut Plane,
    grid: &MbGrid,
    c: &PlaneCtx,
    mode_idx: u8,
    text: &str,
    dc: &[i32; 16],
    acs: &Vec<[i32; 16]>,
    coded: bool,
    w: &Vec<i64>,
) -> (r: Result<(), ReconstructError>)
    requires
        c.wf(),
        grid.wf(),
        weights_ok(w@, 16),
    ensures
        (final(p)@, outcome(r)) == plane_16x16(
            old(p)@,
            grid@,
            *c,
            mode_idx,
            text@,
            dc@,
            acs@,
            coded,
            longs(w@),
        ),
        final(p)@.same_size(old(p)@),
{
    proof {
        reveal(plane_16x16);
    }
    let mode = match Intra16x16Mode::from_index(mode_idx) {
        Some(m) => m,
        None => {
            return Err(
                ReconstructError::UnsupportedMbType(text_with_number(text, mode_idx as i64, "")),
            );
        },
    };
    let s = gather_samples(p, grid, &c.nb, c.gx, c.gy, 0, 0, 16, 16, false, 1, 1);
    match require_intra_16x16_mode(mode, &s.availability) {
        Ok(_) => {},
        Err(e) => {
            return Err(e);
        },
    }
    let pred = predict_16x16(mode, &s, c.bit_depth);
    match residual_of_16x16(c, mode_idx, dc, acs, coded, w) {
        Ok(res) => {
            let v = add_residual(&pred, &res, c.bit_depth);
            write_block(p, c, 0, 0, 16, &v);
            Ok(())
        },
        Err(e) => Err(e),
    }
}

/// The first `n` chroma DC levels, filled up with zeros; all zeros where none are coded.
pub open spec fn dc_list(dc: Seq<i32>, coded: bool, n: int) -> Seq<int> {
    Seq::new(
        n as nat,
        |i: int|
            if coded && i < dc.len() {
                dc[i] as int
            } else {
                0
            },
    )
}

fn dc_list_of(dc: &Vec<i32>, coded: bool, n: usize) -> (r: Vec<i64>)
    requires
        n <= 8,
    ensures
        longs(r@) == dc_list(dc@, coded, n as int),
        r.len() == n,
        within(r@, LEVEL_BOUND as int),
{
    let mut r: Vec<i64> = Vec::new();
    for i in 0..n
        invariant
            r.len() == i,
            within(r@, LEVEL_BOUND as int),
            forall|k: int| 0 <= k < i ==> r@[k] == #[trigger] dc_list(dc@, coded, n as int)[k],
    {
        if coded && i < dc.len() {
            r.push(dc[i] as i64);
        } else {
            r.push(0);
        }
    }
    assert(longs(r@) =~= dc_list(dc@, coded, n as int));
    r
}

/// DC coefficients of the chroma blocks of a 4:2:0 (`h` is 8) or 4:2:2 (`h` is 16) macroblock.
pub open spec fn chroma_dcs_of(c: PlaneCtx, h: int, coded: bool, dc: Seq<i32>, w: Seq<int>) -> Seq<
    int,
> {
    if !coded {
        dc_list(dc, false, h / 2)
    } else if h == 8 {
        if c.bypass {
            dc_list(dc, true, 4)
        } else {
            chroma_dc_420(dc_list(dc, true, 4), c.qp as int, w)
        }
    } else if c.bypass {
        dc422_matrix(dc_list(dc, true, 8))
    } else {
        chroma_dc_422(dc_list(dc, true, 8), c.qp as int, w)
    }
}

/// Residual of the chroma blocks of a macroblock.
pub open spec fn chroma_blocks(
    c: PlaneCtx,
    h: int,
    cbp: int,
    dc: Seq<i32>,
    acs: Seq<[i32; 16]>,
    w: Seq<int>,
) -> Seq<Seq<int>> {
    Seq::new(
        (h / 2) as nat,
        |b: int|
            dc_ac_residual(
                c,
                chroma_dcs_of(c, h, cbp > 0, dc, w)[b],
                ac_block(c, acs, cbp == 2, b),
                w,
            ),
    )
}

/// Residual of an 8 by `h` chroma block, before prediction along rows or columns is undone.
#[verifier::opaque]
pub open spec fn chroma_residual(
    c: PlaneCtx,
    h: int,
    cbp: int,
    dc: Seq<i32>,
    acs: Seq<[i32; 16]>,
    w: Seq<int>,
) -> Seq<int> {
    mosaic(chroma_blocks(c, h, cbp, dc, acs, w), 8, 8 * h)
}

fn chroma_dcs(c: &PlaneCtx, h: usize, coded: bool, dc: &Vec<i32>, w: &Vec<i64>) -> (r: Result<
    Vec<i64>,
    ReconstructError,
>)
    requires
        c.wf(),
        h == 8 || h == 16,
        weights_ok(w@, 16),
        c.qp <= 84,
    ensures
        r is Err ==> !c.bypass && !qp_ok(c.qp as int, c.bit_depth) && r->Err_0@ == transform_error(
            c.qp as int,
        ),
        r matches Ok(v) ==> longs(v@) == chroma_dcs_of(*c, h as int, coded, dc@, longs(w@))
            && v.len() == h / 2 && within(v@, DC_BOUND as int) && (c.bypass ==> within(
            v@,
            LEVEL_BOUND as int,
        )),
{
    if !coded {
        return Ok(dc_list_of(dc, false, h / 2));
    }
    let res = if h == 8 {
        let l = dc_list_of(dc, true, 4);
        if c.bypass {
            return Ok(l);
        }
        inverse_hadamard_chroma_dc_420(&l, c.qp, w, c.bit_depth)
    } else {
        let l = dc_list_of(dc, true, 8);
        if c.bypass {
            return Ok(chroma_dc_422_matrix(&l, Ghost(LEVEL_BOUND as int)));
        }
        inverse_hadamard_chroma_dc_422(&l, c.qp, w, c.bit_depth)
    };
    match res {
        Ok(v) => Ok(v),
        Err(e) => Err(ReconstructError::Transform(e)),
    }
}

/// Residual of an 8 by `h` chroma block.
pub fn chroma_residual_of(
    c: &PlaneCtx,
    h: usize,
    cbp: u32,
    dc: &Vec<i32>,
    acs: &Vec<[i32; 16]>,
    w: &Vec<i64>,
) -> (r: Result<Vec<i64>, ReconstructError>)
    requires
        c.wf(),
        h == 8 || h == 16,
        weights_ok(w@, 16),
        c.qp <= 84,
    ensures
        longs_result(r) == residual_or_error(
            *c,
            chroma_residual(*c, h as int, cbp as int, dc@, acs@, longs(w@)),
        ),
        r matches Ok(v) ==> v.len() == 8 * h && within(v@, RESIDUAL_BOUND as int) && (c.bypass
            ==> within(v@, LEVEL_BOUND as int)),
{
    let dcs = match chroma_dcs(c, h, cbp > 0, dc, w) {
        Ok(v) => v,
        Err(e) => {
            return Err(e);
        },
    };
    let n: usize = h / 2;
    let ghost want = chroma_blocks(*c, h as int, cbp as int, dc@, acs@, longs(w@));
    let ghost bound = if c.bypass {
        LEVEL_BOUND as int
    } else {
        RESIDUAL_BOUND as int
    };
    let mut blocks: Vec<Vec<i64>> = Vec::new();
    let mut b: usize = 0;
    while b < n
        invariant
            b <= n,
            n == h / 2,
            h == 8 || h == 16,
            c.wf(),
            weights_ok(w@, 16),
            dcs.len() == n,
            within(dcs@, DC_BOUND as int),
            c.bypass ==> within(dcs@, LEVEL_BOUND as int),
            longs(dcs@) == chroma_dcs_of(*c, h as int, cbp > 0, dc@, longs(w@)),
            b > 0 && !c.bypass ==> qp_ok(c.qp as int, c.bit_depth),
            want == chroma_blocks(*c, h as int, cbp as int, dc@, acs@, longs(w@)),
            bound == (if c.bypass {
                LEVEL_BOUND as int
            } else {
                RESIDUAL_BOUND as int
            }),
            blocks.len() == b,
            forall|i: int|
                0 <= i < b ==> (#[trigger] blocks@[i]).len() == 16 && within(blocks@[i]@, bound)
                    && longs(blocks@[i]@) == want[i],
        decreases n - b,
    {
        let ac = ac_of(c, acs, cbp == 2, b);
        let d = dcs[b];
        assert(longs(dcs@)[b as int] == d);
        match dc_ac_residual_of(c, d, ac, w) {
            Ok(v) => blocks.push(v),
            Err(e) => {
                return Err(e);
            },
        }
        b += 1;
    }
    assert(block_list(blocks@) =~= want);
    proof {
        reveal(chroma_residual);
    }
    Ok(assemble(&blocks, 8, h, Ghost(bound)))
}

/// Samples of an 8x8 chroma block of an SP or SI macroblock, given its prediction.
#[verifier::opaque]
pub open spec fn sp_chroma_samples(
    c: PlaneCtx,
    cbp: int,
    dc: Seq<i32>,
    acs: Seq<[i32; 16]>,
    pred: Seq<int>,
    switching: bool,
    qs: int,
    w: Seq<int>,
) -> Seq<int> {
    clipped(
        mosaic(
            Seq::new(
                4,
                |b: int|
                    residual4x4_ac(
                        sp_chroma(
                            pred,
                            dc_list(dc, cbp > 0, 4),
                            ac_block(c, acs, cbp == 2, b),
                            b,
                            switching,
                            c.qp as int,
                            qs,
                            w,
                        ),
                        qs,
                        w,
                    ),
            ),
            8,
            64,
        ),
        c.bit_depth,
    )
}

/// Reconstructs a chroma plane of an SP or SI macroblock in the transform domain.
pub fn sp_reconstruct_chroma_plane(
    p: &mut Plane,
    c: &PlaneCtx,
    cbp: u32,
    dc: &Vec<i32>,
    acs: &Vec<[i32; 16]>,
    pred: &Vec<i32>,
    switching: bool,
    qs: i64,
    w: &Vec<i64>,
)
    requires
        c.wf(),
        0 <= c.qp <= 51,
        0 <= qs <= 51,
        pred.len() == 64,
        samples_ok(pred@),
        weights_ok(w@, 16),
    ensures
        final(p)@ == put_block(
            old(p)@,
            *c,
            0,
            0,
            8,
            sp_chroma_samples(
                *c,
                cbp as int,
                dc@,
                acs@,
                ints(pred@),
                switching,
                qs as int,
                longs(w@),
            ),
        ),
        final(p)@.same_size(old(p)@),
{
    let dl = dc_list_of(dc, cbp > 0, 4);
    let scaled = sp_chroma_dc_scaled(pred, &dl, switching, c.qp, qs, w);
    let ghost want = Seq::new(
        4,
        |b: int|
            residual4x4_ac(
                sp_chroma(
                    ints(pred@),
                    dc_list(dc@, cbp > 0, 4),
                    ac_block(*c, acs@, cbp == 2, b),
                    b,
                    switching,
                    c.qp as int,
                    qs as int,
                    longs(w@),
                ),
                qs as int,
                longs(w@),
            ),
    );
    let ghost bound = RESIDUAL_BOUND as int;
    let mut blocks: Vec<Vec<i64>> = Vec::new();
    for b in 0..4usize
        invariant
            p@.same_size(old(p)@),
            c.wf(),
            0 <= c.qp <= 51,
            0 <= qs <= 51,
            pred.len() == 64,
            samples_ok(pred@),
            weights_ok(w@, 16),
            dl.len() == 4,
            longs(dl@) == dc_list(dc@, cbp > 0, 4),
            scaled.len() == 4,
            within(scaled@, DC_BOUND as int),
            longs(scaled@) == chroma_dc_420(
                crate::sp_transform::sp_chroma_dc(
                    ints(pred@),
                    longs(dl@),
                    switching,
                    c.qp as int,
                    qs as int,
                    longs(w@),
                ),
                qs as int,
                crate::sp_transform::sp_dc_weights(switching, longs(w@)),
            ),
            bound == RESIDUAL_BOUND as int,
            want == Seq::new(
                4,
                |b: int|
                    residual4x4_ac(
                        sp_chroma(
                            ints(pred@),
                            dc_list(dc@, cbp > 0, 4),
                            ac_block(*c, acs@, cbp == 2, b),
                            b,
                            switching,
                            c.qp as int,
                            qs as int,
                            longs(w@),
                        ),
                        qs as int,
                        longs(w@),
                    ),
            ),
            blocks.len() == b,
            forall|i: int|
                0 <= i < b ==> (#[trigger] blocks@[i]).len() == 16 && within(blocks@[i]@, bound)
                    && longs(blocks@[i]@) == want[i],
    {
        let ac = ac_of(c, acs, cbp == 2, b);
        let coeffs = sp_chroma_block(pred, &dl, &scaled, &ac, b, switching, c.qp, qs, w);
        match inverse_transform_4x4_dc_preserved(&coeffs, qs, w, c.bit_depth) {
            Ok(v) => blocks.push(v),
            Err(_) => {
                assert(false);
            },
        }
    }
    assert(block_list(blocks@) =~= want);
    let m = assemble(&blocks, 8, 8, Ghost(bound));
    let v = clip_residual(&m, c.bit_depth);
    proof {
        reveal(sp_chroma_samples);
    }
    write_block(p, c, 0, 0, 8, &v);
}

/// Reconstruction of one chroma plane of a 4:2:0 (`h` is 8) or 4:2:2 (`h` is 16) intra macroblock.
#[verifier::opaque]
pub open spec fn chroma_plane(
    p: PlaneV,
    g: GridV,
    c: PlaneCtx,
    h: int,
    mode_idx: u8,
    cbp: int,
    dc: Seq<i32>,
    acs: Seq<[i32; 16]>,
    w: Seq<int>,
    si_qs: Option<i64>,
) -> PlaneStep {
    let s = gather(
        p,
        g,
        c.nb,
        c.wx as int,
        c.wy as int,
        0,
        0,
        8,
        h,
        false,
        2,
        if h == 8 {
            2
        } else {
            1
        },
    );
    let mode = IntraChromaMode::of(mode_idx as int);
    let pred = predict_chroma_spec(mode, s, h, c.bit_depth);
    match error_chroma(mode, s.av) {
        Some(e) => (p, Some(e)),
        None => match si_qs {
            Some(qs) => (
                put_block(
                    p,
                    c,
                    0,
                    0,
                    8,
                    sp_chroma_samples(c, cbp, dc, acs, pred, true, qs as int, w),
                ),
                None,
            ),
            None => if !c.bypass && !qp_ok(c.qp as int, c.bit_depth) {
                (p, Some(transform_error(c.qp as int)))
            } else {
                let m = chroma_residual(c, h, cbp, dc, acs, w);
                let r = if c.bypass && (mode_idx == 1 || mode_idx == 2) {
                    dpcm(m, 8, mode_idx == 1)
                } else {
                    m
                };
                (put_block(p, c, 0, 0, 8, reconstructed(pred, r, c.bit_depth)), None)
            },
        },
    }
}

/// Reconstructs one chroma plane of a 4:2:0 or 4:2:2 intra macroblock.
///
/// With `si_qs` the prediction is requantised in the transform domain with that parameter.
pub fn reconstruct_chroma_plane(
    p: &mut Plane,
    grid: &MbGrid,
    c: &PlaneCtx,
    h: usize,
    mode_idx: u8,
    cbp: u32,
    dc: &Vec<i32>,
    acs: &Vec<[i32; 16]>,
    w: &Vec<i64>,
    si_qs: Option<i64>,
) -> (r: Result<(), ReconstructError>)
    requires
        c.wf(),
        grid.wf(),
        h == 8 || h == 16,
        c.wx <= 0x2000_0100,
        h == 8 ==> c.wy <= 0x2000_0100,
        weights_ok(w@, 16),
        c.qp <= 84,
        si_qs matches Some(qs) ==> 0 <= qs <= 51 && 0 <= c.qp <= 51 && h == 8,
    ensures
        (final(p)@, outcome(r)) == chroma_plane(
            old(p)@,
            grid@,
            *c,
            h as int,
            mode_idx,
            cbp as int,
            dc@,
            acs@,
            longs(w@),
            si_qs,
        ),
        final(p)@.same_size(old(p)@),
{
    proof {
        reveal(chroma_plane);
    }
    let sh: i32 = if h == 8 {
        2
    } else {
        1
    };
    let s = gather_samples(p, grid, &c.nb, c.wx, c.wy, 0, 0, 8, h, false, 2, sh);
    let mode = IntraChromaMode::from_index(mode_idx);
    match require_intra_chroma_mode(mode, &s.availability) {
        Ok(_) => {},
        Err(e) => {
            return Err(e);
        },
    }
    let pred = predict_chroma(mode, &s, h, c.bit_depth);
    match si_qs {
        Some(qs) => {
            sp_reconstruct_chroma_plane(p, c, cbp, dc, acs, &pred, true, qs, w);
            Ok(())
        },
        None => {
            let m = match chroma_residual_of(c, h, cbp, dc, acs, w) {
                Ok(m) => m,
                Err(e) => {
                    return Err(e);
                },
            };
            let r = if c.bypass && (mode_idx == 1 || mode_idx == 2) {
                intra_bypass_dpcm(&m, 8, h, mode_idx == 1)
            } else {
                m
            };
            let v = add_residual(&pred, &r, c.bit_depth);
            write_block(p, c, 0, 0, 8, &v);
            Ok(())
        },
    }
}

} // verus!
