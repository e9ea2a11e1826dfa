//! Reconstruction of one intra macroblock.
use crate::error::{outcome, ErrV, ReconstructError};
use crate::geometry::{chroma_mb_dims, mb_h_c, mb_w_c, writer_of, MbWriter};
use crate::macroblock_layer::{Macroblock, MbType};
use crate::math::{ints, min_of};
use crate::mb_address::{mb_sample_origin, MAX_ADDR};
use crate::mb_grid::{GridV, MbGrid, MbInfoV};
use crate::neighbours::NbCtx;
use crate::picture::{same_meta, PicV, Picture};
use crate::plane::{Plane, PlaneV};
use crate::pps::Pps;
use crate::recon_blocks::{law_block_is_written, put_block, write_block, PlaneCtx, PlaneStep};
use crate::recon_intra::{
    chroma_nxn_444, chroma_plane, luma_nxn, plane_16x16, reconstruct_chroma_intra_nxn_444,
    reconstruct_chroma_plane, reconstruct_intra_nxn, reconstruct_plane_16x16,
};
use crate::residual::{
    cbp_chroma, cbp_chroma_of, dc_levels, dc_or_zeros, lossless, transform_bypass_active,
};
use crate::sps::Sps;
use crate::transform::{
    bd_offset, chroma_qp, qp_bd_offset, qp_y_to_qp_c_with_bd_offset, select_scaling_list_4x4,
    select_scaling_list_8x8, weights4, weights8,
};
use vstd::prelude::*;

verus! {

/// Parameters of an SP or SI slice.
#[derive(Debug, Clone, Copy, PartialEq, Eq, Structural)]
pub struct SpSiCtx {
    /// Quantisation parameter of the prediction.
    pub qs_y: i32,
    /// Levels are relative to the quantised prediction.
    pub switching: bool,
}

/// What the reconstruction of one macroblock depends on besides picture and grid.
pub struct MbArgs {
    pub mb: Macroblock,
    pub addr: u32,
    pub qp_y: i32,
    pub sps: Sps,
    pub pps: Pps,
    /// Chroma format and luma width of the picture.
    pub pic_cat: u32,
    pub pic_w: u32,
    pub mbaff: bool,
    pub field: bool,
    pub slice_id: i32,
    pub field_scan: bool,
    pub sp: Option<SpSiCtx>,
}

/// Picture and grid after a macroblock or part of one, and an error if one ended the work.
pub type MbStep = (PicV, GridV, Option<ErrV>);

/// An SP or SI slice is coded in 4:2:0 with eight bits, and its parameter is in range.
pub open spec fn sp_ok(sp: Option<SpSiCtx>, sps: Sps) -> bool {
    sp matches Some(s) ==> 0 <= s.qs_y <= 51 && sps.cat() == 1 && sps.bit_depth_luma_minus8 == 0
        && sps.bit_depth_chroma_minus8 == 0
}

impl MbArgs {
    pub open spec fn writer(self, g: GridV) -> MbWriter {
        let o = g.origin(self.addr as int, self.mbaff, self.field);
        writer_of(
            g,
            self.addr as int,
            o.0 as i32,
            o.1 as i32,
            self.mbaff,
            self.field,
            self.sps.cat(),
        )
    }

    pub open spec fn qp_prime_y(self) -> int {
        self.qp_y + bd_offset(self.sps.bit_depth_luma_minus8)
    }

    /// Quantisation parameter of a chroma plane, offset for the bit depth.
    pub open spec fn qp_prime_c(self, cr: bool) -> int {
        chroma_qp_prime(self.qp_y as int, self.sps, self.pps, cr)
    }

    pub open spec fn nb(self, chroma: bool) -> NbCtx {
        NbCtx {
            addr: self.addr,
            slice_id: self.slice_id,
            cip: self.pps.constrained_intra_pred_flag,
            chroma,
            cat: self.pic_cat,
            pic_w: self.pic_w,
        }
    }

    pub open spec fn luma_ctx(self, g: GridV) -> PlaneCtx {
        let wr = self.writer(g);
        PlaneCtx {
            nb: self.nb(false),
            bit_depth: (8 + self.sps.bit_depth_luma_minus8) as u32,
            qp: self.qp_prime_y() as i64,
            bypass: lossless(self.sps, self.qp_prime_y()),
            field_scan: self.field_scan,
            gx: wr.mb_px,
            gy: wr.mb_py,
            wx: wr.mb_px,
            wy: wr.mb_py,
            step: wr.step() as i32,
        }
    }

    pub open spec fn chroma_ctx(self, g: GridV, cr: bool) -> PlaneCtx {
        let wr = self.writer(g);
        PlaneCtx {
            nb: self.nb(true),
            bit_depth: (8 + self.sps.bit_depth_chroma_minus8) as u32,
            qp: self.qp_prime_c(cr) as i64,
            bypass: lossless(self.sps, self.qp_prime_y()),
            field_scan: self.field_scan,
            gx: wr.mb_px,
            gy: wr.mb_py,
            wx: wr.cx() as i32,
            wy: wr.cy() as i32,
            step: wr.step() as i32,
        }
    }
}

/// Quantisation parameter of a chroma plane for a luma parameter, offset for the bit depth.
pub open spec fn chroma_qp_prime(qp_y: int, sps: Sps, pps: Pps, cr: bool) -> int {
    chroma_qp(qp_y, pps.chroma_offset(cr), bd_offset(sps.bit_depth_chroma_minus8)) + bd_offset(
        sps.bit_depth_chroma_minus8,
    )
}

pub fn chroma_qp_prime_of(qp_y: i32, sps: &Sps, pps: &Pps, cr: bool) -> (r: i64)
    requires
        sps.wf(),
    ensures
        r == chroma_qp_prime(qp_y as int, *sps, *pps, cr),
        0 <= r <= 75,
        sps.bit_depth_chroma_minus8 == 0 ==> r <= 39,
{
    let bd = qp_bd_offset(sps.bit_depth_chroma_minus8);
    qp_y_to_qp_c_with_bd_offset(qp_y as i64, pps.chroma_qp_offset(cr), bd) + bd
}

/// Samples of an uncompressed macroblock.
pub open spec fn pcm_values(s: Seq<u32>, n: int) -> Seq<int> {
    Seq::new(n as nat, |i: int| min_of(s[i] as int, 65535))
}

fn pcm_values_of(s: &Vec<u32>, n: usize) -> (r: Vec<i32>)
    requires
        n <= s.len(),
    ensures
        ints(r@) == pcm_values(s@, n as int),
        r.len() == n,
{
    let mut r: Vec<i32> = Vec::new();
    for i in 0..n
        invariant
            n <= s.len(),
            r.len() == i,
            forall|k: int| 0 <= k < i ==> r@[k] == #[trigger] pcm_values(s@, n as int)[k],
    {
        let v: u32 = s[i];
        r.push(
            (if v < 65535 {
                v
            } else {
                65535
            }) as i32,
        );
    }
    assert(ints(r@) =~= pcm_values(s@, n as int));
    r
}

/// The macroblock holds what its type needs: enough uncompressed samples, and modes in range.
pub open spec fn mb_ok(mb: Macroblock, cat: u32) -> bool {
    &&& mb.mb_pred matches Some(p) ==> (mb.mb_type is Intra16x16 || mb.mb_type is IPcm || p.wf())
    &&& mb.pcm_samples matches Some(s) ==> mb.mb_type is IPcm ==> s.luma.len() >= 256
        && s.chroma_cb.len() >= mb_w_c(cat) * mb_h_c(cat) && s.chroma_cr.len() >= mb_w_c(cat)
        * mb_h_c(cat)
}

/// One chroma plane of an uncompressed macroblock.
pub open spec fn pcm_chroma(p: PlaneV, c: PlaneCtx, cat: u32, s: Seq<u32>) -> PlaneV {
    if mb_w_c(cat) == 0 {
        p
    } else {
        put_block(p, c, 0, 0, mb_w_c(cat), pcm_values(s, mb_w_c(cat) * mb_h_c(cat)))
    }
}

/// Two planes one after the other; an error in the first ends the work.
pub open spec fn cb_then_cr(pv: PicV, cb: PlaneStep, cr: PlaneStep) -> (PicV, Option<ErrV>) {
    match cb {
        (q, Some(e)) => (PicV { cb: q, ..pv }, Some(e)),
        (q, None) => (PicV { cb: q, cr: cr.0, ..pv }, cr.1),
    }
}

/// Mode and coded block pattern of an Intra_16x16 macroblock.
pub open spec fn mode_16x16(mb: Macroblock) -> (u8, bool) {
    match mb.mb_type {
        MbType::Intra16x16(cfg) => (cfg.pred_mode, cfg.cbp_luma == 15),
        _ => (0, false),
    }
}

/// Mode of the chroma prediction.
pub open spec fn chroma_mode(mb: Macroblock) -> u8 {
    match mb.mb_pred {
        Some(p) => p.intra_chroma_pred_mode,
        None => 0,
    }
}

/// Parameter for a chroma plane of an SI macroblock.
pub open spec fn si_chroma_qs(a: MbArgs, si_qs: Option<i64>, cr: bool) -> Option<i64> {
    match si_qs {
        Some(qs) => Some(chroma_qp_prime(qs as int, a.sps, a.pps, cr) as i64),
        None => None,
    }
}

/// Reconstruction of the chroma planes of an intra macroblock.
#[verifier::opaque]
pub open spec fn intra_chroma(pv: PicV, g: GridV, a: MbArgs, si_qs: Option<i64>) -> (
    PicV,
    Option<ErrV>,
) {
    let cat = a.sps.cat();
    let cb = a.chroma_ctx(g, false);
    let cr = a.chroma_ctx(g, true);
    let mb = a.mb;
    if cat == 0 {
        (pv, None)
    } else if cat == 3 && mb.mb_type is Intra16x16 {
        let (mode, coded) = mode_16x16(mb);
        cb_then_cr(
            pv,
            plane_16x16(
                pv.cb,
                g,
                cb,
                mode,
                "4:4:4 Intra_16x16 mode "@,
                dc_levels(mb.residual_cb_16x16_dc),
                mb.residual_cb_luma_like@,
                coded,
                weights4(1, a.sps, a.pps),
            ),
            plane_16x16(
                pv.cr,
                g,
                cr,
                mode,
                "4:4:4 Intra_16x16 mode "@,
                dc_levels(mb.residual_cr_16x16_dc),
                mb.residual_cr_luma_like@,
                coded,
                weights4(2, a.sps, a.pps),
            ),
        )
    } else if cat == 3 {
        cb_then_cr(
            pv,
            chroma_nxn_444(
                pv.cb,
                g,
                cb,
                mb,
                mb.residual_cb_luma_like@,
                weights4(1, a.sps, a.pps),
                weights8(2, a.sps, a.pps),
            ),
            chroma_nxn_444(
                pv.cr,
                g,
                cr,
                mb,
                mb.residual_cr_luma_like@,
                weights4(2, a.sps, a.pps),
                weights8(4, a.sps, a.pps),
            ),
        )
    } else {
        cb_then_cr(
            pv,
            chroma_plane(
                pv.cb,
                g,
                cb,
                mb_h_c(cat),
                chroma_mode(mb),
                cbp_chroma(mb),
                mb.residual_chroma_dc_cb@,
                mb.residual_chroma_ac_cb@,
                weights4(1, a.sps, a.pps),
                si_chroma_qs(a, si_qs, false),
            ),
            chroma_plane(
                pv.cr,
                g,
                cr,
                mb_h_c(cat),
                chroma_mode(mb),
                cbp_chroma(mb),
                mb.residual_chroma_dc_cr@,
                mb.residual_chroma_ac_cr@,
                weights4(2, a.sps, a.pps),
                si_chroma_qs(a, si_qs, true),
            ),
        )
    }
}

/// The record of an intra macroblock at the start of its reconstruction.
pub open spec fn intra_start(g: GridV, a: MbArgs) -> GridV {
    match g.get(a.addr as int) {
        Some(i) => g.set(
            a.addr as int,
            MbInfoV {
                slice_id: a.slice_id,
                mb_field_decoding_flag: a.field,
                is_intra: true,
                ..i
            },
        ),
        None => g,
    }
}

/// Reconstruction of an intra macroblock; `luma_list` is the class of its luma scaling matrices.
#[verifier::opaque]
pub open spec fn intra_mb(pv: PicV, g0: GridV, a: MbArgs, luma_list: int) -> MbStep {
    let g = intra_start(g0, a);
    let c = a.luma_ctx(g);
    let mb = a.mb;
    match mb.mb_type {
        MbType::IPcm => match mb.pcm_samples {
            None => (pv, g, Some(ErrV::UnsupportedMbType("I_PCM without samples"@))),
            Some(s) => (
                PicV {
                    luma: put_block(pv.luma, c, 0, 0, 16, pcm_values(s.luma@, 256)),
                    cb: pcm_chroma(
                        pv.cb,
                        a.chroma_ctx(g, false),
                        a.sps.cat(),
                        s.chroma_cb@,
                    ),
                    cr: pcm_chroma(pv.cr, a.chroma_ctx(g, true), a.sps.cat(), s.chroma_cr@),
                },
                g,
                None,
            ),
        },
        MbType::Intra16x16(cfg) => match plane_16x16(
            pv.luma,
            g,
            c,
            cfg.pred_mode,
            "Intra_16x16 pred_mode "@,
            dc_levels(mb.residual_luma_dc),
            mb.residual_luma@,
            cfg.cbp_luma == 15,
            weights4(luma_list, a.sps, a.pps),
        ) {
            (q, Some(e)) => (PicV { luma: q, ..pv }, g, Some(e)),
            (q, None) => {
                let r = intra_chroma(PicV { luma: q, ..pv }, g, a, None);
                (r.0, g, r.1)
            },
        },
        _ => if mb.mb_type is SI && a.sp is None {
            (pv, g, Some(ErrV::UnsupportedMbType("SI macroblock outside an SI slice"@)))
        } else {
            let si_qs = if mb.mb_type is SI {
                Some(a.sp->0.qs_y as i64)
            } else {
                None
            };
            match luma_nxn(
                pv.luma,
                g,
                c,
                mb,
                weights4(luma_list, a.sps, a.pps),
                weights8(2 * luma_list, a.sps, a.pps),
                si_qs,
            ) {
                (q, h, Some(e)) => (PicV { luma: q, ..pv }, h, Some(e)),
                (q, h, None) => {
                    let r = intra_chroma(PicV { luma: q, ..pv }, h, a, si_qs);
                    (r.0, h, r.1)
                },
            }
        },
    }
}

/// The plane contexts of a macroblock: luma, Cb, Cr.
pub fn plane_contexts(
    mb_addr: u32,
    qp_y: i32,
    sps: &Sps,
    pps: &Pps,
    pic: &Picture,
    writer: &MbWriter,
    slice_id: i32,
    field_scan: bool,
    Ghost(a): Ghost<MbArgs>,
    Ghost(g): Ghost<GridV>,
) -> (r: (PlaneCtx, PlaneCtx, PlaneCtx))
    requires
        a.addr == mb_addr,
        a.qp_y == qp_y,
        a.sps == *sps,
        a.pps == *pps,
        a.pic_cat == pic.chroma_array_type,
        a.pic_w == pic.luma@.w as u32,
        a.slice_id == slice_id,
        a.field_scan == field_scan,
        a.writer(g) == *writer,
        sps.wf(),
        writer.wf(),
        mb_addr <= MAX_ADDR,
        writer.chroma_array_type == sps.cat(),
    ensures
        r.0.wf(),
        r.1.wf(),
        r.2.wf(),
        0 <= r.1.qp <= 75,
        0 <= r.2.qp <= 75,
        sps.bit_depth_chroma_minus8 == 0 ==> r.1.qp <= 39 && r.2.qp <= 39,
        r.1.wx <= 0x4000_0010,
        sps.cat() == 1 || sps.cat() == 2 ==> r.1.wx <= 0x2000_0010 && r.2.wx <= 0x2000_0010,
        sps.cat() == 1 ==> r.1.wy <= 0x2000_0030 && r.2.wy <= 0x2000_0030,
        r.0 == a.luma_ctx(g),
        r.1 == a.chroma_ctx(g, false),
        r.2 == a.chroma_ctx(g, true),
{
    let nb = NbCtx {
        addr: mb_addr,
        slice_id,
        cip: pps.constrained_intra_pred_flag,
        chroma: false,
        cat: pic.chroma_array_type,
        pic_w: pic.luma.width(),
    };
    let nbc = NbCtx {
        addr: mb_addr,
        slice_id,
        cip: pps.constrained_intra_pred_flag,
        chroma: true,
        cat: pic.chroma_array_type,
        pic_w: pic.luma.width(),
    };
    let qp_luma: i64 = qp_y as i64 + qp_bd_offset(sps.bit_depth_luma_minus8);
    let bypass = transform_bypass_active(sps, qp_luma);
    let step = writer.y_stride();
    let (cx, cy) = (writer.chroma_mb_px(), writer.chroma_mb_py());
    let luma = PlaneCtx {
        nb,
        bit_depth: 8 + sps.bit_depth_luma_minus8,
        qp: qp_luma,
        bypass,
        field_scan,
        gx: writer.mb_px,
        gy: writer.mb_py,
        wx: writer.mb_px,
        wy: writer.mb_py,
        step,
    };
    let cb = PlaneCtx {
        nb: nbc,
        bit_depth: 8 + sps.bit_depth_chroma_minus8,
        qp: chroma_qp_prime_of(qp_y, sps, pps, false),
        bypass,
        field_scan,
        gx: writer.mb_px,
        gy: writer.mb_py,
        wx: cx,
        wy: cy,
        step,
    };
    let cr = PlaneCtx {
        nb: nbc,
        bit_depth: 8 + sps.bit_depth_chroma_minus8,
        qp: chroma_qp_prime_of(qp_y, sps, pps, true),
        bypass,
        field_scan,
        gx: writer.mb_px,
        gy: writer.mb_py,
        wx: cx,
        wy: cy,
        step,
    };
    (luma, cb, cr)
}

fn start_intra(grid: &mut MbGrid, addr: u32, field: bool, slice_id: i32, Ghost(a): Ghost<MbArgs>)
    requires
        old(grid).wf(),
        a.addr == addr,
        a.field == field,
        a.slice_id == slice_id,
    ensures
        final(grid)@ == intra_start(old(grid)@, a),
        final(grid).wf(),
        final(grid)@.same_shape(old(grid)@),
{
    if (addr as usize) < grid.info.len() {
        let mut i = grid.info[addr as usize];
        i.slice_id = slice_id;
        i.mb_field_decoding_flag = field;
        i.is_intra = true;
        grid.put(addr, i);
    }
}

fn write_pcm_chroma(p: &mut Plane, c: &PlaneCtx, cat: u32, s: &Vec<u32>)
    requires
        c.wf(),
        s.len() >= mb_w_c(cat) * mb_h_c(cat),
    ensures
        final(p)@ == pcm_chroma(old(p)@, *c, cat, s@),
        final(p)@.same_size(old(p)@),
{
    let (w, h) = chroma_mb_dims(cat);
    if w != 0 {
        assert(w * h <= 256) by (nonlinear_arith)
            requires
                w <= 16,
                h <= 16,
        ;
        let v = pcm_values_of(s, (w * h) as usize);
        write_block(p, c, 0, 0, w as usize, &v);
    }
}

/// Reconstructs the chroma planes of an intra macroblock.
fn reconstruct_chroma_intra(
    mb: &Macroblock,
    sps: &Sps,
    pps: &Pps,
    cb: &PlaneCtx,
    cr: &PlaneCtx,
    pic: &mut Picture,
    grid: &MbGrid,
    si_qs: Option<i64>,
    Ghost(a): Ghost<MbArgs>,
) -> (r: Result<(), ReconstructError>)
    requires
        a.mb == *mb,
        a.sps == *sps,
        a.pps == *pps,
        *cb == a.chroma_ctx(grid@, false),
        *cr == a.chroma_ctx(grid@, true),
        cb.wf(),
        cr.wf(),
        sps.wf(),
        grid.wf(),
        0 <= cb.qp <= 75,
        0 <= cr.qp <= 75,
        sps.bit_depth_chroma_minus8 == 0 ==> cb.qp <= 39 && cr.qp <= 39,
        sps.cat() == 1 || sps.cat() == 2 ==> cb.wx <= 0x2000_0010 && cr.wx <= 0x2000_0010,
        sps.cat() == 1 ==> cb.wy <= 0x2000_0030 && cr.wy <= 0x2000_0030,
        si_qs matches Some(qs) ==> 0 <= qs <= 51 && sps.cat() == 1 && sps.bit_depth_chroma_minus8
            == 0,
    ensures
        (final(pic).planes(), outcome(r)) == intra_chroma(old(pic).planes(), grid@, a, si_qs),
        same_meta(*final(pic), *old(pic)),
{
    proof {
        reveal(intra_chroma);
    }
    let cat = sps.chroma_array_type();
    if cat == 0 {
        return Ok(());
    }
    let w_cb = select_scaling_list_4x4(1, sps, pps);
    let w_cr = select_scaling_list_4x4(2, sps, pps);
    if cat == 3 {
        if let MbType::Intra16x16(cfg) = &mb.mb_type {
            let coded = cfg.cbp_luma == 15;
            let dc_cb = dc_or_zeros(&mb.residual_cb_16x16_dc);
            let dc_cr = dc_or_zeros(&mb.residual_cr_16x16_dc);
            match reconstruct_plane_16x16(
                &mut pic.cb,
                grid,
                cb,
                cfg.pred_mode,
                "4:4:4 Intra_16x16 mode ",
                &dc_cb,
                &mb.residual_cb_luma_like,
                coded,
                &w_cb,
            ) {
                Ok(_) => {},
                Err(e) => {
                    return Err(e);
                },
            }
            return reconstruct_plane_16x16(
                &mut pic.cr,
                grid,
                cr,
                cfg.pred_mode,
                "4:4:4 Intra_16x16 mode ",
                &dc_cr,
                &mb.residual_cr_luma_like,
                coded,
                &w_cr,
            );
        }
        let w8_cb = select_scaling_list_8x8(2, sps, pps);
        let w8_cr = select_scaling_list_8x8(4, sps, pps);
        match reconstruct_chroma_intra_nxn_444(
            &mut pic.cb,
            grid,
            cb,
            mb,
            &mb.residual_cb_luma_like,
            &w_cb,
            &w8_cb,
        ) {
            Ok(_) => {},
            Err(e) => {
                return Err(e);
            },
        }
        return reconstruct_chroma_intra_nxn_444(
            &mut pic.cr,
            grid,
            cr,
            mb,
            &mb.residual_cr_luma_like,
            &w_cr,
            &w8_cr,
        );
    }
    let h: usize = if cat == 1 {
        8
    } else {
        16
    };
    let mode: u8 = match &mb.mb_pred {
        Some(p) => p.intra_chroma_pred_mode,
        None => 0,
    };
    let cbp = cbp_chroma_of(mb);
    let (qs_cb, qs_cr) = match si_qs {
        Some(qs) => (
            Some(chroma_qp_prime_of(qs as i32, sps, pps, false)),
            Some(chroma_qp_prime_of(qs as i32, sps, pps, true)),
        ),
        None => (None, None),
    };
    match reconstruct_chroma_plane(
        &mut pic.cb,
        grid,
        cb,
        h,
        mode,
        cbp,
        &mb.residual_chroma_dc_cb,
        &mb.residual_chroma_ac_cb,
        &w_cb,
        qs_cb,
    ) {
        Ok(_) => {},
        Err(e) => {
            return Err(e);
        },
    }
    reconstruct_chroma_plane(
        &mut pic.cr,
        grid,
        cr,
        h,
        mode,
        cbp,
        &mb.residual_chroma_dc_cr,
        &mb.residual_chroma_ac_cr,
        &w_cr,
        qs_cr,
    )
}

/// Reconstructs one intra macroblock.
#[verifier::spinoff_prover]
#[verifier::rlimit(40)]
pub fn reconstruct_mb_intra(
    mb: &Macroblock,
    mb_addr: u32,
    qp_y: i32,
    sps: &Sps,
    pps: &Pps,
    pic: &mut Picture,
    grid: &mut MbGrid,
    mbaff_frame_flag: bool,
    mb_field_decoding_flag: bool,
    current_slice_id: i32,
    field_scan: bool,
    luma_plane: usize,
    sp_si: Option<SpSiCtx>,
) -> (r: Result<(), ReconstructError>)
    requires
        mb.mb_type.intra(),
        mb_ok(*mb, sps.cat()),
        mb_addr <= MAX_ADDR,
        sps.wf(),
        old(grid).wf(),
        sp_ok(sp_si, *sps),
        luma_plane <= 2,
    ensures
        (final(pic).planes(), final(grid)@, outcome(r)) == intra_mb(
            old(pic).planes(),
            old(grid)@,
            (MbArgs {
                mb: *mb,
                addr: mb_addr,
                qp_y,
                sps: *sps,
                pps: *pps,
                pic_cat: old(pic).chroma_array_type,
                pic_w: old(pic).luma@.w as u32,
                mbaff: mbaff_frame_flag,
                field: mb_field_decoding_flag,
                slice_id: current_slice_id,
                field_scan,
                sp: sp_si,
            }),
            luma_plane as int,
        ),
        same_meta(*final(pic), *old(pic)),
        final(grid)@.same_shape(old(grid)@),
        final(grid).wf(),
{
    let ghost a = MbArgs {
        mb: *mb,
        addr: mb_addr,
        qp_y,
        sps: *sps,
        pps: *pps,
        pic_cat: pic.chroma_array_type,
        pic_w: pic.luma@.w as u32,
        mbaff: mbaff_frame_flag,
        field: mb_field_decoding_flag,
        slice_id: current_slice_id,
        field_scan,
        sp: sp_si,
    };
    proof {
        reveal(intra_mb);
    }
    let cat = sps.chroma_array_type();
    let (mb_px, mb_py) = mb_sample_origin(grid, mb_addr, mbaff_frame_flag, mb_field_decoding_flag);
    let writer = MbWriter::new(
        grid,
        mb_addr,
        mb_px,
        mb_py,
        mbaff_frame_flag,
        mb_field_decoding_flag,
        cat,
    );
    start_intra(grid, mb_addr, mb_field_decoding_flag, current_slice_id, Ghost(a));
    assert(a.writer(grid@) == writer);
    let (luma, cb, cr) = plane_contexts(
        mb_addr,
        qp_y,
        sps,
        pps,
        pic,
        &writer,
        current_slice_id,
        field_scan,
        Ghost(a),
        Ghost(grid@),
    );
    match &mb.mb_type {
        MbType::IPcm => {
            let s = match &mb.pcm_samples {
                Some(s) => s,
                None => {
                    return Err(
                        ReconstructError::UnsupportedMbType("I_PCM without samples".to_string()),
                    );
                },
            };
            let v = pcm_values_of(&s.luma, 256);
            write_block(&mut pic.luma, &luma, 0, 0, 16, &v);
            write_pcm_chroma(&mut pic.cb, &cb, cat, &s.chroma_cb);
            write_pcm_chroma(&mut pic.cr, &cr, cat, &s.chroma_cr);
            Ok(())
        },
        MbType::Intra16x16(cfg) => {
            let w = select_scaling_list_4x4(luma_plane, sps, pps);
            let dc = dc_or_zeros(&mb.residual_luma_dc);
            match reconstruct_plane_16x16(
                &mut pic.luma,
                grid,
                &luma,
                cfg.pred_mode,
                "Intra_16x16 pred_mode ",
                &dc,
                &mb.residual_luma,
                cfg.cbp_luma == 15,
                &w,
            ) {
                Ok(_) => {},
                Err(e) => {
                    return Err(e);
                },
            }
            reconstruct_chroma_intra(mb, sps, pps, &cb, &cr, pic, grid, None, Ghost(a))
        },
        _ => {
            let si_qs: Option<i64> = if mb.mb_type.is_si() {
                match sp_si {
                    Some(s) => Some(s.qs_y as i64),
                    None => {
                        return Err(
                            ReconstructError::UnsupportedMbType(
                                "SI macroblock outside an SI slice".to_string(),
                            ),
                        );
                    },
                }
            } else {
                None
            };
            let w4 = select_scaling_list_4x4(luma_plane, sps, pps);
            let w8 = select_scaling_list_8x8(2 * luma_plane, sps, pps);
            match reconstruct_intra_nxn(&mut pic.luma, grid, &luma, mb, &w4, &w8, si_qs) {
                Ok(_) => {},
                Err(e) => {
                    return Err(e);
                },
            }
            assert(a.writer(grid@) == writer);
            reconstruct_chroma_intra(mb, sps, pps, &cb, &cr, pic, grid, si_qs, Ghost(a))
        },
    }
}

/// An uncompressed macroblock appears in the picture sample by sample, and nothing else of the
/// plane changes. Samples wider than 16 bits are cut to the largest 16-bit value.
pub proof fn law_pcm_luma_is_copied(pv: PicV, g: GridV, a: MbArgs, luma_list: int, x: int, y: int)
    requires
        a.mb.mb_type is IPcm,
        a.mb.pcm_samples is Some,
        mb_ok(a.mb, a.sps.cat()),
    ensures
        ({
            let r = intra_mb(pv, g, a, luma_list);
            let wr = a.writer(g);
            let (dx, dy) = (x - wr.mb_px, y - wr.mb_py);
            let row = dy / wr.step();
            &&& r.2 is None
            &&& (r.0.luma.at)(x, y) == if pv.luma.has(x, y) && 0 <= dx < 16 && 0 <= dy && dy
                % wr.step() == 0 && row < 16 {
                min_of(a.mb.pcm_samples->0.luma@[row * 16 + dx] as int, 65535)
            } else {
                (pv.luma.at)(x, y)
            }
        }),
{
    reveal(intra_mb);
    let h = intra_start(g, a);
    assert(a.writer(h) == a.writer(g));
    let s = a.mb.pcm_samples->0;
    law_block_is_written(pv.luma, a.luma_ctx(h), 0, 0, 16, pcm_values(s.luma@, 256), x, y);
}

/// The chroma samples of an uncompressed macroblock appear in the picture in the same way.
pub proof fn law_pcm_chroma_is_copied(
    pv: PicV,
    g: GridV,
    a: MbArgs,
    luma_list: int,
    x: int,
    y: int,
)
    requires
        a.mb.mb_type is IPcm,
        a.mb.pcm_samples is Some,
        mb_ok(a.mb, a.sps.cat()),
        1 <= a.sps.cat() <= 3,
        i32::MIN <= a.writer(g).cx() <= i32::MAX,
        i32::MIN <= a.writer(g).cy() <= i32::MAX,
    ensures
        ({
            let r = intra_mb(pv, g, a, luma_list).0;
            let s = a.mb.pcm_samples->0;
            let (w, h) = (mb_w_c(a.sps.cat()), mb_h_c(a.sps.cat()));
            let wr = a.writer(g);
            let (dx, dy) = (x - wr.cx(), y - wr.cy());
            let row = dy / wr.step();
            let inside = 0 <= dx < w && 0 <= dy && dy % wr.step() == 0 && row < h;
            &&& (r.cb.at)(x, y) == if pv.cb.has(x, y) && inside {
                min_of(s.chroma_cb@[row * w + dx] as int, 65535)
            } else {
                (pv.cb.at)(x, y)
            }
            &&& (r.cr.at)(x, y) == if pv.cr.has(x, y) && inside {
                min_of(s.chroma_cr@[row * w + dx] as int, 65535)
            } else {
                (pv.cr.at)(x, y)
            }
        }),
{
    reveal(intra_mb);
    let h = intra_start(g, a);
    assert(a.writer(h) == a.writer(g));
    let s = a.mb.pcm_samples->0;
    let cat = a.sps.cat();
    let n = mb_w_c(cat) * mb_h_c(cat);
    assert(n % mb_w_c(cat) == 0 && n / mb_w_c(cat) == mb_h_c(cat));
    law_block_is_written(
        pv.cb,
        a.chroma_ctx(h, false),
        0,
        0,
        mb_w_c(cat),
        pcm_values(s.chroma_cb@, n),
        x,
        y,
    );
    law_block_is_written(
        pv.cr,
        a.chroma_ctx(h, true),
        0,
        0,
        mb_w_c(cat),
        pcm_values(s.chroma_cr@, n),
        x,
        y,
    );
}

} // verus!
