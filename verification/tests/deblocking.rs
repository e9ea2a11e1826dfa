use h264_recon::deblock_picture::deblock_plane_chroma_444;
use h264_recon::macroblock_layer::{Macroblock, MbType, PcmSamples};
use h264_recon::mb_grid::{MbGrid, MbInfo};
use h264_recon::picture::Picture;
use h264_recon::pps::Pps;
use h264_recon::reconstruct::reconstruct_slice;
use h264_recon::ref_store::NoRefs;
use h264_recon::slice_data::SliceData;
use h264_recon::slice_header::{SliceHeader, SliceType};
use h264_recon::sps::Sps;

fn blank_mb() -> Macroblock {
    Macroblock {
        mb_type: MbType::INxN,
        mb_type_raw: 0,
        mb_pred: None,
        sub_mb_pred: None,
        pcm_samples: None,
        coded_block_pattern: 0,
        transform_size_8x8_flag: false,
        mb_qp_delta: 0,
        residual_luma: Vec::new(),
        residual_luma_dc: None,
        residual_chroma_dc_cb: Vec::new(),
        residual_chroma_dc_cr: Vec::new(),
        residual_chroma_ac_cb: Vec::new(),
        residual_chroma_ac_cr: Vec::new(),
        residual_cb_luma_like: Vec::new(),
        residual_cr_luma_like: Vec::new(),
        residual_cb_16x16_dc: None,
        residual_cr_16x16_dc: None,
        is_skip: false,
    }
}

fn make_sps() -> Sps {
    Sps {
        chroma_format_idc: 1,
        separate_colour_plane_flag: false,
        bit_depth_luma_minus8: 0,
        bit_depth_chroma_minus8: 0,
        qpprime_y_zero_transform_bypass_flag: false,
        seq_scaling_lists: None,
        mb_adaptive_frame_field_flag: false,
        direct_8x8_inference_flag: false,
    }
}

fn make_pps() -> Pps {
    Pps {
        slice_group_map: None,
        weighted_pred_flag: false,
        weighted_bipred_idc: 0,
        pic_init_qp_minus26: 0,
        pic_init_qs_minus26: 0,
        chroma_qp_index_offset: 0,
        constrained_intra_pred_flag: false,
        extension: None,
    }
}

fn make_slice_header() -> SliceHeader {
    SliceHeader {
        first_mb_in_slice: 0,
        slice_type: SliceType::I,
        colour_plane_id: 0,
        field_pic_flag: false,
        bottom_field_flag: false,
        direct_spatial_mv_pred_flag: false,
        pred_weight_table: None,
        slice_qp_delta: 0,
        sp_for_switch_flag: false,
        slice_qs_delta: 0,
        disable_deblocking_filter_idc: 1,
        slice_alpha_c0_offset_div2: 0,
        slice_beta_offset_div2: 0,
    }
}

fn mk_intra4x4_info(mode: u8) -> MbInfo {
    MbInfo {
        available: true,
        is_intra: true,
        is_i_pcm: false,
        is_intra_nxn: true,
        mb_type_raw: 0,
        intra_4x4_pred_modes: [mode; 16],
        ..MbInfo::default()
    }
}

#[test]
fn deblocking_alters_intra_edge() {
    let sps = make_sps();
    let pps = make_pps();
    let mut sh = make_slice_header();
    sh.disable_deblocking_filter_idc = 0;
    sh.slice_qp_delta = 20;

    let left_luma = vec![100u32; 256];
    let right_luma = vec![115u32; 256];
    let cb = vec![128u32; 64];
    let cr = vec![128u32; 64];
    let mk = |luma: Vec<u32>| Macroblock {
        mb_type: MbType::IPcm,
        mb_type_raw: 25,
        pcm_samples: Some(PcmSamples {
            luma,
            chroma_cb: cb.clone(),
            chroma_cr: cr.clone(),
        }),
        ..blank_mb()
    };

    let mb0 = mk(left_luma);
    let mb1 = mk(right_luma);
    let slice_data = SliceData {
        macroblocks: vec![mb0, mb1],
        mb_field_decoding_flags: vec![false, false],
        last_mb_addr: 1,
    };
    let mut pic_off = Picture::new(32, 16, 1, 8, 8);
    let mut grid_off = MbGrid::new(2, 1);
    let mut sh_off = sh.clone();
    sh_off.disable_deblocking_filter_idc = 1;
    reconstruct_slice(
        &slice_data,
        &sh_off,
        &sps,
        &pps,
        &NoRefs,
        &mut pic_off,
        &mut grid_off,
    )
    .unwrap();

    let mut pic_on = Picture::new(32, 16, 1, 8, 8);
    let mut grid_on = MbGrid::new(2, 1);
    reconstruct_slice(
        &slice_data,
        &sh,
        &sps,
        &pps,
        &NoRefs,
        &mut pic_on,
        &mut grid_on,
    )
    .unwrap();

    let changed = pic_on.luma_values() != pic_off.luma_values();
    assert!(
        changed,
        "deblocking filter did not modify any samples, \
         expected at least the edge column to change"
    );
}

#[test]
fn deblock_444_chroma_uses_luma_style_filter_at_mb_edge() {
    let pps = make_pps();
    let mut pic = Picture::new(32, 16, 3, 8, 8);
    assert_eq!(pic.chroma_width(), 32, "4:4:4 chroma is full-res");
    assert_eq!(pic.chroma_height(), 16);
    for y in 0..16 {
        for x in 0..32 {
            pic.set_luma(x, y, 110);
            let v = if x < 16 { 100 } else { 116 };
            pic.set_cb(x, y, v);
            pic.set_cr(x, y, v);
        }
    }
    let mut grid = MbGrid::new(2, 1);
    for addr in 0..2u32 {
        if let Some(info) = grid.get_mut(addr) {
            *info = mk_intra4x4_info(2);
            info.qp_y = 46;
        }
    }
    let before_cb = pic.cb_values();
    let before_cr = pic.cr_values();
    deblock_plane_chroma_444(
        &mut pic,
        &grid,
        0,
        0,
        8,
        &pps,
        false,
        false,
        &[false, false],
    );
    let cw = pic.chroma_width() as usize;
    let after_cb = pic.cb_values();
    let after_cr = pic.cr_values();
    let edge_changed_cb = (0..16).any(|y| {
        let row = y * cw;
        after_cb[row + 15] != before_cb[row + 15] || after_cb[row + 16] != before_cb[row + 16]
    });
    let edge_changed_cr = (0..16).any(|y| {
        let row = y * cw;
        after_cr[row + 15] != before_cr[row + 15] || after_cr[row + 16] != before_cr[row + 16]
    });
    assert!(edge_changed_cb, "Cb chroma edge not filtered at 4:4:4");
    assert!(edge_changed_cr, "Cr chroma edge not filtered at 4:4:4");
    let interior_unchanged = (0..16).all(|y| {
        let row = y * cw;
        after_cb[row + 1] == before_cb[row + 1]
    });
    assert!(
        interior_unchanged,
        "deblock altered a non-edge interior chroma column"
    );
}

#[test]
fn deblock_444_chroma_skips_zero_bs_edge() {
    let pps = make_pps();
    let mut pic = Picture::new(32, 16, 3, 8, 8);
    for y in 0..16 {
        for x in 0..32 {
            pic.set_luma(x, y, 110);
            let v = if x < 16 { 100 } else { 116 };
            pic.set_cb(x, y, v);
            pic.set_cr(x, y, v);
        }
    }
    let mut grid = MbGrid::new(2, 1);
    for addr in 0..2u32 {
        if let Some(info) = grid.get_mut(addr) {
            info.available = true;
            info.is_intra = false;
            info.qp_y = 46;
            info.luma_nonzero_4x4 = 0;
            info.ref_idx_l0 = [0; 4];
            info.ref_idx_l1 = [-1; 4];
            info.ref_poc_l0 = [0; 4];
        }
    }
    let before_cb = pic.cb_values();
    deblock_plane_chroma_444(
        &mut pic,
        &grid,
        0,
        0,
        8,
        &pps,
        false,
        false,
        &[false, false],
    );
    assert_eq!(
        pic.cb_values(),
        before_cb,
        "bS=0 chroma edge must not be filtered at 4:4:4"
    );
}
