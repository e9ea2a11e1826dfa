use h264_recon::geometry::LUMA_4X4_XY;
use h264_recon::intra_modes::{derive_intra_4x4_pred_mode, derive_intra_8x8_pred_mode};
use h264_recon::macroblock_layer::{Intra16x16, Macroblock, MbPred, MbType, PcmSamples};
use h264_recon::mb_grid::{MbGrid, MbInfo};
use h264_recon::neighbours::{gather_samples_4x4, gather_samples_8x8};
use h264_recon::picture::Picture;
use h264_recon::pps::Pps;
use h264_recon::reconstruct::{next_qp_y, reconstruct_slice};
use h264_recon::ref_store::NoRefs;
use h264_recon::scan::inverse_scan_8x8_zigzag;
use h264_recon::slice_data::SliceData;
use h264_recon::slice_header::{SliceHeader, SliceType};
use h264_recon::sps::Sps;

fn blank_mb() -> Macroblock {
    Macroblock {
        mb_type: MbType::INxN,
        mb_type_raw: 0,
        mb_pred: None,
        sub_mb_pred: None,
        pcm_samples: None,
        coded_block_pattern: 0,
        transform_size_8x8_flag: false,
        mb_qp_delta: 0,
        residual_luma: Vec::new(),
        residual_luma_dc: None,
        residual_chroma_dc_cb: Vec::new(),
        residual_chroma_dc_cr: Vec::new(),
        residual_chroma_ac_cb: Vec::new(),
        residual_chroma_ac_cr: Vec::new(),
        residual_cb_luma_like: Vec::new(),
        residual_cr_luma_like: Vec::new(),
        residual_cb_16x16_dc: None,
        residual_cr_16x16_dc: None,
        is_skip: false,
    }
}

fn make_sps() -> Sps {
    Sps {
        chroma_format_idc: 1,
        separate_colour_plane_flag: false,
        bit_depth_luma_minus8: 0,
        bit_depth_chroma_minus8: 0,
        qpprime_y_zero_transform_bypass_flag: false,
        seq_scaling_lists: None,
        mb_adaptive_frame_field_flag: false,
        direct_8x8_inference_flag: false,
    }
}

fn make_pps() -> Pps {
    Pps {
        slice_group_map: None,
        weighted_pred_flag: false,
        weighted_bipred_idc: 0,
        pic_init_qp_minus26: 0,
        pic_init_qs_minus26: 0,
        chroma_qp_index_offset: 0,
        constrained_intra_pred_flag: false,
        extension: None,
    }
}

fn make_slice_header() -> SliceHeader {
    SliceHeader {
        first_mb_in_slice: 0,
        slice_type: SliceType::I,
        colour_plane_id: 0,
        field_pic_flag: false,
        bottom_field_flag: false,
        direct_spatial_mv_pred_flag: false,
        pred_weight_table: None,
        slice_qp_delta: 0,
        sp_for_switch_flag: false,
        slice_qs_delta: 0,
        disable_deblocking_filter_idc: 1,
        slice_alpha_c0_offset_div2: 0,
        slice_beta_offset_div2: 0,
    }
}

fn make_empty_ipcm_mb() -> Macroblock {
    let mut luma = vec![0u32; 256];
    for (i, slot) in luma.iter_mut().enumerate() {
        *slot = (i as u32) & 0xFF;
    }
    let cb = vec![100u32; 64];
    let cr = vec![200u32; 64];
    Macroblock {
        mb_type: MbType::IPcm,
        mb_type_raw: 25,
        pcm_samples: Some(PcmSamples {
            luma,
            chroma_cb: cb,
            chroma_cr: cr,
        }),
        ..blank_mb()
    }
}

fn make_intra16x16_dc_mb(pred_mode: u8) -> Macroblock {
    Macroblock {
        mb_type: MbType::Intra16x16(Intra16x16 {
            pred_mode,
            cbp_luma: 0,
            cbp_chroma: 0,
        }),
        mb_type_raw: 1,
        mb_pred: Some(MbPred::default()),
        residual_luma_dc: Some([0i32; 16]),
        residual_chroma_dc_cb: vec![0i32; 4],
        residual_chroma_dc_cr: vec![0i32; 4],
        ..blank_mb()
    }
}

fn mk_intra4x4_info(mode: u8) -> MbInfo {
    MbInfo {
        available: true,
        is_intra: true,
        is_i_pcm: false,
        is_intra_nxn: true,
        mb_type_raw: 0,
        intra_4x4_pred_modes: [mode; 16],
        ..MbInfo::default()
    }
}

fn mk_intra8x8_info(mode: u8) -> MbInfo {
    MbInfo {
        available: true,
        is_intra: true,
        is_i_pcm: false,
        is_intra_nxn: true,
        mb_type_raw: 0,
        transform_size_8x8_flag: true,
        intra_8x8_pred_modes: [mode; 4],
        ..MbInfo::default()
    }
}

#[test]
fn next_qp_y_8bit_reduces_to_mod52() {
    assert_eq!(next_qp_y(28, 0, 0), 28);
    assert_eq!(next_qp_y(28, 5, 0), 33);
    assert_eq!(next_qp_y(28, -10, 0), 18);
    assert_eq!(next_qp_y(51, 1, 0), 0);
    assert_eq!(next_qp_y(0, -1, 0), 51);
    for prev in 0..=51 {
        for delta in -39..=39 {
            let q = next_qp_y(prev, delta, 0);
            assert!((0..=51).contains(&q), "8-bit QP_Y {q} out of 0..=51");
        }
    }
}

#[test]
fn next_qp_y_10bit_eq_8_309() {
    assert_eq!(next_qp_y(39, -11, 2), 28);
    assert_eq!(next_qp_y(39, 0, 2), 39);
    assert_eq!(next_qp_y(0, -12, 2), -12);
    assert_eq!(next_qp_y(51, 1, 2), -12);
    assert_eq!(next_qp_y(-12, -1, 2), 51);
    for prev in -12..=51 {
        for delta in -45..=45 {
            let q = next_qp_y(prev, delta, 2);
            assert!((-12..=51).contains(&q), "10-bit QP_Y {q} out of -12..=51");
        }
    }
}

#[test]
fn next_qp_y_12bit_eq_8_309() {
    assert_eq!(next_qp_y(0, 0, 4), 0);
    assert_eq!(next_qp_y(0, -24, 4), -24);
    assert_eq!(next_qp_y(51, 1, 4), -24);
    assert_eq!(next_qp_y(-24, -1, 4), 51);
    for prev in -24..=51 {
        for delta in -50..=50 {
            let q = next_qp_y(prev, delta, 4);
            assert!((-24..=51).contains(&q), "12-bit QP_Y {q} out of -24..=51");
        }
    }
}

#[test]
fn i_pcm_macroblock_is_copied_into_picture() {
    let sps = make_sps();
    let pps = make_pps();
    let sh = make_slice_header();
    let mb = make_empty_ipcm_mb();
    let slice_data = SliceData {
        macroblocks: vec![mb],
        mb_field_decoding_flags: vec![false],
        last_mb_addr: 0,
    };
    let mut pic = Picture::new(16, 16, 1, 8, 8);
    let mut grid = MbGrid::new(1, 1);
    reconstruct_slice(&slice_data, &sh, &sps, &pps, &NoRefs, &mut pic, &mut grid).unwrap();

    for y in 0..16 {
        for x in 0..16 {
            let expected = (y * 16 + x) & 0xFF;
            assert_eq!(pic.luma_at(x, y), expected, "mismatch at ({}, {})", x, y);
        }
    }
    for y in 0..8 {
        for x in 0..8 {
            assert_eq!(pic.cb_at(x, y), 100);
            assert_eq!(pic.cr_at(x, y), 200);
        }
    }
    let info = grid.get(0).unwrap();
    assert!(info.available);
    assert!(info.is_intra);
    assert!(info.is_i_pcm);
}

#[test]
fn intra_16x16_dc_zero_residual_falls_back_to_default_dc() {
    let sps = make_sps();
    let pps = make_pps();
    let sh = make_slice_header();
    let mb = make_intra16x16_dc_mb(2);
    let slice_data = SliceData {
        macroblocks: vec![mb],
        mb_field_decoding_flags: vec![false],
        last_mb_addr: 0,
    };
    let mut pic = Picture::new(16, 16, 1, 8, 8);
    let mut grid = MbGrid::new(1, 1);
    reconstruct_slice(&slice_data, &sh, &sps, &pps, &NoRefs, &mut pic, &mut grid).unwrap();

    for y in 0..16 {
        for x in 0..16 {
            assert_eq!(
                pic.luma_at(x, y),
                128,
                "mismatch at ({}, {}): expected DC=128",
                x,
                y
            );
        }
    }
}

#[test]
fn intra_4x4_zero_residual_vertical_pred_from_top() {
    let sps = make_sps();
    let pps = make_pps();
    let sh = make_slice_header();

    let mut luma = vec![0u32; 256];
    for x in 0..16 {
        luma[15 * 16 + x] = 50 + x as u32;
    }
    let cb = vec![128u32; 64];
    let cr = vec![128u32; 64];
    let mb_top = Macroblock {
        mb_type: MbType::IPcm,
        mb_type_raw: 25,
        pcm_samples: Some(PcmSamples {
            luma,
            chroma_cb: cb,
            chroma_cr: cr,
        }),
        ..blank_mb()
    };

    let mut pred = MbPred::default();
    for i in 0..16 {
        let left_col = matches!(i, 0 | 2 | 8 | 10);
        if left_col {
            pred.prev_intra4x4_pred_mode_flag[i] = false;
            pred.rem_intra4x4_pred_mode[i] = 0;
        } else {
            pred.prev_intra4x4_pred_mode_flag[i] = true;
            pred.rem_intra4x4_pred_mode[i] = 0;
        }
    }
    pred.intra_chroma_pred_mode = 0;
    let mb_bot = Macroblock {
        mb_type: MbType::INxN,
        mb_type_raw: 0,
        mb_pred: Some(pred),
        residual_chroma_dc_cb: vec![0i32; 4],
        residual_chroma_dc_cr: vec![0i32; 4],
        ..blank_mb()
    };

    let slice_data = SliceData {
        macroblocks: vec![mb_top, mb_bot],
        mb_field_decoding_flags: vec![false, false],
        last_mb_addr: 1,
    };
    let mut pic = Picture::new(16, 32, 1, 8, 8);
    let mut grid = MbGrid::new(1, 2);
    reconstruct_slice(&slice_data, &sh, &sps, &pps, &NoRefs, &mut pic, &mut grid).unwrap();

    for x in 0..16 {
        assert_eq!(pic.luma_at(x, 15), (50 + x));
    }
    for y in 16..32 {
        for x in 0..16 {
            assert_eq!(
                pic.luma_at(x, y),
                (50 + x),
                "bottom MB at ({}, {}) should replicate the top row",
                x,
                y
            );
        }
    }
}

#[test]
fn intra_8x8_zero_residual_dc_fallback_produces_dc_prediction() {
    let sps = make_sps();
    let pps = make_pps();
    let sh = make_slice_header();

    let mut pred = MbPred::default();
    for i in 0..4 {
        pred.prev_intra8x8_pred_mode_flag[i] = true;
        pred.rem_intra8x8_pred_mode[i] = 0;
    }
    pred.intra_chroma_pred_mode = 0;
    let mb = Macroblock {
        mb_type: MbType::INxN,
        mb_type_raw: 0,
        mb_pred: Some(pred),
        transform_size_8x8_flag: true,
        residual_chroma_dc_cb: vec![0i32; 4],
        residual_chroma_dc_cr: vec![0i32; 4],
        ..blank_mb()
    };
    let slice_data = SliceData {
        macroblocks: vec![mb],
        mb_field_decoding_flags: vec![false],
        last_mb_addr: 0,
    };
    let mut pic = Picture::new(16, 16, 1, 8, 8);
    let mut grid = MbGrid::new(1, 1);
    reconstruct_slice(&slice_data, &sh, &sps, &pps, &NoRefs, &mut pic, &mut grid).unwrap();

    for y in 0..16 {
        for x in 0..16 {
            assert_eq!(
                pic.luma_at(x, y),
                128,
                "intra_8x8 DC with no neighbours and zero residual \
                 should produce 128 at ({}, {})",
                x,
                y
            );
        }
    }
}

#[test]
fn intra_4x4_derivation_top_left_block0_with_no_neighbours_predicts_dc() {
    let grid = MbGrid::new(1, 1);
    let mut pred = MbPred::default();
    pred.prev_intra4x4_pred_mode_flag[0] = true;
    let mode = derive_intra_4x4_pred_mode(&grid, 0, 0, &pred, false, -1);
    assert_eq!(mode, 2, "expected DC when both A and B are unavailable");
}

#[test]
fn intra_4x4_derivation_within_mb_uses_a_block_pred_mode() {
    let mut grid = MbGrid::new(1, 1);
    if let Some(info) = grid.get_mut(0) {
        *info = mk_intra4x4_info(0);
    }
    let mut pred = MbPred::default();
    pred.prev_intra4x4_pred_mode_flag[1] = false;
    pred.rem_intra4x4_pred_mode[1] = 3;
    let mode = derive_intra_4x4_pred_mode(&grid, 0, 1, &pred, false, -1);
    assert_eq!(mode, 4);
}

#[test]
fn intra_4x4_derivation_rem_less_than_predicted_yields_rem() {
    let mut grid = MbGrid::new(2, 1);
    if let Some(info) = grid.get_mut(0) {
        *info = mk_intra4x4_info(5);
    }
    let mut pred = MbPred::default();
    pred.prev_intra4x4_pred_mode_flag[0] = false;
    pred.rem_intra4x4_pred_mode[0] = 0;
    let mode = derive_intra_4x4_pred_mode(&grid, 1, 0, &pred, false, -1);
    assert_eq!(mode, 0);
}

#[test]
fn intra_4x4_derivation_both_neighbours_intra_4x4_uses_min_of_modes() {
    let mut grid = MbGrid::new(3, 3);
    if let Some(info) = grid.get_mut(3) {
        *info = mk_intra4x4_info(7);
    }
    if let Some(info) = grid.get_mut(1) {
        *info = mk_intra4x4_info(3);
    }
    let mut pred = MbPred::default();
    pred.prev_intra4x4_pred_mode_flag[0] = false;
    pred.rem_intra4x4_pred_mode[0] = 1;
    let mode = derive_intra_4x4_pred_mode(&grid, 4, 0, &pred, false, -1);
    assert_eq!(mode, 1);
}

#[test]
fn intra_4x4_derivation_rem_equal_or_greater_than_predicted_adds_one() {
    let mut grid = MbGrid::new(3, 3);
    if let Some(info) = grid.get_mut(3) {
        *info = mk_intra4x4_info(7);
    }
    if let Some(info) = grid.get_mut(1) {
        *info = mk_intra4x4_info(3);
    }
    let mut pred = MbPred::default();
    pred.prev_intra4x4_pred_mode_flag[0] = false;
    pred.rem_intra4x4_pred_mode[0] = 3;
    assert_eq!(derive_intra_4x4_pred_mode(&grid, 4, 0, &pred, false, -1), 4);
    pred.rem_intra4x4_pred_mode[0] = 5;
    assert_eq!(derive_intra_4x4_pred_mode(&grid, 4, 0, &pred, false, -1), 6);
}

#[test]
fn intra_4x4_derivation_constrained_intra_pred_treats_inter_as_unavailable() {
    let mut grid = MbGrid::new(3, 3);
    if let Some(info) = grid.get_mut(3) {
        info.available = true;
        info.is_intra = false;
    }
    if let Some(info) = grid.get_mut(1) {
        *info = mk_intra4x4_info(6);
    }
    let mut pred = MbPred::default();
    pred.prev_intra4x4_pred_mode_flag[0] = true;
    assert_eq!(derive_intra_4x4_pred_mode(&grid, 4, 0, &pred, false, -1), 2);
    if let Some(info) = grid.get_mut(3) {
        *info = mk_intra4x4_info(0);
    }
    assert_eq!(derive_intra_4x4_pred_mode(&grid, 4, 0, &pred, false, -1), 0);
    assert_eq!(derive_intra_4x4_pred_mode(&grid, 4, 0, &pred, true, -1), 0);
    if let Some(info) = grid.get_mut(3) {
        info.available = true;
        info.is_intra = false;
    }
    assert_eq!(derive_intra_4x4_pred_mode(&grid, 4, 0, &pred, true, -1), 2);
}

#[test]
fn intra_4x4_derivation_intra_16x16_neighbour_contributes_dc() {
    let mut grid = MbGrid::new(3, 3);
    if let Some(info) = grid.get_mut(3) {
        info.available = true;
        info.is_intra = true;
        info.is_i_pcm = false;
        info.is_intra_nxn = false;
        info.mb_type_raw = 4;
        info.intra_4x4_pred_modes = [5; 16];
    }
    if let Some(info) = grid.get_mut(1) {
        *info = mk_intra4x4_info(7);
    }
    let mut pred = MbPred::default();
    pred.prev_intra4x4_pred_mode_flag[0] = true;
    assert_eq!(derive_intra_4x4_pred_mode(&grid, 4, 0, &pred, false, -1), 2);
}

#[test]
fn intra_4x4_derivation_i_slice_raw5_is_intra_16x16_not_i_nxn() {
    let mut grid = MbGrid::new(3, 3);
    if let Some(info) = grid.get_mut(1) {
        info.available = true;
        info.is_intra = true;
        info.is_i_pcm = false;
        info.is_intra_nxn = false;
        info.mb_type_raw = 5;
        info.intra_4x4_pred_modes = [7; 16];
        info.intra_8x8_pred_modes = [7; 4];
    }
    if let Some(info) = grid.get_mut(3) {
        *info = mk_intra4x4_info(3);
    }
    let mut pred = MbPred::default();
    pred.prev_intra4x4_pred_mode_flag[0] = true;
    assert_eq!(derive_intra_4x4_pred_mode(&grid, 4, 0, &pred, false, -1), 2);
}

#[test]
fn intra_4x4_derivation_intra_8x8_neighbour_uses_blk_shr_2() {
    let mut grid = MbGrid::new(3, 3);
    if let Some(info) = grid.get_mut(3) {
        info.available = true;
        info.is_intra = true;
        info.is_i_pcm = false;
        info.mb_type_raw = 0;
        info.transform_size_8x8_flag = true;
        info.intra_8x8_pred_modes = [1, 2, 3, 4];
    }
    if let Some(info) = grid.get_mut(1) {
        *info = mk_intra4x4_info(6);
    }
    let mut pred = MbPred::default();
    pred.prev_intra4x4_pred_mode_flag[0] = true;
    assert_eq!(derive_intra_4x4_pred_mode(&grid, 4, 0, &pred, false, -1), 2);
}

#[test]
fn intra_8x8_derivation_top_left_blk_0_with_no_neighbours_predicts_dc() {
    let grid = MbGrid::new(1, 1);
    let mut pred = MbPred::default();
    pred.prev_intra8x8_pred_mode_flag[0] = true;
    assert_eq!(derive_intra_8x8_pred_mode(&grid, 0, 0, &pred, false, -1), 2);
}

#[test]
fn intra_8x8_derivation_both_neighbours_intra_8x8_uses_min_of_modes() {
    let mut grid = MbGrid::new(3, 3);
    if let Some(info) = grid.get_mut(3) {
        *info = mk_intra8x8_info(3);
    }
    if let Some(info) = grid.get_mut(1) {
        *info = mk_intra8x8_info(7);
    }
    let mut pred = MbPred::default();
    pred.prev_intra8x8_pred_mode_flag[0] = true;
    assert_eq!(derive_intra_8x8_pred_mode(&grid, 4, 0, &pred, false, -1), 3);
    pred.prev_intra8x8_pred_mode_flag[0] = false;
    pred.rem_intra8x8_pred_mode[0] = 2;
    assert_eq!(derive_intra_8x8_pred_mode(&grid, 4, 0, &pred, false, -1), 2);
    pred.rem_intra8x8_pred_mode[0] = 4;
    assert_eq!(derive_intra_8x8_pred_mode(&grid, 4, 0, &pred, false, -1), 5);
}

#[test]
fn intra_8x8_derivation_intra_4x4_neighbour_uses_eq_8_72_sub_indices() {
    let mut grid = MbGrid::new(3, 3);
    if let Some(info) = grid.get_mut(3) {
        *info = mk_intra4x4_info(0);
        info.intra_4x4_pred_modes[5] = 4;
    }
    if let Some(info) = grid.get_mut(1) {
        *info = mk_intra4x4_info(0);
        info.intra_4x4_pred_modes[10] = 6;
    }
    let mut pred = MbPred::default();
    pred.prev_intra8x8_pred_mode_flag[0] = true;
    assert_eq!(derive_intra_8x8_pred_mode(&grid, 4, 0, &pred, false, -1), 4);
}

#[test]
fn inverse_scan_8x8_zigzag_roundtrip_matches_table_8_14() {
    let mut scan = [0i32; 64];
    scan[0] = 11;
    scan[1] = 12;
    scan[2] = 13;
    scan[7] = 17;
    scan[63] = 77;
    let m = inverse_scan_8x8_zigzag(&scan);
    assert_eq!(m[0], 11, "idx 0 → c00");
    assert_eq!(m[1], 12, "idx 1 → c01");
    assert_eq!(m[8], 13, "idx 2 → c10");
    assert_eq!(m[8 + 2], 17, "idx 7 → c12");
    assert_eq!(m[7 * 8 + 7], 77, "idx 63 → c77");
}

#[test]
fn constrained_intra_pred_flag_forces_inter_neighbour_to_dc() {
    let mut grid = MbGrid::new(3, 3);
    if let Some(info) = grid.get_mut(3) {
        info.available = true;
        info.is_intra = false;
    }
    if let Some(info) = grid.get_mut(1) {
        *info = mk_intra4x4_info(0);
    }
    let mut pred = MbPred::default();
    pred.prev_intra4x4_pred_mode_flag[0] = true;

    let mode_unconstrained = derive_intra_4x4_pred_mode(&grid, 4, 0, &pred, false, -1);
    assert_eq!(
        mode_unconstrained, 0,
        "flag=0: inter-left → mode 2; top=0 → min = 0"
    );

    let mode_constrained = derive_intra_4x4_pred_mode(&grid, 4, 0, &pred, true, -1);
    assert_eq!(
        mode_constrained, 2,
        "flag=1: inter-left unavailable → DC fallback (mode 2)"
    );
    assert_ne!(
        mode_constrained, mode_unconstrained,
        "constrained_intra_pred_flag must change the outcome here"
    );
}

#[test]
fn constrained_intra_pred_flag_plumbed_through_pps() {
    let sps = make_sps();
    let mut pps_on = make_pps();
    pps_on.constrained_intra_pred_flag = true;
    let pps_off = make_pps();
    let sh = make_slice_header();

    let build_nxn_mb = || {
        let mut pred = MbPred::default();
        for i in 0..16 {
            pred.prev_intra4x4_pred_mode_flag[i] = true;
            pred.rem_intra4x4_pred_mode[i] = 0;
        }
        pred.intra_chroma_pred_mode = 0;
        Macroblock {
            mb_type: MbType::INxN,
            mb_type_raw: 0,
            mb_pred: Some(pred),
            residual_chroma_dc_cb: vec![0i32; 4],
            residual_chroma_dc_cr: vec![0i32; 4],
            ..blank_mb()
        }
    };

    for pps in [&pps_off, &pps_on] {
        let slice_data = SliceData {
            macroblocks: vec![build_nxn_mb()],
            mb_field_decoding_flags: vec![false],
            last_mb_addr: 0,
        };
        let mut pic = Picture::new(16, 16, 1, 8, 8);
        let mut grid = MbGrid::new(1, 1);
        reconstruct_slice(&slice_data, &sh, &sps, pps, &NoRefs, &mut pic, &mut grid).unwrap();
    }
}

#[test]
fn gather_samples_4x4_top_right_unavailable_for_scan_boundary_blocks() {
    let pic = Picture::new(64, 32, 1, 8, 8);

    let xy = LUMA_4X4_XY;

    let grid = MbGrid::new(4, 2);
    for (idx, (bx, by)) in xy.iter().copied().enumerate() {
        let s = gather_samples_4x4(&pic, &grid, bx, by, idx, -1, false, 0, bx, by);
        let expected = match idx {
            3 | 7 | 11 | 13 | 15 => false,
            _ if by == 0 => false,
            _ => true,
        };
        assert_eq!(
            s.availability.top_right, expected,
            "blk {} (bx={}, by={}) expected tr={} got {}",
            idx, bx, by, expected, s.availability.top_right
        );
    }
}

#[test]
fn gather_samples_8x8_top_right_unavailable_for_blk3() {
    let pic = Picture::new(64, 32, 1, 8, 8);
    let grid = MbGrid::new(4, 2);
    let s = gather_samples_8x8(&pic, &grid, 8, 8, 3, -1, false, 0, 8, 8);
    assert!(
        !s.availability.top_right,
        "blk8 3: tr should be false (right-neighbour MB not decoded)"
    );
    let s2 = gather_samples_8x8(&pic, &grid, 0, 8, 2, -1, false, 0, 0, 8);
    assert!(s2.availability.top_right);
}

#[test]
fn intra4x4_residual_indexing_respects_cbp_luma_gaps() {
    let sps = make_sps();
    let pps = make_pps();
    let sh = make_slice_header();

    for (cbp, residual_first_at_block) in [(0x7u8, 0usize), (0xEu8, 4usize)] {
        let mut first_entry = [0i32; 16];
        first_entry[0] = 4;
        let n = (cbp & 0x0F).count_ones() as usize * 4;
        let mut residual_luma = Vec::with_capacity(n);
        for i in 0..n {
            if i == 0 {
                residual_luma.push(first_entry);
            } else {
                residual_luma.push([0i32; 16]);
            }
        }
        let mb_pred = MbPred {
            prev_intra4x4_pred_mode_flag: [true; 16],
            rem_intra4x4_pred_mode: [0; 16],
            intra_chroma_pred_mode: 0,
            ..MbPred::default()
        };
        let mb = Macroblock {
            mb_type: MbType::INxN,
            mb_type_raw: 0,
            mb_pred: Some(mb_pred),
            coded_block_pattern: cbp as u32,
            residual_luma,
            ..blank_mb()
        };

        let slice_data = SliceData {
            macroblocks: vec![mb],
            mb_field_decoding_flags: vec![false],
            last_mb_addr: 0,
        };
        let mut pic = Picture::new(16, 16, 1, 8, 8);
        let mut grid = MbGrid::new(1, 1);
        reconstruct_slice(&slice_data, &sh, &sps, &pps, &NoRefs, &mut pic, &mut grid).unwrap();

        let (bx, by) = LUMA_4X4_XY[residual_first_at_block];
        let mut sum = 0i32;
        for y in 0..4 {
            for x in 0..4 {
                sum += pic.luma_at(bx + x, by + y);
            }
        }
        let flat_dc_sum = 128 * 16;
        assert_ne!(
            sum, flat_dc_sum,
            "cbp=0x{:x} block {} should have non-flat output \
             (residual_first_at_block stored in residual_luma[0] must route there)",
            cbp, residual_first_at_block,
        );
        if residual_first_at_block != 0 {
            let (ox, oy) = LUMA_4X4_XY[0];
            let mut other_sum = 0i32;
            for y in 0..4 {
                for x in 0..4 {
                    other_sum += pic.luma_at(ox + x, oy + y);
                }
            }
            assert_eq!(
                other_sum, flat_dc_sum,
                "cbp=0x{:x} block 0 should be flat DC=128 (cbp bit 0 clear)",
                cbp,
            );
        }
    }
}

#[test]
fn intra_4x4_zero_residual_dc_reconstructs_444_chroma() {
    let mut sps = make_sps();
    sps.chroma_format_idc = 3;
    assert_eq!(sps.chroma_array_type(), 3);
    let pps = make_pps();
    let sh = make_slice_header();

    let mut pred = MbPred::default();
    for i in 0..16 {
        pred.prev_intra4x4_pred_mode_flag[i] = true;
        pred.rem_intra4x4_pred_mode[i] = 0;
    }
    pred.intra_chroma_pred_mode = 0;
    let mb = Macroblock {
        mb_type: MbType::INxN,
        mb_type_raw: 0,
        mb_pred: Some(pred),
        ..blank_mb()
    };

    let slice_data = SliceData {
        macroblocks: vec![mb],
        mb_field_decoding_flags: vec![false],
        last_mb_addr: 0,
    };
    let mut pic = Picture::new(16, 16, 3, 8, 8);
    let mut grid = MbGrid::new(1, 1);
    reconstruct_slice(&slice_data, &sh, &sps, &pps, &NoRefs, &mut pic, &mut grid)
        .expect("4:4:4 I_NxN must reconstruct");

    for y in 0..16 {
        for x in 0..16 {
            assert_eq!(pic.luma_at(x, y), 128, "luma DC at ({x},{y})");
            assert_eq!(pic.cb_at(x, y), 128, "Cb DC at ({x},{y})");
            assert_eq!(pic.cr_at(x, y), 128, "Cr DC at ({x},{y})");
        }
    }
}

#[test]
fn intra_8x8_zero_residual_dc_reconstructs_444_chroma() {
    let mut sps = make_sps();
    sps.chroma_format_idc = 3;
    let pps = make_pps();
    let sh = make_slice_header();

    let mut pred = MbPred::default();
    for i in 0..4 {
        pred.prev_intra8x8_pred_mode_flag[i] = true;
        pred.rem_intra8x8_pred_mode[i] = 0;
    }
    pred.intra_chroma_pred_mode = 0;
    let mb = Macroblock {
        mb_type: MbType::INxN,
        mb_type_raw: 0,
        mb_pred: Some(pred),
        transform_size_8x8_flag: true,
        ..blank_mb()
    };

    let slice_data = SliceData {
        macroblocks: vec![mb],
        mb_field_decoding_flags: vec![false],
        last_mb_addr: 0,
    };
    let mut pic = Picture::new(16, 16, 3, 8, 8);
    let mut grid = MbGrid::new(1, 1);
    reconstruct_slice(&slice_data, &sh, &sps, &pps, &NoRefs, &mut pic, &mut grid)
        .expect("4:4:4 Intra_8x8 must reconstruct");

    for y in 0..16 {
        for x in 0..16 {
            assert_eq!(pic.cb_at(x, y), 128, "Cb DC at ({x},{y})");
            assert_eq!(pic.cr_at(x, y), 128, "Cr DC at ({x},{y})");
        }
    }
}
