use h264_recon::geometry::MbWriter;
use h264_recon::intra_modes::neighbour_4x4_addr;
use h264_recon::macroblock_layer::{Intra16x16, Macroblock, MbPred, MbType, PcmSamples};
use h264_recon::mb_address::mb_sample_origin;
use h264_recon::mb_grid::MbGrid;
use h264_recon::picture::Picture;
use h264_recon::pps::Pps;
use h264_recon::reconstruct::reconstruct_slice;
use h264_recon::ref_store::NoRefs;
use h264_recon::slice_data::SliceData;
use h264_recon::slice_header::{SliceHeader, SliceType};
use h264_recon::sps::Sps;

fn blank_mb() -> Macroblock {
    Macroblock {
        mb_type: MbType::INxN,
        mb_type_raw: 0,
        mb_pred: None,
        sub_mb_pred: None,
        pcm_samples: None,
        coded_block_pattern: 0,
        transform_size_8x8_flag: false,
        mb_qp_delta: 0,
        residual_luma: Vec::new(),
        residual_luma_dc: None,
        residual_chroma_dc_cb: Vec::new(),
        residual_chroma_dc_cr: Vec::new(),
        residual_chroma_ac_cb: Vec::new(),
        residual_chroma_ac_cr: Vec::new(),
        residual_cb_luma_like: Vec::new(),
        residual_cr_luma_like: Vec::new(),
        residual_cb_16x16_dc: None,
        residual_cr_16x16_dc: None,
        is_skip: false,
    }
}

fn make_sps() -> Sps {
    Sps {
        chroma_format_idc: 1,
        separate_colour_plane_flag: false,
        bit_depth_luma_minus8: 0,
        bit_depth_chroma_minus8: 0,
        qpprime_y_zero_transform_bypass_flag: false,
        seq_scaling_lists: None,
        mb_adaptive_frame_field_flag: false,
        direct_8x8_inference_flag: false,
    }
}

fn make_pps() -> Pps {
    Pps {
        slice_group_map: None,
        weighted_pred_flag: false,
        weighted_bipred_idc: 0,
        pic_init_qp_minus26: 0,
        pic_init_qs_minus26: 0,
        chroma_qp_index_offset: 0,
        constrained_intra_pred_flag: false,
        extension: None,
    }
}

fn make_slice_header() -> SliceHeader {
    SliceHeader {
        first_mb_in_slice: 0,
        slice_type: SliceType::I,
        colour_plane_id: 0,
        field_pic_flag: false,
        bottom_field_flag: false,
        direct_spatial_mv_pred_flag: false,
        pred_weight_table: None,
        slice_qp_delta: 0,
        sp_for_switch_flag: false,
        slice_qs_delta: 0,
        disable_deblocking_filter_idc: 1,
        slice_alpha_c0_offset_div2: 0,
        slice_beta_offset_div2: 0,
    }
}

fn make_empty_ipcm_mb() -> Macroblock {
    let mut luma = vec![0u32; 256];
    for (i, slot) in luma.iter_mut().enumerate() {
        *slot = (i as u32) & 0xFF;
    }
    let cb = vec![100u32; 64];
    let cr = vec![200u32; 64];
    Macroblock {
        mb_type: MbType::IPcm,
        mb_type_raw: 25,
        pcm_samples: Some(PcmSamples {
            luma,
            chroma_cb: cb,
            chroma_cr: cr,
        }),
        ..blank_mb()
    }
}

fn make_intra16x16_dc_mb(pred_mode: u8) -> Macroblock {
    Macroblock {
        mb_type: MbType::Intra16x16(Intra16x16 {
            pred_mode,
            cbp_luma: 0,
            cbp_chroma: 0,
        }),
        mb_type_raw: 1,
        mb_pred: Some(MbPred::default()),
        residual_luma_dc: Some([0i32; 16]),
        residual_chroma_dc_cb: vec![0i32; 4],
        residual_chroma_dc_cr: vec![0i32; 4],
        ..blank_mb()
    }
}

fn make_mbaff_sps() -> Sps {
    let mut sps = make_sps();
    sps.mb_adaptive_frame_field_flag = true;
    sps
}

#[test]
fn neighbour_4x4_mbaff_uses_pair_interleaved_addressing() {
    let mut grid = MbGrid::new(2, 4);
    grid.mbaff_frame_flag = true;
    for info in grid.info.iter_mut() {
        info.available = true;
        info.mb_field_decoding_flag = false;
    }

    let left = neighbour_4x4_addr(&grid, 5, 0, 0, -1, 0);
    assert!(
        left.is_none(),
        "addr 5 is in pair column 0 → no left pair (A unavailable), got {left:?}"
    );

    let above = neighbour_4x4_addr(&grid, 4, 0, 0, 0, -1);
    assert_eq!(
        above.map(|(a, _)| a),
        Some(1),
        "above neighbour of MBAFF addr 4 (top of lower-left pair) is addr 1 (bottom of upper-left pair)"
    );

    let left2 = neighbour_4x4_addr(&grid, 2, 0, 0, -1, 0);
    assert_eq!(
        left2.map(|(a, _)| a),
        Some(0),
        "left neighbour of MBAFF addr 2 is addr 0"
    );
}

#[test]
fn reconstruct_slice_accepts_mbaff_frames() {
    let sps = make_mbaff_sps();
    let pps = make_pps();
    let sh = make_slice_header();
    let mb0 = make_empty_ipcm_mb();
    let mb1 = make_empty_ipcm_mb();
    let slice_data = SliceData {
        macroblocks: vec![mb0, mb1],
        mb_field_decoding_flags: vec![false, false],
        last_mb_addr: 1,
    };
    let mut pic = Picture::new(16, 32, 1, 8, 8);
    let mut grid = MbGrid::new(1, 2);
    reconstruct_slice(&slice_data, &sh, &sps, &pps, &NoRefs, &mut pic, &mut grid)
        .expect("MBAFF frame reconstruction must succeed");
}

#[test]
fn reconstruct_mbaff_frame_mb_pair_places_samples_in_stacked_layout() {
    let sps = make_mbaff_sps();
    let pps = make_pps();
    let sh = make_slice_header();
    let mut mb_top = make_empty_ipcm_mb();
    let mut mb_bot = make_empty_ipcm_mb();
    for v in mb_top.pcm_samples.as_mut().unwrap().luma.iter_mut() {
        *v = 10;
    }
    for v in mb_bot.pcm_samples.as_mut().unwrap().luma.iter_mut() {
        *v = 20;
    }
    let slice_data = SliceData {
        macroblocks: vec![mb_top, mb_bot],
        mb_field_decoding_flags: vec![false, false],
        last_mb_addr: 1,
    };
    let mut pic = Picture::new(16, 32, 1, 8, 8);
    let mut grid = MbGrid::new(1, 2);
    reconstruct_slice(&slice_data, &sh, &sps, &pps, &NoRefs, &mut pic, &mut grid).unwrap();

    for y in 0..16 {
        for x in 0..16 {
            assert_eq!(
                pic.luma_at(x, y),
                10,
                "frame-MB pair top: expected 10 at ({}, {})",
                x,
                y
            );
        }
    }
    for y in 16..32 {
        for x in 0..16 {
            assert_eq!(
                pic.luma_at(x, y),
                20,
                "frame-MB pair bottom: expected 20 at ({}, {})",
                x,
                y
            );
        }
    }
}

#[test]
fn reconstruct_mbaff_field_mb_pair_does_not_error() {
    let sps = make_mbaff_sps();
    let pps = make_pps();
    let sh = make_slice_header();
    let mb_top = make_empty_ipcm_mb();
    let mb_bot = make_empty_ipcm_mb();
    let slice_data = SliceData {
        macroblocks: vec![mb_top, mb_bot],
        mb_field_decoding_flags: vec![true, true],
        last_mb_addr: 1,
    };
    let mut pic = Picture::new(16, 32, 1, 8, 8);
    let mut grid = MbGrid::new(1, 2);
    reconstruct_slice(&slice_data, &sh, &sps, &pps, &NoRefs, &mut pic, &mut grid)
        .expect("MBAFF field pair reconstruction must succeed");
}

#[test]
fn reconstruct_mbaff_intra16x16_pair_dc_fills_both_mbs() {
    let sps = make_mbaff_sps();
    let pps = make_pps();
    let sh = make_slice_header();
    let mb_top = make_intra16x16_dc_mb(2);
    let mb_bot = make_intra16x16_dc_mb(2);
    let slice_data = SliceData {
        macroblocks: vec![mb_top, mb_bot],
        mb_field_decoding_flags: vec![false, false],
        last_mb_addr: 1,
    };
    let mut pic = Picture::new(16, 32, 1, 8, 8);
    let mut grid = MbGrid::new(1, 2);
    reconstruct_slice(&slice_data, &sh, &sps, &pps, &NoRefs, &mut pic, &mut grid).unwrap();

    for y in 0..32 {
        for x in 0..16 {
            assert_eq!(
                pic.luma_at(x, y),
                128,
                "intra-16x16 DC fallback in MBAFF: expected 128 at ({}, {})",
                x,
                y
            );
        }
    }
}

#[test]
fn mbaff_field_mb_y_stride_interleaves_top_and_bottom() {
    let sps = make_mbaff_sps();
    let pps = make_pps();
    let sh = make_slice_header();
    let mut mb_top = make_empty_ipcm_mb();
    let mut mb_bot = make_empty_ipcm_mb();
    for v in mb_top.pcm_samples.as_mut().unwrap().luma.iter_mut() {
        *v = 10;
    }
    for v in mb_bot.pcm_samples.as_mut().unwrap().luma.iter_mut() {
        *v = 20;
    }
    let slice_data = SliceData {
        macroblocks: vec![mb_top, mb_bot],
        mb_field_decoding_flags: vec![true, true],
        last_mb_addr: 1,
    };
    let mut pic = Picture::new(16, 32, 1, 8, 8);
    let mut grid = MbGrid::new(1, 2);
    reconstruct_slice(&slice_data, &sh, &sps, &pps, &NoRefs, &mut pic, &mut grid).unwrap();

    for k in 0..16 {
        let y = k * 2;
        for x in 0..16 {
            assert_eq!(
                pic.luma_at(x, y),
                10,
                "field-MB top: sample (x={}, y={}) (row k={}) expected 10",
                x,
                y,
                k
            );
        }
    }
    for k in 0..16 {
        let y = k * 2 + 1;
        for x in 0..16 {
            assert_eq!(
                pic.luma_at(x, y),
                20,
                "field-MB bottom: sample (x={}, y={}) (row k={}) expected 20",
                x,
                y,
                k
            );
        }
    }
}

#[test]
fn mbaff_field_mb_writer_places_samples_per_eq_6_10() {
    let grid = MbGrid::new(1, 2);
    let mut pic = Picture::new(16, 32, 1, 8, 8);

    let (mb_px_top, mb_py_top) = mb_sample_origin(&grid, 0, true, true);
    assert_eq!((mb_px_top, mb_py_top), (0, 0), "top-of-pair field origin");
    let w_top = MbWriter::new(&grid, 0, mb_px_top, mb_py_top, true, true, 1);
    w_top.set_luma(&mut pic, 0, 0, 111);
    w_top.set_luma(&mut pic, 0, 1, 222);

    let (mb_px_bot, mb_py_bot) = mb_sample_origin(&grid, 1, true, true);
    assert_eq!((mb_px_bot, mb_py_bot), (0, 1), "bot-of-pair field origin");
    let w_bot = MbWriter::new(&grid, 1, mb_px_bot, mb_py_bot, true, true, 1);
    w_bot.set_luma(&mut pic, 0, 0, 77);

    assert_eq!(pic.luma_at(0, 0), 111, "top MB (0, 0) → picture (0, 0)");
    assert_eq!(pic.luma_at(0, 2), 222, "top MB (0, 1) → picture (0, 2)");
    assert_eq!(pic.luma_at(0, 1), 77, "bot MB (0, 0) → picture (0, 1)");
}

#[test]
fn mbaff_deblocking_completes_without_panic() {
    let sps = make_mbaff_sps();
    let pps = make_pps();
    let mut sh = make_slice_header();
    sh.disable_deblocking_filter_idc = 0;
    sh.slice_qp_delta = 20;
    let mb_top = make_intra16x16_dc_mb(2);
    let mb_bot = make_intra16x16_dc_mb(2);
    let slice_data = SliceData {
        macroblocks: vec![mb_top, mb_bot],
        mb_field_decoding_flags: vec![false, false],
        last_mb_addr: 1,
    };
    let mut pic = Picture::new(16, 32, 1, 8, 8);
    let mut grid = MbGrid::new(1, 2);
    reconstruct_slice(&slice_data, &sh, &sps, &pps, &NoRefs, &mut pic, &mut grid)
        .expect("MBAFF + deblocking must complete without error");
}

#[test]
fn mbaff_field_pair_deblocking_completes_without_panic() {
    let sps = make_mbaff_sps();
    let pps = make_pps();
    let mut sh = make_slice_header();
    sh.disable_deblocking_filter_idc = 0;
    sh.slice_qp_delta = 20;
    let mb_top = make_intra16x16_dc_mb(2);
    let mb_bot = make_intra16x16_dc_mb(2);
    let slice_data = SliceData {
        macroblocks: vec![mb_top, mb_bot],
        mb_field_decoding_flags: vec![true, true],
        last_mb_addr: 1,
    };
    let mut pic = Picture::new(16, 32, 1, 8, 8);
    let mut grid = MbGrid::new(1, 2);
    reconstruct_slice(&slice_data, &sh, &sps, &pps, &NoRefs, &mut pic, &mut grid)
        .expect("MBAFF field pair + deblocking must complete without error");
}
