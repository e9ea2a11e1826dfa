use h264_recon::error::ReconstructError;
use h264_recon::inter_pred::{
    implicit_bipred_weights, mc_chroma_partition, mc_chroma_partition_444, mc_luma_partition,
};
use h264_recon::macroblock_layer::{Macroblock, MbPred, MbType, SubMbPred, SubMbType};
use h264_recon::mb_grid::MbGrid;
use h264_recon::mv_deriv::Mv;
use h264_recon::picture::Picture;
use h264_recon::pps::Pps;
use h264_recon::reconstruct::reconstruct_slice;
use h264_recon::ref_store::{NoRefs, RefPicStore};
use h264_recon::slice_data::SliceData;
use h264_recon::slice_header::{PredWeightTable, SliceHeader, SliceType};
use h264_recon::sps::Sps;

fn blank_mb() -> Macroblock {
    Macroblock {
        mb_type: MbType::INxN,
        mb_type_raw: 0,
        mb_pred: None,
        sub_mb_pred: None,
        pcm_samples: None,
        coded_block_pattern: 0,
        transform_size_8x8_flag: false,
        mb_qp_delta: 0,
        residual_luma: Vec::new(),
        residual_luma_dc: None,
        residual_chroma_dc_cb: Vec::new(),
        residual_chroma_dc_cr: Vec::new(),
        residual_chroma_ac_cb: Vec::new(),
        residual_chroma_ac_cr: Vec::new(),
        residual_cb_luma_like: Vec::new(),
        residual_cr_luma_like: Vec::new(),
        residual_cb_16x16_dc: None,
        residual_cr_16x16_dc: None,
        is_skip: false,
    }
}

fn make_sps() -> Sps {
    Sps {
        chroma_format_idc: 1,
        separate_colour_plane_flag: false,
        bit_depth_luma_minus8: 0,
        bit_depth_chroma_minus8: 0,
        qpprime_y_zero_transform_bypass_flag: false,
        seq_scaling_lists: None,
        mb_adaptive_frame_field_flag: false,
        direct_8x8_inference_flag: false,
    }
}

fn make_pps() -> Pps {
    Pps {
        slice_group_map: None,
        weighted_pred_flag: false,
        weighted_bipred_idc: 0,
        pic_init_qp_minus26: 0,
        pic_init_qs_minus26: 0,
        chroma_qp_index_offset: 0,
        constrained_intra_pred_flag: false,
        extension: None,
    }
}

fn make_slice_header() -> SliceHeader {
    SliceHeader {
        first_mb_in_slice: 0,
        slice_type: SliceType::I,
        colour_plane_id: 0,
        field_pic_flag: false,
        bottom_field_flag: false,
        direct_spatial_mv_pred_flag: false,
        pred_weight_table: None,
        slice_qp_delta: 0,
        sp_for_switch_flag: false,
        slice_qs_delta: 0,
        disable_deblocking_filter_idc: 1,
        slice_alpha_c0_offset_div2: 0,
        slice_beta_offset_div2: 0,
    }
}

fn make_p_slice_header() -> SliceHeader {
    let mut sh = make_slice_header();
    sh.slice_type = SliceType::P;
    sh
}

fn make_b_slice_header() -> SliceHeader {
    let mut sh = make_slice_header();
    sh.slice_type = SliceType::B;
    sh
}

fn make_ref_pic<F: FnMut(i32, i32) -> i32>(w: u32, h: u32, mut f: F) -> Picture {
    let mut p = Picture::new(w, h, 1, 8, 8);
    for y in 0..h as i32 {
        for x in 0..w as i32 {
            p.set_luma(x, y, f(x, y));
        }
    }
    for y in 0..(h / 2) as i32 {
        for x in 0..(w / 2) as i32 {
            p.set_cb(x, y, 128);
            p.set_cr(x, y, 128);
        }
    }
    p
}

fn make_p_l0_16x16(ref_idx: u32, mvd: [i32; 2]) -> Macroblock {
    let pred = MbPred {
        ref_idx_l0: vec![ref_idx],
        mvd_l0: vec![mvd],
        ..MbPred::default()
    };
    Macroblock {
        mb_type: MbType::PL016x16,
        mb_type_raw: 0,
        mb_pred: Some(pred),
        residual_chroma_dc_cb: vec![0i32; 4],
        residual_chroma_dc_cr: vec![0i32; 4],
        ..blank_mb()
    }
}

fn make_pwt_single_entry(
    log2wd_y: u32,
    log2wd_c: u32,
    l0: Option<(i32, i32)>,
    l1: Option<(i32, i32)>,
    chroma_l0: Option<(i32, i32, i32, i32)>,
    chroma_l1: Option<(i32, i32, i32, i32)>,
) -> PredWeightTable {
    PredWeightTable {
        luma_log2_weight_denom: log2wd_y,
        chroma_log2_weight_denom: log2wd_c,
        luma_weights_l0: vec![l0],
        chroma_weights_l0: vec![chroma_l0.map(|(a, b, c, d)| [(a, b), (c, d)])],
        luma_weights_l1: vec![l1],
        chroma_weights_l1: vec![chroma_l1.map(|(a, b, c, d)| [(a, b), (c, d)])],
    }
}

fn make_b_bi_16x16(ref_idx_l0: u32, ref_idx_l1: u32) -> Macroblock {
    let pred = MbPred {
        ref_idx_l0: vec![ref_idx_l0],
        ref_idx_l1: vec![ref_idx_l1],
        mvd_l0: vec![[0, 0]],
        mvd_l1: vec![[0, 0]],
        ..MbPred::default()
    };
    Macroblock {
        mb_type: MbType::BBi16x16,
        mb_type_raw: 3,
        mb_pred: Some(pred),
        residual_chroma_dc_cb: vec![0i32; 4],
        residual_chroma_dc_cr: vec![0i32; 4],
        ..blank_mb()
    }
}

#[test]
fn p_skip_with_empty_refs_returns_missing_ref_pic() {
    let sps = make_sps();
    let pps = make_pps();
    let sh = make_p_slice_header();
    let mb = Macroblock::new_skip(SliceType::P);
    let slice_data = SliceData {
        macroblocks: vec![mb],
        mb_field_decoding_flags: vec![false],
        last_mb_addr: 0,
    };
    let mut pic = Picture::new(16, 16, 1, 8, 8);
    let mut grid = MbGrid::new(1, 1);
    let err = reconstruct_slice(&slice_data, &sh, &sps, &pps, &NoRefs, &mut pic, &mut grid)
        .unwrap_err();
    match err {
        ReconstructError::MissingRefPic { list, idx } => {
            assert_eq!(list, 0);
            assert_eq!(idx, 0);
        }
        other => panic!("unexpected error: {:?}", other),
    }
}

#[test]
fn p_l0_16x16_zero_mv_copies_reference_plane() {
    let sps = make_sps();
    let pps = make_pps();
    let sh = make_p_slice_header();

    let ref_pic = make_ref_pic(16, 16, |x, y| (y * 16 + x) & 0xFF);
    let mut store = RefPicStore::new();
    store.insert(0, ref_pic);
    store.set_list_0(vec![0]);

    let mb = make_p_l0_16x16(0, [0, 0]);
    let slice_data = SliceData {
        macroblocks: vec![mb],
        mb_field_decoding_flags: vec![false],
        last_mb_addr: 0,
    };
    let mut pic = Picture::new(16, 16, 1, 8, 8);
    let mut grid = MbGrid::new(1, 1);
    reconstruct_slice(&slice_data, &sh, &sps, &pps, &store, &mut pic, &mut grid).unwrap();
    for y in 0..16 {
        for x in 0..16 {
            let expected = (y * 16 + x) & 0xFF;
            assert_eq!(pic.luma_at(x, y), expected, "mismatch at ({}, {})", x, y);
        }
    }
}

#[test]
fn p_l0_16x16_half_pel_horizontal_mv_matches_6tap() {
    let sps = make_sps();
    let pps = make_pps();
    let sh = make_p_slice_header();

    let mut ref_pic = Picture::new(32, 32, 1, 8, 8);
    for (i, v) in [10, 20, 30, 40, 50, 60].iter().enumerate() {
        ref_pic.set_luma(8 + i as i32, 8, *v);
    }
    for y in 0..16 {
        for x in 0..16 {
            ref_pic.set_cb(x, y, 128);
            ref_pic.set_cr(x, y, 128);
        }
    }
    let mut store = RefPicStore::new();
    store.insert(0, ref_pic);
    store.set_list_0(vec![0]);

    let mb = make_p_l0_16x16(0, [2, 0]);
    let slice_data = SliceData {
        macroblocks: vec![mb],
        mb_field_decoding_flags: vec![false],
        last_mb_addr: 0,
    };
    let mut pic = Picture::new(16, 16, 1, 8, 8);
    let mut grid = MbGrid::new(1, 1);
    reconstruct_slice(&slice_data, &sh, &sps, &pps, &store, &mut pic, &mut grid).unwrap();
    assert_eq!(pic.luma_at(10, 8), 35);
}

#[test]
fn p_8x8_with_b_direct_sub_partitions_runs_without_error() {
    let sps = make_sps();
    let pps = make_pps();
    let sh = make_p_slice_header();

    let ref_pic = make_ref_pic(16, 16, |_, _| 50);
    let mut store = RefPicStore::new();
    store.insert(0, ref_pic);
    store.set_list_0(vec![0]);

    let mut smp = SubMbPred::default();
    for i in 0..4 {
        smp.sub_mb_type[i] = SubMbType::BDirect8x8;
        smp.ref_idx_l0[i] = 0;
        smp.ref_idx_l1[i] = 0;
        smp.mvd_l0[i] = vec![[0, 0]];
        smp.mvd_l1[i] = vec![[0, 0]];
    }
    let mb = Macroblock {
        mb_type: MbType::P8x8,
        mb_type_raw: 3,
        sub_mb_pred: Some(smp),
        residual_chroma_dc_cb: vec![0i32; 4],
        residual_chroma_dc_cr: vec![0i32; 4],
        ..blank_mb()
    };
    let slice_data = SliceData {
        macroblocks: vec![mb],
        mb_field_decoding_flags: vec![false],
        last_mb_addr: 0,
    };
    let mut pic = Picture::new(16, 16, 1, 8, 8);
    let mut grid = MbGrid::new(1, 1);
    reconstruct_slice(&slice_data, &sh, &sps, &pps, &store, &mut pic, &mut grid).unwrap();
    for y in 0..16 {
        for x in 0..16 {
            assert_eq!(pic.luma_at(x, y), 50);
        }
    }
}

#[test]
fn b_skip_with_two_refs_runs_direct_mode() {
    let sps = make_sps();
    let pps = make_pps();
    let sh = make_b_slice_header();

    let l0 = make_ref_pic(16, 16, |_, _| 80);
    let l1 = make_ref_pic(16, 16, |_, _| 120);
    let mut store = RefPicStore::new();
    store.insert(0, l0);
    store.insert(1, l1);
    store.set_list_0(vec![0]);
    store.set_list_1(vec![1]);

    let mb = Macroblock::new_skip(SliceType::B);
    let slice_data = SliceData {
        macroblocks: vec![mb],
        mb_field_decoding_flags: vec![false],
        last_mb_addr: 0,
    };
    let mut pic = Picture::new(16, 16, 1, 8, 8);
    let mut grid = MbGrid::new(1, 1);
    reconstruct_slice(&slice_data, &sh, &sps, &pps, &store, &mut pic, &mut grid).unwrap();
    for y in 0..16 {
        for x in 0..16 {
            let v = pic.luma_at(x, y);
            assert!(
                (95..=105).contains(&v),
                "expected ~100 at ({}, {}), got {}",
                x,
                y,
                v
            );
        }
    }
}

#[test]
fn p_l0_l0_16x8_bottom_partition_reads_top_partition_mv_from_same_mb() {
    let sps = make_sps();
    let pps = make_pps();
    let sh = make_p_slice_header();

    let ref_pic = make_ref_pic(32, 32, |x, _| (x * 2) & 0xFF);
    let mut store = RefPicStore::new();
    store.insert(0, ref_pic);
    store.set_list_0(vec![0]);

    let pred = MbPred {
        ref_idx_l0: vec![0, 0],
        mvd_l0: vec![[16, 0], [0, 0]],
        ..MbPred::default()
    };
    let mb = Macroblock {
        mb_type: MbType::PL0L016x8,
        mb_type_raw: 1,
        mb_pred: Some(pred),
        residual_chroma_dc_cb: vec![0i32; 4],
        residual_chroma_dc_cr: vec![0i32; 4],
        ..blank_mb()
    };
    let mb1 = make_p_l0_16x16(0, [0, 0]);
    let slice_data = SliceData {
        macroblocks: vec![mb, mb1],
        mb_field_decoding_flags: vec![false, false],
        last_mb_addr: 1,
    };
    let mut pic = Picture::new(16, 32, 1, 8, 8);
    let mut grid = MbGrid::new(1, 2);
    reconstruct_slice(&slice_data, &sh, &sps, &pps, &store, &mut pic, &mut grid).unwrap();

    assert_eq!(
        pic.luma_at(0, 8),
        8,
        "bottom partition did not inherit top partition MV \
         (same-MB neighbour read regression)"
    );
    assert_eq!(pic.luma_at(0, 0), 8);
}

#[test]
fn p_l0_16x16_with_zero_mvd_and_ref0_does_not_apply_p_skip_zero_substitution() {
    let sps = make_sps();
    let pps = make_pps();
    let sh = make_p_slice_header();

    let ref_pic = make_ref_pic(64, 16, |x, _| (x * 2) & 0xff);
    let mut store = RefPicStore::new();
    store.insert(0, ref_pic);
    store.set_list_0(vec![0]);

    let mb0 = make_p_l0_16x16(0, [3, 4]);
    let mb1 = make_p_l0_16x16(0, [0, 0]);
    let slice_data = SliceData {
        macroblocks: vec![mb0, mb1],
        mb_field_decoding_flags: vec![false, false],
        last_mb_addr: 1,
    };
    let mut pic = Picture::new(32, 16, 1, 8, 8);
    let mut grid = MbGrid::new(2, 1);
    reconstruct_slice(&slice_data, &sh, &sps, &pps, &store, &mut pic, &mut grid).unwrap();

    let info1 = grid.get(1).unwrap();
    for blk4 in 0..16 {
        assert_eq!(
            info1.mv_l0[blk4],
            (3i16, 4i16),
            "MB 1's blk{blk4} MV should inherit MB 0's MV via median, \
             NOT be forced to zero by the P_Skip zero-MV substitution",
        );
    }
}

#[test]
fn inter_mb_records_mv_and_ref_idx_in_grid() {
    let sps = make_sps();
    let pps = make_pps();
    let sh = make_p_slice_header();

    let ref_pic = make_ref_pic(32, 16, |_, _| 50);
    let mut store = RefPicStore::new();
    store.insert(0, ref_pic);
    store.set_list_0(vec![0]);

    let mb0 = make_p_l0_16x16(0, [4, 8]);
    let mb1 = make_p_l0_16x16(0, [0, 0]);
    let slice_data = SliceData {
        macroblocks: vec![mb0, mb1],
        mb_field_decoding_flags: vec![false, false],
        last_mb_addr: 1,
    };
    let mut pic = Picture::new(32, 16, 1, 8, 8);
    let mut grid = MbGrid::new(2, 1);
    reconstruct_slice(&slice_data, &sh, &sps, &pps, &store, &mut pic, &mut grid).unwrap();

    let info0 = grid.get(0).unwrap();
    assert!(info0.available);
    assert!(!info0.is_intra);
    assert_eq!(info0.ref_idx_l0, [0, 0, 0, 0]);
    for blk4 in 0..16 {
        assert_eq!(info0.mv_l0[blk4], (4i16, 8i16));
    }
}

#[test]
fn p_l0_16x16_explicit_weighted_applies_formula() {
    let sps = make_sps();
    let mut pps = make_pps();
    pps.weighted_pred_flag = true;
    let mut sh = make_p_slice_header();
    sh.pred_weight_table = Some(make_pwt_single_entry(
        4,
        0,
        Some((16, 4)),
        None,
        Some((1 << 0, 0, 1 << 0, 0)),
        None,
    ));

    let ref_pic = make_ref_pic(16, 16, |_, _| 10);
    let mut store = RefPicStore::new();
    store.insert(0, ref_pic);
    store.set_list_0(vec![0]);

    let mb = make_p_l0_16x16(0, [0, 0]);
    let slice_data = SliceData {
        macroblocks: vec![mb],
        mb_field_decoding_flags: vec![false],
        last_mb_addr: 0,
    };
    let mut pic = Picture::new(16, 16, 1, 8, 8);
    let mut grid = MbGrid::new(1, 1);
    reconstruct_slice(&slice_data, &sh, &sps, &pps, &store, &mut pic, &mut grid).unwrap();
    for y in 0..16 {
        for x in 0..16 {
            assert_eq!(
                pic.luma_at(x, y),
                14,
                "expected 14 at ({}, {}), got {}",
                x,
                y,
                pic.luma_at(x, y)
            );
        }
    }
}

#[test]
fn p_l0_16x16_weighted_pred_flag_off_matches_default() {
    let sps = make_sps();
    let mut pps = make_pps();
    pps.weighted_pred_flag = false;
    let mut sh = make_p_slice_header();
    sh.pred_weight_table = Some(make_pwt_single_entry(
        4,
        0,
        Some((32, 10)),
        None,
        Some((1 << 0, 0, 1 << 0, 0)),
        None,
    ));

    let ref_pic = make_ref_pic(16, 16, |x, y| (y * 16 + x) & 0xFF);
    let mut store = RefPicStore::new();
    store.insert(0, ref_pic);
    store.set_list_0(vec![0]);

    let mb = make_p_l0_16x16(0, [0, 0]);
    let slice_data = SliceData {
        macroblocks: vec![mb],
        mb_field_decoding_flags: vec![false],
        last_mb_addr: 0,
    };
    let mut pic = Picture::new(16, 16, 1, 8, 8);
    let mut grid = MbGrid::new(1, 1);
    reconstruct_slice(&slice_data, &sh, &sps, &pps, &store, &mut pic, &mut grid).unwrap();
    for y in 0..16 {
        for x in 0..16 {
            let expected = (y * 16 + x) & 0xFF;
            assert_eq!(
                pic.luma_at(x, y),
                expected,
                "weighted_pred_flag=off must copy ref; mismatch at ({}, {})",
                x,
                y
            );
        }
    }
}

#[test]
fn b_bi_16x16_explicit_weighted_applies_bipred_formula() {
    let sps = make_sps();
    let mut pps = make_pps();
    pps.weighted_bipred_idc = 1;
    let mut sh = make_b_slice_header();
    sh.pred_weight_table = Some(make_pwt_single_entry(
        1,
        0,
        Some((1, 0)),
        Some((1, 0)),
        Some((1 << 0, 0, 1 << 0, 0)),
        Some((1 << 0, 0, 1 << 0, 0)),
    ));

    let l0 = make_ref_pic(16, 16, |_, _| 40);
    let l1 = make_ref_pic(16, 16, |_, _| 80);
    let mut store = RefPicStore::new();
    store.insert(0, l0);
    store.insert(1, l1);
    store.set_list_0(vec![0]);
    store.set_list_1(vec![1]);

    let mb = make_b_bi_16x16(0, 0);
    let slice_data = SliceData {
        macroblocks: vec![mb],
        mb_field_decoding_flags: vec![false],
        last_mb_addr: 0,
    };
    let mut pic = Picture::new(16, 16, 1, 8, 8);
    let mut grid = MbGrid::new(1, 1);
    reconstruct_slice(&slice_data, &sh, &sps, &pps, &store, &mut pic, &mut grid).unwrap();
    for y in 0..16 {
        for x in 0..16 {
            assert_eq!(
                pic.luma_at(x, y),
                30,
                "expected 30 at ({}, {}), got {}",
                x,
                y,
                pic.luma_at(x, y)
            );
        }
    }
}

#[test]
fn b_bi_16x16_implicit_bipred_idc_td_zero_falls_back_to_equal_weights() {
    let sps = make_sps();
    let mut pps = make_pps();
    pps.weighted_bipred_idc = 2;
    let sh = make_b_slice_header();

    let l0 = make_ref_pic(16, 16, |_, _| 80);
    let l1 = make_ref_pic(16, 16, |_, _| 120);
    let mut store = RefPicStore::new();
    store.insert(0, l0);
    store.insert(1, l1);
    store.set_list_0(vec![0]);
    store.set_list_1(vec![1]);

    let mb = make_b_bi_16x16(0, 0);
    let slice_data = SliceData {
        macroblocks: vec![mb],
        mb_field_decoding_flags: vec![false],
        last_mb_addr: 0,
    };
    let mut pic = Picture::new(16, 16, 1, 8, 8);
    let mut grid = MbGrid::new(1, 1);
    reconstruct_slice(&slice_data, &sh, &sps, &pps, &store, &mut pic, &mut grid).unwrap();
    for y in 0..16 {
        for x in 0..16 {
            assert_eq!(
                pic.luma_at(x, y),
                100,
                "expected 100 (implicit w0=w1=32 via td=0 fallback) at \
                 ({}, {}), got {}",
                x,
                y,
                pic.luma_at(x, y)
            );
        }
    }
}

#[test]
fn b_bi_16x16_implicit_bipred_idc_poc_midpoint_applies_equal_weights() {
    let sps = make_sps();
    let mut pps = make_pps();
    pps.weighted_bipred_idc = 2;
    let sh = make_b_slice_header();

    let mut l0 = make_ref_pic(16, 16, |_, _| 40);
    l0.pic_order_cnt = 0;
    let mut l1 = make_ref_pic(16, 16, |_, _| 120);
    l1.pic_order_cnt = 8;
    let mut store = RefPicStore::new();
    store.insert(0, l0);
    store.insert(1, l1);
    store.set_list_0(vec![0]);
    store.set_list_1(vec![1]);

    let mb = make_b_bi_16x16(0, 0);
    let slice_data = SliceData {
        macroblocks: vec![mb],
        mb_field_decoding_flags: vec![false],
        last_mb_addr: 0,
    };
    let mut pic = Picture::new(16, 16, 1, 8, 8);
    pic.pic_order_cnt = 4;
    let mut grid = MbGrid::new(1, 1);
    reconstruct_slice(&slice_data, &sh, &sps, &pps, &store, &mut pic, &mut grid).unwrap();
    for y in 0..16 {
        for x in 0..16 {
            assert_eq!(
                pic.luma_at(x, y),
                80,
                "expected 80 (implicit midpoint w0=w1=32) at ({}, {}), got {}",
                x,
                y,
                pic.luma_at(x, y)
            );
        }
    }
}

#[test]
fn b_bi_16x16_implicit_bipred_idc_asymmetric_poc_weights_lean_on_closer_ref() {
    let sps = make_sps();
    let mut pps = make_pps();
    pps.weighted_bipred_idc = 2;
    let sh = make_b_slice_header();

    let mut l0 = make_ref_pic(16, 16, |_, _| 100);
    l0.pic_order_cnt = 0;
    let mut l1 = make_ref_pic(16, 16, |_, _| 20);
    l1.pic_order_cnt = 8;
    let mut store = RefPicStore::new();
    store.insert(0, l0);
    store.insert(1, l1);
    store.set_list_0(vec![0]);
    store.set_list_1(vec![1]);

    let mb = make_b_bi_16x16(0, 0);
    let slice_data = SliceData {
        macroblocks: vec![mb],
        mb_field_decoding_flags: vec![false],
        last_mb_addr: 0,
    };
    let mut pic = Picture::new(16, 16, 1, 8, 8);
    pic.pic_order_cnt = 2;
    let mut grid = MbGrid::new(1, 1);
    reconstruct_slice(&slice_data, &sh, &sps, &pps, &store, &mut pic, &mut grid).unwrap();
    for y in 0..16 {
        for x in 0..16 {
            assert_eq!(
                pic.luma_at(x, y),
                80,
                "expected 80 (implicit asymmetric w0=48, w1=16) at \
                 ({}, {}), got {}",
                x,
                y,
                pic.luma_at(x, y)
            );
        }
    }
}

#[test]
fn implicit_bipred_weights_td_zero_returns_equal_weights() {
    assert_eq!(
        implicit_bipred_weights(0, 0, 0, false),
        (32, 32, 5),
        "td == 0 should yield w0 = w1 = 32"
    );
}

#[test]
fn implicit_bipred_weights_long_term_returns_equal_weights() {
    assert_eq!(
        implicit_bipred_weights(4, 0, 8, true),
        (32, 32, 5),
        "long-term ref should yield w0 = w1 = 32"
    );
}

#[test]
fn implicit_bipred_weights_midpoint_yields_equal_weights() {
    assert_eq!(
        implicit_bipred_weights(4, 0, 8, false),
        (32, 32, 5),
        "midpoint → equal weights"
    );
}

#[test]
fn implicit_bipred_weights_hand_computed_asymmetric() {
    assert_eq!(
        implicit_bipred_weights(2, 0, 8, false),
        (48, 16, 5),
        "curr closer to L0 (tb=2, td=8)"
    );

    assert_eq!(
        implicit_bipred_weights(6, 0, 8, false),
        (16, 48, 5),
        "curr closer to L1 (tb=6, td=8)"
    );
}

#[test]
fn implicit_bipred_weights_extrapolation_out_of_band_falls_back() {
    assert_eq!(
        implicit_bipred_weights(-100, 0, 8, false),
        (32, 32, 5),
        "out-of-band DistScaleFactor should fall back to equal weights"
    );
}

#[test]
fn mc_chroma_444_is_bit_identical_to_luma_mc() {
    let mut ref_pic = Picture::new(32, 32, 3, 8, 8);
    for y in 0..32i32 {
        for x in 0..32i32 {
            let v = (y * 13 + x * 7) & 0xFF;
            ref_pic.set_luma(x, y, v);
            ref_pic.set_cb(x, y, v);
            ref_pic.set_cr(x, y, v);
        }
    }

    let mv = Mv { x: 6, y: 10 };
    let (w, h) = (16u32, 16u32);
    let (px, py) = (0i32, 0i32);

    let luma = mc_luma_partition(&ref_pic, px, py, mv, w, h, 8, None).unwrap();
    let (cb, cr) = mc_chroma_partition_444(&ref_pic, px, py, mv, w, h, 8, None).unwrap();
    assert_eq!(luma.len(), (w * h) as usize);

    assert_eq!(cb, luma, "4:4:4 Cb MC must match luma MC bit-for-bit");
    assert_eq!(cr, luma, "4:4:4 Cr MC must match luma MC bit-for-bit");
}

#[test]
fn p_l0_16x16_444_zero_mv_copies_chroma_planes() {
    let mut sps = make_sps();
    sps.chroma_format_idc = 3;
    let pps = make_pps();
    let sh = make_p_slice_header();

    let mut ref_pic = Picture::new(16, 16, 3, 8, 8);
    for y in 0..16i32 {
        for x in 0..16i32 {
            ref_pic.set_luma(x, y, (y * 16 + x) & 0xFF);
            ref_pic.set_cb(x, y, (y * 3 + x * 5 + 17) & 0xFF);
            ref_pic.set_cr(x, y, (y * 7 + x * 2 + 40) & 0xFF);
        }
    }
    let mut store = RefPicStore::new();
    store.insert(0, ref_pic);
    store.set_list_0(vec![0]);

    let mb = make_p_l0_16x16(0, [0, 0]);
    let slice_data = SliceData {
        macroblocks: vec![mb],
        mb_field_decoding_flags: vec![false],
        last_mb_addr: 0,
    };
    let mut pic = Picture::new(16, 16, 3, 8, 8);
    let mut grid = MbGrid::new(1, 1);
    reconstruct_slice(&slice_data, &sh, &sps, &pps, &store, &mut pic, &mut grid)
        .expect("4:4:4 P_L0_16x16 must reconstruct");

    for y in 0..16i32 {
        for x in 0..16i32 {
            assert_eq!(pic.luma_at(x, y), (y * 16 + x) & 0xFF, "Y at ({x},{y})");
            assert_eq!(
                pic.cb_at(x, y),
                (y * 3 + x * 5 + 17) & 0xFF,
                "Cb at ({x},{y})"
            );
            assert_eq!(
                pic.cr_at(x, y),
                (y * 7 + x * 2 + 40) & 0xFF,
                "Cr at ({x},{y})"
            );
        }
    }
}

#[test]
fn p_l0_16x16_444_half_pel_chroma_uses_luma_6tap() {
    let mut sps = make_sps();
    sps.chroma_format_idc = 3;
    let pps = make_pps();
    let sh = make_p_slice_header();

    let mut ref_pic = Picture::new(32, 32, 3, 8, 8);
    for (i, v) in [10, 20, 30, 40, 50, 60].iter().enumerate() {
        ref_pic.set_luma(8 + i as i32, 8, *v);
        ref_pic.set_cb(8 + i as i32, 8, *v);
        ref_pic.set_cr(8 + i as i32, 8, *v);
    }
    let mut store = RefPicStore::new();
    store.insert(0, ref_pic);
    store.set_list_0(vec![0]);

    let mb = make_p_l0_16x16(0, [2, 0]);
    let slice_data = SliceData {
        macroblocks: vec![mb],
        mb_field_decoding_flags: vec![false],
        last_mb_addr: 0,
    };
    let mut pic = Picture::new(16, 16, 3, 8, 8);
    let mut grid = MbGrid::new(1, 1);
    reconstruct_slice(&slice_data, &sh, &sps, &pps, &store, &mut pic, &mut grid)
        .expect("4:4:4 half-pel P_L0_16x16 must reconstruct");

    assert_eq!(pic.luma_at(10, 8), 35, "Y half-pel");
    assert_eq!(pic.cb_at(10, 8), 35, "Cb half-pel (luma 6-tap)");
    assert_eq!(pic.cr_at(10, 8), 35, "Cr half-pel (luma 6-tap)");
}

#[test]
fn mc_chroma_422_vertical_quarter_pel_uses_subheightc_1() {
    let w = 32u32;
    let h = 32u32;
    let mut ref_pic = Picture::new(w, h, 2, 8, 8);
    assert_eq!(ref_pic.chroma_width(), 16, "4:2:2 chroma is W/2");
    assert_eq!(ref_pic.chroma_height(), 32, "4:2:2 chroma is full H");
    for y in 0..ref_pic.chroma_height() as i32 {
        for x in 0..ref_pic.chroma_width() as i32 {
            ref_pic.set_cb(x, y, 16 + 8 * y);
            ref_pic.set_cr(x, y, 16 + 8 * y);
        }
    }

    let mv = Mv { x: 0, y: 3 };
    let (cw, ch) = (4u32, 4u32);
    let (c_part_x, c_part_y) = (2i32, 2i32);
    let (cb, cr) =
        mc_chroma_partition(&ref_pic, c_part_x, c_part_y, mv, cw, ch, 2, None).unwrap();

    for yy in 0..ch as i32 {
        for xx in 0..cw as i32 {
            let base = 16 + 8 * (c_part_y + yy);
            let exp = base + 6;
            assert_eq!(
                cb[(yy * cw as i32 + xx) as usize],
                exp,
                "Cb 4:2:2 vertical 1/4-pel at ({xx},{yy})"
            );
            assert_eq!(cr[(yy * cw as i32 + xx) as usize], exp, "Cr 4:2:2");
        }
    }
}

#[test]
fn mc_chroma_422_horizontal_quarter_pel_matches_420_x_rule() {
    let w = 32u32;
    let h = 32u32;
    let mut ref_pic = Picture::new(w, h, 2, 8, 8);
    for y in 0..ref_pic.chroma_height() as i32 {
        for x in 0..ref_pic.chroma_width() as i32 {
            ref_pic.set_cb(x, y, 16 + 8 * x);
            ref_pic.set_cr(x, y, 16 + 8 * x);
        }
    }

    let mv = Mv { x: 3, y: 0 };
    let (cw, ch) = (4u32, 4u32);
    let (c_part_x, c_part_y) = (2i32, 2i32);
    let (cb, _cr) =
        mc_chroma_partition(&ref_pic, c_part_x, c_part_y, mv, cw, ch, 2, None).unwrap();

    for yy in 0..ch as i32 {
        for xx in 0..cw as i32 {
            let base = 16 + 8 * (c_part_x + xx);
            let exp = base + 3;
            assert_eq!(
                cb[(yy * cw as i32 + xx) as usize],
                exp,
                "Cb 4:2:2 horizontal 1/4-pel at ({xx},{yy})"
            );
        }
    }
}

#[test]
fn p_l0_16x16_422_zero_mv_copies_full_height_chroma() {
    let mut sps = make_sps();
    sps.chroma_format_idc = 2;
    let pps = make_pps();
    let sh = make_p_slice_header();

    let mut ref_pic = Picture::new(16, 16, 2, 8, 8);
    assert_eq!(ref_pic.chroma_width(), 8);
    assert_eq!(ref_pic.chroma_height(), 16);
    for y in 0..16i32 {
        for x in 0..16i32 {
            ref_pic.set_luma(x, y, (y * 16 + x) & 0xFF);
        }
    }
    for y in 0..16i32 {
        for x in 0..8i32 {
            ref_pic.set_cb(x, y, (y * 5 + x * 3 + 17) & 0xFF);
            ref_pic.set_cr(x, y, (y * 2 + x * 7 + 40) & 0xFF);
        }
    }
    let mut store = RefPicStore::new();
    store.insert(0, ref_pic);
    store.set_list_0(vec![0]);

    let mb = make_p_l0_16x16(0, [0, 0]);
    let slice_data = SliceData {
        macroblocks: vec![mb],
        mb_field_decoding_flags: vec![false],
        last_mb_addr: 0,
    };
    let mut pic = Picture::new(16, 16, 2, 8, 8);
    let mut grid = MbGrid::new(1, 1);
    reconstruct_slice(&slice_data, &sh, &sps, &pps, &store, &mut pic, &mut grid)
        .expect("4:2:2 P_L0_16x16 must reconstruct");

    for y in 0..16i32 {
        for x in 0..8i32 {
            assert_eq!(
                pic.cb_at(x, y),
                (y * 5 + x * 3 + 17) & 0xFF,
                "Cb 4:2:2 at ({x},{y})"
            );
            assert_eq!(
                pic.cr_at(x, y),
                (y * 2 + x * 7 + 40) & 0xFF,
                "Cr 4:2:2 at ({x},{y})"
            );
        }
    }
}

#[test]
fn p_l0_16x16_422_explicit_weighted_per_plane_chroma() {
    let mut sps = make_sps();
    sps.chroma_format_idc = 2;
    let mut pps = make_pps();
    pps.weighted_pred_flag = true;
    let mut sh = make_p_slice_header();
    sh.pred_weight_table = Some(make_pwt_single_entry(
        0,
        2,
        Some((1 << 0, 0)),
        None,
        Some((5, 1, 3, 7)),
        None,
    ));

    let mut ref_pic = Picture::new(16, 16, 2, 8, 8);
    for y in 0..16i32 {
        for x in 0..16i32 {
            ref_pic.set_luma(x, y, 30);
        }
    }
    for y in 0..16i32 {
        for x in 0..8i32 {
            ref_pic.set_cb(x, y, 80);
            ref_pic.set_cr(x, y, 80);
        }
    }
    let mut store = RefPicStore::new();
    store.insert(0, ref_pic);
    store.set_list_0(vec![0]);

    let mb = make_p_l0_16x16(0, [0, 0]);
    let slice_data = SliceData {
        macroblocks: vec![mb],
        mb_field_decoding_flags: vec![false],
        last_mb_addr: 0,
    };
    let mut pic = Picture::new(16, 16, 2, 8, 8);
    let mut grid = MbGrid::new(1, 1);
    reconstruct_slice(&slice_data, &sh, &sps, &pps, &store, &mut pic, &mut grid)
        .expect("4:2:2 explicit-weighted P_L0_16x16 must reconstruct");

    for y in 0..16i32 {
        assert_eq!(pic.luma_at(0, y), 30, "Y identity-weight at row {y}");
        for x in 0..8i32 {
            assert_eq!(pic.cb_at(x, y), 101, "Cb 4:2:2 explicit at ({x},{y})");
            assert_eq!(pic.cr_at(x, y), 67, "Cr 4:2:2 explicit at ({x},{y})");
        }
    }
}

#[test]
fn b_bi_16x16_422_default_averages_full_height_chroma() {
    let mut sps = make_sps();
    sps.chroma_format_idc = 2;
    let pps = make_pps();
    let sh = make_b_slice_header();

    let mut l0 = Picture::new(16, 16, 2, 8, 8);
    let mut l1 = Picture::new(16, 16, 2, 8, 8);
    for y in 0..16i32 {
        for x in 0..16i32 {
            l0.set_luma(x, y, 40);
            l1.set_luma(x, y, 80);
        }
    }
    for y in 0..16i32 {
        for x in 0..8i32 {
            l0.set_cb(x, y, 40);
            l0.set_cr(x, y, 40);
            l1.set_cb(x, y, 80);
            l1.set_cr(x, y, 80);
        }
    }
    let mut store = RefPicStore::new();
    store.insert(0, l0);
    store.insert(1, l1);
    store.set_list_0(vec![0]);
    store.set_list_1(vec![1]);

    let mb = make_b_bi_16x16(0, 0);
    let slice_data = SliceData {
        macroblocks: vec![mb],
        mb_field_decoding_flags: vec![false],
        last_mb_addr: 0,
    };
    let mut pic = Picture::new(16, 16, 2, 8, 8);
    let mut grid = MbGrid::new(1, 1);
    reconstruct_slice(&slice_data, &sh, &sps, &pps, &store, &mut pic, &mut grid)
        .expect("4:2:2 B_Bi_16x16 must reconstruct");

    for y in 0..16i32 {
        assert_eq!(pic.luma_at(0, y), 60, "Y bipred avg at row {y}");
        for x in 0..8i32 {
            assert_eq!(pic.cb_at(x, y), 60, "Cb 4:2:2 bipred avg at ({x},{y})");
            assert_eq!(pic.cr_at(x, y), 60, "Cr 4:2:2 bipred avg at ({x},{y})");
        }
    }
}

#[test]
fn b_bi_16x16_444_default_averages_full_resolution_chroma() {
    let mut sps = make_sps();
    sps.chroma_format_idc = 3;
    let pps = make_pps();
    let sh = make_b_slice_header();

    let mut l0 = Picture::new(16, 16, 3, 8, 8);
    let mut l1 = Picture::new(16, 16, 3, 8, 8);
    for y in 0..16i32 {
        for x in 0..16i32 {
            l0.set_luma(x, y, 50);
            l0.set_cb(x, y, 50);
            l0.set_cr(x, y, 50);
            l1.set_luma(x, y, 90);
            l1.set_cb(x, y, 90);
            l1.set_cr(x, y, 90);
        }
    }
    let mut store = RefPicStore::new();
    store.insert(0, l0);
    store.insert(1, l1);
    store.set_list_0(vec![0]);
    store.set_list_1(vec![1]);

    let mb = make_b_bi_16x16(0, 0);
    let slice_data = SliceData {
        macroblocks: vec![mb],
        mb_field_decoding_flags: vec![false],
        last_mb_addr: 0,
    };
    let mut pic = Picture::new(16, 16, 3, 8, 8);
    let mut grid = MbGrid::new(1, 1);
    reconstruct_slice(&slice_data, &sh, &sps, &pps, &store, &mut pic, &mut grid)
        .expect("4:4:4 B_Bi_16x16 must reconstruct");

    for y in 0..16i32 {
        for x in 0..16i32 {
            assert_eq!(pic.luma_at(x, y), 70, "Y 4:4:4 bipred avg at ({x},{y})");
            assert_eq!(pic.cb_at(x, y), 70, "Cb 4:4:4 bipred avg at ({x},{y})");
            assert_eq!(pic.cr_at(x, y), 70, "Cr 4:4:4 bipred avg at ({x},{y})");
        }
    }
}
