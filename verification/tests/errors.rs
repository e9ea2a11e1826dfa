use h264_recon::error::{ReconstructError, TransformError};
use h264_recon::macroblock_layer::{Intra16x16, Macroblock, MbPred, MbType};
use h264_recon::mb_grid::MbGrid;
use h264_recon::picture::Picture;
use h264_recon::pps::Pps;
use h264_recon::recon_mb_intra::SpSiCtx;
use h264_recon::reconstruct::{reconstruct_slice, sp_si_ctx_for_slice};
use h264_recon::ref_store::RefPicStore;
use h264_recon::slice_data::SliceData;
use h264_recon::slice_header::{SliceHeader, SliceType};
use h264_recon::sps::Sps;

fn blank_mb() -> Macroblock {
    Macroblock {
        mb_type: MbType::INxN,
        mb_type_raw: 0,
        mb_pred: None,
        sub_mb_pred: None,
        pcm_samples: None,
        coded_block_pattern: 0,
        transform_size_8x8_flag: false,
        mb_qp_delta: 0,
        residual_luma: Vec::new(),
        residual_luma_dc: None,
        residual_chroma_dc_cb: Vec::new(),
        residual_chroma_dc_cr: Vec::new(),
        residual_chroma_ac_cb: Vec::new(),
        residual_chroma_ac_cr: Vec::new(),
        residual_cb_luma_like: Vec::new(),
        residual_cr_luma_like: Vec::new(),
        residual_cb_16x16_dc: None,
        residual_cr_16x16_dc: None,
        is_skip: false,
    }
}

fn make_sps() -> Sps {
    Sps {
        chroma_format_idc: 1,
        separate_colour_plane_flag: false,
        bit_depth_luma_minus8: 0,
        bit_depth_chroma_minus8: 0,
        qpprime_y_zero_transform_bypass_flag: false,
        seq_scaling_lists: None,
        mb_adaptive_frame_field_flag: false,
        direct_8x8_inference_flag: false,
    }
}

fn make_pps() -> Pps {
    Pps {
        slice_group_map: None,
        weighted_pred_flag: false,
        weighted_bipred_idc: 0,
        pic_init_qp_minus26: 0,
        pic_init_qs_minus26: 0,
        chroma_qp_index_offset: 0,
        constrained_intra_pred_flag: false,
        extension: None,
    }
}

fn make_slice_header() -> SliceHeader {
    SliceHeader {
        first_mb_in_slice: 0,
        slice_type: SliceType::I,
        colour_plane_id: 0,
        field_pic_flag: false,
        bottom_field_flag: false,
        direct_spatial_mv_pred_flag: false,
        pred_weight_table: None,
        slice_qp_delta: 0,
        sp_for_switch_flag: false,
        slice_qs_delta: 0,
        disable_deblocking_filter_idc: 1,
        slice_alpha_c0_offset_div2: 0,
        slice_beta_offset_div2: 0,
    }
}

fn intra16(pred_mode: u8) -> Macroblock {
    Macroblock {
        mb_type: MbType::Intra16x16(Intra16x16 { pred_mode, cbp_luma: 0, cbp_chroma: 0 }),
        mb_type_raw: 1,
        mb_pred: Some(MbPred::default()),
        ..blank_mb()
    }
}

/// Reconstructs a picture of one macroblock, and checks that an error leaves its luma unchanged.
fn failure(
    mb: Macroblock,
    sh: &SliceHeader,
    sps: &Sps,
    pps: &Pps,
    store: &RefPicStore,
) -> ReconstructError {
    let slice_data = SliceData {
        macroblocks: vec![mb],
        mb_field_decoding_flags: vec![false],
        last_mb_addr: 0,
    };
    let mut pic = Picture::new(16, 16, sps.chroma_format_idc, 8, 8);
    pic.fill_luma(77);
    let mut grid = MbGrid::new(1, 1);
    let err = reconstruct_slice(&slice_data, sh, sps, pps, store, &mut pic, &mut grid).unwrap_err();
    assert_eq!(pic.luma_at(5, 5), 77);
    err
}

fn intra_failure(mb: Macroblock) -> ReconstructError {
    failure(mb, &make_slice_header(), &make_sps(), &make_pps(), &RefPicStore::new())
}

fn inter_failure(mb: Macroblock, store: &RefPicStore) -> ReconstructError {
    let mut sh = make_slice_header();
    sh.slice_type = SliceType::P;
    failure(mb, &sh, &make_sps(), &make_pps(), store)
}

fn unsupported_mb(e: ReconstructError) -> String {
    match e {
        ReconstructError::UnsupportedMbType(s) => s,
        other => panic!("unexpected error: {:?}", other),
    }
}

fn unsupported_inter(e: ReconstructError) -> String {
    match e {
        ReconstructError::UnsupportedInterMbType(s) => s,
        other => panic!("unexpected error: {:?}", other),
    }
}

fn sp_si_text(sh: &SliceHeader, sps: &Sps, pps: &Pps) -> String {
    match sp_si_ctx_for_slice(sh, sps, pps) {
        Err(ReconstructError::SpSiUnsupported(s)) => s,
        other => panic!("unexpected result: {:?}", other),
    }
}

fn sp_header() -> SliceHeader {
    let mut sh = make_slice_header();
    sh.slice_type = SliceType::SP;
    sh
}

#[test]
fn pcm_without_samples_is_refused() {
    let mb = Macroblock { mb_type: MbType::IPcm, ..blank_mb() };
    assert_eq!(unsupported_mb(intra_failure(mb)), "I_PCM without samples");
}

#[test]
fn nxn_without_prediction_syntax_is_refused() {
    assert_eq!(unsupported_mb(intra_failure(blank_mb())), "I_NxN without mb_pred");
}

#[test]
fn unknown_16x16_mode_is_named() {
    assert_eq!(unsupported_mb(intra_failure(intra16(7))), "Intra_16x16 pred_mode 7");
    assert_eq!(unsupported_mb(intra_failure(intra16(255))), "Intra_16x16 pred_mode 255");
}

#[test]
fn si_macroblock_needs_an_si_slice() {
    let mb = Macroblock {
        mb_type: MbType::SI,
        mb_pred: Some(MbPred::default()),
        ..blank_mb()
    };
    assert_eq!(unsupported_mb(intra_failure(mb)), "SI macroblock outside an SI slice");
}

#[test]
fn modes_without_neighbours_are_refused() {
    match intra_failure(intra16(0)) {
        ReconstructError::IntraModeNeighboursUnavailable { mode, clause } => {
            assert_eq!((mode, clause), ("Intra_16x16_Vertical", "8.3.3"));
        }
        other => panic!("unexpected error: {:?}", other),
    }
    match intra_failure(intra16(3)) {
        ReconstructError::IntraModeNeighboursUnavailable { mode, clause } => {
            assert_eq!((mode, clause), ("Intra_16x16_Plane", "8.3.3"));
        }
        other => panic!("unexpected error: {:?}", other),
    }
    // Without neighbours the predicted mode is 2, so that a remaining mode of 0 is mode 0.
    let mb = Macroblock { mb_pred: Some(MbPred::default()), ..blank_mb() };
    match intra_failure(mb) {
        ReconstructError::IntraModeNeighboursUnavailable { mode, clause } => {
            assert_eq!((mode, clause), ("Intra_4x4_Vertical", "8.3.1.2"));
        }
        other => panic!("unexpected error: {:?}", other),
    }
    let mb = Macroblock {
        mb_pred: Some(MbPred { rem_intra8x8_pred_mode: [1; 4], ..MbPred::default() }),
        transform_size_8x8_flag: true,
        ..blank_mb()
    };
    match intra_failure(mb) {
        ReconstructError::IntraModeNeighboursUnavailable { mode, clause } => {
            assert_eq!((mode, clause), ("Intra_8x8_Horizontal", "8.3.2.2"));
        }
        other => panic!("unexpected error: {:?}", other),
    }
}

#[test]
fn chroma_mode_without_neighbours_is_refused_after_luma() {
    let mut mb = intra16(2);
    mb.mb_pred = Some(MbPred { intra_chroma_pred_mode: 3, ..MbPred::default() });
    let slice_data = SliceData {
        macroblocks: vec![mb],
        mb_field_decoding_flags: vec![false],
        last_mb_addr: 0,
    };
    let mut pic = Picture::new(16, 16, 1, 8, 8);
    let mut grid = MbGrid::new(1, 1);
    let err = reconstruct_slice(
        &slice_data,
        &make_slice_header(),
        &make_sps(),
        &make_pps(),
        &RefPicStore::new(),
        &mut pic,
        &mut grid,
    )
    .unwrap_err();
    match err {
        ReconstructError::IntraModeNeighboursUnavailable { mode, clause } => {
            assert_eq!((mode, clause), ("Intra_Chroma_Plane", "8.3.4"));
        }
        other => panic!("unexpected error: {:?}", other),
    }
    assert_eq!(pic.luma_at(0, 0), 128);
}

#[test]
fn quantisation_out_of_range_is_reported() {
    // A macroblock without a coded change keeps the slice's parameter, here 26 + 100.
    let mut residual = [0i32; 16];
    residual[0] = 1;
    let mb = Macroblock {
        mb_pred: Some(MbPred {
            prev_intra4x4_pred_mode_flag: [true; 16],
            ..MbPred::default()
        }),
        coded_block_pattern: 1,
        residual_luma: vec![residual; 4],
        is_skip: true,
        ..blank_mb()
    };
    let mut sh = make_slice_header();
    sh.slice_qp_delta = 100;
    let err = failure(mb, &sh, &make_sps(), &make_pps(), &RefPicStore::new());
    assert!(matches!(
        err,
        ReconstructError::Transform(TransformError::QpOutOfRange(126))
    ));
}

#[test]
fn inter_macroblocks_without_syntax_are_refused() {
    let store = RefPicStore::new();
    let mb = |mb_type| Macroblock { mb_type, ..blank_mb() };
    assert_eq!(
        unsupported_inter(inter_failure(mb(MbType::P8x8), &store)),
        "P_8x8 without sub_mb_pred"
    );
    assert_eq!(
        unsupported_inter(inter_failure(mb(MbType::B8x8), &store)),
        "B_8x8 without sub_mb_pred"
    );
    assert_eq!(
        unsupported_inter(inter_failure(mb(MbType::PL016x16), &store)),
        "P_L0_16x16 without mb_pred"
    );
    assert_eq!(
        unsupported_inter(inter_failure(mb(MbType::BL0Bi8x16), &store)),
        "B_*_8x16 without mb_pred"
    );
}

#[test]
fn missing_reference_names_list_and_index() {
    let mut store = RefPicStore::new();
    store.insert(0, Picture::new(16, 16, 1, 8, 8));
    store.set_list_0(vec![0]);
    let mb = Macroblock {
        mb_type: MbType::PL016x16,
        mb_pred: Some(MbPred {
            ref_idx_l0: vec![2],
            mvd_l0: vec![[0, 0]],
            ..MbPred::default()
        }),
        ..blank_mb()
    };
    assert!(matches!(
        inter_failure(mb, &store),
        ReconstructError::MissingRefPic { list: 0, idx: 2 }
    ));
}

#[test]
fn reference_without_samples_is_refused() {
    let mut store = RefPicStore::new();
    store.insert(0, Picture::new(0, 0, 1, 8, 8));
    store.set_list_0(vec![0]);
    assert!(matches!(
        inter_failure(Macroblock::new_skip(SliceType::P), &store),
        ReconstructError::InvalidRefDims { width: 0, height: 0 }
    ));
}

#[test]
fn placeholder_reference_is_refused() {
    let mut placeholder = Picture::new(16, 16, 1, 8, 8);
    placeholder.non_existing = true;
    let mut store = RefPicStore::new();
    store.insert(0, placeholder);
    store.set_list_0(vec![0]);
    assert!(matches!(
        inter_failure(Macroblock::new_skip(SliceType::P), &store),
        ReconstructError::NonExistingRef
    ));
}

#[test]
fn sp_slices_need_plain_coding() {
    let (sps, pps) = (make_sps(), make_pps());
    let ctx = sp_si_ctx_for_slice(&sp_header(), &sps, &pps).unwrap().unwrap();
    assert_eq!(ctx, SpSiCtx { qs_y: 26, switching: false });

    let mut sh = sp_header();
    sh.slice_qs_delta = 26;
    assert_eq!(sp_si_text(&sh, &sps, &pps), "QSY 52 out of the §7.4.3 range 0..=51");
    sh.slice_qs_delta = -27;
    assert_eq!(sp_si_text(&sh, &sps, &pps), "QSY -1 out of the §7.4.3 range 0..=51");

    let mut wide = make_sps();
    wide.chroma_format_idc = 2;
    assert_eq!(
        sp_si_text(&sp_header(), &wide, &pps),
        "ChromaArrayType 2 (SP/SI is 4:2:0-only, A.2.3)"
    );
    let mut deep = make_sps();
    deep.bit_depth_chroma_minus8 = 1;
    assert_eq!(sp_si_text(&sp_header(), &deep, &pps), "SP/SI at >8-bit depth");
    let mut lossless = make_sps();
    lossless.qpprime_y_zero_transform_bypass_flag = true;
    assert_eq!(
        sp_si_text(&sp_header(), &lossless, &pps),
        "SP/SI with qpprime_y_zero_transform_bypass_flag"
    );
}

#[test]
fn si_and_switching_slices_are_marked() {
    let (sps, pps) = (make_sps(), make_pps());
    let mut sh = sp_header();
    sh.sp_for_switch_flag = true;
    assert!(sp_si_ctx_for_slice(&sh, &sps, &pps).unwrap().unwrap().switching);
    sh.sp_for_switch_flag = false;
    sh.slice_type = SliceType::SI;
    assert!(sp_si_ctx_for_slice(&sh, &sps, &pps).unwrap().unwrap().switching);
    sh.slice_type = SliceType::B;
    assert_eq!(sp_si_ctx_for_slice(&sh, &sps, &pps).unwrap(), None);
}

#[test]
fn sp_and_si_macroblocks_have_no_8x8_transform() {
    let mut sh = sp_header();
    let mb = Macroblock {
        mb_type: MbType::PL016x16,
        mb_pred: Some(MbPred {
            ref_idx_l0: vec![0],
            mvd_l0: vec![[0, 0]],
            ..MbPred::default()
        }),
        transform_size_8x8_flag: true,
        ..blank_mb()
    };
    let mut store = RefPicStore::new();
    store.insert(0, Picture::new(16, 16, 1, 8, 8));
    store.set_list_0(vec![0]);
    match failure(mb, &sh, &make_sps(), &make_pps(), &store) {
        ReconstructError::SpSiUnsupported(s) => {
            assert_eq!(s, "SP inter macroblock with transform_size_8x8_flag")
        }
        other => panic!("unexpected error: {:?}", other),
    }
    sh.slice_type = SliceType::SI;
    let mb = Macroblock {
        mb_type: MbType::SI,
        mb_pred: Some(MbPred::default()),
        transform_size_8x8_flag: true,
        ..blank_mb()
    };
    match failure(mb, &sh, &make_sps(), &make_pps(), &store) {
        ReconstructError::SpSiUnsupported(s) => {
            assert_eq!(s, "SI macroblock with transform_size_8x8_flag")
        }
        other => panic!("unexpected error: {:?}", other),
    }
}
