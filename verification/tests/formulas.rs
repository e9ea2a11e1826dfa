use h264_recon::boundary_strength::EdgeCtx;
use h264_recon::coded_blocks::{compute_chroma_nonzero_mask, compute_luma_nonzero_mask};
use h264_recon::deblock_picture::{deblock_picture_full, pixel_to_mb_addr};
use h264_recon::error::ReconstructError;
use h264_recon::geometry::MbWriter;
use h264_recon::inter_pred::{implicit_bipred_weights, mc_chroma_partition, mc_luma_partition};
use h264_recon::macroblock_layer::{Intra16x16, Macroblock, MbPred, MbType, PcmSamples};
use h264_recon::mb_address::{advance_mb_addr, mb_sample_origin};
use h264_recon::mb_grid::MbGrid;
use h264_recon::mv_deriv::{Mv, NeighbourMv, derive_median_mvpred, median_of};
use h264_recon::neighbours::{mbaff_abs_chroma, mbaff_abs_luma};
use h264_recon::picture::Picture;
use h264_recon::pps::Pps;
use h264_recon::reconstruct::{next_qp_y, reconstruct_slice, reconstruct_slice_no_deblock};
use h264_recon::ref_store::{NoRefs, RefPicStore};
use h264_recon::scan::{inverse_scan_8x8_field, inverse_scan_8x8_zigzag};
use h264_recon::slice_data::SliceData;
use h264_recon::slice_header::{PredWeightTable, SliceHeader, SliceType};
use h264_recon::sps::Sps;

fn blank_mb() -> Macroblock {
    Macroblock {
        mb_type: MbType::INxN,
        mb_type_raw: 0,
        mb_pred: None,
        sub_mb_pred: None,
        pcm_samples: None,
        coded_block_pattern: 0,
        transform_size_8x8_flag: false,
        mb_qp_delta: 0,
        residual_luma: Vec::new(),
        residual_luma_dc: None,
        residual_chroma_dc_cb: Vec::new(),
        residual_chroma_dc_cr: Vec::new(),
        residual_chroma_ac_cb: Vec::new(),
        residual_chroma_ac_cr: Vec::new(),
        residual_cb_luma_like: Vec::new(),
        residual_cr_luma_like: Vec::new(),
        residual_cb_16x16_dc: None,
        residual_cr_16x16_dc: None,
        is_skip: false,
    }
}

fn make_sps() -> Sps {
    Sps {
        chroma_format_idc: 1,
        separate_colour_plane_flag: false,
        bit_depth_luma_minus8: 0,
        bit_depth_chroma_minus8: 0,
        qpprime_y_zero_transform_bypass_flag: false,
        seq_scaling_lists: None,
        mb_adaptive_frame_field_flag: false,
        direct_8x8_inference_flag: false,
    }
}

fn make_pps() -> Pps {
    Pps {
        slice_group_map: None,
        weighted_pred_flag: false,
        weighted_bipred_idc: 0,
        pic_init_qp_minus26: 0,
        pic_init_qs_minus26: 0,
        chroma_qp_index_offset: 0,
        constrained_intra_pred_flag: false,
        extension: None,
    }
}

fn make_slice_header() -> SliceHeader {
    SliceHeader {
        first_mb_in_slice: 0,
        slice_type: SliceType::I,
        colour_plane_id: 0,
        field_pic_flag: false,
        bottom_field_flag: false,
        direct_spatial_mv_pred_flag: false,
        pred_weight_table: None,
        slice_qp_delta: 0,
        sp_for_switch_flag: false,
        slice_qs_delta: 0,
        disable_deblocking_filter_idc: 1,
        slice_alpha_c0_offset_div2: 0,
        slice_beta_offset_div2: 0,
    }
}

fn one_mb(mb: Macroblock, sh: &SliceHeader, sps: &Sps, store: &RefPicStore) -> (Picture, MbGrid) {
    let slice_data = SliceData {
        macroblocks: vec![mb],
        mb_field_decoding_flags: vec![false],
        last_mb_addr: 0,
    };
    let mut pic = Picture::new(
        16,
        16,
        sps.chroma_format_idc,
        8 + sps.bit_depth_luma_minus8,
        8 + sps.bit_depth_chroma_minus8,
    );
    let mut grid = MbGrid::new(1, 1);
    reconstruct_slice(&slice_data, sh, sps, &make_pps(), store, &mut pic, &mut grid).unwrap();
    (pic, grid)
}

fn intra_mb(mb: Macroblock) -> (Picture, MbGrid) {
    one_mb(mb, &make_slice_header(), &make_sps(), &RefPicStore::new())
}

fn dc_pred_nxn() -> Macroblock {
    Macroblock {
        mb_pred: Some(MbPred {
            prev_intra4x4_pred_mode_flag: [true; 16],
            prev_intra8x8_pred_mode_flag: [true; 4],
            ..MbPred::default()
        }),
        ..blank_mb()
    }
}

fn pcm_mb(v: u32) -> Macroblock {
    Macroblock {
        mb_type: MbType::IPcm,
        mb_type_raw: 25,
        pcm_samples: Some(PcmSamples {
            luma: vec![v; 256],
            chroma_cb: vec![v; 256],
            chroma_cr: vec![v; 256],
        }),
        ..blank_mb()
    }
}

fn flat_ref(luma: i32, chroma: i32) -> RefPicStore {
    let mut p = Picture::new(16, 16, 1, 8, 8);
    p.fill_luma(luma);
    for y in 0..8 {
        for x in 0..8 {
            p.set_cb(x, y, chroma);
            p.set_cr(x, y, chroma);
        }
    }
    let mut store = RefPicStore::new();
    store.insert(0, p);
    store.set_list_0(vec![0]);
    store
}

#[test]
fn dc_level_of_a_4x4_block() {
    // Level 4 at parameter 26: 4 * 16 * 13 = 832, and (832 + 32) / 64 = 13.
    let mut first = [0i32; 16];
    first[0] = 4;
    let mb = Macroblock {
        coded_block_pattern: 1,
        residual_luma: vec![first, [0; 16], [0; 16], [0; 16]],
        ..dc_pred_nxn()
    };
    let (pic, grid) = intra_mb(mb);
    for y in 0..4 {
        for x in 0..4 {
            assert_eq!(pic.luma_at(x, y), 141);
        }
    }
    assert_eq!(grid.get(0).unwrap().luma_nonzero_4x4, 1);
    assert_eq!(grid.get(0).unwrap().cbp_luma, 1);
}

#[test]
fn dc_level_of_an_8x8_block() {
    // Level 4 at parameter 26: (4 * 16 * 26 + 2) / 4 = 416, and (416 + 32) / 64 = 7.
    let mut first = [0i32; 16];
    first[0] = 4;
    let mb = Macroblock {
        coded_block_pattern: 1,
        transform_size_8x8_flag: true,
        residual_luma: vec![first, [0; 16], [0; 16], [0; 16]],
        ..dc_pred_nxn()
    };
    let (pic, grid) = intra_mb(mb);
    for y in 0..8 {
        for x in 0..8 {
            assert_eq!(pic.luma_at(x, y), 135);
        }
    }
    assert_eq!(grid.get(0).unwrap().luma_nonzero_4x4, 0xf);
}

#[test]
fn dc_levels_of_a_16x16_macroblock() {
    // Luma: (4 * 16 * 13 + 2) / 4 = 208 for every block, and (208 + 32) / 64 = 3.
    // Chroma: 4 * 16 * 13 * 16 / 32 = 416, and (416 + 32) / 64 = 7.
    let mut dc = [0i32; 16];
    dc[0] = 4;
    let mb = Macroblock {
        mb_type: MbType::Intra16x16(Intra16x16 { pred_mode: 2, cbp_luma: 0, cbp_chroma: 1 }),
        mb_type_raw: 7,
        mb_pred: Some(MbPred::default()),
        coded_block_pattern: 16,
        residual_luma_dc: Some(dc),
        residual_chroma_dc_cb: vec![4, 0, 0, 0],
        residual_chroma_dc_cr: vec![0, 0, 0, 0],
        ..blank_mb()
    };
    let (pic, grid) = intra_mb(mb);
    for y in 0..16 {
        for x in 0..16 {
            assert_eq!(pic.luma_at(x, y), 131);
        }
    }
    for y in 0..8 {
        for x in 0..8 {
            assert_eq!(pic.cb_at(x, y), 135);
            assert_eq!(pic.cr_at(x, y), 128);
        }
    }
    let info = grid.get(0).unwrap();
    assert_eq!((info.cbp_luma, info.cbp_chroma), (0, 1));
    assert_eq!((info.luma_nonzero_4x4, info.chroma_nonzero_4x4), (0, 0));
}

#[test]
fn lossless_levels_are_differences() {
    // At parameter 0 with the bypass flag, levels are sample differences in zig-zag order.
    let mut sps = make_sps();
    sps.qpprime_y_zero_transform_bypass_flag = true;
    let mut sh = make_slice_header();
    sh.slice_qp_delta = -26;
    let mut first = [0i32; 16];
    first[1] = 5;
    let mb = Macroblock {
        coded_block_pattern: 1,
        residual_luma: vec![first, [0; 16], [0; 16], [0; 16]],
        ..dc_pred_nxn()
    };
    let (pic, _) = one_mb(mb, &sh, &sps, &RefPicStore::new());
    assert_eq!(pic.luma_at(0, 0), 128);
    assert_eq!(pic.luma_at(1, 0), 133);
    assert_eq!(pic.luma_at(0, 1), 128);
}

#[test]
fn uncompressed_samples_are_exact_at_any_depth() {
    let mut sps = make_sps();
    sps.bit_depth_luma_minus8 = 6;
    sps.bit_depth_chroma_minus8 = 6;
    let (pic, _) = one_mb(pcm_mb(16383), &make_slice_header(), &sps, &RefPicStore::new());
    assert!(pic.luma_values().iter().all(|&v| v == 16383));
    assert!(pic.cb_values().iter().all(|&v| v == 16383));
    let (pic, _) = one_mb(pcm_mb(70000), &make_slice_header(), &sps, &RefPicStore::new());
    assert!(pic.luma_values().iter().all(|&v| v == 65535));
}

#[test]
fn uncompressed_slice_fills_its_macroblocks_only() {
    let slice_data = SliceData {
        macroblocks: vec![pcm_mb(10), pcm_mb(20)],
        mb_field_decoding_flags: vec![],
        last_mb_addr: 2,
    };
    let mut sh = make_slice_header();
    sh.first_mb_in_slice = 1;
    let mut pic = Picture::new(32, 32, 1, 8, 8);
    let mut grid = MbGrid::new(2, 2);
    reconstruct_slice(
        &slice_data,
        &sh,
        &make_sps(),
        &make_pps(),
        &NoRefs,
        &mut pic,
        &mut grid,
    )
    .unwrap();
    assert_eq!(pic.luma_at(0, 0), 0);
    assert_eq!(pic.luma_at(31, 15), 10);
    assert_eq!(pic.luma_at(0, 16), 20);
    assert_eq!(pic.luma_at(31, 31), 0);
    assert_eq!(pic.cb_at(8, 0), 10);
    assert_eq!(pic.cr_at(7, 15), 20);
    assert!(!grid.get(0).unwrap().available);
    assert_eq!(grid.get(1).unwrap().slice_id, 1);
    assert_eq!(grid.get(2).unwrap().qp_y, 26);
}

#[test]
fn slice_groups_are_followed() {
    let slice_data = SliceData {
        macroblocks: vec![pcm_mb(10), pcm_mb(20), pcm_mb(30)],
        mb_field_decoding_flags: vec![],
        last_mb_addr: 2,
    };
    let mut pps = make_pps();
    pps.slice_group_map = Some(vec![0, 1, 0, 1]);
    let mut pic = Picture::new(64, 16, 1, 8, 8);
    let mut grid = MbGrid::new(4, 1);
    reconstruct_slice(
        &slice_data,
        &make_slice_header(),
        &make_sps(),
        &pps,
        &NoRefs,
        &mut pic,
        &mut grid,
    )
    .unwrap();
    // The third macroblock has no place left in its group.
    let row: Vec<i32> = [0, 16, 32, 48].iter().map(|&x| pic.luma_at(x, 3)).collect();
    assert_eq!(row, vec![10, 0, 20, 0]);
}

#[test]
fn next_address_stays_in_its_group() {
    let map = Some(vec![3, 1, 1, 3, 3]);
    assert_eq!(advance_mb_addr(0, &map), 3);
    assert_eq!(advance_mb_addr(1, &map), 2);
    assert_eq!(advance_mb_addr(2, &map), 5);
    assert_eq!(advance_mb_addr(7, &map), 8);
    assert_eq!(advance_mb_addr(7, &None), 8);
}

#[test]
fn empty_slice_changes_nothing() {
    let slice_data = SliceData {
        macroblocks: vec![],
        mb_field_decoding_flags: vec![],
        last_mb_addr: 0,
    };
    let mut sh = make_slice_header();
    sh.disable_deblocking_filter_idc = 0;
    let mut pic = Picture::new(32, 16, 1, 8, 8);
    for x in 16..32 {
        pic.set_luma(x, 0, 9);
    }
    let before = pic.luma_values();
    let mut grid = MbGrid::new(2, 1);
    reconstruct_slice(
        &slice_data,
        &sh,
        &make_sps(),
        &make_pps(),
        &NoRefs,
        &mut pic,
        &mut grid,
    )
    .unwrap();
    assert_eq!(pic.luma_values(), before);
}

#[test]
fn strong_filter_smooths_an_intra_edge() {
    let slice_data = SliceData {
        macroblocks: vec![pcm_mb(100), pcm_mb(115)],
        mb_field_decoding_flags: vec![false, false],
        last_mb_addr: 1,
    };
    let mut sh = make_slice_header();
    sh.disable_deblocking_filter_idc = 0;
    sh.slice_qp_delta = 20;
    let mut pic = Picture::new(32, 16, 1, 8, 8);
    let mut grid = MbGrid::new(2, 1);
    reconstruct_slice(
        &slice_data,
        &sh,
        &make_sps(),
        &make_pps(),
        &NoRefs,
        &mut pic,
        &mut grid,
    )
    .unwrap();
    for y in 0..16 {
        let line: Vec<i32> = (12..20).map(|x| pic.luma_at(x, y)).collect();
        assert_eq!(line, vec![100, 102, 104, 106, 109, 111, 113, 115]);
    }
}

#[test]
fn deblocking_apart_equals_deblocking_with_the_slice() {
    let slice_data = SliceData {
        macroblocks: vec![pcm_mb(100), pcm_mb(115)],
        mb_field_decoding_flags: vec![false, false],
        last_mb_addr: 1,
    };
    let mut sh = make_slice_header();
    sh.disable_deblocking_filter_idc = 0;
    sh.slice_qp_delta = 20;
    sh.slice_alpha_c0_offset_div2 = -3;
    sh.slice_beta_offset_div2 = 2;
    let (sps, pps) = (make_sps(), make_pps());
    let mut whole = Picture::new(32, 16, 1, 8, 8);
    let mut grid = MbGrid::new(2, 1);
    reconstruct_slice(&slice_data, &sh, &sps, &pps, &NoRefs, &mut whole, &mut grid).unwrap();

    let mut parts = Picture::new(32, 16, 1, 8, 8);
    let mut grid = MbGrid::new(2, 1);
    reconstruct_slice_no_deblock(&slice_data, &sh, &sps, &pps, &NoRefs, &mut parts, &mut grid)
        .unwrap();
    assert_eq!(parts.luma_at(15, 0), 100);
    deblock_picture_full(&mut parts, &grid, -6, 4, 8, 8, &pps, false, false, &[false, false]);
    assert_eq!(parts.luma_values(), whole.luma_values());
    assert_eq!(parts.cb_values(), whole.cb_values());
}

#[test]
fn fine_quantisation_is_not_deblocked() {
    let slice_data = SliceData {
        macroblocks: vec![pcm_mb(100), pcm_mb(101)],
        mb_field_decoding_flags: vec![false, false],
        last_mb_addr: 1,
    };
    let mut sh = make_slice_header();
    sh.disable_deblocking_filter_idc = 0;
    sh.slice_qp_delta = -11;
    let mut pic = Picture::new(32, 16, 1, 8, 8);
    let mut grid = MbGrid::new(2, 1);
    reconstruct_slice(
        &slice_data,
        &sh,
        &make_sps(),
        &make_pps(),
        &NoRefs,
        &mut pic,
        &mut grid,
    )
    .unwrap();
    assert_eq!((pic.luma_at(15, 4), pic.luma_at(16, 4)), (100, 101));
}

#[test]
fn undecoded_macroblocks_are_not_deblocked() {
    let mut pic = Picture::new(32, 16, 1, 8, 8);
    for y in 0..16 {
        for x in 16..32 {
            pic.set_luma(x, y, 15);
        }
    }
    let before = pic.luma_values();
    let mut grid = MbGrid::new(2, 1);
    for addr in 0..2 {
        let info = grid.get_mut(addr).unwrap();
        info.is_intra = true;
        info.qp_y = 46;
    }
    let pps = make_pps();
    deblock_picture_full(&mut pic, &grid, 0, 0, 8, 8, &pps, false, false, &[]);
    assert_eq!(pic.luma_values(), before);
    for addr in 0..2 {
        grid.get_mut(addr).unwrap().available = true;
    }
    deblock_picture_full(&mut pic, &grid, 0, 0, 8, 8, &pps, false, false, &[]);
    assert_ne!(pic.luma_values(), before);
}

#[test]
fn quantisation_changes_can_be_undone() {
    for bit_depth in 0..=6 {
        let low = -6 * bit_depth as i32;
        for prev in low..=51 {
            for delta in -60..=60 {
                let q = next_qp_y(prev, delta, bit_depth);
                assert!((low..=51).contains(&q));
                assert_eq!(next_qp_y(q, -delta, bit_depth), prev);
            }
        }
    }
}

#[test]
fn skipped_and_uncompressed_macroblocks_keep_the_parameter() {
    let mut nxn = dc_pred_nxn();
    nxn.mb_qp_delta = 7;
    let mut pcm = pcm_mb(5);
    pcm.mb_qp_delta = 9;
    let slice_data = SliceData {
        macroblocks: vec![nxn, pcm],
        mb_field_decoding_flags: vec![],
        last_mb_addr: 1,
    };
    let mut pic = Picture::new(32, 16, 1, 8, 8);
    let mut grid = MbGrid::new(2, 1);
    reconstruct_slice(
        &slice_data,
        &make_slice_header(),
        &make_sps(),
        &make_pps(),
        &NoRefs,
        &mut pic,
        &mut grid,
    )
    .unwrap();
    assert_eq!(grid.get(0).unwrap().qp_y, 33);
    assert_eq!(grid.get(1).unwrap().qp_y, 33);
    assert_eq!(grid.get(1).unwrap().luma_nonzero_4x4, 0xffff);
}

#[test]
fn sp_slice_requantises_its_prediction() {
    // Luma: a flat block of 50 has the coefficient 800; at parameter 26 it quantises to 15, and
    // 15 * 13 * 16 = 3120 gives (3120 + 32) / 64 = 49. A flat chroma block of 128 is kept.
    let mut sh = make_slice_header();
    sh.slice_type = SliceType::SP;
    let store = flat_ref(50, 128);
    let (pic, grid) = one_mb(Macroblock::new_skip(SliceType::P), &sh, &make_sps(), &store);
    assert!(pic.luma_values().iter().all(|&v| v == 49));
    assert!(pic.cb_values().iter().all(|&v| v == 128));
    assert!(pic.cr_values().iter().all(|&v| v == 128));
    assert!(grid.get(0).unwrap().in_sp_si_slice);
}

#[test]
fn flat_reference_predicts_flat_for_any_vector() {
    let store = flat_ref(93, 40);
    let pic = store.get_by_key(0).unwrap();
    for y in -5..6 {
        for x in -5..6 {
            let mv = Mv { x, y };
            let luma = mc_luma_partition(pic, 4, 4, mv, 8, 8, 8, None).unwrap();
            assert!(luma.iter().all(|&v| v == 93));
            let (cb, cr) = mc_chroma_partition(pic, 2, 2, mv, 4, 4, 1, None).unwrap();
            assert!(cb.iter().chain(cr.iter()).all(|&v| v == 40));
        }
    }
}

#[test]
fn whole_sample_vectors_copy_with_clamped_coordinates() {
    let mut pic = Picture::new(16, 16, 1, 8, 8);
    for y in 0..16 {
        for x in 0..16 {
            pic.set_luma(x, y, 16 * y + x);
        }
    }
    let block = mc_luma_partition(&pic, 12, 4, Mv { x: 8, y: -4 }, 4, 4, 8, None).unwrap();
    assert_eq!(&block[0..4], &[62, 63, 63, 63]);
    assert_eq!(&block[12..16], &[110, 111, 111, 111]);
    // The bottom field holds the odd rows.
    let block = mc_luma_partition(&pic, 0, 0, Mv { x: 0, y: 8 }, 4, 4, 8, Some(1)).unwrap();
    assert_eq!([block[0], block[4], block[8], block[12]], [80, 112, 144, 176]);
}

#[test]
fn implicit_weights_add_up() {
    for cur in -20..20 {
        for poc1 in -20..20 {
            let (w0, w1, shift) = implicit_bipred_weights(cur, 0, poc1, false);
            assert_eq!((w0 + w1, shift), (64, 5));
            assert!((-64..=128).contains(&w0) && (-64..=128).contains(&w1));
        }
    }
}

#[test]
fn field_scan_keeps_every_level() {
    let mut levels = [0i32; 64];
    for (i, l) in levels.iter_mut().enumerate() {
        *l = i as i32;
    }
    let field = inverse_scan_8x8_field(&levels);
    assert_eq!(&field[0..8], &[0, 3, 8, 15, 22, 30, 38, 52]);
    for block in [field, inverse_scan_8x8_zigzag(&levels)] {
        let mut sorted = block.to_vec();
        sorted.sort();
        assert_eq!(sorted, levels.to_vec());
    }
}

#[test]
fn coefficient_masks_tell_blocks() {
    let mut coded = [0i32; 16];
    coded[15] = -1;
    let mut mb = dc_pred_nxn();
    mb.coded_block_pattern = 0b10_1001;
    mb.residual_luma = vec![[0; 16]; 8];
    mb.residual_luma[1] = coded;
    mb.residual_luma[6] = coded;
    mb.residual_chroma_ac_cb = vec![[0; 16]; 4];
    mb.residual_chroma_ac_cr = vec![[0; 16]; 4];
    mb.residual_chroma_ac_cr[2] = coded;
    assert_eq!(compute_luma_nonzero_mask(&mb), (1 << 1) | (1 << 14));
    assert_eq!(compute_chroma_nonzero_mask(&mb, 1), 1 << 10);
    assert_eq!(compute_chroma_nonzero_mask(&mb, 3), 0);
    mb.coded_block_pattern = 0b01_1001;
    assert_eq!(compute_chroma_nonzero_mask(&mb, 1), 0);
}

#[test]
fn uncompressed_macroblocks_have_all_chroma_blocks_of_their_format() {
    let mb = pcm_mb(1);
    assert_eq!(compute_luma_nonzero_mask(&mb), 0xffff);
    assert_eq!(compute_chroma_nonzero_mask(&mb, 1), 0x0f0f);
    assert_eq!(compute_chroma_nonzero_mask(&mb, 2), 0xffff);
    for (format, mask) in [(1, 0x0f0f), (2, 0xffff)] {
        let mut sps = make_sps();
        sps.chroma_format_idc = format;
        let (_, grid) = one_mb(pcm_mb(1), &make_slice_header(), &sps, &RefPicStore::new());
        assert_eq!(grid.get(0).unwrap().chroma_nonzero_4x4, mask);
    }
}

#[test]
fn skipped_macroblock_copies_its_reference() {
    let mut reference = Picture::new(16, 16, 1, 8, 8);
    for y in 0..16 {
        for x in 0..16 {
            reference.set_luma(x, y, (7 * y + 3 * x) % 256);
        }
    }
    let want = reference.luma_values();
    let mut store = RefPicStore::new();
    store.insert(4, reference);
    store.set_list_0(vec![4]);
    let mut sh = make_slice_header();
    sh.slice_type = SliceType::P;
    let (pic, grid) = one_mb(Macroblock::new_skip(SliceType::P), &sh, &make_sps(), &store);
    assert_eq!(pic.luma_values(), want);
    assert_eq!(grid.get(0).unwrap().ref_idx_l0, [0; 4]);
}

#[test]
fn median_of_three_vectors() {
    assert_eq!(median_of(3, -2, 9), 3);
    assert_eq!(median_of(9, 3, -2), 3);
    assert_eq!(median_of(5, 5, -100), 5);
    let n = |mv| NeighbourMv { mb_available: true, partition_available: true, ref_idx: 0, mv };
    let r = derive_median_mvpred(
        n(Mv { x: 1, y: 8 }),
        n(Mv { x: 4, y: 2 }),
        n(Mv { x: 2, y: 5 }),
        0,
    );
    assert_eq!(r, Mv { x: 2, y: 5 });
}

#[test]
fn unit_weights_change_nothing() {
    for denom in 0..=7 {
        let mut reference = Picture::new(16, 16, 1, 8, 8);
        for y in 0..16 {
            for x in 0..16 {
                reference.set_luma(x, y, (31 * y + 17 * x) % 256);
            }
        }
        let want = reference.luma_values();
        let mut store = RefPicStore::new();
        store.insert(0, reference);
        store.set_list_0(vec![0]);
        let mut sh = make_slice_header();
        sh.slice_type = SliceType::P;
        sh.pred_weight_table = Some(PredWeightTable {
            luma_log2_weight_denom: denom,
            chroma_log2_weight_denom: denom,
            luma_weights_l0: vec![Some((1 << denom, 0))],
            chroma_weights_l0: vec![None],
            luma_weights_l1: vec![],
            chroma_weights_l1: vec![],
        });
        let mut pps = make_pps();
        pps.weighted_pred_flag = true;
        let slice_data = SliceData {
            macroblocks: vec![Macroblock::new_skip(SliceType::P)],
            mb_field_decoding_flags: vec![],
            last_mb_addr: 0,
        };
        let mut pic = Picture::new(16, 16, 1, 8, 8);
        let mut grid = MbGrid::new(1, 1);
        reconstruct_slice(&slice_data, &sh, &make_sps(), &pps, &store, &mut pic, &mut grid)
            .unwrap();
        assert_eq!(pic.luma_values(), want);
    }
}

#[test]
fn refused_slice_changes_nothing() {
    let mut sps = make_sps();
    sps.chroma_format_idc = 3;
    let mut sh = make_slice_header();
    sh.slice_type = SliceType::SI;
    sh.disable_deblocking_filter_idc = 0;
    let slice_data = SliceData {
        macroblocks: vec![pcm_mb(10)],
        mb_field_decoding_flags: vec![],
        last_mb_addr: 0,
    };
    let mut pic = Picture::new(16, 16, 3, 8, 8);
    pic.fill_luma(3);
    let mut grid = MbGrid::new(1, 1);
    let r = reconstruct_slice(&slice_data, &sh, &sps, &make_pps(), &NoRefs, &mut pic, &mut grid);
    assert!(matches!(r, Err(ReconstructError::SpSiUnsupported(_))));
    assert!(pic.luma_values().iter().all(|&v| v == 3));
    assert!(!grid.get(0).unwrap().available);
}

#[test]
fn deblocking_keeps_samples_in_range() {
    let mut pic = Picture::new(32, 32, 1, 10, 10);
    for y in 0..32 {
        for x in 0..32 {
            let v = if (x / 4 + y / 4) % 2 == 0 { 1023 } else { 1000 };
            pic.set_luma(x, y, v);
            pic.set_cb(x / 2, y / 2, 1023 - v);
        }
    }
    let before = pic.luma_values();
    let mut grid = MbGrid::new(2, 2);
    for addr in 0..4 {
        let info = grid.get_mut(addr).unwrap();
        info.available = true;
        info.is_intra = true;
        info.qp_y = 51;
    }
    deblock_picture_full(&mut pic, &grid, 12, 12, 10, 10, &make_pps(), false, false, &[]);
    assert_ne!(pic.luma_values(), before);
    assert!(pic.luma_values().iter().all(|&v| v <= 1023));
    assert!(pic.cb_values().iter().all(|&v| v <= 1023));
}

#[test]
fn flat_neighbours_predict_a_flat_block() {
    for by8 in [false, true] {
        let mut nxn = dc_pred_nxn();
        nxn.transform_size_8x8_flag = by8;
        let slice_data = SliceData {
            macroblocks: vec![pcm_mb(90), nxn],
            mb_field_decoding_flags: vec![],
            last_mb_addr: 1,
        };
        let mut pic = Picture::new(32, 16, 1, 8, 8);
        let mut grid = MbGrid::new(2, 1);
        reconstruct_slice(
            &slice_data,
            &make_slice_header(),
            &make_sps(),
            &make_pps(),
            &NoRefs,
            &mut pic,
            &mut grid,
        )
        .unwrap();
        assert!(pic.luma_values().iter().all(|&v| v == 90));
        assert!(pic.cb_values().iter().all(|&v| v == 90));
    }
}

#[test]
fn sp_skip_does_not_depend_on_the_parameter_of_levels() {
    for delta in [-40, 0, 40] {
        let mut sh = make_slice_header();
        sh.slice_type = SliceType::SP;
        sh.slice_qp_delta = delta;
        let store = flat_ref(50, 128);
        let (pic, _) = one_mb(Macroblock::new_skip(SliceType::P), &sh, &make_sps(), &store);
        assert!(pic.luma_values().iter().all(|&v| v == 49));
    }
}

#[test]
fn failed_slice_keeps_what_came_before() {
    let run = |macroblocks: Vec<Macroblock>| {
        let slice_data = SliceData {
            macroblocks,
            mb_field_decoding_flags: vec![],
            last_mb_addr: 0,
        };
        let mut sh = make_slice_header();
        sh.first_mb_in_slice = 1;
        let mut pic = Picture::new(64, 16, 1, 8, 8);
        pic.fill_luma(3);
        let mut grid = MbGrid::new(4, 1);
        let r = reconstruct_slice_no_deblock(
            &slice_data,
            &sh,
            &make_sps(),
            &make_pps(),
            &NoRefs,
            &mut pic,
            &mut grid,
        );
        (r.is_ok(), pic, grid)
    };
    let (ok, failed, grid) = run(vec![pcm_mb(10), blank_mb(), pcm_mb(20)]);
    assert!(!ok);
    let (ok, start, start_grid) = run(vec![pcm_mb(10)]);
    assert!(ok);
    assert_eq!(failed.luma_values(), start.luma_values());
    assert_eq!(failed.cb_values(), start.cb_values());
    let row: Vec<i32> = [0, 16, 32, 48].iter().map(|&x| failed.luma_at(x, 9)).collect();
    assert_eq!(row, vec![3, 10, 3, 3]);
    for addr in [0, 1, 3] {
        let (a, b) = (grid.get(addr).unwrap(), start_grid.get(addr).unwrap());
        assert_eq!((a.available, a.qp_y, a.slice_id), (b.available, b.qp_y, b.slice_id));
    }
    assert!(grid.get(1).unwrap().available && !grid.get(3).unwrap().available);
}

#[test]
fn pixels_find_their_macroblocks_in_pairs() {
    let mut grid = MbGrid::new(3, 4);
    grid.mbaff_frame_flag = true;
    let mut flags = vec![false; 12];
    for addr in [2, 3, 6, 7, 10, 11] {
        grid.get_mut(addr).unwrap().mb_field_decoding_flag = true;
        flags[addr as usize] = true;
    }
    let c = EdgeCtx { grid: &grid, mbaff: true, field_pic: false, flags: &flags };
    for addr in 0..12 {
        let field = flags[addr as usize];
        let (px, py) = mb_sample_origin(&grid, addr, true, field);
        for y in 0..16 {
            for x in 0..16 {
                let (ax, ay) = mbaff_abs_luma(&grid, addr, x, y);
                assert_eq!(pixel_to_mb_addr(&c, ax, ay), Some(addr));
                let wr = MbWriter::new(&grid, addr, px, py, true, field, 1);
                assert_eq!(ax, (px + x) as i64);
                assert_eq!(ay, (py + y * wr.y_stride()) as i64);
                for format in 1..=3 {
                    let wr = MbWriter::new(&grid, addr, px, py, true, field, format);
                    let want = (wr.chroma_mb_px() + x, wr.chroma_mb_py() + y * wr.y_stride());
                    let got = mbaff_abs_chroma(&grid, addr, x, y, format);
                    assert_eq!(got, (want.0 as i64, want.1 as i64));
                }
            }
        }
    }
    for (x, y) in [(-1, 0), (0, -1), (48, 0), (0, 64)] {
        assert_eq!(pixel_to_mb_addr(&c, x, y), None);
    }
    assert_eq!(pixel_to_mb_addr(&c, 47, 63), Some(11));
}
