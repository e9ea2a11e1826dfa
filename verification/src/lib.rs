//! Slice reconstruction for H.264 / AVC video.
pub mod address_laws;
pub mod boundary_strength;
pub mod coded_blocks;
pub mod deblock;
pub mod deblock_laws;
pub mod deblock_picture;
pub mod direct;
pub mod direct_laws;
pub mod error;
pub mod filter_laws;
pub mod geometry;
pub mod inter_laws;
pub mod inter_partition;
pub mod inter_pred;
pub mod intra_block_laws;
pub mod intra_laws;
pub mod intra_modes;
pub mod intra_pred;
pub mod locality_laws;
pub mod macroblock_laws;
pub mod lossless_laws;
pub mod macroblock_layer;
pub mod math;
pub mod mb_address;
pub mod mb_grid;
pub mod mbaff_filter_laws;
pub mod mbaff_laws;
pub mod mc_laws;
pub mod mode_laws;
pub mod motion_laws;
pub mod mv_deriv;
pub mod neighbours;
pub mod partition_laws;
pub mod partition_mvs;
pub mod partitions;
pub mod picture;
pub mod plane;
pub mod pps;
pub mod prediction_laws;
pub mod recon_blocks;
pub mod recon_intra;
pub mod recon_mb_inter;
pub mod recon_mb_intra;
pub mod reconstruct;
pub mod ref_store;
pub mod residual;
pub mod residual_laws;
pub mod scan;
pub mod setup_laws;
pub mod slice_data;
pub mod slice_header;
pub mod slice_laws;
pub mod slice_locality;
pub mod sp_laws;
pub mod sp_transform;
pub mod sps;
pub mod strength_laws;
pub mod transform;
