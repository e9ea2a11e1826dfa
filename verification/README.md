# h264_recon

Slice reconstruction for H.264 / AVC video: from parsed macroblocks to picture samples. It covers
intra and inter prediction, inverse transforms, weighted and direct prediction, SP and SI slices,
field and MBAFF pictures, and the deblocking filter, for 4:0:0 to 4:4:4 chroma and 8 to 14 bits.

Every function states what it computes over mathematical models: a plane is a function from
positions to integers, a grid a sequence of macroblock records, a picture three planes.

| Modules | Content |
| --- | --- |
| `reconstruct` | slices: the entry points |
| `recon_mb_intra`, `recon_mb_inter`, `recon_intra`, `recon_blocks`, `inter_partition` | macroblocks, blocks and partitions |
| `intra_modes`, `intra_pred`, `neighbours` | intra prediction |
| `partitions`, `direct`, `partition_mvs`, `mv_deriv`, `inter_pred` | inter prediction |
| `transform`, `scan`, `residual`, `sp_transform`, `coded_blocks` | residuals |
| `deblock`, `boundary_strength`, `deblock_picture` | the deblocking filter |
| `picture`, `plane`, `mb_grid`, `mb_address`, `geometry`, `ref_store` | pictures, macroblock records, reference pictures |
| `sps`, `pps`, `slice_header`, `slice_data`, `macroblock_layer` | parsed syntax |
| `slice_laws`, `slice_locality`, `locality_laws`, `inter_laws`, `deblock_laws`, `address_laws` | properties of whole slices, macroblocks and pictures |

`app/` wraps the entry points with displayable errors, and lets the environment variable
`OXIDEAV_H264_NO_DEBLOCK` turn deblocking off.
