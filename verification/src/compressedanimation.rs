//! Structural decoder for spline-compressed animation payloads: transform
//! masks, packed quaternions, per-block track channels and block splitting.
//! Floats are carried as bit patterns or raw fixed-point integers; numeric
//! evaluation is the caller's concern.

mod animation;
mod blockdata;
mod masks;
mod splinecompressedanimation;

pub use animation::{
    animation_nodes_from_root, block_offset, spec_animation_nodes, spline_fields_ok, spline_payload_readable, block_segment_ok, frames_pending, u8_payload,
    BaseCompressedAnimation, SplineCompressedAnimation,
};
pub use blockdata::{
    align_up, k32_unpack, k40_unpack, k48_unpack, BlockDataReader, PackedQuaternion, QuatK32,
    QuatK40, QuatK48,
};
pub use masks::{
    CompressedQuaternionType, CompressedScalarType, QuatMask, TransformMask, ValueMask, VectorMask,
};
pub use splinecompressedanimation::{
    block_wf, comp_spline, compressed_float_array_wf, compressed_quat_array_wf,
    quat_channel_end, quat_channel_readable, quat_spline_wf, range_floats, scalar_at,
    scalar_width, track_channels_wf, track_end, track_readable, track_start, track_wf,
    tracks_readable, vector_channel_end, vector_channel_readable, vector_spline_wf, Block,
    CompressedFloatArray, CompressedQuatArray, QuatSpline, Track, VectorSpline,
};
