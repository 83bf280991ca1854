//! Frame preparation for a planar video surface: packed-RGB to NV12
//! conversion, the per-stream resource table, and the single-slot frame
//! handoff between a decoding producer and a rendering consumer.

pub mod color;
pub mod poster;
pub mod pipeline;
pub mod render;
pub mod video;
