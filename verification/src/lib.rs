//! Core of an interactive point-cloud viewer: fixed-point quantization of
//! world coordinates, the packed vertex buffer streamed to the GPU, the
//! orbit/pan/zoom camera state machine, the line-oriented geometry parser,
//! the per-frame draw-call computation, and the axis-gizmo overlay.
//!
//! Real numbers are represented throughout as scaled integers: world
//! coordinates in micro-units (millionths of a world unit), quantized
//! vertex positions in milli-units (thousandths), screen lengths in
//! milli-pixels. All arithmetic on them is exact and verified.

pub mod buffer;
pub mod camera;
pub mod numbers;
pub mod overlay;
pub mod panes;
pub mod ply;
pub mod point;
pub mod quant;
pub mod render;
pub mod text;
