//! A scene-script renderer's verified core: a fixed-size pixel buffer, a
//! Bresenham line rasterizer, a hierarchical transform stack, the knob-driven
//! animation clock, script lexing helpers, and the binary raster output
//! format.
//!
//! Floating-point geometry (the 4x4 matrix arithmetic, triangle scan
//! conversion with z-buffering) and all I/O (saving frames, worker threads,
//! external image conversion) live outside this crate, in the surrounding
//! application; everything here is exact integer, string and buffer logic,
//! each function carrying a proved contract.

/// Crate-wide constants: screen dimensions and worker-pool size.
pub mod consts;

/// Decimal rendering of unsigned integers, as characters and as bytes.
pub mod numfmt;

/// Colors and integer screen points for the edge-drawing layer.
pub mod point;

/// Integer line segments.
pub mod line;

/// The pixel buffer and the scan-conversion rasterizer.
pub mod render;

/// The hierarchical transform stack.
pub mod stack;

/// The knob-driven animation clock.
pub mod anim;

/// The binary raster output format.
pub mod ppm;

/// Script lexing: lexemes, names, unsigned integers, axes.
pub mod parse;
