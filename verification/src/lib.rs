//! Subtitle script data model and vector path rasterization engine.
//!
//! The crate has two halves. The data half holds the parsed form of a
//! subtitle script (sections, events, style tags) together with a verified
//! line parser. The geometry half lowers vector paths (lines, cubic curves,
//! circular arcs) to polylines and rasterizes them into per-row horizontal
//! pixel spans under the even-odd fill rule.
//!
//! All coordinates are fixed-point values (thousandths of a device unit),
//! so every geometric computation is exact integer arithmetic and carries a
//! full functional contract.

pub mod chars;
pub mod data;
pub mod flatten;
pub mod objects;
pub mod path;
pub mod point;
pub mod processors;
pub mod render;
pub mod scanline;
pub mod scanlines;
pub mod state;
