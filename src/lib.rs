//! Photometric data: parsing of EULUMDAT luminaire files and reconstruction
//! of a full-revolution intensity distribution from symmetry-reduced samples.
//!
//! Angles are held in thousandths of a degree and all other decimal values in
//! thousandths of their unit, so that every computation is exact.

pub mod symmetry;
pub mod photweb;
pub mod number;
pub mod lines;
pub mod eulumdat;
pub mod photometric_web_renderer;
