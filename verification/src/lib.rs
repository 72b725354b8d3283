//! Deep Zoom coordinate engine for whole-slide images.
//!
//! A whole-slide image is stored as a pyramid of native levels, each with its
//! own pixel dimensions and its own downsample factor relative to the finest
//! level. This library synthesises on top of such a pyramid the canonical
//! power-of-two Deep Zoom tile pyramid, and computes for every tile the region
//! of the slide that has to be read and the exact pixel size of the tile.
//!
//! Slides report downsample factors as doubles. The library holds a double
//! as its significand and exponent and computes with integers only, rounding
//! each product, quotient and sum as double-precision arithmetic rounds it.

pub mod arith;
pub mod binary64;
pub mod bounds;
pub mod deepzoom;
pub mod downsample;
pub mod error;
pub mod geometry;
pub mod laws;
pub mod pixels;
pub mod pyramid;
pub mod text;
pub mod tile;
pub mod utils;

pub use bounds::BoundsProperties;
pub use deepzoom::{DeepZoom, SlideInfo, SlideLevel};
pub use downsample::{Downsample, LevelRatio};
pub use error::OpenSlideError;
pub use geometry::{Address, Region, Size};
pub use pixels::Pixels;
pub use utils::resize_dimensions;
