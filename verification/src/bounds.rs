//! The bounds of a slide: the rectangle of level 0 that holds the scan.
//!
//! A slide may name its bounds in four text properties. An engine limited to
//! the bounds shows only that rectangle: every native level is scaled by the
//! share that the bounds have of level 0, and tile origins are moved by the
//! origin of the bounds.

use crate::binary64::{double_ratio, Double};
use crate::geometry::Size;
use crate::text::{parse_u32, parse_u32_spec};
use vstd::prelude::*;

verus! {

/// The property that holds the left edge of the bounds.
pub const BOUNDS_X: &'static str = "openslide.bounds-x";

/// The property that holds the top edge of the bounds.
pub const BOUNDS_Y: &'static str = "openslide.bounds-y";

/// The property that holds the width of the bounds.
pub const BOUNDS_WIDTH: &'static str = "openslide.bounds-width";

/// The property that holds the height of the bounds.
pub const BOUNDS_HEIGHT: &'static str = "openslide.bounds-height";

/// The values of the four bounds properties of a slide, each `None` where
/// the slide does not have the property.
#[derive(Clone, Debug)]
pub struct BoundsProperties {
    pub x: Option<String>,
    pub y: Option<String>,
    pub width: Option<String>,
    pub height: Option<String>,
}

/// The number that a property holds, or `default` where the property is
/// absent or is not an unsigned 32-bit integer.
pub open spec fn property_or(value: Option<String>, default: u32) -> u32 {
    match value {
        Some(text) => match parse_u32_spec(text@) {
            Some(number) => number,
            None => default,
        },
        None => default,
    }
}

/// An extent of a native level scaled by the double `bounds / full`, rounded
/// up. Over a level 0 without extent the scale has no bound: what is not
/// empty then becomes as large as 32 bits allow.
pub open spec fn scaled_extent(extent: u32, bounds: u32, full: u32) -> u32 {
    if full > 0 {
        double_ratio(bounds as nat, full as nat).ceil_times(extent as int)
    } else if extent == 0 || bounds == 0 {
        0u32
    } else {
        u32::MAX
    }
}

/// The dimensions of a native level scaled on each axis by the share that
/// `bounds` has of `full`.
pub open spec fn scaled_size(dims: Size, bounds: Size, full: Size) -> Size {
    Size { w: scaled_extent(dims.w, bounds.w, full.w), h: scaled_extent(dims.h, bounds.h, full.h) }
}

/// Reads the number that a property holds.
pub fn read_property(value: &Option<String>, default: u32) -> (out: u32)
    ensures
        out == property_or(*value, default),
{
    match value {
        Some(text) => match parse_u32(text.as_str()) {
            Some(number) => number,
            None => default,
        },
        None => default,
    }
}

/// Scales an extent of a native level by `bounds / full`.
pub fn scale_extent(extent: u32, bounds: u32, full: u32) -> (out: u32)
    ensures
        out == scaled_extent(extent, bounds, full),
{
    if full > 0 {
        if extent == 0 {
            0
        } else {
            Double::ratio(bounds, full).times(extent).ceil_u32()
        }
    } else if extent == 0 || bounds == 0 {
        0
    } else {
        u32::MAX
    }
}

/// Scales the dimensions of a native level to the bounds.
pub fn scale_size(dims: Size, bounds: Size, full: Size) -> (out: Size)
    ensures
        out == scaled_size(dims, bounds, full),
{
    Size { w: scale_extent(dims.w, bounds.w, full.w), h: scale_extent(dims.h, bounds.h, full.h) }
}

} // verus!
