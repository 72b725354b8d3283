//! Dimensions for resizing an image without changing its aspect ratio.

use vstd::prelude::*;

verus! {

/// Whether the new width is taken as given and the height follows from it.
/// Without `fill` that is the case where the image is at least as wide, for
/// its height, as the new rectangle is; with `fill` where it is less so.
pub open spec fn width_leads(width: u32, height: u32, nwidth: u32, nheight: u32, fill: bool) -> bool {
    if fill {
        nwidth * height > width * nheight
    } else {
        nwidth * height <= width * nheight
    }
}

/// The dimensions to which an image of `width` by `height` is resized for a
/// rectangle of `nwidth` by `nheight`: one extent is that of the rectangle
/// and the other keeps the aspect ratio, rounded down. Where that other
/// extent would exceed 32 bits it becomes the largest 32-bit number, and the
/// first is reduced by the same ratio.
pub open spec fn resized_dimensions(
    width: u32,
    height: u32,
    nwidth: u32,
    nheight: u32,
    fill: bool,
) -> (u32, u32) {
    if width_leads(width, height, nwidth, nheight, fill) {
        let follows = (height * nwidth) / (width as int);
        if follows <= u32::MAX {
            (nwidth, follows as u32)
        } else {
            (((nwidth * u32::MAX) / follows) as u32, u32::MAX)
        }
    } else {
        let follows = (width * nheight) / (height as int);
        if follows <= u32::MAX {
            (follows as u32, nheight)
        } else {
            (u32::MAX, ((nheight * u32::MAX) / follows) as u32)
        }
    }
}

/// Reduces `given` by the ratio of the largest 32-bit number to `follows`.
fn reduce(given: u32, follows: u64) -> (out: u32)
    requires
        follows > u32::MAX,
    ensures
        out == (given * u32::MAX) / (follows as int),
{
    assert(given * u32::MAX <= 0xffff_ffff * 0xffff_ffff) by (nonlinear_arith)
        requires
            given <= 0xffff_ffff,
    ;
    let product: u64 = given as u64 * 0xffff_ffff;
    let reduced: u64 = product / follows;
    assert(reduced <= given) by (nonlinear_arith)
        requires
            reduced == product / follows,
            product == given * 0xffff_ffff,
            follows > 0xffff_ffff,
    ;
    reduced as u32
}

/// Calculates the width and height an image should be resized to. This
/// preserves the aspect ratio. With `fill` the result covers the rectangle of
/// `nwidth` by `nheight` and exceeds it on one axis; without it the result
/// lies within the rectangle.
pub fn resize_dimensions(width: u32, height: u32, nwidth: u32, nheight: u32, fill: bool) -> (out: (
    u32,
    u32,
))
    requires
        width_leads(width, height, nwidth, nheight, fill) ==> width > 0,
        !width_leads(width, height, nwidth, nheight, fill) ==> height > 0,
    ensures
        out == resized_dimensions(width, height, nwidth, nheight, fill),
{
    assert(width * nheight <= 0xffff_ffff * 0xffff_ffff) by (nonlinear_arith)
        requires
            width <= 0xffff_ffff,
            nheight <= 0xffff_ffff,
    ;
    assert(nwidth * height <= 0xffff_ffff * 0xffff_ffff) by (nonlinear_arith)
        requires
            nwidth <= 0xffff_ffff,
            height <= 0xffff_ffff,
    ;
    let ratio: u64 = width as u64 * nheight as u64;
    let nratio: u64 = nwidth as u64 * height as u64;
    let use_width: bool = if fill {
        nratio > ratio
    } else {
        nratio <= ratio
    };
    assert(height * nwidth == nwidth * height) by (nonlinear_arith);
    if use_width {
        let follows: u64 = nratio / (width as u64);
        if follows <= 0xffff_ffff {
            (nwidth, follows as u32)
        } else {
            (reduce(nwidth, follows), u32::MAX)
        }
    } else {
        let follows: u64 = ratio / (height as u64);
        if follows <= 0xffff_ffff {
            (follows as u32, nheight)
        } else {
            (u32::MAX, reduce(nheight, follows))
        }
    }
}

} // verus!
