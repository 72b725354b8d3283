//! Pixel buffers, and bringing one to the exact size of a tile.

use crate::geometry::Size;
use vstd::prelude::*;

verus! {

/// An image as plain values: its size, and its pixels row by row, four
/// bytes each.
pub struct PixelsView {
    pub size: Size,
    pub data: Seq<u8>,
}

/// An RGBA image of eight bits per channel.
#[derive(Debug)]
pub struct Pixels {
    width: u32,
    height: u32,
    data: Vec<u8>,
}

impl View for Pixels {
    type V = PixelsView;

    closed spec fn view(&self) -> PixelsView {
        PixelsView { size: Size { w: self.width, h: self.height }, data: self.data@ }
    }
}

/// The largest width or height, `2^20`, of an image that is resampled or
/// that resampling gives. The filter places pixels in single precision, which
/// is exact far beyond this extent; near `2^24` it is not, and the filter
/// then loses the pixels it is to weigh.
pub const MAX_RESAMPLE_EXTENT: u32 = 0x10_0000;

/// Whether an image of size `from` can be resampled to size `to`: no extent
/// of either is above `MAX_RESAMPLE_EXTENT`, and memory can hold what the
/// resampling allocates, which is the result and, between the two passes, an
/// image as wide as the source and as high as the result, of four 32-bit
/// channels.
pub open spec fn can_resample(from: Size, to: Size) -> bool {
    &&& from.w <= MAX_RESAMPLE_EXTENT
    &&& from.h <= MAX_RESAMPLE_EXTENT
    &&& to.w <= MAX_RESAMPLE_EXTENT
    &&& to.h <= MAX_RESAMPLE_EXTENT
    &&& 16 * from.w * to.h <= isize::MAX
    &&& 4 * to.w * to.h <= isize::MAX
}

/// Whether `out` is `pixels` brought to `size`: `pixels` itself where it has
/// that size, else an image of that size, which the resampling filter
/// determines. `None` where the image cannot be resampled to that size.
pub open spec fn is_fitted(pixels: PixelsView, size: Size, out: Option<PixelsView>) -> bool {
    if pixels.size == size {
        out == Some(pixels)
    } else if can_resample(pixels.size, size) {
        &&& out matches Some(tile)
        &&& tile.size == size
        &&& tile.data.len() == 4 * size.w * size.h
    } else {
        out is None
    }
}

/// Calls `image::imageops::resize` with `FilterType::Lanczos3` on the RGBA
/// image that `ImageBuffer::from_raw` makes of `data`, and hands out the
/// bytes of the result. Not proved but taken from the `image` crate: the
/// result has four bytes for each pixel of the new dimensions. Nothing is
/// said of the pixels themselves: the filter computes its weights with
/// floating-point functions whose last digit may vary. The call panics in
/// two ways, and the preconditions leave both out. It panics where a buffer
/// it allocates exceeds the largest allocation. And it panics where an
/// extent is so large that single precision no longer tells neighbouring
/// pixels apart: every pixel of a window may then fall outside the support
/// of the filter, the weights add up to zero, and the division by their sum
/// gives a value that is no number and converts to no byte. Up to
/// `MAX_RESAMPLE_EXTENT` positions are exact to an eighth of a pixel, so the
/// pixel nearest to the centre of a window always lies inside the support.
#[verifier::external_body]
fn lanczos3(data: &Vec<u8>, width: u32, height: u32, new_width: u32, new_height: u32) -> (out: Vec<
    u8,
>)
    requires
        data@.len() == 4 * width * height,
        can_resample(Size { w: width, h: height }, Size { w: new_width, h: new_height }),
    ensures
        out@.len() == 4 * new_width * new_height,
{
    let source = image::ImageBuffer::<image::Rgba<u8>, &[u8]>::from_raw(
        width,
        height,
        data.as_slice(),
    ).unwrap();
    image::imageops::resize(
        &source,
        new_width,
        new_height,
        image::imageops::FilterType::Lanczos3,
    ).into_raw()
}

impl Pixels {
    #[verifier::type_invariant]
    spec fn inv(self) -> bool {
        self.data@.len() == 4 * self.width * self.height
    }

    /// The image of `width` by `height` pixels that `data` holds row by row;
    /// `None` unless `data` has four bytes for each pixel.
    pub fn from_raw(width: u32, height: u32, data: Vec<u8>) -> (out: Option<Pixels>)
        ensures
            out.is_some() <==> data@.len() == 4 * width * height,
            out matches Some(pixels) ==> pixels@ == (PixelsView {
                size: Size { w: width, h: height },
                data: data@,
            }),
    {
        assert(4 * width * height <= 4 * 0xffff_ffff * 0xffff_ffff) by (nonlinear_arith)
            requires
                width <= 0xffff_ffff,
                height <= 0xffff_ffff,
        ;
        let wanted: u128 = 4 * (width as u128) * (height as u128);
        if data.len() as u128 == wanted {
            Some(Pixels { width, height, data })
        } else {
            None
        }
    }

    /// The width and height of the image.
    pub fn size(&self) -> (out: Size)
        ensures
            out == self@.size,
    {
        Size { w: self.width, h: self.height }
    }

    /// The bytes of the image, row by row: four for each pixel.
    pub fn as_raw(&self) -> (out: &Vec<u8>)
        ensures
            out@ == self@.data,
            out@.len() == 4 * self@.size.w * self@.size.h,
    {
        proof {
            use_type_invariant(self);
        }
        &self.data
    }

    /// The bytes of the image, row by row: four for each pixel.
    pub fn into_raw(self) -> (out: Vec<u8>)
        ensures
            out@ == self@.data,
            out@.len() == 4 * self@.size.w * self@.size.h,
    {
        proof {
            use_type_invariant(&self);
        }
        self.data
    }

    /// Brings the image to `size`: the image itself where it has that size
    /// already, else resampled with the Lanczos filter. `None` where the
    /// image or `size` has an extent above `MAX_RESAMPLE_EXTENT`, or memory
    /// cannot hold the resampling.
    pub fn fit(self, size: Size) -> (out: Option<Pixels>)
        ensures
            is_fitted(
                self@,
                size,
                match out {
                    Some(tile) => Some(tile@),
                    None => None,
                },
            ),
    {
        proof {
            use_type_invariant(&self);
        }
        if self.width == size.w && self.height == size.h {
            return Some(self);
        }
        assert(16 * self.width * size.h <= 16 * 0xffff_ffff * 0xffff_ffff) by (nonlinear_arith)
            requires
                self.width <= 0xffff_ffff,
                size.h <= 0xffff_ffff,
        ;
        assert(4 * size.w * size.h <= 4 * 0xffff_ffff * 0xffff_ffff) by (nonlinear_arith)
            requires
                size.w <= 0xffff_ffff,
                size.h <= 0xffff_ffff,
        ;
        let between: u128 = 16 * (self.width as u128) * (size.h as u128);
        let result: u128 = 4 * (size.w as u128) * (size.h as u128);
        let limit: u128 = isize::MAX as u128;
        if self.width > MAX_RESAMPLE_EXTENT || self.height > MAX_RESAMPLE_EXTENT || size.w
            > MAX_RESAMPLE_EXTENT || size.h > MAX_RESAMPLE_EXTENT {
            return None;
        }
        if between > limit || result > limit {
            return None;
        }
        let data = lanczos3(&self.data, self.width, self.height, size.w, size.h);
        Some(Pixels { width: size.w, height: size.h, data })
    }
}

} // verus!
