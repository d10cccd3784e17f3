//! Resampling and alpha blending, which are left to the `image` crate.
//!
//! The two functions that make the calls are not proved: their contracts
//! state what the crate's own code does, and the rest of the library builds
//! on that.

use crate::raster::{fits, image_fits, Image, Raster, Rgba};
use vstd::prelude::*;

verus! {

/// What `image` makes of a pixel `under` when it blends `over` onto it, for an
/// `over` that is neither fully transparent nor fully opaque: source-over
/// compositing of the two, computed in single-precision arithmetic and cut
/// back to eight bits per channel.
pub uninterp spec fn blended(under: Rgba, over: Rgba) -> Rgba;

/// One pixel laid over another: a fully transparent pixel leaves what is
/// under it, a fully opaque one replaces it, any other is blended with it.
pub open spec fn source_over(under: Rgba, over: Rgba) -> Rgba {
    if over.a == 0 {
        under
    } else if over.a == 255 {
        over
    } else {
        blended(under, over)
    }
}

/// `bottom` with `top` laid over it, the top left corner of `top` at
/// `(x, y)`. What of `top` falls outside `bottom` is cut off.
pub open spec fn overlaid(bottom: Raster, top: Raster, x: int, y: int) -> Raster {
    Raster::build(
        bottom.width,
        bottom.height,
        |i: int, j: int|
            if top.contains(i - x, j - y) {
                source_over(bottom.at(i, j), top.at(i - x, j - y))
            } else {
                bottom.at(i, j)
            },
    )
}

/// The greatest width or height, of the source and of the result, up to
/// which an image is resampled: two to the power 20.
///
/// `image` finds the place of each pixel of the result among the pixels of
/// the source in single precision, as the pixel's centre times the quotient
/// of the two extents. With no extent beyond this limit, the rounding of the
/// quotient, of the product and of the half pixel taken off afterwards move
/// that place by an eighth of a pixel at most. The source pixel nearest to it
/// is then within the filter's window and at most five eighths of a pixel
/// from the computed place, where the filter's weight is above two fifths:
/// no window has only zero weights. Far beyond the limit the computed place
/// can miss every pixel of its window by more than the filter reaches; the
/// weights are then all zero and `image` panics on dividing by their sum.
pub const MAX_RESAMPLED_EXTENT: u32 = 0x10_0000;

/// An image of `from_width` by `from_height` can be resampled to `width` by
/// `height`. Either it has that size already, and is copied. Or the result
/// and the working buffer of the resampling, which holds `height` rows as
/// wide as the source with sixteen bytes per pixel, can both be held, and
/// the result is empty or no extent of the source or of the result is beyond
/// `MAX_RESAMPLED_EXTENT`.
pub open spec fn resizable(from_width: nat, from_height: nat, width: u32, height: u32) -> bool {
    ||| (from_width == width && from_height == height)
    ||| {
        &&& 16 * from_width * height <= isize::MAX
        &&& fits(width, height)
        &&& {
            ||| width == 0
            ||| height == 0
            ||| {
                &&& from_width <= MAX_RESAMPLED_EXTENT
                &&& from_height <= MAX_RESAMPLED_EXTENT
                &&& width <= MAX_RESAMPLED_EXTENT
                &&& height <= MAX_RESAMPLED_EXTENT
            }
        }
    }
}

/// Calls `image::imageops::resize` with the `Lanczos3` filter.
///
/// The result has the size asked for, and is a copy of `source` where that is
/// the size of `source`. Nothing is said of the pixels otherwise: the filter
/// goes through the platform's sine. The `requires` leaves out the inputs on
/// which `image` panics, for one of two reasons: it cannot allocate the
/// result or its working buffer; or an extent is so large that the
/// single-precision weights of some pixel of the result are all zero, and
/// their sum divides to a value that is no number. Where the result is empty
/// no pixel is computed, and the second reason does not arise.
#[verifier::external_body]
pub(crate) fn resize_lanczos3(source: &Image, width: u32, height: u32) -> (out: Image)
    requires
        source.wf(),
        resizable(source@.width, source@.height, width, height),
    ensures
        out.wf(),
        out@.width == width,
        out@.height == height,
        source@.width == width && source@.height == height ==> out@ == source@,
{
    let pixels: &[u8] = source.data.as_slice();
    let from = image::ImageBuffer::<image::Rgba<u8>, &[u8]>::from_raw(
        source.width,
        source.height,
        pixels,
    ).unwrap();
    let to = image::imageops::resize(&from, width, height, image::imageops::FilterType::Lanczos3);
    Image { width: to.width(), height: to.height(), data: to.into_raw() }
}

/// Calls `image::imageops::overlay`.
///
/// The result is `bottom` with each pixel that `top` covers, when its top
/// left corner is put at `(x, y)`, replaced by what `image`'s blending makes
/// of the two; every other pixel is as it was.
#[verifier::external_body]
pub(crate) fn overlay(bottom: Image, top: &Image, x: u32, y: u32) -> (out: Image)
    requires
        bottom.wf(),
        top.wf(),
    ensures
        out.wf(),
        out@.width == bottom@.width,
        out@.height == bottom@.height,
        forall|i: int, j: int|
            bottom@.contains(i, j) ==> #[trigger] out@.at(i, j) == if !top@.contains(i - x, j - y) {
                bottom@.at(i, j)
            } else if top@.at(i - x, j - y).a == 0 {
                bottom@.at(i, j)
            } else if top@.at(i - x, j - y).a == 255 {
                top@.at(i - x, j - y)
            } else {
                blended(bottom@.at(i, j), top@.at(i - x, j - y))
            },
{
    let mut under = image::RgbaImage::from_raw(bottom.width, bottom.height, bottom.data).unwrap();
    let pixels: &[u8] = top.data.as_slice();
    let over = image::ImageBuffer::<image::Rgba<u8>, &[u8]>::from_raw(
        top.width,
        top.height,
        pixels,
    ).unwrap();
    image::imageops::overlay(&mut under, &over, i64::from(x), i64::from(y));
    Image { width: under.width(), height: under.height(), data: under.into_raw() }
}

/// Lays `top` over `bottom` with its top left corner at `(x, y)`.
pub fn overlay_at(bottom: Image, top: &Image, x: u32, y: u32) -> (out: Image)
    requires
        bottom.wf(),
        top.wf(),
    ensures
        out.wf(),
        out@ == overlaid(bottom@, top@, x as int, y as int),
{
    let ghost want = overlaid(bottom@, top@, x as int, y as int);
    let out = overlay(bottom, top, x, y);
    proof {
        out.lemma_view();
        out@.lemma_equal_by_pixels(want);
    }
    out
}

/// Whether `source` can be resampled to `width` by `height`.
pub fn can_resize(source: &Image, width: u32, height: u32) -> (ok: bool)
    requires
        source.wf(),
    ensures
        ok == resizable(source@.width, source@.height, width, height),
{
    if source.width() == width && source.height() == height {
        return true;
    }
    let sw = source.width();
    assert(0 <= sw * height <= 0xFFFF_FFFF * 0xFFFF_FFFF) by (nonlinear_arith)
        requires
            0 <= sw <= 0xFFFF_FFFF,
            0 <= height <= 0xFFFF_FFFF,
    ;
    assert(16 * (sw * height) == 16 * sw * height) by (nonlinear_arith);
    let scratch: u128 = 16 * ((sw as u128) * (height as u128));
    let held = scratch <= isize::MAX as u128 && image_fits(width, height);
    let within = sw <= MAX_RESAMPLED_EXTENT && source.height() <= MAX_RESAMPLED_EXTENT && width
        <= MAX_RESAMPLED_EXTENT && height <= MAX_RESAMPLED_EXTENT;
    held && (width == 0 || height == 0 || within)
}

} // verus!
