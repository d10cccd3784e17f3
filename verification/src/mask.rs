//! The circular mask: which pixels of an image lie inside its inscribed circle.

use crate::raster::{fits, Image, ImageError, Raster, Rgba};
use vstd::prelude::*;

verus! {

/// The centre of pixel `(x, y)` lies inside the circle of radius `width / 2`
/// around the centre of a `width` by `height` image, the rim included.
///
/// The pixel's centre is `(x + 1/2, y + 1/2)` and the circle's is
/// `(width / 2, height / 2)`; every length is doubled here, so that the test
/// stays within the integers.
pub open spec fn in_circle(x: int, y: int, width: int, height: int) -> bool {
    let dx = 2 * x - width + 1;
    let dy = 2 * y - height + 1;
    dx * dx + dy * dy <= width * width
}

/// Four times the squared distance from the corner `(x, y)` of a pixel to the
/// centre of a square of side `size`.
pub open spec fn corner_distance(x: int, y: int, size: int) -> int {
    (2 * x - size) * (2 * x - size) + (2 * y - size) * (2 * y - size)
}

/// The mask of a square of side `size`: opaque white inside the circle,
/// transparent black outside.
pub open spec fn round_mask(size: nat) -> Raster {
    Raster::build(
        size,
        size,
        |x: int, y: int|
            if in_circle(x, y, size as int, size as int) {
                Rgba::white()
            } else {
                Rgba::clear()
            },
    )
}

/// `source` with every pixel made transparent black where `mask` is fully
/// transparent.
pub open spec fn masked(source: Raster, mask: Raster) -> Raster {
    Raster::build(
        source.width,
        source.height,
        |x: int, y: int|
            if mask.at(x, y).a > 0 {
                source.at(x, y)
            } else {
                Rgba::clear()
            },
    )
}

/// Turning the image by half a turn about its centre keeps every pixel on its
/// side of the circle.
pub proof fn lemma_circle_symmetric(x: int, y: int, width: int, height: int)
    ensures
        in_circle(x, y, width, height) == in_circle(width - 1 - x, height - 1 - y, width, height),
{
    let dx = 2 * x - width + 1;
    let dy = 2 * y - height + 1;
    assert((-dx) * (-dx) == dx * dx) by (nonlinear_arith);
    assert((-dy) * (-dy) == dy * dy) by (nonlinear_arith);
    assert(2 * (width - 1 - x) - width + 1 == -dx);
    assert(2 * (height - 1 - y) - height + 1 == -dy);
}

/// The mask of any size is unchanged by half a turn about its centre.
pub proof fn lemma_mask_symmetric(size: nat, x: int, y: int)
    requires
        round_mask(size).contains(x, y),
    ensures
        round_mask(size).contains(size - 1 - x, size - 1 - y),
        round_mask(size).at(x, y) == round_mask(size).at(size - 1 - x, size - 1 - y),
{
    lemma_circle_symmetric(x, y, size as int, size as int);
}

/// Every opaque pixel of the mask has its corner within `size / 2 + 1` of the
/// centre, and every transparent one has it farther than `size / 2 - 1` away.
pub proof fn lemma_mask_containment(size: nat, x: int, y: int)
    requires
        round_mask(size).contains(x, y),
    ensures
        round_mask(size).at(x, y) == Rgba::white() || round_mask(size).at(x, y) == Rgba::clear(),
        round_mask(size).at(x, y).a == 255 ==> corner_distance(x, y, size as int) <= (size + 2) * (
        size + 2),
        round_mask(size).at(x, y).a == 0 ==> corner_distance(x, y, size as int) > (size - 2) * (
        size - 2),
{
    let s = size as int;
    let dx = 2 * x - s + 1;
    let dy = 2 * y - s + 1;
    assert((dx - 1) * (dx - 1) + (dy - 1) * (dy - 1) == dx * dx + dy * dy - 2 * dx - 2 * dy + 2)
        by (nonlinear_arith);
    assert((s + 2) * (s + 2) == s * s + 4 * s + 4) by (nonlinear_arith);
    assert((s - 2) * (s - 2) == s * s - 4 * s + 4) by (nonlinear_arith);
    assert(corner_distance(x, y, s) == (dx - 1) * (dx - 1) + (dy - 1) * (dy - 1));
    assert(-s < dx < s && -s < dy < s);
}

/// From side four on, the four corner pixels of a square lie outside the
/// circle.
pub proof fn lemma_corners_outside(size: int)
    requires
        size >= 4,
    ensures
        !in_circle(0, 0, size, size),
        !in_circle(size - 1, 0, size, size),
        !in_circle(0, size - 1, size, size),
        !in_circle(size - 1, size - 1, size, size),
{
    let d = size - 1;
    assert(d * d + d * d > size * size) by (nonlinear_arith)
        requires
            d == size - 1,
            size >= 4,
    ;
    assert((-d) * (-d) == d * d) by (nonlinear_arith);
    assert(2 * 0 - size + 1 == -d);
    assert(2 * (size - 1) - size + 1 == d);
}

/// Whether the centre of pixel `(x, y)` lies inside the circle.
pub fn inside_circle(x: u32, y: u32, width: u32, height: u32) -> (inside: bool)
    ensures
        inside == in_circle(x as int, y as int, width as int, height as int),
{
    let dx: i128 = 2 * (x as i128) - (width as i128) + 1;
    let dy: i128 = 2 * (y as i128) - (height as i128) + 1;
    let w: i128 = width as i128;
    assert(0 <= dx * dx <= 0x4_0000_0000_0000_0000) by (nonlinear_arith)
        requires
            -0x2_0000_0000 <= dx <= 0x2_0000_0000,
    ;
    assert(0 <= dy * dy <= 0x4_0000_0000_0000_0000) by (nonlinear_arith)
        requires
            -0x2_0000_0000 <= dy <= 0x2_0000_0000,
    ;
    assert(0 <= w * w <= 0x4_0000_0000_0000_0000) by (nonlinear_arith)
        requires
            0 <= w <= 0x2_0000_0000,
    ;
    dx * dx + dy * dy <= w * w
}

/// The mask for a square of side `target_size`, or `Limits` where an image of
/// that size cannot be held.
pub fn build_mask(target_size: u32) -> (result: Result<Image, ImageError>)
    ensures
        result is Ok <==> fits(target_size, target_size),
        result matches Ok(mask) ==> mask.wf() && mask@ == round_mask(target_size as nat),
{
    let mut mask = match Image::from_pixel(target_size, target_size, Rgba::new(0, 0, 0, 0)) {
        Some(img) => img,
        None => { return Err(ImageError::Limits); },
    };
    let ghost want = round_mask(target_size as nat);
    let mut y: u32 = 0;
    while y < target_size
        invariant
            y <= target_size,
            mask.wf(),
            mask@.wf(),
            mask@.width == target_size,
            mask@.height == target_size,
            want == round_mask(target_size as nat),
            forall|i: int, j: int|
                mask@.contains(i, j) && j < y ==> #[trigger] mask@.at(i, j) == want.at(i, j),
            forall|i: int, j: int|
                mask@.contains(i, j) && j >= y ==> #[trigger] mask@.at(i, j) == Rgba::clear(),
        decreases target_size - y,
    {
        let mut x: u32 = 0;
        while x < target_size
            invariant
                x <= target_size,
                y < target_size,
                mask.wf(),
                mask@.wf(),
                mask@.width == target_size,
                mask@.height == target_size,
                want == round_mask(target_size as nat),
                forall|i: int, j: int|
                    mask@.contains(i, j) && (j < y || (j == y && i < x)) ==> #[trigger] mask@.at(
                        i,
                        j,
                    ) == want.at(i, j),
                forall|i: int, j: int|
                    mask@.contains(i, j) && !(j < y || (j == y && i < x)) ==> #[trigger] mask@.at(
                        i,
                        j,
                    ) == Rgba::clear(),
            decreases target_size - x,
        {
            let ghost before = mask@;
            if inside_circle(x, y, target_size, target_size) {
                mask.put_pixel(x, y, Rgba::new(255, 255, 255, 255));
                proof {
                    before.lemma_put(x as int, y as int, Rgba::white());
                }
            }
            x = x + 1;
        }
        y = y + 1;
    }
    proof {
        mask@.lemma_equal_by_pixels(want);
    }
    Ok(mask)
}

/// Keeps the pixels of `source` where `mask` is not fully transparent and
/// makes the others transparent black.
pub fn apply_mask(source: &Image, mask: &Image) -> (out: Image)
    requires
        source.wf(),
        mask.wf(),
        mask@.width == source@.width,
        mask@.height == source@.height,
    ensures
        out.wf(),
        out@ == masked(source@, mask@),
{
    let width = source.width();
    let height = source.height();
    let mut out = source.clone();
    let ghost want = masked(source@, mask@);
    proof {
        source.lemma_view();
    }
    let mut y: u32 = 0;
    while y < height
        invariant
            y <= height,
            source@.wf(),
            mask.wf(),
            out.wf(),
            out@.wf(),
            source@.width == width,
            source@.height == height,
            mask@.width == width,
            mask@.height == height,
            out@.width == width,
            out@.height == height,
            want == masked(source@, mask@),
            forall|i: int, j: int|
                out@.contains(i, j) ==> #[trigger] out@.at(i, j) == if j < y {
                    want.at(i, j)
                } else {
                    source@.at(i, j)
                },
        decreases height - y,
    {
        let mut x: u32 = 0;
        while x < width
            invariant
                x <= width,
                y < height,
                source@.wf(),
                mask.wf(),
                out.wf(),
                out@.wf(),
                source@.width == width,
                source@.height == height,
                mask@.width == width,
                mask@.height == height,
                out@.width == width,
                out@.height == height,
                want == masked(source@, mask@),
                forall|i: int, j: int|
                    out@.contains(i, j) ==> #[trigger] out@.at(i, j) == if j < y || (j == y && i
                        < x) {
                        want.at(i, j)
                    } else {
                        source@.at(i, j)
                    },
            decreases width - x,
        {
            let ghost before = out@;
            if mask.get_pixel(x, y).a == 0 {
                out.put_pixel(x, y, Rgba::new(0, 0, 0, 0));
                proof {
                    before.lemma_put(x as int, y as int, Rgba::clear());
                }
            }
            x = x + 1;
        }
        y = y + 1;
    }
    proof {
        out@.lemma_equal_by_pixels(want);
    }
    out
}

} // verus!
