//! Laying an avatar over a background.
//!
//! The avatar is anchored a fixed distance up and left of the point asked
//! for. It is first painted straight onto the background wherever the
//! background is mostly transparent; then the avatar, shrunk where it would
//! reach past the right or lower edge, is laid over the result.

use crate::imaging::{can_resize, overlaid, overlay_at, resizable, resize_lanczos3};
use crate::raster::{Image, ImageError, Raster};
use crate::scaling::{lemma_shrunk_size_fits, scaled_dims, scaled_size};
use vstd::prelude::*;

verus! {

/// How far up and left of the requested point the avatar is anchored.
pub const ANCHOR_BIAS: u32 = 10;

/// The alpha below which a background pixel is painted over directly.
pub const ALPHA_THRESHOLD: u8 = 128;

/// A requested coordinate moved back by the bias, and never below zero.
pub open spec fn biased(v: u32) -> u32 {
    if v >= ANCHOR_BIAS {
        (v - ANCHOR_BIAS) as u32
    } else {
        0
    }
}

/// What is left of `extent` from `anchor` on.
pub open spec fn room(extent: nat, anchor: u32) -> u32 {
    if anchor <= extent {
        (extent - anchor) as u32
    } else {
        0
    }
}

/// `bottom` with each pixel whose alpha is under the threshold replaced by
/// the pixel of `top` that lies over it, `top` having its top left corner at
/// `(x, y)`; a transparent pixel of `top` is copied like any other.
pub open spec fn prepainted(bottom: Raster, top: Raster, x: int, y: int) -> Raster {
    Raster::build(
        bottom.width,
        bottom.height,
        |i: int, j: int|
            if top.contains(i - x, j - y) && bottom.at(i, j).a < ALPHA_THRESHOLD {
                top.at(i - x, j - y)
            } else {
                bottom.at(i, j)
            },
    )
}

/// The background after `top` was painted into its transparent parts and
/// `drawn` was laid over it, both anchored at the biased point.
pub open spec fn placed(background: Raster, top: Raster, drawn: Raster, x: u32, y: u32) -> Raster {
    overlaid(
        prepainted(background, top, biased(x) as int, biased(y) as int),
        drawn,
        biased(x) as int,
        biased(y) as int,
    )
}

/// An avatar of `top_w` by `top_h`, anchored for the point `(x, y)`, reaches
/// past the right or the lower edge of a background of `width` by `height`.
pub open spec fn needs_shrinking(
    width: nat,
    height: nat,
    top_w: nat,
    top_h: nat,
    x: u32,
    y: u32,
) -> bool {
    biased(x) + top_w > width || biased(y) + top_h > height
}

/// The size to which such an avatar is shrunk: scaled to the room between
/// its anchor and the edges.
pub open spec fn shrunk_dims(width: nat, height: nat, top_w: nat, top_h: nat, x: u32, y: u32) -> (
    u32,
    u32,
) {
    scaled_dims(top_w as u32, top_h as u32, room(width, biased(x)), room(height, biased(y)))
}

/// The avatar has to be shrunk and cannot be resampled to the size it is to
/// be shrunk to.
pub open spec fn cannot_shrink(
    width: nat,
    height: nat,
    top_w: nat,
    top_h: nat,
    x: u32,
    y: u32,
) -> bool {
    &&& needs_shrinking(width, height, top_w, top_h, x, y)
    &&& !resizable(
        top_w,
        top_h,
        shrunk_dims(width, height, top_w, top_h, x, y).0,
        shrunk_dims(width, height, top_w, top_h, x, y).1,
    )
}

/// `drawn` is an image of the size to which `top` is shrunk, and `out` is
/// `background` with `top` painted into its transparent parts and `drawn`
/// laid over it.
pub open spec fn shrunk_and_placed(
    background: Raster,
    top: Raster,
    x: u32,
    y: u32,
    out: Raster,
    drawn: Raster,
) -> bool {
    &&& drawn.wf()
    &&& drawn.width == shrunk_dims(
        background.width,
        background.height,
        top.width,
        top.height,
        x,
        y,
    ).0
    &&& drawn.height == shrunk_dims(
        background.width,
        background.height,
        top.width,
        top.height,
        x,
        y,
    ).1
    &&& out == placed(background, top, drawn, x, y)
}

/// `out` is `background` with `top` composited onto it for the point
/// `(x, y)`: where `top` fits it is laid over as it is; where it does not,
/// what is laid over is some image of the shrunk size.
pub open spec fn composited(background: Raster, top: Raster, x: u32, y: u32, out: Raster) -> bool {
    if needs_shrinking(background.width, background.height, top.width, top.height, x, y) {
        exists|drawn: Raster| #[trigger] shrunk_and_placed(background, top, x, y, out, drawn)
    } else {
        out == placed(background, top, top, x, y)
    }
}

/// The image that was laid over `background` to give `out`: `top` where it
/// fits, an image of the shrunk size where it does not.
pub open spec fn laid_over(background: Raster, top: Raster, x: u32, y: u32, out: Raster) -> Raster {
    if needs_shrinking(background.width, background.height, top.width, top.height, x, y) {
        choose|drawn: Raster| #[trigger] shrunk_and_placed(background, top, x, y, out, drawn)
    } else {
        top
    }
}

/// Pixel `(i, j)` of the background lies in the rectangle over which the
/// avatar is laid: as large as the avatar where it fits, of the shrunk size
/// where it does not.
pub open spec fn drawn_over(background: Raster, top: Raster, x: u32, y: u32, i: int, j: int) -> bool {
    let shrunk = shrunk_dims(background.width, background.height, top.width, top.height, x, y);
    if needs_shrinking(background.width, background.height, top.width, top.height, x, y) {
        biased(x) <= i < biased(x) + shrunk.0 && biased(y) <= j < biased(y) + shrunk.1
    } else {
        biased(x) <= i < biased(x) + top.width && biased(y) <= j < biased(y) + top.height
    }
}

/// What compositing gives is the background with the avatar painted into
/// its transparent parts and the image that was laid over, which covers
/// the rectangle of `drawn_over` and nothing else.
pub proof fn lemma_laid_over(background: Raster, top: Raster, x: u32, y: u32, out: Raster)
    requires
        composited(background, top, x, y, out),
    ensures
        out == placed(background, top, laid_over(background, top, x, y, out), x, y),
        forall|i: int, j: int|
            laid_over(background, top, x, y, out).contains(i - biased(x), j - biased(y))
                == #[trigger] drawn_over(background, top, x, y, i, j),
{
}

/// Painting into the transparent parts changes nothing outside the
/// rectangle that `top` covers, and nothing of a pixel whose alpha has
/// reached the threshold.
pub proof fn lemma_prepainted_keeps(bottom: Raster, top: Raster, x: int, y: int, i: int, j: int)
    requires
        bottom.contains(i, j),
        !top.contains(i - x, j - y) || bottom.at(i, j).a >= ALPHA_THRESHOLD,
    ensures
        prepainted(bottom, top, x, y).at(i, j) == bottom.at(i, j),
{
}

/// On a background whose every pixel has an alpha of at least the threshold,
/// painting into the transparent parts changes nothing.
pub proof fn lemma_prepainted_opaque(bottom: Raster, top: Raster, x: int, y: int)
    requires
        bottom.wf(),
        forall|i: int, j: int| bottom.contains(i, j) ==> bottom.at(i, j).a >= ALPHA_THRESHOLD,
    ensures
        prepainted(bottom, top, x, y) == bottom,
{
    let painted = prepainted(bottom, top, x, y);
    assert forall|i: int, j: int| painted.contains(i, j) implies painted.at(i, j) == bottom.at(
        i,
        j,
    ) by {
        lemma_prepainted_keeps(bottom, top, x, y, i, j);
    }
    painted.lemma_equal_by_pixels(bottom);
}

/// Laying an image over another changes nothing outside the rectangle that
/// it covers, and the size of the result is that of the image under it.
pub proof fn lemma_overlaid_keeps(bottom: Raster, top: Raster, x: int, y: int, i: int, j: int)
    requires
        bottom.contains(i, j),
        !top.contains(i - x, j - y),
    ensures
        overlaid(bottom, top, x, y).at(i, j) == bottom.at(i, j),
        overlaid(bottom, top, x, y).width == bottom.width,
        overlaid(bottom, top, x, y).height == bottom.height,
{
}

/// Compositing keeps the size of the background.
pub proof fn lemma_composited_size(background: Raster, top: Raster, x: u32, y: u32, out: Raster)
    requires
        composited(background, top, x, y, out),
    ensures
        out.wf(),
        out.width == background.width,
        out.height == background.height,
{
}

/// A pixel that compositing changes lies under the avatar as it was handed
/// over and had an alpha under the threshold, or lies in the rectangle over
/// which the avatar, shrunk where it had to be, was laid.
pub proof fn lemma_composited_changes(
    background: Raster,
    top: Raster,
    x: u32,
    y: u32,
    out: Raster,
    i: int,
    j: int,
)
    requires
        composited(background, top, x, y, out),
        background.contains(i, j),
        out.at(i, j) != background.at(i, j),
    ensures
        drawn_over(background, top, x, y, i, j) || (top.contains(i - biased(x), j - biased(y))
            && background.at(i, j).a < ALPHA_THRESHOLD),
{
    let ax = biased(x) as int;
    let ay = biased(y) as int;
    let painted = prepainted(background, top, ax, ay);
    let drawn = laid_over(background, top, x, y, out);
    lemma_laid_over(background, top, x, y, out);
    if !drawn_over(background, top, x, y, i, j) {
        assert(!drawn.contains(i - ax, j - ay));
        lemma_overlaid_keeps(painted, drawn, ax, ay, i, j);
        if !(top.contains(i - ax, j - ay) && background.at(i, j).a < ALPHA_THRESHOLD) {
            lemma_prepainted_keeps(background, top, ax, ay, i, j);
        }
    }
}

/// On a background whose every pixel has an alpha of at least the threshold,
/// compositing changes nothing outside the rectangle over which the avatar,
/// shrunk where it had to be, is laid.
pub proof fn lemma_composited_opaque(
    background: Raster,
    top: Raster,
    x: u32,
    y: u32,
    out: Raster,
    i: int,
    j: int,
)
    requires
        forall|i: int, j: int|
            background.contains(i, j) ==> background.at(i, j).a >= ALPHA_THRESHOLD,
        composited(background, top, x, y, out),
        background.contains(i, j),
        !drawn_over(background, top, x, y, i, j),
    ensures
        out.at(i, j) == background.at(i, j),
{
    if out.at(i, j) != background.at(i, j) {
        lemma_composited_changes(background, top, x, y, out, i, j);
    }
}

/// Compositing changes nothing outside the rectangle that the avatar, as
/// large as it was handed over, covers at its anchor.
pub proof fn lemma_composited_frame(
    background: Raster,
    top: Raster,
    x: u32,
    y: u32,
    out: Raster,
    i: int,
    j: int,
)
    requires
        background.width <= u32::MAX,
        background.height <= u32::MAX,
        top.width <= u32::MAX,
        top.height <= u32::MAX,
        composited(background, top, x, y, out),
        background.contains(i, j),
        !top.contains(i - biased(x), j - biased(y)),
    ensures
        out.at(i, j) == background.at(i, j),
{
    if out.at(i, j) != background.at(i, j) {
        lemma_composited_changes(background, top, x, y, out, i, j);
        lemma_shrunk_size_fits(
            top.width as u32,
            top.height as u32,
            room(background.width, biased(x)),
            room(background.height, biased(y)),
        );
    }
}

/// The point at which the avatar is anchored for the requested point
/// `(x, y)`.
pub fn adjusted_anchor(x: u32, y: u32) -> (anchor: (u32, u32))
    ensures
        anchor == (biased(x), biased(y)),
{
    let ax = if x >= ANCHOR_BIAS {
        x - ANCHOR_BIAS
    } else {
        0
    };
    let ay = if y >= ANCHOR_BIAS {
        y - ANCHOR_BIAS
    } else {
        0
    };
    (ax, ay)
}

/// Where the area of `extent` pixels that starts at `from` ends within an
/// image of `limit` pixels.
fn clipped_end(from: u32, extent: u32, limit: u32) -> (end: u32)
    requires
        from < limit,
    ensures
        from <= end <= limit,
        end == if from + extent < limit {
            from + extent
        } else {
            limit as int
        },
{
    let reach: u64 = from as u64 + extent as u64;
    if reach < limit as u64 {
        reach as u32
    } else {
        limit
    }
}

/// Copies `top`, its top left corner at `(x, y)`, into the pixels of
/// `background` whose alpha is under the threshold.
pub fn paint_transparent(background: &mut Image, top: &Image, x: u32, y: u32)
    requires
        old(background).wf(),
        top.wf(),
    ensures
        final(background).wf(),
        final(background)@ == prepainted(old(background)@, top@, x as int, y as int),
{
    let width = background.width();
    let height = background.height();
    let ghost before = background@;
    let ghost want = prepainted(before, top@, x as int, y as int);
    proof {
        background.lemma_view();
        top.lemma_view();
    }
    if x < width && y < height {
        let x_end = clipped_end(x, top.width(), width);
        let y_end = clipped_end(y, top.height(), height);
        let mut j: u32 = y;
        while j < y_end
            invariant
                y <= j <= y_end <= height,
                x < width,
                x <= x_end <= width,
                x_end == if x + top@.width < width {
                    x + top@.width
                } else {
                    width as int
                },
                y_end == if y + top@.height < height {
                    y + top@.height
                } else {
                    height as int
                },
                top.wf(),
                top@.wf(),
                before.wf(),
                before.width == width,
                before.height == height,
                background.wf(),
                background@.wf(),
                background@.width == width,
                background@.height == height,
                want == prepainted(before, top@, x as int, y as int),
                forall|i2: int, j2: int|
                    before.contains(i2, j2) ==> #[trigger] background@.at(i2, j2) == if j2 < j {
                        want.at(i2, j2)
                    } else {
                        before.at(i2, j2)
                    },
            decreases y_end - j,
        {
            let mut i: u32 = x;
            while i < x_end
                invariant
                    y <= j < y_end <= height,
                    x <= i <= x_end <= width,
                    x_end == if x + top@.width < width {
                        x + top@.width
                    } else {
                        width as int
                    },
                    y_end == if y + top@.height < height {
                        y + top@.height
                    } else {
                        height as int
                    },
                    top.wf(),
                    top@.wf(),
                    before.wf(),
                    before.width == width,
                    before.height == height,
                    background.wf(),
                    background@.wf(),
                    background@.width == width,
                    background@.height == height,
                    want == prepainted(before, top@, x as int, y as int),
                    forall|i2: int, j2: int|
                        before.contains(i2, j2) ==> #[trigger] background@.at(i2, j2) == if j2 < j
                            || (j2 == j && i2 < i) {
                            want.at(i2, j2)
                        } else {
                            before.at(i2, j2)
                        },
                decreases x_end - i,
            {
                let ghost current = background@;
                let under = background.get_pixel(i, j);
                if under.a < ALPHA_THRESHOLD {
                    let pixel = top.get_pixel(i - x, j - y);
                    background.put_pixel(i, j, pixel);
                    proof {
                        current.lemma_put(i as int, j as int, pixel);
                    }
                }
                i = i + 1;
            }
            j = j + 1;
        }
    }
    proof {
        background@.lemma_equal_by_pixels(want);
    }
}

/// Paints `top` into the transparent parts of `background` and lays `drawn`
/// over the result, both at the anchor for the point `(x, y)`.
pub fn place(background: Image, top: &Image, drawn: &Image, x: u32, y: u32) -> (out: Image)
    requires
        background.wf(),
        top.wf(),
        drawn.wf(),
    ensures
        out.wf(),
        out@ == placed(background@, top@, drawn@, x, y),
{
    let (ax, ay) = adjusted_anchor(x, y);
    let mut under = background;
    paint_transparent(&mut under, top, ax, ay);
    overlay_at(under, drawn, ax, ay)
}

/// Composites `top` onto `background` for the point `(x, y)`, shrinking it
/// where it would reach past the right or the lower edge. Gives `Limits`
/// where it has to be shrunk and cannot be resampled to the shrunk size.
pub fn composite(background: Image, top: &Image, x: u32, y: u32) -> (result: Result<
    Image,
    ImageError,
>)
    requires
        background.wf(),
        top.wf(),
    ensures
        result is Err <==> cannot_shrink(
            background@.width,
            background@.height,
            top@.width,
            top@.height,
            x,
            y,
        ),
        result matches Err(e) ==> e == ImageError::Limits,
        result matches Ok(out) ==> {
            &&& out.wf()
            &&& out@.width == background@.width
            &&& out@.height == background@.height
            &&& composited(background@, top@, x, y, out@)
        },
{
    let (ax, ay) = adjusted_anchor(x, y);
    let width = background.width();
    let height = background.height();
    let top_w = top.width();
    let top_h = top.height();
    proof {
        background.lemma_view();
        top.lemma_view();
    }
    if ax as u64 + top_w as u64 > width as u64 || ay as u64 + top_h as u64 > height as u64 {
        let room_w = if ax <= width {
            width - ax
        } else {
            0
        };
        let room_h = if ay <= height {
            height - ay
        } else {
            0
        };
        let (new_w, new_h) = scaled_size(top_w, top_h, room_w, room_h);
        if !can_resize(top, new_w, new_h) {
            return Err(ImageError::Limits);
        }
        let drawn = resize_lanczos3(top, new_w, new_h);
        let ghost start = background@;
        let out = place(background, top, &drawn, x, y);
        proof {
            drawn.lemma_view();
            assert(shrunk_and_placed(start, top@, x, y, out@, drawn@));
        }
        Ok(out)
    } else {
        let out = place(background, top, top, x, y);
        Ok(out)
    }
}

} // verus!
