//! The whole pipeline: round the avatar off, then composite it onto the
//! background.

use crate::compose::{
    biased, cannot_shrink, composite, composited, lemma_composited_changes, needs_shrinking, room,
    shrunk_dims, ALPHA_THRESHOLD,
};
use crate::imaging::{can_resize, resizable, resize_lanczos3};
use crate::mask::{apply_mask, build_mask, in_circle, lemma_corners_outside, masked, round_mask};
use crate::raster::{Image, ImageError, Raster, Rgba};
use crate::scaling::lemma_shrunk_square;
use vstd::prelude::*;

verus! {

/// `round` is `avatar` brought to a square of side `size` and rounded off:
/// some image of that size, which is `avatar` itself where `avatar` has that
/// size already, with everything outside the circle made transparent black.
pub open spec fn is_round_avatar(avatar: Raster, size: u32, round: Raster) -> bool {
    exists|resized: Raster|
        {
            &&& resized.wf()
            &&& resized.width == size
            &&& resized.height == size
            &&& (avatar.width == size && avatar.height == size ==> resized == avatar)
            &&& round == #[trigger] masked(resized, round_mask(size as nat))
        }
}

/// A rounded avatar is a square of the size asked for, and transparent black
/// wherever a pixel lies outside the circle.
pub proof fn lemma_round_avatar_clear_outside(
    avatar: Raster,
    size: u32,
    round: Raster,
    x: int,
    y: int,
)
    requires
        is_round_avatar(avatar, size, round),
        0 <= x < size,
        0 <= y < size,
        !in_circle(x, y, size as int, size as int),
    ensures
        round.wf(),
        round.width == size,
        round.height == size,
        round.at(x, y) == Rgba::clear(),
{
}

/// From side four on, the four corner pixels of a rounded avatar are
/// transparent black.
pub proof fn lemma_round_avatar_corners(avatar: Raster, size: u32, round: Raster)
    requires
        is_round_avatar(avatar, size, round),
        size >= 4,
    ensures
        round.at(0, 0) == Rgba::clear(),
        round.at(size - 1, 0) == Rgba::clear(),
        round.at(0, size - 1) == Rgba::clear(),
        round.at(size - 1, size - 1) == Rgba::clear(),
{
    lemma_corners_outside(size as int);
}

/// The side of the square over which a rounded avatar of side `size` is laid
/// where it has to be shrunk.
pub open spec fn shrunk_side(background: Raster, size: u32, x: u32, y: u32) -> u32 {
    shrunk_dims(background.width, background.height, size as nat, size as nat, x, y).0
}

/// Where a rounded avatar is anchored on the background and reaches past its
/// right or lower edge, the result has the size of the background and the
/// avatar is laid over as a square, whose side is the smaller of the two
/// distances from the anchor to those edges or one less. A pixel that is
/// changed lies right of and below the anchor, and either had an alpha under
/// the threshold or lies in that square.
pub proof fn lemma_combined_overflow(
    background: Raster,
    avatar: Raster,
    x: u32,
    y: u32,
    size: u32,
    round: Raster,
    out: Raster,
    i: int,
    j: int,
)
    requires
        background.width <= u32::MAX,
        background.height <= u32::MAX,
        is_round_avatar(avatar, size, round),
        composited(background, round, x, y, out),
        biased(x) < background.width,
        biased(y) < background.height,
        needs_shrinking(background.width, background.height, size as nat, size as nat, x, y),
    ensures
        out.width == background.width,
        out.height == background.height,
        shrunk_dims(background.width, background.height, size as nat, size as nat, x, y) == (
            shrunk_side(background, size, x, y),
            shrunk_side(background, size, x, y),
        ),
        shrunk_side(background, size, x, y) <= background.width - biased(x),
        shrunk_side(background, size, x, y) <= background.height - biased(y),
        shrunk_side(background, size, x, y) + 1 >= background.width - biased(x)
            || shrunk_side(background, size, x, y) + 1 >= background.height - biased(y),
        background.contains(i, j) && out.at(i, j) != background.at(i, j) ==> {
            &&& biased(x) <= i
            &&& biased(y) <= j
            &&& (background.at(i, j).a < ALPHA_THRESHOLD || (i < biased(x) + shrunk_side(
                background,
                size,
                x,
                y,
            ) && j < biased(y) + shrunk_side(background, size, x, y)))
        },
{
    lemma_shrunk_square(size, room(background.width, biased(x)), room(background.height, biased(y)));
    if background.contains(i, j) && out.at(i, j) != background.at(i, j) {
        lemma_composited_changes(background, round, x, y, out, i, j);
    }
}

/// Brings `avatar` to a square of side `target_size` and makes everything
/// outside the inscribed circle transparent black. Gives `Limits` where the
/// avatar cannot be resampled to that size.
pub fn create_round_avatar(avatar: &Image, target_size: u32) -> (result: Result<Image, ImageError>)
    requires
        avatar.wf(),
    ensures
        result is Err <==> !resizable(avatar@.width, avatar@.height, target_size, target_size),
        result matches Err(e) ==> e == ImageError::Limits,
        result matches Ok(round) ==> round.wf() && is_round_avatar(avatar@, target_size, round@),
{
    proof {
        avatar.lemma_view();
        avatar.lemma_fits();
    }
    if !can_resize(avatar, target_size, target_size) {
        return Err(ImageError::Limits);
    }
    let resized = resize_lanczos3(avatar, target_size, target_size);
    let mask = match build_mask(target_size) {
        Ok(mask) => mask,
        Err(e) => { return Err(e); },
    };
    let round = apply_mask(&resized, &mask);
    proof {
        resized.lemma_view();
        assert(round@ == masked(resized@, round_mask(target_size as nat)));
    }
    Ok(round)
}

/// Rounds `avatar` off at side `target_size` and composites it onto
/// `background` for the point `(x, y)`.
///
/// The result has the size of the background. `Limits` is given where the
/// avatar cannot be resampled to the square, or has to be shrunk to go onto
/// the background and cannot be resampled to the shrunk size.
pub fn combine_images(
    background: Image,
    avatar: &Image,
    x: u32,
    y: u32,
    target_size: u32,
) -> (result: Result<Image, ImageError>)
    requires
        background.wf(),
        avatar.wf(),
    ensures
        result is Err <==> {
            ||| !resizable(avatar@.width, avatar@.height, target_size, target_size)
            ||| cannot_shrink(
                background@.width,
                background@.height,
                target_size as nat,
                target_size as nat,
                x,
                y,
            )
        },
        result matches Err(e) ==> e == ImageError::Limits,
        result matches Ok(out) ==> {
            &&& out.wf()
            &&& out@.width == background@.width
            &&& out@.height == background@.height
            &&& exists|round: Raster| #[trigger]
                is_round_avatar(avatar@, target_size, round) && composited(
                    background@,
                    round,
                    x,
                    y,
                    out@,
                )
        },
{
    let round = match create_round_avatar(avatar, target_size) {
        Ok(round) => round,
        Err(e) => { return Err(e); },
    };
    let ghost start = background@;
    match composite(background, &round, x, y) {
        Ok(out) => {
            proof {
                assert(is_round_avatar(avatar@, target_size, round@) && composited(
                    start,
                    round@,
                    x,
                    y,
                    out@,
                ));
            }
            Ok(out)
        },
        Err(e) => Err(e),
    }
}

} // verus!
