use image_combiner::image_combiner::{combine_images, create_round_avatar};
use image_combiner::mask::inside_circle;
use image_combiner::raster::{Image, ImageError, Rgba};

const CLEAR: Rgba = Rgba { r: 0, g: 0, b: 0, a: 0 };
const BLACK: Rgba = Rgba { r: 0, g: 0, b: 0, a: 255 };
const RED: Rgba = Rgba { r: 255, g: 0, b: 0, a: 255 };

fn speckled(width: u32, height: u32, seed: u64) -> Image {
    let mut state = seed;
    let mut bytes = Vec::new();
    for _ in 0..4 * width * height {
        state = state.wrapping_mul(6364136223846793005).wrapping_add(1442695040888963407);
        bytes.push((state >> 56) as u8);
    }
    Image::from_raw(width, height, bytes).unwrap()
}

fn to_buffer(img: &Image) -> image::RgbaImage {
    image::RgbaImage::from_raw(img.width(), img.height(), img.clone().into_raw()).unwrap()
}

/// The same steps taken with `image` alone, in floating point.
fn with_image_alone(
    background: &Image,
    avatar: &Image,
    x: u32,
    y: u32,
    target_size: u32,
) -> Vec<u8> {
    let mut background = to_buffer(background);
    let resized = image::imageops::resize(
        &to_buffer(avatar),
        target_size,
        target_size,
        image::imageops::FilterType::Lanczos3,
    );
    let (width, height) = resized.dimensions();
    let radius = width as f32 / 2.0;
    let center = (width as f32 / 2.0, height as f32 / 2.0);
    let round = image::RgbaImage::from_fn(width, height, |x, y| {
        let dx = x as f32 - center.0 + 0.5;
        let dy = y as f32 - center.1 + 0.5;
        if dx.powi(2) + dy.powi(2) <= radius.powi(2) {
            *resized.get_pixel(x, y)
        } else {
            image::Rgba([0, 0, 0, 0])
        }
    });
    let ax = if x >= 10 { x - 10 } else { 0 };
    let ay = if y >= 10 { y - 10 } else { 0 };
    for (tx, ty, pixel) in round.enumerate_pixels() {
        let bx = ax + tx;
        let by = ay + ty;
        if bx < background.width() && by < background.height() {
            if background.get_pixel(bx, by)[3] < 128 {
                background.put_pixel(bx, by, *pixel);
            }
        }
    }
    if ax + width > background.width() || ay + height > background.height() {
        let scale_x = (background.width() - ax) as f64 / width as f64;
        let scale_y = (background.height() - ay) as f64 / height as f64;
        let scale = scale_x.min(scale_y);
        let new_width = (width as f64 * scale) as u32;
        let new_height = (height as f64 * scale) as u32;
        let shrunk = image::imageops::resize(
            &round,
            new_width,
            new_height,
            image::imageops::FilterType::Lanczos3,
        );
        image::imageops::overlay(&mut background, &shrunk, ax as i64, ay as i64);
    } else {
        image::imageops::overlay(&mut background, &round, ax as i64, ay as i64);
    }
    background.into_raw()
}

#[test]
fn round_avatar_of_the_size_asked_for_is_only_masked() {
    let avatar = speckled(9, 9, 11);
    let round = create_round_avatar(&avatar, 9).unwrap();
    assert_eq!((round.width(), round.height()), (9, 9));
    for y in 0..9u32 {
        for x in 0..9u32 {
            let want = if inside_circle(x, y, 9, 9) { avatar.get_pixel(x, y) } else { CLEAR };
            assert_eq!(round.get_pixel(x, y), want);
        }
    }
}

#[test]
fn round_avatar_is_brought_to_the_size_asked_for() {
    let avatar = Image::from_pixel(100, 60, Rgba::new(10, 120, 230, 255)).unwrap();
    for size in [1u32, 7, 50, 100, 130] {
        let round = create_round_avatar(&avatar, size).unwrap();
        assert_eq!((round.width(), round.height()), (size, size));
        for y in 0..size {
            for x in 0..size {
                if inside_circle(x, y, size, size) {
                    assert_eq!(round.get_pixel(x, y), Rgba::new(10, 120, 230, 255));
                } else {
                    assert_eq!(round.get_pixel(x, y), CLEAR);
                }
            }
        }
    }
}

#[test]
fn round_avatar_has_clear_corners() {
    let avatar = Image::from_pixel(40, 40, Rgba::new(90, 90, 90, 255)).unwrap();
    for size in 4..=64u32 {
        let round = create_round_avatar(&avatar, size).unwrap();
        let last = size - 1;
        for (x, y) in [(0, 0), (last, 0), (0, last), (last, last)] {
            assert_eq!(round.get_pixel(x, y), CLEAR, "size {size}");
        }
    }
}

#[test]
fn round_avatar_of_side_three_keeps_its_corners() {
    let grey = Rgba::new(90, 90, 90, 255);
    let avatar = Image::from_pixel(3, 3, grey).unwrap();
    let round = create_round_avatar(&avatar, 3).unwrap();
    for (x, y) in [(0, 0), (2, 0), (0, 2), (2, 2)] {
        assert_eq!(round.get_pixel(x, y), grey);
    }
}

#[test]
fn round_avatar_of_side_zero_is_empty() {
    let avatar = speckled(5, 5, 12);
    let round = create_round_avatar(&avatar, 0).unwrap();
    assert_eq!((round.width(), round.height()), (0, 0));
    let none = Image::from_pixel(0, 0, CLEAR).unwrap();
    let round = create_round_avatar(&none, 6).unwrap();
    assert_eq!((round.width(), round.height()), (6, 6));
}

#[test]
fn round_avatar_that_cannot_be_held_is_refused() {
    let avatar = speckled(5, 5, 13);
    assert_eq!(create_round_avatar(&avatar, u32::MAX).unwrap_err(), ImageError::Limits);
    let background = speckled(5, 5, 14);
    assert_eq!(
        combine_images(background, &avatar, 0, 0, u32::MAX).unwrap_err(),
        ImageError::Limits
    );
}

#[test]
fn combine_anchors_ten_up_and_left() {
    let avatar = Image::from_pixel(20, 20, RED).unwrap();

    let out = combine_images(Image::from_pixel(100, 100, BLACK).unwrap(), &avatar, 5, 3, 20)
        .unwrap();
    for y in 0..100u32 {
        for x in 0..100u32 {
            let want = if x < 20 && y < 20 && inside_circle(x, y, 20, 20) { RED } else { BLACK };
            assert_eq!(out.get_pixel(x, y), want, "at ({x}, {y})");
        }
    }

    let out = combine_images(Image::from_pixel(100, 100, BLACK).unwrap(), &avatar, 50, 60, 20)
        .unwrap();
    for y in 0..100u32 {
        for x in 0..100u32 {
            let inside = (40..60).contains(&x)
                && (50..70).contains(&y)
                && inside_circle(x - 40, y - 50, 20, 20);
            assert_eq!(out.get_pixel(x, y), if inside { RED } else { BLACK }, "at ({x}, {y})");
        }
    }
}

#[test]
fn combine_shrinks_an_avatar_that_reaches_past_the_edge() {
    let background = Image::from_pixel(200, 200, BLACK).unwrap();
    let avatar = Image::from_pixel(50, 50, RED).unwrap();
    let out = combine_images(background.clone(), &avatar, 190, 190, 50).unwrap();
    assert_eq!((out.width(), out.height()), (200, 200));
    assert_eq!(out.clone().into_raw(), with_image_alone(&background, &avatar, 190, 190, 50));
    for y in 0..200u32 {
        for x in 0..200u32 {
            if x < 180 || y < 180 {
                assert_eq!(out.get_pixel(x, y), BLACK, "at ({x}, {y})");
            }
        }
    }
    // The middle of the 20 by 20 area is covered, its corners are not.
    assert_eq!(out.get_pixel(190, 190), RED);
    assert_eq!(out.get_pixel(189, 189), RED);
    assert_eq!(out.get_pixel(180, 180), BLACK);
    assert_eq!(out.get_pixel(199, 199), BLACK);
    assert_eq!(out.get_pixel(180, 199), BLACK);
    assert_eq!(out.get_pixel(199, 180), BLACK);
}

#[test]
fn combine_on_a_transparent_background_copies_the_round_avatar() {
    let background = Image::from_pixel(30, 30, Rgba::new(7, 7, 7, 127)).unwrap();
    let avatar = speckled(12, 12, 15);
    let out = combine_images(background, &avatar, 15, 20, 12).unwrap();
    let round = create_round_avatar(&avatar, 12).unwrap();
    for y in 0..30u32 {
        for x in 0..30u32 {
            let covered = (5..17).contains(&x) && (10..22).contains(&y);
            if !covered {
                assert_eq!(out.get_pixel(x, y), Rgba::new(7, 7, 7, 127));
            } else if !inside_circle(x - 5, y - 10, 12, 12) {
                assert_eq!(out.get_pixel(x, y), CLEAR);
            } else if round.get_pixel(x - 5, y - 10).a == 0 || round.get_pixel(x - 5, y - 10).a == 255 {
                assert_eq!(out.get_pixel(x, y), round.get_pixel(x - 5, y - 10));
            }
        }
    }
}

#[test]
fn combine_keeps_the_size_of_the_background() {
    let avatar = speckled(10, 14, 16);
    for (w, h) in [(0u32, 0u32), (1, 1), (17, 5), (5, 17), (64, 64)] {
        for (x, y, size) in [(0u32, 0u32, 0u32), (3, 4, 8), (30, 2, 12), (12, 12, 40), (70, 70, 9)] {
            let background = speckled(w, h, 17);
            let out = combine_images(background, &avatar, x, y, size).unwrap();
            assert_eq!((out.width(), out.height()), (w, h));
        }
    }
}

#[test]
fn combine_with_side_zero_changes_nothing() {
    let background = speckled(12, 12, 18);
    let avatar = speckled(6, 6, 19);
    for (x, y) in [(0u32, 0u32), (15, 15), (22, 22), (23, 0), (400, 400)] {
        let out = combine_images(background.clone(), &avatar, x, y, 0).unwrap();
        assert_eq!(out, background);
    }
}

#[test]
fn combine_on_an_opaque_black_background_changes_only_the_avatar_area() {
    let background = Image::from_pixel(80, 60, BLACK).unwrap();
    let avatar = speckled(16, 16, 20);
    for (x, y, size) in [(10u32, 10u32, 16u32), (40, 30, 24), (75, 55, 30), (85, 20, 30)] {
        let out = combine_images(background.clone(), &avatar, x, y, size).unwrap();
        let ax = x - 10;
        let ay = y - 10;
        for j in 0..60u32 {
            for i in 0..80u32 {
                if !(i >= ax && i < ax + size && j >= ay && j < ay + size) {
                    assert_eq!(out.get_pixel(i, j), BLACK, "at ({i}, {j})");
                }
            }
        }
    }
}

#[test]
fn combine_agrees_with_image_alone() {
    let cases = [
        (40u32, 30u32, 16u32, 16u32, 12u32, 12u32, 16u32),
        (40, 30, 16, 16, 0, 0, 16),
        (40, 30, 23, 11, 20, 15, 18),
        (40, 30, 8, 8, 35, 25, 24),
        (40, 30, 8, 8, 45, 12, 24),
        (40, 30, 8, 8, 12, 38, 24),
        (40, 30, 50, 50, 49, 39, 7),
        (40, 30, 50, 50, 50, 40, 49),
        (64, 64, 31, 17, 60, 20, 49),
        (33, 57, 12, 40, 17, 9, 60),
        (10, 10, 5, 5, 20, 20, 13),
        (1, 1, 3, 3, 0, 0, 4),
    ];
    for (n, &(bw, bh, aw, ah, x, y, size)) in cases.iter().enumerate() {
        let background = speckled(bw, bh, 100 + n as u64);
        let avatar = speckled(aw, ah, 200 + n as u64);
        let out = combine_images(background.clone(), &avatar, x, y, size).unwrap();
        assert_eq!(
            out.into_raw(),
            with_image_alone(&background, &avatar, x, y, size),
            "case {n}"
        );
    }
}

#[test]
fn round_avatar_from_every_small_size_to_every_small_size() {
    let colour = Rgba::new(10, 120, 230, 255);
    for w in 1..=24u32 {
        for h in [1u32, 2, 5, 24] {
            let avatar = Image::from_pixel(w, h, colour).unwrap();
            for size in 1..=40u32 {
                let round = create_round_avatar(&avatar, size).unwrap();
                assert_eq!((round.width(), round.height()), (size, size));
                assert_eq!(round.get_pixel(size / 2, size / 2), colour, "{w}x{h} to {size}");
            }
        }
    }
}

fn close(a: Rgba, b: Rgba) -> bool {
    let near = |p: u8, q: u8| p.abs_diff(q) <= 2;
    near(a.r, b.r) && near(a.g, b.g) && near(a.b, b.b) && near(a.a, b.a)
}

#[test]
fn round_avatar_from_long_strips() {
    // So many weights are added up in single precision that the colour may
    // come out a step or two off.
    let colour = Rgba::new(10, 120, 230, 255);
    for extent in [1000u32, 4097, 65_535, (1 << 20) - 1, 1 << 20] {
        for size in [1u32, 2, 7, 64] {
            let wide = Image::from_pixel(extent, 1, colour).unwrap();
            let round = create_round_avatar(&wide, size).unwrap();
            assert_eq!((round.width(), round.height()), (size, size));
            assert!(close(round.get_pixel(size / 2, size / 2), colour), "{extent}x1 to {size}");
            let tall = Image::from_pixel(1, extent, colour).unwrap();
            let round = create_round_avatar(&tall, size).unwrap();
            assert_eq!((round.width(), round.height()), (size, size));
            assert!(close(round.get_pixel(size / 2, size / 2), colour), "1x{extent} to {size}");
        }
    }
}

#[test]
fn round_avatar_from_one_pixel() {
    let colour = Rgba::new(200, 100, 50, 255);
    let avatar = Image::from_pixel(1, 1, colour).unwrap();
    for size in [2u32, 3, 100, 1024] {
        let round = create_round_avatar(&avatar, size).unwrap();
        assert_eq!((round.width(), round.height()), (size, size));
        assert_eq!(round.get_pixel(size / 2, size / 2), colour);
        assert_eq!(round.get_pixel(0, size / 2), colour);
    }
}

#[test]
fn round_avatar_beyond_the_largest_extent_is_refused() {
    let wide = Image::from_pixel((1 << 20) + 1, 1, RED).unwrap();
    assert_eq!(create_round_avatar(&wide, 8).unwrap_err(), ImageError::Limits);
    let background = Image::from_pixel(16, 16, BLACK).unwrap();
    assert_eq!(
        combine_images(background.clone(), &wide, 0, 0, 8).unwrap_err(),
        ImageError::Limits
    );
    // With nothing to draw there is nothing to resample.
    let empty = create_round_avatar(&wide, 0).unwrap();
    assert_eq!((empty.width(), empty.height()), (0, 0));
    assert_eq!(combine_images(background.clone(), &wide, 3, 3, 0).unwrap(), background);
}

#[test]
fn combine_past_the_edge_changes_only_the_shrunk_square() {
    let avatar = speckled(40, 40, 31);
    for (w, h, x, y, size) in [
        (60u32, 50u32, 40u32, 20u32, 40u32),
        (60, 50, 20, 45, 40),
        (60, 50, 69, 59, 7),
        (33, 47, 30, 30, 25),
        (200, 200, 190, 190, 50),
    ] {
        let background = speckled(w, h, 32);
        let out = combine_images(background.clone(), &avatar, x, y, size).unwrap();
        assert_eq!((out.width(), out.height()), (w, h));
        let (ax, ay) = (x - 10, y - 10);
        let room = (w - ax).min(h - ay);
        for j in 0..h {
            for i in 0..w {
                if out.get_pixel(i, j) != background.get_pixel(i, j) {
                    assert!(i >= ax && j >= ay);
                    assert!(
                        background.get_pixel(i, j).a < 128 || (i < ax + room && j < ay + room),
                        "at ({i}, {j})"
                    );
                }
            }
        }
    }
}
