//! Images as grids of four-channel pixels, and their mathematical model.

use vstd::prelude::*;

verus! {

/// A pixel: red, green, blue and alpha, eight bits each.
#[derive(Clone, Copy, PartialEq, Eq, Debug, Structural)]
pub struct Rgba {
    pub r: u8,
    pub g: u8,
    pub b: u8,
    pub a: u8,
}

impl Rgba {
    /// The fully transparent black pixel.
    pub open spec fn clear() -> Rgba {
        (Rgba { r: 0, g: 0, b: 0, a: 0 })
    }

    /// The fully opaque white pixel.
    pub open spec fn white() -> Rgba {
        (Rgba { r: 255, g: 255, b: 255, a: 255 })
    }

    pub fn new(r: u8, g: u8, b: u8, a: u8) -> (pixel: Rgba)
        ensures
            pixel == (Rgba { r, g, b, a }),
    {
        Rgba { r, g, b, a }
    }
}

/// Why an operation gave no image.
#[derive(Clone, Copy, PartialEq, Eq, Debug, Structural)]
pub enum ImageError {
    /// An image or a working buffer of the size asked for cannot be held.
    Limits,
}

/// What an image is: its dimensions and its pixels, row by row from the top.
#[verifier::ext_equal]
pub struct Raster {
    pub width: nat,
    pub height: nat,
    pub rows: Seq<Seq<Rgba>>,
}

impl Raster {
    /// There are `height` rows of `width` pixels each.
    pub open spec fn wf(self) -> bool {
        &&& self.rows.len() == self.height
        &&& forall|y: int| 0 <= y < self.height ==> (#[trigger] self.rows[y]).len() == self.width
    }

    /// `(x, y)` names a pixel of the raster.
    pub open spec fn contains(self, x: int, y: int) -> bool {
        0 <= x < self.width && 0 <= y < self.height
    }

    /// The pixel in column `x` of row `y`.
    pub open spec fn at(self, x: int, y: int) -> Rgba {
        self.rows[y][x]
    }

    /// The raster of the given size whose pixel at `(x, y)` is `f(x, y)`.
    pub open spec fn build(width: nat, height: nat, f: spec_fn(int, int) -> Rgba) -> Raster {
        Raster {
            width,
            height,
            rows: Seq::new(height, |y: int| Seq::new(width, |x: int| f(x, y))),
        }
    }

    /// The raster with every pixel equal to `pixel`.
    pub open spec fn uniform(width: nat, height: nat, pixel: Rgba) -> Raster {
        Raster::build(width, height, |x: int, y: int| pixel)
    }

    /// The same raster with the pixel at `(x, y)` replaced.
    pub open spec fn put(self, x: int, y: int, pixel: Rgba) -> Raster {
        Raster {
            width: self.width,
            height: self.height,
            rows: self.rows.update(y, self.rows[y].update(x, pixel)),
        }
    }

    /// The raster stored in `bytes`: four bytes per pixel in the order red,
    /// green, blue, alpha, pixels left to right, rows top to bottom.
    pub open spec fn decode(bytes: Seq<u8>, width: nat, height: nat) -> Raster {
        Raster::build(width, height, |x: int, y: int| pixel_in(bytes, y * width + x))
    }

    /// Replacing a pixel changes that pixel and no other.
    pub proof fn lemma_put(self, x: int, y: int, pixel: Rgba)
        requires
            self.wf(),
            self.contains(x, y),
        ensures
            self.put(x, y, pixel).wf(),
            self.put(x, y, pixel).width == self.width,
            self.put(x, y, pixel).height == self.height,
            forall|i: int, j: int|
                self.contains(i, j) ==> #[trigger] self.put(x, y, pixel).at(i, j) == if i == x && j
                    == y {
                    pixel
                } else {
                    self.at(i, j)
                },
    {
        let after = self.put(x, y, pixel);
        assert forall|j: int| 0 <= j < after.height implies (#[trigger] after.rows[j]).len()
            == after.width by {
            assert(self.rows[j].len() == self.width);
        }
    }

    /// Two well-formed rasters of one size with the same pixel everywhere are
    /// the same raster.
    pub proof fn lemma_equal_by_pixels(self, other: Raster)
        requires
            self.wf(),
            other.wf(),
            self.width == other.width,
            self.height == other.height,
            forall|x: int, y: int| self.contains(x, y) ==> self.at(x, y) == other.at(x, y),
        ensures
            self == other,
    {
        assert forall|y: int| 0 <= y < self.height implies self.rows[y] =~= other.rows[y] by {
            assert forall|x: int| 0 <= x < self.width implies self.rows[y][x] == other.rows[y][x] by {
                assert(self.contains(x, y));
                assert(self.at(x, y) == other.at(x, y));
            }
        }
        assert(self.rows =~= other.rows);
    }
}

/// The `k`-th pixel stored in `bytes`, four bytes per pixel.
pub open spec fn pixel_in(bytes: Seq<u8>, k: int) -> Rgba {
    (Rgba { r: bytes[4 * k], g: bytes[4 * k + 1], b: bytes[4 * k + 2], a: bytes[4 * k + 3] })
}

/// The number of bytes that hold a `width` by `height` image.
pub open spec fn byte_len(width: u32, height: u32) -> int {
    4 * width * height
}

/// A buffer for a `width` by `height` image is within what a vector may hold.
pub open spec fn fits(width: u32, height: u32) -> bool {
    byte_len(width, height) <= isize::MAX
}

proof fn lemma_offset_bounds(x: int, y: int, w: int, h: int)
    requires
        0 <= x < w,
        0 <= y < h,
    ensures
        0 <= y * w + x < w * h,
        0 <= y * w,
{
    assert(0 <= y * w && y * w + w <= w * h) by (nonlinear_arith)
        requires
            0 <= y < h,
            0 < w,
    ;
}

proof fn lemma_offset_injective(x1: int, y1: int, x2: int, y2: int, w: int)
    requires
        0 <= x1 < w,
        0 <= x2 < w,
        0 <= y1,
        0 <= y2,
        y1 * w + x1 == y2 * w + x2,
    ensures
        x1 == x2,
        y1 == y2,
{
    if y1 < y2 {
        assert(y1 * w + w <= y2 * w) by (nonlinear_arith)
            requires
                y1 < y2,
                0 < w,
        ;
    } else if y2 < y1 {
        assert(y2 * w + w <= y1 * w) by (nonlinear_arith)
            requires
                y2 < y1,
                0 < w,
        ;
    }
}

/// `width * height`, which cannot overflow 64 bits.
fn pixel_count(width: u32, height: u32) -> (n: u64)
    ensures
        n == width * height,
        4 * n <= u128::MAX,
{
    assert(width * height <= 0xFFFF_FFFF * 0xFFFF_FFFF) by (nonlinear_arith)
        requires
            0 <= width <= 0xFFFF_FFFF,
            0 <= height <= 0xFFFF_FFFF,
    ;
    assert(0 <= width * height) by (nonlinear_arith);
    (width as u64) * (height as u64)
}

/// Whether a `width` by `height` image can be held.
pub fn image_fits(width: u32, height: u32) -> (ok: bool)
    ensures
        ok == fits(width, height),
{
    let n = pixel_count(width, height);
    assert(4 * (width * height) == 4 * width * height) by (nonlinear_arith);
    4 * (n as u128) <= isize::MAX as u128
}

/// An image in memory: a grid of `Rgba` pixels.
#[derive(Debug, PartialEq, Eq)]
pub struct Image {
    pub(crate) width: u32,
    pub(crate) height: u32,
    pub(crate) data: Vec<u8>,
}

impl View for Image {
    type V = Raster;

    closed spec fn view(&self) -> Raster {
        Raster::decode(self.data@, self.width as nat, self.height as nat)
    }
}

impl Clone for Image {
    fn clone(&self) -> (copy: Image)
        ensures
            copy@ == self@,
            copy.wf() == self.wf(),
    {
        let data = self.data.clone();
        assert(data@ =~= self.data@);
        Image { width: self.width, height: self.height, data }
    }
}

impl Image {
    /// The buffer holds exactly the pixels of the image.
    pub closed spec fn wf(&self) -> bool {
        &&& self.data.len() == byte_len(self.width, self.height)
        &&& fits(self.width, self.height)
    }

    /// The view of any image is a well-formed raster of the image's size.
    pub proof fn lemma_view(&self)
        ensures
            self@.wf(),
            self@.width <= u32::MAX,
            self@.height <= u32::MAX,
    {
    }

    /// A well-formed image is of a size that can be held.
    pub proof fn lemma_fits(&self)
        requires
            self.wf(),
        ensures
            fits(self@.width as u32, self@.height as u32),
    {
    }

    pub fn width(&self) -> (w: u32)
        ensures
            w == self@.width,
    {
        self.width
    }

    pub fn height(&self) -> (h: u32)
        ensures
            h == self@.height,
    {
        self.height
    }

    /// An image with every pixel equal to `pixel`, or `None` where an image of
    /// that size cannot be held.
    pub fn from_pixel(width: u32, height: u32, pixel: Rgba) -> (result: Option<Image>)
        ensures
            result is Some <==> fits(width, height),
            result matches Some(img) ==> img.wf() && img@ == Raster::uniform(
                width as nat,
                height as nat,
                pixel,
            ),
    {
        if !image_fits(width, height) {
            return None;
        }
        let count = pixel_count(width, height);
        assert(4 * (width * height) == 4 * width * height) by (nonlinear_arith);
        let mut data: Vec<u8> = Vec::new();
        let mut i: u64 = 0;
        while i < count
            invariant
                i <= count,
                4 * count <= isize::MAX,
                data.len() == 4 * i,
                forall|k: int| 0 <= k < i ==> #[trigger] pixel_in(data@, k) == pixel,
            decreases count - i,
        {
            let ghost before = data@;
            data.push(pixel.r);
            data.push(pixel.g);
            data.push(pixel.b);
            data.push(pixel.a);
            proof {
                assert forall|k: int| 0 <= k < i implies #[trigger] pixel_in(data@, k)
                    == pixel by {
                    assert(pixel_in(data@, k) == pixel_in(before, k));
                }
                assert(pixel_in(data@, i as int) == pixel);
            }
            i = i + 1;
        }
        let img = Image { width, height, data };
        proof {
            let expected = Raster::uniform(width as nat, height as nat, pixel);
            assert forall|x: int, y: int| img@.contains(x, y) implies img@.at(x, y) == expected.at(
                x,
                y,
            ) by {
                lemma_offset_bounds(x, y, width as int, height as int);
            }
            img@.lemma_equal_by_pixels(expected);
        }
        Some(img)
    }

    /// The image stored in `data`, four bytes per pixel, or `None` where
    /// `data` is not of the length that the size asks for.
    pub fn from_raw(width: u32, height: u32, data: Vec<u8>) -> (result: Option<Image>)
        ensures
            result is Some <==> data.len() == byte_len(width, height) && fits(width, height),
            result matches Some(img) ==> img.wf() && img@ == Raster::decode(
                data@,
                width as nat,
                height as nat,
            ),
    {
        if !image_fits(width, height) {
            return None;
        }
        let count = pixel_count(width, height);
        assert(4 * (width * height) == 4 * width * height) by (nonlinear_arith);
        if data.len() as u128 != 4 * (count as u128) {
            return None;
        }
        Some(Image { width, height, data })
    }

    /// The bytes of the image, four per pixel.
    pub fn into_raw(self) -> (bytes: Vec<u8>)
        requires
            self.wf(),
        ensures
            bytes.len() == 4 * self@.width * self@.height,
            Raster::decode(bytes@, self@.width, self@.height) == self@,
    {
        self.data
    }

    /// The pixel at `(x, y)`.
    pub fn get_pixel(&self, x: u32, y: u32) -> (pixel: Rgba)
        requires
            self.wf(),
            self@.contains(x as int, y as int),
        ensures
            pixel == self@.at(x as int, y as int),
    {
        proof {
            lemma_offset_bounds(x as int, y as int, self.width as int, self.height as int);
            assert(4 * (self.width * self.height) == 4 * self.width * self.height)
                by (nonlinear_arith);
        }
        let i: usize = 4 * ((y as usize) * (self.width as usize) + (x as usize));
        Rgba { r: self.data[i], g: self.data[i + 1], b: self.data[i + 2], a: self.data[i + 3] }
    }

    /// Replaces the pixel at `(x, y)`.
    pub fn put_pixel(&mut self, x: u32, y: u32, pixel: Rgba)
        requires
            old(self).wf(),
            old(self)@.contains(x as int, y as int),
        ensures
            final(self).wf(),
            final(self)@ == old(self)@.put(x as int, y as int, pixel),
    {
        proof {
            lemma_offset_bounds(x as int, y as int, self.width as int, self.height as int);
            assert(4 * (self.width * self.height) == 4 * self.width * self.height)
                by (nonlinear_arith);
        }
        let i: usize = 4 * ((y as usize) * (self.width as usize) + (x as usize));
        self.data.set(i, pixel.r);
        self.data.set(i + 1, pixel.g);
        self.data.set(i + 2, pixel.b);
        self.data.set(i + 3, pixel.a);
        proof {
            let before = old(self)@;
            let after = self@;
            let expected = before.put(x as int, y as int, pixel);
            let w = self.width as int;
            assert forall|x2: int, y2: int| after.contains(x2, y2) implies after.at(x2, y2)
                == expected.at(x2, y2) by {
                lemma_offset_bounds(x2, y2, w, self.height as int);
                if x2 != x || y2 != y {
                    if y2 * w + x2 == y * w + x {
                        lemma_offset_injective(x2, y2, x as int, y as int, w);
                    }
                }
            }
            after.lemma_equal_by_pixels(expected);
        }
    }
}

} // verus!
