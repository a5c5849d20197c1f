//! The pictures of the `image` crate as this library sees them.
//!
//! A picture is known by its size and by its pixels in 8-bit RGB, row after row. The functions in
//! this file are trusted: each makes one call into the `image` crate, and its contract says what
//! that call does to the size and the pixels. What the contracts mean by a rectangle and by the
//! pixels of a byte string is proved below them.

use image::{DynamicImage, GenericImageView, Rgb, RgbImage};
use vstd::prelude::*;

verus! {

/// `image::DynamicImage`, a decoded picture of any pixel format.
#[verifier::external_type_specification]
#[verifier::external_body]
pub struct ExDynamicImage(DynamicImage);

/// An `image::RgbImage` to draw on.
#[verifier::external_body]
pub struct Canvas {
    inner: RgbImage,
}

/// The width and height of a picture.
pub uninterp spec fn image_size(image: DynamicImage) -> (u32, u32);

/// The pixels of a picture as 8-bit RGB, row after row.
pub uninterp spec fn image_pixels(image: DynamicImage) -> Seq<(u8, u8, u8)>;

/// The width and height of a canvas.
pub uninterp spec fn canvas_size(canvas: Canvas) -> (u32, u32);

/// The pixels of a canvas, row after row.
pub uninterp spec fn canvas_pixels(canvas: Canvas) -> Seq<(u8, u8, u8)>;

/// The pixels of the rectangle of the given origin and size, row after row, out of a picture
/// whose rows hold `stride` pixels.
pub open spec fn rectangle(
    pixels: Seq<(u8, u8, u8)>,
    stride: int,
    x: int,
    y: int,
    width: int,
    height: int,
) -> Seq<(u8, u8, u8)> {
    Seq::new((width * height) as nat, |i: int| pixels[(y + i / width) * stride + (x + i % width)])
}

/// The pixels that a byte string holds, three bytes each; up to two bytes at its end belong to
/// no pixel.
pub open spec fn rgb_triples(bytes: Seq<u8>) -> Seq<(u8, u8, u8)> {
    Seq::new(bytes.len() / 3, |i: int| (bytes[3 * i], bytes[3 * i + 1], bytes[3 * i + 2]))
}

/// `GenericImageView::dimensions` of a `DynamicImage`: the picture's width and height.
#[verifier::external_body]
pub(crate) fn dimensions(image: &DynamicImage) -> (size: (u32, u32))
    ensures
        size == image_size(*image),
{
    image.dimensions()
}

/// `DynamicImage::crop_imm` on a rectangle that lies in the picture: a picture of the
/// rectangle's size that holds the rectangle's pixels. The crop keeps the pixel format and the
/// colour space, so converting it to RGB gives what cropping the converted picture would.
#[verifier::external_body]
pub(crate) fn crop_imm(image: &DynamicImage, x: u32, y: u32, width: u32, height: u32) -> (crop:
    DynamicImage)
    requires
        x + width <= image_size(*image).0,
        y + height <= image_size(*image).1,
    ensures
        image_size(crop) == (width, height),
        image_pixels(crop) == rectangle(
            image_pixels(*image),
            image_size(*image).0 as int,
            x as int,
            y as int,
            width as int,
            height as int,
        ),
{
    image.crop_imm(x, y, width, height)
}

/// `DynamicImage::to_rgb8`: a canvas of the picture's size that holds the picture's pixels, one
/// for every place. The buffer it allocates, three bytes to a pixel, must fit in a vector; its
/// length is computed row by row, so a row must fit too where there is no row.
#[verifier::external_body]
pub(crate) fn to_rgb8(image: &DynamicImage) -> (canvas: Canvas)
    requires
        3 * image_size(*image).0 <= usize::MAX,
        3 * (image_size(*image).0 * image_size(*image).1) <= isize::MAX,
    ensures
        canvas_size(canvas) == image_size(*image),
        canvas_pixels(canvas) == image_pixels(*image),
        canvas_pixels(canvas).len() == image_size(*image).0 * image_size(*image).1,
{
    Canvas { inner: image.to_rgb8() }
}

impl Canvas {
    /// `ImageBuffer::dimensions`: the canvas's width and height.
    #[verifier::external_body]
    pub(crate) fn dimensions(&self) -> (size: (u32, u32))
        ensures
            size == canvas_size(*self),
    {
        self.inner.dimensions()
    }

    /// `ImageBuffer::into_raw`: the bytes behind the canvas. They start with the red, green and
    /// blue of every pixel in turn; a buffer may be longer than its pixels need.
    #[verifier::external_body]
    pub(crate) fn into_raw(self) -> (bytes: Vec<u8>)
        ensures
            bytes@.len() >= 3 * canvas_pixels(self).len(),
            rgb_triples(bytes@.take(3 * canvas_pixels(self).len() as int)) == canvas_pixels(self),
    {
        self.inner.into_raw()
    }

    /// `ImageBuffer::put_pixel` inside the canvas: it sets that one pixel.
    #[verifier::external_body]
    pub(crate) fn put_pixel(&mut self, x: u32, y: u32, color: (u8, u8, u8))
        requires
            x < canvas_size(*old(self)).0,
            y < canvas_size(*old(self)).1,
        ensures
            canvas_size(*final(self)) == canvas_size(*old(self)),
            canvas_pixels(*final(self)) == canvas_pixels(*old(self)).update(
                y * canvas_size(*old(self)).0 + x,
                color,
            ),
    {
        self.inner.put_pixel(x, y, Rgb([color.0, color.1, color.2]))
    }
}

/// A rectangle of a picture holds, at its column `i` and row `j`, the pixel of the picture that is
/// `i` columns and `j` rows away from its origin.
pub proof fn rectangle_is_a_window(
    pixels: Seq<(u8, u8, u8)>,
    stride: int,
    x: int,
    y: int,
    width: int,
    height: int,
    i: int,
    j: int,
)
    requires
        0 <= i < width,
        0 <= j < height,
    ensures
        rectangle(pixels, stride, x, y, width, height).len() == width * height,
        0 <= j * width + i < width * height,
        rectangle(pixels, stride, x, y, width, height)[j * width + i] == pixels[(y + j) * stride + (
        x + i)],
{
    assert(0 <= j * width + i < width * height) by (nonlinear_arith)
        requires
            0 <= i < width,
            0 <= j < height,
    ;
    vstd::arithmetic::div_mod::lemma_fundamental_div_mod_converse(j * width + i, width, j, i);
}

/// The first three bytes are the first pixel; the bytes after them hold the other pixels.
pub proof fn pixels_take_three_bytes(red: u8, green: u8, blue: u8, rest: Seq<u8>)
    ensures
        rgb_triples(seq![red, green, blue] + rest) == seq![(red, green, blue)] + rgb_triples(rest),
        rest.len() < 3 ==> rgb_triples(rest).len() == 0,
{
    let bytes = seq![red, green, blue] + rest;
    assert(rgb_triples(bytes) =~= seq![(red, green, blue)] + rgb_triples(rest)) by {
        assert(bytes.len() / 3 == 1 + rest.len() / 3);
        assert forall|i: int| 0 <= i < rgb_triples(bytes).len() implies rgb_triples(bytes)[i] == (
        seq![(red, green, blue)] + rgb_triples(rest))[i] by {
            if i > 0 {
                assert(bytes[3 * i] == rest[3 * (i - 1)]);
                assert(bytes[3 * i + 1] == rest[3 * (i - 1) + 1]);
                assert(bytes[3 * i + 2] == rest[3 * (i - 1) + 2]);
            }
        }
    }
}

} // verus!
