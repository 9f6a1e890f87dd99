use vstd::prelude::*;
use image::{Rgb, RgbImage, Rgba, RgbaImage};

verus! {

/// An 8-bit RGBA image of the `image` crate.
#[verifier::external_body]
pub struct RgbaBuffer {
    image: RgbaImage,
}

/// An 8-bit RGB image of the `image` crate.
#[verifier::external_body]
pub struct RgbBuffer {
    image: RgbImage,
}

/// The bytes of an RGBA image, row by row, four per pixel.
pub uninterp spec fn rgba_bytes(b: RgbaBuffer) -> Seq<u8>;

/// The width of an RGBA image, in pixels.
pub uninterp spec fn rgba_width(b: RgbaBuffer) -> u32;

/// The height of an RGBA image, in pixels.
pub uninterp spec fn rgba_height(b: RgbaBuffer) -> u32;

/// The bytes of an RGB image, row by row, three per pixel.
pub uninterp spec fn rgb_bytes(b: RgbBuffer) -> Seq<u8>;

/// The width of an RGB image, in pixels.
pub uninterp spec fn rgb_width(b: RgbBuffer) -> u32;

/// The height of an RGB image, in pixels.
pub uninterp spec fn rgb_height(b: RgbBuffer) -> u32;

/// The index of the first byte of pixel `(x, y)` in a row-major buffer
/// `width` pixels wide with `channels` bytes per pixel.
pub open spec fn pixel_base(channels: int, width: int, x: int, y: int) -> int {
    channels * (y * width + x)
}

/// Relies on image's `ImageBuffer::new`: a `width` by `height` image whose
/// bytes, four per pixel, are all zero. It panics where the byte count
/// overflows `usize`.
#[verifier::external_body]
pub(crate) fn rgba_new(width: u32, height: u32) -> (r: RgbaBuffer)
    requires
        4 * (width as int) * (height as int) <= usize::MAX,
    ensures
        rgba_width(r) == width,
        rgba_height(r) == height,
        rgba_bytes(r).len() == 4 * (width as int) * (height as int),
        forall|k: int| 0 <= k < rgba_bytes(r).len() ==> #[trigger] rgba_bytes(r)[k] == 0,
{
    RgbaBuffer { image: RgbaImage::new(width, height) }
}

/// Relies on image's `ImageBuffer::put_pixel`: it overwrites the four bytes of
/// pixel `(x, y)`, which start at `4 * (y * width + x)`, and panics outside the
/// image.
#[verifier::external_body]
pub(crate) fn rgba_put(b: &mut RgbaBuffer, x: u32, y: u32, px: [u8; 4])
    requires
        x < rgba_width(*old(b)),
        y < rgba_height(*old(b)),
        rgba_bytes(*old(b)).len() == 4 * (rgba_width(*old(b)) as int) * (rgba_height(
            *old(b),
        ) as int),
    ensures
        rgba_width(*final(b)) == rgba_width(*old(b)),
        rgba_height(*final(b)) == rgba_height(*old(b)),
        rgba_bytes(*final(b)) == rgba_bytes(*old(b)).subrange(
            0,
            pixel_base(4, rgba_width(*old(b)) as int, x as int, y as int),
        ) + px@ + rgba_bytes(*old(b)).subrange(
            pixel_base(4, rgba_width(*old(b)) as int, x as int, y as int) + 4,
            rgba_bytes(*old(b)).len() as int,
        ),
{
    b.image.put_pixel(x, y, Rgba(px));
}

/// Relies on image's `ImageBuffer::get_pixel`: the four bytes of pixel
/// `(x, y)`; it panics outside the image.
#[verifier::external_body]
pub(crate) fn rgba_get(b: &RgbaBuffer, x: u32, y: u32) -> (r: [u8; 4])
    requires
        x < rgba_width(*b),
        y < rgba_height(*b),
        rgba_bytes(*b).len() == 4 * (rgba_width(*b) as int) * (rgba_height(*b) as int),
    ensures
        r@ == rgba_bytes(*b).subrange(
            pixel_base(4, rgba_width(*b) as int, x as int, y as int),
            pixel_base(4, rgba_width(*b) as int, x as int, y as int) + 4,
        ),
{
    b.image.get_pixel(x, y).0
}

/// Relies on image's `ImageBuffer::as_raw`: the image's bytes.
#[verifier::external_body]
pub(crate) fn rgba_raw(b: &RgbaBuffer) -> (r: &Vec<u8>)
    ensures
        r@ == rgba_bytes(*b),
{
    b.image.as_raw()
}

/// Relies on image's `ImageBuffer::from_raw`: an image over `bytes`, three per
/// pixel, where the byte count `3 * width * height` fits `usize` and `bytes`
/// holds at least that many; `None` otherwise.
#[verifier::external_body]
pub(crate) fn rgb_from_raw(width: u32, height: u32, bytes: Vec<u8>) -> (r: Option<RgbBuffer>)
    ensures
        r is Some <==> (3 * (width as int) <= usize::MAX && 3 * (width as int) * (height as int)
            <= bytes@.len()),
        r matches Some(b) ==> rgb_width(b) == width && rgb_height(b) == height && rgb_bytes(b)
            == bytes@,
{
    match RgbImage::from_raw(width, height, bytes) {
        Some(image) => Some(RgbBuffer { image }),
        None => None,
    }
}

/// Relies on image's `ImageBuffer::get_pixel`: the three bytes of pixel
/// `(x, y)`; it panics outside the image.
#[verifier::external_body]
pub(crate) fn rgb_get(b: &RgbBuffer, x: u32, y: u32) -> (r: [u8; 3])
    requires
        x < rgb_width(*b),
        y < rgb_height(*b),
        rgb_bytes(*b).len() >= 3 * (rgb_width(*b) as int) * (rgb_height(*b) as int),
    ensures
        r@ == rgb_bytes(*b).subrange(
            pixel_base(3, rgb_width(*b) as int, x as int, y as int),
            pixel_base(3, rgb_width(*b) as int, x as int, y as int) + 3,
        ),
{
    let px: Rgb<u8> = *b.image.get_pixel(x, y);
    px.0
}

} // verus!
