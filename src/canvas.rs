use vstd::prelude::*;
use crate::image_buffer::{
    RgbaBuffer, rgba_bytes, rgba_width, rgba_height, rgba_new, rgba_put, rgba_get, rgba_raw,
};

verus! {

/// The four bytes (red, green, blue, alpha) of pixel `(x, y)` in a row-major
/// RGBA buffer `width` pixels wide.
pub open spec fn pixel_at(bytes: Seq<u8>, width: int, x: int, y: int) -> Seq<u8> {
    bytes.subrange(4 * (y * width + x), 4 * (y * width + x) + 4)
}

/// A framebuffer of 8-bit RGBA pixels, row by row.
pub struct Canvas {
    pub width: u32,
    pub height: u32,
    pub image: RgbaBuffer,
}

impl Canvas {
    /// The pixel bytes, row by row, four per pixel.
    pub open spec fn bytes(&self) -> Seq<u8> {
        rgba_bytes(self.image)
    }

    /// The image has the canvas's size and four bytes for each pixel.
    pub open spec fn wf(&self) -> bool {
        &&& rgba_width(self.image) == self.width
        &&& rgba_height(self.image) == self.height
        &&& self.bytes().len() == 4 * (self.width as int) * (self.height as int)
    }

    /// A `width` by `height` canvas whose pixels are all zero bytes.
    pub fn with_height(width: u32, height: u32) -> (r: Canvas)
        requires
            4 * (width as int) * (height as int) <= usize::MAX,
        ensures
            r.width == width,
            r.height == height,
            r.wf(),
            forall|k: int| 0 <= k < r.bytes().len() ==> #[trigger] r.bytes()[k] == 0,
    {
        Canvas { width, height, image: rgba_new(width, height) }
    }

    /// A square canvas, `width` pixels on each side, whose pixels are all zero
    /// bytes.
    pub fn new(width: u32) -> (r: Canvas)
        requires
            4 * (width as int) * (width as int) <= usize::MAX,
        ensures
            r.width == width,
            r.height == width,
            r.wf(),
            forall|k: int| 0 <= k < r.bytes().len() ==> #[trigger] r.bytes()[k] == 0,
    {
        Canvas::with_height(width, width)
    }

    /// Sets pixel `(x, y)` to `rgba`; every other byte stays as it was.
    pub fn write_pixel(&mut self, x: u32, y: u32, rgba: [u8; 4])
        requires
            old(self).wf(),
            x < old(self).width,
            y < old(self).height,
        ensures
            final(self).wf(),
            final(self).width == old(self).width,
            final(self).height == old(self).height,
            pixel_at(final(self).bytes(), old(self).width as int, x as int, y as int) == rgba@,
            forall|k: int|
                0 <= k < old(self).bytes().len() && !(4 * (y * old(self).width + x) <= k < 4 * (y
                    * old(self).width + x) + 4) ==> #[trigger] final(self).bytes()[k] == old(
                    self,
                ).bytes()[k],
    {
        proof {
            lemma_pixel_in_range(self.width, self.height, x, y);
        }
        rgba_put(&mut self.image, x, y, rgba);
        proof {
            assert(pixel_at(self.bytes(), self.width as int, x as int, y as int) =~= rgba@);
        }
    }

    /// The bytes of pixel `(x, y)`.
    pub fn get_pixel(&self, x: u32, y: u32) -> (r: [u8; 4])
        requires
            self.wf(),
            x < self.width,
            y < self.height,
        ensures
            r@ == pixel_at(self.bytes(), self.width as int, x as int, y as int),
    {
        rgba_get(&self.image, x, y)
    }

    /// All pixel bytes, row by row, four per pixel.
    pub fn raw_pixels(&self) -> (r: &Vec<u8>)
        ensures
            r@ == self.bytes(),
    {
        rgba_raw(&self.image)
    }
}

/// The four bytes of a pixel inside a `width` by `height` image lie inside
/// its buffer.
proof fn lemma_pixel_in_range(width: u32, height: u32, x: u32, y: u32)
    requires
        x < width,
        y < height,
    ensures
        4 * ((y as int) * (width as int) + (x as int)) + 4 <= 4 * (width as int) * (height as int),
{
    assert((y as int) * (width as int) + (x as int) + 1 <= (width as int) * (height as int))
        by (nonlinear_arith)
        requires
            x < width,
            y < height,
    ;
    assert(4 * (width as int) * (height as int) == 4 * ((width as int) * (height as int)))
        by (nonlinear_arith);
}

/// Packs three channels into one `0x00RRGGBB` word, as a window buffer takes
/// them.
pub fn pack_rgb(r: u8, g: u8, b: u8) -> (w: u32)
    ensures
        w == (r as int) * 65536 + (g as int) * 256 + (b as int),
{
    let w = ((r as u32) << 16u32) | ((g as u32) << 8u32) | (b as u32);
    assert(w == (r as u32) * 65536 + (g as u32) * 256 + (b as u32)) by (bit_vector)
        requires
            w == ((r as u32) << 16u32) | ((g as u32) << 8u32) | (b as u32),
            r < 256,
            g < 256,
            b < 256,
    ;
    w
}

} // verus!
