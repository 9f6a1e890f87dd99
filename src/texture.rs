use vstd::prelude::*;
use crate::image_buffer::{RgbBuffer, rgb_bytes, rgb_width, rgb_height, rgb_from_raw, rgb_get};

verus! {

/// The three bytes (red, green, blue) of texel `(i, j)` in a row-major RGB
/// buffer `width` texels wide.
pub open spec fn texel_at(bytes: Seq<u8>, width: int, i: int, j: int) -> Seq<u8> {
    bytes.subrange(3 * (j * width + i), 3 * (j * width + i) + 3)
}

/// A texture read from a decoded 8-bit RGB image.
pub struct ImageTexture {
    pub width: u32,
    pub height: u32,
    pub image: RgbBuffer,
}

impl ImageTexture {
    /// The texel bytes, row by row, three per texel.
    pub open spec fn texels(&self) -> Seq<u8> {
        rgb_bytes(self.image)
    }

    /// The image has the texture's size, at least one texel, and three bytes
    /// for each.
    pub open spec fn wf(&self) -> bool {
        &&& self.width > 0
        &&& self.height > 0
        &&& rgb_width(self.image) == self.width
        &&& rgb_height(self.image) == self.height
        &&& self.texels().len() >= 3 * (self.width as int) * (self.height as int)
    }

    /// A texture over the row-major RGB bytes `texels`; `None` unless the image
    /// has at least one texel and the buffer holds three bytes for each.
    pub fn from_rgb(width: u32, height: u32, texels: Vec<u8>) -> (r: Option<ImageTexture>)
        ensures
            r is Some <==> (width > 0 && height > 0 && 3 * (width as int) * (height as int)
                <= texels@.len()),
            r matches Some(t) ==> t.wf() && t.width == width && t.height == height && t.texels()
                == texels@,
    {
        if width == 0 || height == 0 {
            return None;
        }
        let n = texels.len();
        proof {
            assert(3 * (width as int) <= 3 * (width as int) * (height as int)) by (nonlinear_arith)
                requires
                    height > 0,
            ;
        }
        match rgb_from_raw(width, height, texels) {
            Some(image) => Some(ImageTexture { width, height, image }),
            None => None,
        }
    }

    /// The bytes of texel `(i, j)`, column `i` of row `j` counted from the top.
    pub fn texel(&self, i: u32, j: u32) -> (r: [u8; 3])
        requires
            self.wf(),
            i < self.width,
            j < self.height,
        ensures
            r@ == texel_at(self.texels(), self.width as int, i as int, j as int),
    {
        rgb_get(&self.image, i, j)
    }
}

/// Whether the checker cell with integer coordinates `(x, y, z)` is an even
/// one: whether the sum of its coordinates is even.
pub fn chess_cell_is_even(x: i64, y: i64, z: i64) -> (r: bool)
    ensures
        r == ((x as int + y as int + z as int) % 2 == 0),
{
    let sum: i128 = (x as i128) + (y as i128) + (z as i128);
    sum % 2 == 0
}

} // verus!
