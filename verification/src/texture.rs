use crate::chunks::Ihdr;
use crate::decode::{decode_model, lemma_decode_whole_pixels, Png};
use crate::error::Error;
use vstd::prelude::*;

verus! {

/// A placement position a consumer may attach to a texture.
#[derive(Debug, Clone, Copy, PartialEq, Eq, Structural)]
pub struct Pos {
    pub x: usize,
    pub y: usize,
}

/// A decoded image ready for compositing: packed 32-bit pixels, row
/// major, with its dimensions and an optional placement position.
pub struct Texture {
    /// Pixels packed as `(A << 24) | (R << 16) | (G << 8) | B`.
    pub bitmap: Vec<u32>,
    pub width: usize,
    pub height: usize,
    pub pos: Pos,
}

/// One packed 32-bit pixel: alpha in the high byte, then red, green,
/// blue.
pub open spec fn pack_pixel(r: u8, g: u8, b: u8, a: u8) -> u32 {
    (a * 0x1000000 + r * 0x10000 + g * 0x100 + b) as u32
}

/// The packed pixels of a reconstructed byte buffer, 4 bytes per pixel
/// in (R, G, B, A) order.
pub open spec fn packed_pixels(bytes: Seq<u8>) -> Seq<u32> {
    Seq::new(
        bytes.len() / 4,
        |i: int| pack_pixel(bytes[4 * i], bytes[4 * i + 1], bytes[4 * i + 2], bytes[4 * i + 3]),
    )
}

impl Texture {
    /// The texture's pixel storage covers exactly its dimensions.
    pub open spec fn wf(self) -> bool {
        self.bitmap@.len() == self.width * self.height
    }

    /// Materializes a decoded image: reinterprets each 4-byte (R, G, B,
    /// A) group as one packed pixel, swapping the color bytes into
    /// (B, G, R) order below the untouched alpha. The byte buffer is
    /// consumed; its length must be a whole number of pixels.
    pub fn from_png(img: Png) -> (t: Texture)
        requires
            img.img_data@.len() % 4 == 0,
        ensures
            t.bitmap@ == packed_pixels(img.img_data@),
            t.width == img.header.width,
            t.height == img.header.height,
            t.pos == (Pos { x: 0, y: 0 }),
    {
        let bytes = img.img_data;
        let n = bytes.len() / 4;
        let mut bitmap: Vec<u32> = Vec::new();
        let mut i: usize = 0;
        while i < n
            invariant
                n == bytes@.len() / 4,
                bytes@.len() <= usize::MAX,
                i <= n,
                bitmap@ == packed_pixels(bytes@).subrange(0, i as int),
            decreases n - i,
        {
            let r = bytes[4 * i];
            let g = bytes[4 * i + 1];
            let b = bytes[4 * i + 2];
            let a = bytes[4 * i + 3];
            let px: u32 = (a as u32) * 0x1000000 + (r as u32) * 0x10000 + (g as u32) * 0x100 + (
            b as u32);
            bitmap.push(px);
            assert(bitmap@ == packed_pixels(bytes@).subrange(0, i + 1));
            i = i + 1;
        }
        assert(bitmap@ =~= packed_pixels(bytes@));
        Texture {
            bitmap,
            width: img.header.width as usize,
            height: img.header.height as usize,
            pos: Pos { x: 0, y: 0 },
        }
    }

    /// Decodes a whole PNG file and materializes it in one step: the
    /// texture a caller gets is exactly the packed form of what
    /// `decode_model` says the file holds, placed at the origin.
    pub fn decode(data: &Vec<u8>) -> (r: Result<Texture, Error>)
        ensures
            r matches Ok(t) ==> {
                &&& decode_model(data@) matches Ok(m)
                &&& t.bitmap@ == packed_pixels(m.1)
                &&& t.width == m.0.width
                &&& t.height == m.0.height
                &&& t.pos == (Pos { x: 0, y: 0 })
            },
            r matches Err(e) ==> decode_model(data@) == Err::<(Ihdr, Seq<u8>), Error>(e),
    {
        let png = match Png::decode(data) {
            Ok(p) => p,
            Err(e) => { return Err(e) },
        };
        proof {
            lemma_decode_whole_pixels(data@);
        }
        Ok(Texture::from_png(png))
    }

    /// The same texture, placed at the given position.
    pub fn with_pos(self, x: usize, y: usize) -> (r: Texture)
        ensures
            r.bitmap == self.bitmap,
            r.width == self.width,
            r.height == self.height,
            r.pos == (Pos { x, y }),
    {
        let mut t = self;
        t.pos.x = x;
        t.pos.y = y;
        t
    }
}

/// The textures the surrounding application loads at startup.
pub struct Textures {
    pub logo: Texture,
    pub motorcycle: Texture,
}

} // verus!
