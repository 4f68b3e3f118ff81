//! RGBA bitmaps with eight bits per channel, and their mathematical model.

use vstd::prelude::*;
use crate::geometry::product;

verus! {

/// Number of bytes that a `width` by `height` bitmap occupies: four for each
/// pixel, which are its red, green, blue and alpha values.
pub open spec fn buffer_len(width: nat, height: nat) -> nat {
    4 * (width * height)
}

/// What a bitmap is: its dimensions and its bytes, row by row from the top
/// left, four bytes per pixel.
pub struct BitmapView {
    pub width: nat,
    pub height: nat,
    pub pixels: Seq<u8>,
}

impl BitmapView {
    /// Number of pixels.
    pub open spec fn area(self) -> nat {
        self.width * self.height
    }

    /// The sides can be counted in 32 bits, and the buffer holds exactly the
    /// pixels that they span.
    pub open spec fn wf(self) -> bool {
        &&& self.width <= u32::MAX
        &&& self.height <= u32::MAX
        &&& self.pixels.len() == buffer_len(self.width, self.height)
    }
}

/// The fully transparent bitmap of the given dimensions.
pub open spec fn transparent_view(width: nat, height: nat) -> BitmapView {
    BitmapView { width, height, pixels: Seq::new(buffer_len(width, height), |i: int| 0u8) }
}

/// Whether a buffer for `width` by `height` pixels can be allocated at all:
/// no allocation holds more than `isize::MAX` bytes.
pub open spec fn fits_in_memory(width: nat, height: nat) -> bool {
    buffer_len(width, height) <= isize::MAX
}

/// An owned RGBA bitmap. Its buffer always holds exactly `4 * width * height`
/// bytes.
pub struct Bitmap {
    pub(crate) width: u32,
    pub(crate) height: u32,
    pub(crate) pixels: Vec<u8>,
}

impl View for Bitmap {
    type V = BitmapView;

    closed spec fn view(&self) -> BitmapView {
        BitmapView {
            width: self.width as nat,
            height: self.height as nat,
            pixels: self.pixels@,
        }
    }
}

impl Bitmap {
    /// What holds of every bitmap: its buffer holds exactly its pixels.
    #[verifier::type_invariant]
    pub open spec fn well_formed(&self) -> bool {
        self@.wf()
    }

    /// Builds a bitmap from its dimensions and its bytes. The buffer has to
    /// hold exactly `4 * width * height` bytes; any other length is refused.
    pub fn new(width: u32, height: u32, pixels: Vec<u8>) -> (r: Option<Bitmap>)
        ensures
            r is Some <==> pixels@.len() == buffer_len(width as nat, height as nat),
            r is Some ==> r->Some_0@ == (BitmapView {
                width: width as nat,
                height: height as nat,
                pixels: pixels@,
            }),
    {
        let area: u64 = product(width, height);
        let len: usize = pixels.len();
        if area > (u64::MAX / 4) || len as u64 != 4 * area {
            return None;
        }
        Some(Bitmap { width, height, pixels })
    }

    /// The fully transparent bitmap of the given dimensions.
    pub fn transparent(width: u32, height: u32) -> (r: Bitmap)
        requires
            fits_in_memory(width as nat, height as nat),
        ensures
            r@ == transparent_view(width as nat, height as nat),
    {
        let area: u64 = product(width, height);
        let len: usize = (4 * area) as usize;
        let pixels: Vec<u8> = vec![0u8; len];
        assert(pixels@ =~= transparent_view(width as nat, height as nat).pixels);
        Bitmap { width, height, pixels }
    }

    /// Width in pixels.
    pub fn width(&self) -> (w: u32)
        ensures
            w == self@.width,
    {
        self.width
    }

    /// Height in pixels.
    pub fn height(&self) -> (h: u32)
        ensures
            h == self@.height,
    {
        self.height
    }

    /// Width and height in pixels.
    pub fn dimensions(&self) -> (d: (u32, u32))
        ensures
            d.0 == self@.width,
            d.1 == self@.height,
    {
        (self.width, self.height)
    }

    /// Number of pixels.
    pub fn area(&self) -> (a: u64)
        ensures
            a == self@.area(),
    {
        product(self.width, self.height)
    }

    /// The bytes of the bitmap, row by row, four per pixel.
    pub fn as_raw(&self) -> (bytes: &Vec<u8>)
        ensures
            bytes@ == self@.pixels,
    {
        &self.pixels
    }

    /// Gives up the bitmap for its bytes.
    pub fn into_raw(self) -> (bytes: Vec<u8>)
        ensures
            bytes@ == self@.pixels,
    {
        self.pixels
    }
}

impl Clone for Bitmap {
    /// Copies the bitmap, byte by byte.
    fn clone(&self) -> (r: Bitmap)
        ensures
            r@ == self@,
    {
        proof {
            use_type_invariant(self);
        }
        let pixels: Vec<u8> = self.pixels.clone();
        assert(pixels@ =~= self.pixels@);
        Bitmap { width: self.width, height: self.height, pixels }
    }
}

} // verus!
