//! The pixel work, which the `image` crate does: resampling, blurring, alpha
//! compositing and encoding. Verus takes the contracts in this file on trust.
//!
//! Each function here hands the bytes of a `Bitmap` to the crate as an image
//! buffer of the bitmap's dimensions. The crate accepts a buffer that holds at
//! least four bytes per pixel, and a `Bitmap` always holds exactly that many.

use vstd::prelude::*;
use crate::bitmap::{buffer_len, fits_in_memory, Bitmap, BitmapView};
use image::imageops;
use image::imageops::FilterType;
use image::{ImageBuffer, ImageError, ImageOutputFormat, Rgba};
use std::io::Cursor;

verus! {

/// The error type of the `image` crate.
#[verifier::external_type_specification]
#[verifier::external_body]
pub struct ExImageError(ImageError);

/// The resampling kernels that the `image` crate offers.
#[derive(Clone, Copy, Debug, PartialEq, Eq, Structural)]
pub enum Filter {
    /// The nearest pixel.
    Nearest,
    /// Linear interpolation.
    Triangle,
    /// The cubic Catmull-Rom spline.
    CatmullRom,
    /// A Gaussian of standard deviation one half.
    Gaussian,
    /// The Lanczos kernel with a window of three.
    Lanczos3,
}

/// The encodings in which a thumbnail can be delivered.
#[derive(Clone, Copy, Debug, PartialEq, Eq, Structural)]
pub enum OutputFormat {
    /// Lossless PNG.
    Png,
}

/// The bytes that `image::imageops::resize` produces from `source` for a
/// target of `width` by `height` pixels with the given kernel.
pub uninterp spec fn resampled(
    source: BitmapView,
    width: nat,
    height: nat,
    filter: Filter,
) -> Seq<u8>;

/// The bytes that `image::imageops::blur` produces from `source` for the
/// given standard deviation.
pub uninterp spec fn blurred(source: BitmapView, sigma: nat) -> Seq<u8>;

/// The bytes of `bottom` after `image::imageops::overlay` has drawn `top`
/// onto it with the top left corner of `top` at `(x, y)`.
pub uninterp spec fn overlaid(bottom: BitmapView, top: BitmapView, x: int, y: int) -> Seq<u8>;

/// The file that the `image` crate writes for `image` in the given format,
/// where it writes one.
pub uninterp spec fn encoded(image: BitmapView, format: OutputFormat) -> Seq<u8>;

/// `source` resampled to `width` by `height` pixels.
pub open spec fn resized(
    source: BitmapView,
    width: nat,
    height: nat,
    filter: Filter,
) -> BitmapView {
    BitmapView { width, height, pixels: resampled(source, width, height, filter) }
}

/// `source` after a Gaussian blur of the given standard deviation.
pub open spec fn blur_view(source: BitmapView, sigma: nat) -> BitmapView {
    BitmapView { width: source.width, height: source.height, pixels: blurred(source, sigma) }
}

/// `bottom` with `top` drawn over it at `(x, y)`.
pub open spec fn overlay_view(bottom: BitmapView, top: BitmapView, x: int, y: int) -> BitmapView {
    BitmapView { width: bottom.width, height: bottom.height, pixels: overlaid(bottom, top, x, y) }
}

/// Whether the byte at position `i` of a bitmap that is `width` pixels wide
/// belongs to a pixel of the rectangle of `rect_width` by `rect_height`
/// pixels whose top left corner is at `(x, y)`.
pub open spec fn in_rect(
    width: nat,
    x: int,
    y: int,
    rect_width: nat,
    rect_height: nat,
    i: int,
) -> bool {
    let column = (i / 4) % (width as int);
    let row = (i / 4) / (width as int);
    x <= column < x + rect_width && y <= row < y + rect_height
}

/// The alpha value of the pixel that the byte at position `i` belongs to:
/// 0 where the pixel is transparent, 255 where it is opaque.
pub open spec fn alpha_at(pixels: Seq<u8>, i: int) -> u8 {
    pixels[4 * (i / 4) + 3]
}

/// Position in the bitmap on top of the byte that lies on the byte at
/// position `i` of the bitmap below, where the one on top is `top_width`
/// pixels wide and drawn with its top left corner at `(x, y)`: the same
/// channel of the pixel that is `x` columns and `y` rows nearer to the corner.
pub open spec fn byte_above(bottom_width: nat, top_width: nat, x: int, y: int, i: int) -> int {
    let column = (i / 4) % (bottom_width as int);
    let row = (i / 4) / (bottom_width as int);
    4 * ((row - y) * top_width + (column - x)) + i % 4
}

/// Whether the byte at position `i` of a canvas that is `width` pixels wide
/// lies under a pixel of `top`, drawn with its top left corner at `(x, y)`.
pub open spec fn under(width: nat, top: BitmapView, x: int, y: int, i: int) -> bool {
    in_rect(width, x, y, top.width, top.height, i)
}

/// The alpha value of the pixel of `top` that lies on the byte at position
/// `i` of the canvas.
pub open spec fn alpha_above(width: nat, top: BitmapView, x: int, y: int, i: int) -> u8 {
    alpha_at(top.pixels, byte_above(width, top.width, x, y, i))
}

/// The byte of `top` that lies on the byte at position `i` of the canvas.
pub open spec fn value_above(width: nat, top: BitmapView, x: int, y: int, i: int) -> u8 {
    top.pixels[byte_above(width, top.width, x, y, i)]
}

/// Whether the byte at position `i` of `after` is what drawing `top` at
/// `(x, y)` makes of the byte of `before`, as far as that is certain: the byte
/// of `top` where the pixel of `top` is opaque, and the byte of `before`
/// where the pixel of `top` is transparent.
pub open spec fn drawn_over(
    before: BitmapView,
    after: BitmapView,
    top: BitmapView,
    x: int,
    y: int,
    i: int,
) -> bool {
    &&& alpha_above(before.width, top, x, y, i) == 255 ==> after.pixels[i] == value_above(
        before.width,
        top,
        x,
        y,
        i,
    )
    &&& alpha_above(before.width, top, x, y, i) == 0 ==> after.pixels[i] == before.pixels[i]
}

/// Where a bitmap is drawn corner on corner onto one of its own size, every
/// byte lies under the byte of the same position.
pub proof fn lemma_bytes_corner_on_corner(width: nat, height: nat, i: int)
    requires
        0 <= i < buffer_len(width, height),
    ensures
        in_rect(width, 0, 0, width, height, i),
        byte_above(width, width, 0, 0, i) == i,
{
    let pixel = i / 4;
    let w = width as int;
    assert(w > 0 && pixel < w * height) by (nonlinear_arith)
        requires
            0 <= i < 4 * (width * height),
            pixel == i / 4,
            w == width,
    ;
    let row = pixel / w;
    let column = pixel % w;
    assert(pixel == row * w + column && 0 <= column < w && 0 <= row < height) by (nonlinear_arith)
        requires
            0 <= pixel < w * height,
            w > 0,
            row == pixel / w,
            column == pixel % w,
    ;
}

/// Whether the buffer of floating-point samples that resampling works in can
/// be allocated for `width` by `height` pixels: it takes four times the bytes
/// of the bitmap itself.
pub open spec fn samples_fit(width: nat, height: nat) -> bool {
    4 * buffer_len(width, height) <= isize::MAX
}

/// Whether a bitmap of `source_width` by `source_height` pixels can be
/// resampled to `width` by `height` pixels within the limits of memory. A
/// target of the source's own size is a plain copy; any other passes through
/// samples of the source's width and the target's height.
pub open spec fn resize_fits(
    source_width: nat,
    source_height: nat,
    width: nat,
    height: nat,
) -> bool {
    &&& fits_in_memory(width, height)
    &&& (width != source_width || height != source_height) ==> samples_fit(source_width, height)
}

/// Calls `image::imageops::resize`. The result has the requested size; it is
/// the source itself where the size does not change, since the crate then
/// copies instead of resampling. The crate allocates the result and, unless
/// it copies, floating-point samples of the source's width and the target's
/// height: `resize_fits` keeps both within what can be allocated.
#[verifier::external_body]
pub(crate) fn resize_exact(
    source: &Bitmap,
    width: u32,
    height: u32,
    filter: Filter,
) -> (r: Bitmap)
    requires
        resize_fits(source@.width, source@.height, width as nat, height as nat),
    ensures
        r@.width == width,
        r@.height == height,
        r@.pixels == resampled(source@, width as nat, height as nat, filter),
        r@.wf(),
        width == source@.width && height == source@.height ==> r@ == source@,
{
    let bytes = source.pixels.as_slice();
    let view = ImageBuffer::<Rgba<u8>, _>::from_raw(source.width, source.height, bytes).unwrap();
    let kernel = match filter {
        Filter::Nearest => FilterType::Nearest,
        Filter::Triangle => FilterType::Triangle,
        Filter::CatmullRom => FilterType::CatmullRom,
        Filter::Gaussian => FilterType::Gaussian,
        Filter::Lanczos3 => FilterType::Lanczos3,
    };
    Bitmap { width, height, pixels: imageops::resize(&view, width, height, kernel).into_raw() }
}

/// Calls `image::imageops::blur` with `sigma` as the standard deviation. The
/// result has the size of the source. The crate allocates it and
/// floating-point samples of the same size, which `samples_fit` allows for.
#[verifier::external_body]
pub(crate) fn blur(source: &Bitmap, sigma: u16) -> (r: Bitmap)
    requires
        samples_fit(source@.width, source@.height),
    ensures
        r@.width == source@.width,
        r@.height == source@.height,
        r@.pixels == blurred(source@, sigma as nat),
        r@.wf(),
{
    let bytes = source.pixels.as_slice();
    let view = ImageBuffer::<Rgba<u8>, _>::from_raw(source.width, source.height, bytes).unwrap();
    let pixels = imageops::blur(&view, sigma.into()).into_raw();
    Bitmap { width: source.width, height: source.height, pixels }
}

/// Calls `image::imageops::overlay`, which blends the part of `top` that
/// lies on `bottom` into it, pixel by pixel, and leaves the size of `bottom`
/// as it is. What of `top` lies beyond the edges of `bottom` is left out, and
/// no pixel of `bottom` changes but those under `top`. The crate's blending
/// puts an opaque pixel of `top` in the place of the one below it and leaves
/// the one below a transparent pixel as it is.
#[verifier::external_body]
pub(crate) fn overlay(bottom: &mut Bitmap, top: &Bitmap, x: u32, y: u32)
    ensures
        final(bottom)@.width == old(bottom)@.width,
        final(bottom)@.height == old(bottom)@.height,
        final(bottom)@.pixels == overlaid(old(bottom)@, top@, x as int, y as int),
        final(bottom)@.wf(),
        forall|i: int|
            0 <= i < old(bottom)@.pixels.len() && !under(
                old(bottom)@.width,
                top@,
                x as int,
                y as int,
                i,
            ) ==> #[trigger] final(bottom)@.pixels[i] == old(bottom)@.pixels[i],
        forall|i: int|
            0 <= i < old(bottom)@.pixels.len() && under(
                old(bottom)@.width,
                top@,
                x as int,
                y as int,
                i,
            ) && alpha_above(old(bottom)@.width, top@, x as int, y as int, i) == 255
                ==> #[trigger] final(bottom)@.pixels[i] == value_above(
                old(bottom)@.width,
                top@,
                x as int,
                y as int,
                i,
            ),
        forall|i: int|
            0 <= i < old(bottom)@.pixels.len() && under(
                old(bottom)@.width,
                top@,
                x as int,
                y as int,
                i,
            ) && alpha_above(old(bottom)@.width, top@, x as int, y as int, i) == 0
                ==> #[trigger] final(bottom)@.pixels[i] == old(bottom)@.pixels[i],
{
    let (width, height) = (bottom.width, bottom.height);
    let bytes = bottom.pixels.as_mut_slice();
    let mut canvas = ImageBuffer::<Rgba<u8>, _>::from_raw(width, height, bytes).unwrap();
    let bytes = top.pixels.as_slice();
    let view = ImageBuffer::<Rgba<u8>, _>::from_raw(top.width, top.height, bytes).unwrap();
    imageops::overlay(&mut canvas, &view, x.into(), y.into());
}

/// Calls `ImageBuffer::write_to` with a buffer in memory as the writer. The
/// crate's PNG encoder refuses an image without width or without height;
/// nothing else can fail it, since the buffer has the length that the sides
/// call for and writing to memory meets no error. Where it succeeds, the
/// result holds the file it wrote. Nothing is claimed of the error.
#[verifier::external_body]
pub(crate) fn encode(image: &Bitmap, format: OutputFormat) -> (r: Result<Vec<u8>, ImageError>)
    ensures
        image@.width > 0 && image@.height > 0 ==> r is Ok,
        image@.width == 0 || image@.height == 0 ==> r is Err,
        r is Ok ==> r->Ok_0@ == encoded(image@, format),
{
    let bytes = image.pixels.as_slice();
    let view = ImageBuffer::<Rgba<u8>, _>::from_raw(image.width, image.height, bytes).unwrap();
    let target = match format {
        OutputFormat::Png => ImageOutputFormat::Png,
    };
    let mut file = Cursor::new(Vec::new());
    view.write_to(&mut file, target)?;
    Ok(file.into_inner())
}

} // verus!
