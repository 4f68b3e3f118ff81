//! Combining images into one thumbnail: the common scale, the layout for
//! each number of images, and the sharp layer over the blurred one.

use vstd::prelude::*;
use crate::bitmap::{fits_in_memory, transparent_view, Bitmap, BitmapView};
use crate::geometry::{
    centering_offset, is_last_largest, lemma_last_largest_is_unique,
    lemma_reference_is_last_largest, letterbox_dimensions, letterbox_offset, letterbox_size,
    placement, reference_index, total_size,
};
use crate::raster::{
    alpha_above, alpha_at, blur, blur_view, drawn_over, encode, encoded, in_rect,
    lemma_bytes_corner_on_corner, overlay, overlay_view, resize_exact, resize_fits, resized,
    samples_fit, under, value_above, Filter, OutputFormat,
};
use image::ImageError;
use rayon::prelude::{IntoParallelRefIterator, ParallelIterator};

verus! {

/// Why no thumbnail could be made.
#[derive(Debug)]
pub enum ProcessingError {
    /// There is no image to combine.
    EmptyImageArray,
    /// There are more than four images.
    TooManyImages,
    /// No image has the most pixels, since there is none.
    CouldNotFindMostPixels,
    /// The finished canvas could not be encoded.
    ImageError(ImageError),
}

impl From<ImageError> for ProcessingError {
    fn from(error: ImageError) -> (r: ProcessingError) {
        ProcessingError::ImageError(error)
    }
}

impl vstd::std_specs::convert::FromSpecImpl<ImageError> for ProcessingError {
    open spec fn obeys_from_spec() -> bool {
        true
    }

    open spec fn from_spec(error: ImageError) -> ProcessingError {
        ProcessingError::ImageError(error)
    }
}

/// Standard deviation of the blur that the background layer gets.
pub const BACKGROUND_BLUR: u16 = 50;

/// The models of the given bitmaps, in their order.
pub open spec fn views(images: Seq<Bitmap>) -> Seq<BitmapView> {
    Seq::new(images.len(), |i: int| images[i]@)
}

/// An encoded thumbnail together with the format it is encoded in.
pub struct CombinedThumbnail {
    inner: Vec<u8>,
    format: OutputFormat,
}

impl View for CombinedThumbnail {
    type V = Seq<u8>;

    closed spec fn view(&self) -> Seq<u8> {
        self.inner@
    }
}

impl CombinedThumbnail {
    /// The format that the bytes are encoded in.
    pub closed spec fn spec_format(&self) -> OutputFormat {
        self.format
    }

    /// Encodes `image` in the given format. That succeeds exactly where the
    /// image has pixels: the encoder refuses one without width or without
    /// height. The thumbnail then holds the encoder's bytes.
    pub fn new(image: Bitmap, format: OutputFormat) -> (r: Result<CombinedThumbnail, ImageError>)
        ensures
            r is Ok <==> image@.width > 0 && image@.height > 0,
            r is Ok ==> r->Ok_0@ == encoded(image@, format) && r->Ok_0.spec_format() == format,
    {
        let written = encode(&image, format);
        CombinedThumbnail::from_encoding(written, format)
    }

    /// Wraps what the encoder returned: its bytes become the thumbnail, its
    /// error is handed on.
    pub fn from_encoding(
        written: Result<Vec<u8>, ImageError>,
        format: OutputFormat,
    ) -> (r: Result<CombinedThumbnail, ImageError>)
        ensures
            written is Ok ==> r is Ok && r->Ok_0@ == written->Ok_0@ && r->Ok_0.spec_format()
                == format,
            written is Err ==> r is Err && r->Err_0 == written->Err_0,
    {
        match written {
            Ok(inner) => Ok(CombinedThumbnail { inner, format }),
            Err(error) => Err(error),
        }
    }

    /// The encoded bytes.
    pub fn to_bytes(&self) -> (bytes: &[u8])
        ensures
            bytes@ == self@,
    {
        self.inner.as_slice()
    }

    /// The format that the bytes are encoded in.
    pub fn format(&self) -> (format: OutputFormat)
        ensures
            format == self.spec_format(),
    {
        self.format
    }
}

/// Whether `found` is the image at the last index at which the largest area
/// occurs among `images`.
pub open spec fn is_last_largest_of(images: Seq<Bitmap>, found: Bitmap) -> bool {
    exists|k: int| is_last_largest(views(images), k) && found == images[k]
}

/// Calls rayon's `max_by_key` over the images with their pixel counts as
/// keys. Rayon reduces neighbours in their order and keeps the right one of
/// two unless the left one is strictly greater, so of several largest images
/// the last is returned, and nothing only where there is no image.
#[verifier::external_body]
pub(crate) fn last_largest(images: &[Bitmap]) -> (r: Option<&Bitmap>)
    ensures
        images@.len() == 0 ==> r is None,
        images@.len() > 0 ==> r is Some && is_last_largest_of(images@, *r->Some_0),
{
    images.par_iter().max_by_key(|image| image.area())
}

/// Finds the reference image: the one with the most pixels, the last of
/// them where several have as many.
pub fn find_img_with_most_pixels(images: &[Bitmap]) -> (r: Result<&Bitmap, ProcessingError>)
    ensures
        images@.len() == 0 ==> r == Err::<&Bitmap, ProcessingError>(
            ProcessingError::CouldNotFindMostPixels,
        ),
        images@.len() > 0 ==> r == Ok::<&Bitmap, ProcessingError>(
            &images@[reference_index(views(images@))],
        ),
{
    let found = last_largest(images);
    proof {
        if images@.len() > 0 {
            let k = choose|k: int|
                is_last_largest(views(images@), k) && *found->Some_0 == images@[k];
            lemma_reference_is_last_largest(views(images@));
            lemma_last_largest_is_unique(views(images@), k, reference_index(views(images@)));
        }
    }
    match found {
        Some(image) => Ok(image),
        None => Err(ProcessingError::CouldNotFindMostPixels),
    }
}

/// Whether the sides of the canvas for these images can be counted in 32
/// bits, where they are twice those of the reference image.
pub open spec fn sizes_fit(images: Seq<BitmapView>) -> bool {
    let top = images[reference_index(images)];
    &&& images.len() >= 2 ==> 2 * top.width <= u32::MAX
    &&& images.len() >= 3 ==> 2 * top.height <= u32::MAX
}

/// Computes the size of the canvas: that of the reference image for one
/// image, twice as wide for two, twice as wide and twice as high for more.
pub fn get_total_img_size(images: &[Bitmap]) -> (r: Result<(u32, u32), ProcessingError>)
    requires
        sizes_fit(views(images@)),
    ensures
        images@.len() == 0 ==> r == Err::<(u32, u32), ProcessingError>(
            ProcessingError::CouldNotFindMostPixels,
        ),
        images@.len() > 0 ==> r is Ok && (r->Ok_0.0 as nat, r->Ok_0.1 as nat) == total_size(
            views(images@),
        ),
{
    let max_image = match find_img_with_most_pixels(images) {
        Ok(image) => image,
        Err(error) => {
            return Err(error);
        },
    };
    let (width, height) = max_image.dimensions();
    proof {
        lemma_reference_is_last_largest(views(images@));
    }
    let size = match images.len() {
        1 => (width, height),
        2 => (width * 2, height),
        _ => (width * 2, height * 2),
    };
    Ok(size)
}

/// What scaling makes of `source` for a target of `target_width` by
/// `target_height` pixels. With `pad`, the source keeps its aspect ratio: it
/// is resampled with the Lanczos kernel to the largest size that fits and
/// drawn in the middle of a transparent bitmap of the target size. Without,
/// it is resampled with the Gaussian kernel to the target size itself.
pub open spec fn scaled(
    source: BitmapView,
    target_width: nat,
    target_height: nat,
    pad: bool,
) -> BitmapView {
    if pad {
        let size = letterbox_size(source.width, source.height, target_width, target_height);
        let offset = letterbox_offset(source.width, source.height, target_width, target_height);
        overlay_view(
            transparent_view(target_width, target_height),
            resized(source, size.0, size.1, Filter::Lanczos3),
            offset.0 as int,
            offset.1 as int,
        )
    } else {
        resized(source, target_width, target_height, Filter::Gaussian)
    }
}

/// Whether the byte at position `i` of the padded scaling of `source`
/// belongs to a pixel of the rectangle in the middle of the target that the
/// resampled source is drawn to.
pub open spec fn in_padded_rect(
    source: BitmapView,
    target_width: nat,
    target_height: nat,
    i: int,
) -> bool {
    let size = letterbox_size(source.width, source.height, target_width, target_height);
    let offset = letterbox_offset(source.width, source.height, target_width, target_height);
    in_rect(target_width, offset.0 as int, offset.1 as int, size.0, size.1, i)
}

/// The source as it is resampled for padded scaling: to the largest size of
/// its aspect ratio that fits into the target.
pub open spec fn padded_source(
    source: BitmapView,
    target_width: nat,
    target_height: nat,
) -> BitmapView {
    let size = letterbox_size(source.width, source.height, target_width, target_height);
    resized(source, size.0, size.1, Filter::Lanczos3)
}

/// Where the top left corner of the resampled source lies in the target.
pub open spec fn padded_corner(
    source: BitmapView,
    target_width: nat,
    target_height: nat,
) -> (int, int) {
    let offset = letterbox_offset(source.width, source.height, target_width, target_height);
    (offset.0 as int, offset.1 as int)
}

/// Whether a bitmap of `width` by `height` pixels can be scaled to the
/// target within the limits of memory.
pub open spec fn scale_fits(
    width: nat,
    height: nat,
    target_width: nat,
    target_height: nat,
    pad: bool,
) -> bool {
    if pad {
        let size = letterbox_size(width, height, target_width, target_height);
        fits_in_memory(target_width, target_height) && resize_fits(width, height, size.0, size.1)
    } else {
        resize_fits(width, height, target_width, target_height)
    }
}

/// Scales an image to exactly `target_width` by `target_height` pixels,
/// padded with transparency where `pad` is set and stretched where not. An
/// image that is stretched to its own size stays as it is, and so does every
/// opaque pixel of one that is padded to its own size. Of a padded image
/// every pixel outside the rectangle in the middle is transparent black;
/// inside it the image shows the resampled source where that is opaque and
/// is transparent black where that is transparent. Where the source already
/// has the size that fits, it is drawn as it is.
pub fn scale_image_iterable(
    image: &Bitmap,
    target_width: u32,
    target_height: u32,
    pad: bool,
) -> (r: Bitmap)
    requires
        scale_fits(image@.width, image@.height, target_width as nat, target_height as nat, pad),
    ensures
        r@ == scaled(image@, target_width as nat, target_height as nat, pad),
        r@.width == target_width,
        r@.height == target_height,
        r@.wf(),
        !pad && target_width == image@.width && target_height == image@.height ==> r@ == image@,
        pad ==> forall|i: int|
            0 <= i < r@.pixels.len() && !in_padded_rect(
                image@,
                target_width as nat,
                target_height as nat,
                i,
            ) ==> #[trigger] r@.pixels[i] == 0,
        pad && target_width == image@.width && target_height == image@.height ==> forall|i: int|
            0 <= i < r@.pixels.len() && alpha_at(image@.pixels, i) == 255
                ==> #[trigger] r@.pixels[i] == image@.pixels[i],
        pad && letterbox_size(
            image@.width,
            image@.height,
            target_width as nat,
            target_height as nat,
        ) == (image@.width, image@.height) ==> r@ == overlay_view(
            transparent_view(target_width as nat, target_height as nat),
            image@,
            padded_corner(image@, target_width as nat, target_height as nat).0,
            padded_corner(image@, target_width as nat, target_height as nat).1,
        ) && padded_source(image@, target_width as nat, target_height as nat) == image@,
        pad ==> forall|i: int|
            0 <= i < r@.pixels.len() && #[trigger] in_padded_rect(
                image@,
                target_width as nat,
                target_height as nat,
                i,
            ) ==> shows(
                r@,
                target_width as nat,
                padded_source(image@, target_width as nat, target_height as nat),
                padded_corner(image@, target_width as nat, target_height as nat),
                i,
            ),
{
    if pad {
        let (width, height) = image.dimensions();
        let (new_width, new_height) = letterbox_dimensions(
            width,
            height,
            target_width,
            target_height,
        );
        let resized = resize_exact(image, new_width, new_height, Filter::Lanczos3);
        let (x, y) = centering_offset((new_width, new_height), target_width, target_height);
        let mut new_img = Bitmap::transparent(target_width, target_height);
        overlay(&mut new_img, &resized, x, y);
        proof {
            if target_width == width && target_height == height && height > 0 {
                assert((height as nat * width as nat) / (height as nat) == width as nat)
                    by (nonlinear_arith)
                    requires
                        height > 0,
                ;
                assert forall|i: int|
                    0 <= i < new_img@.pixels.len() && alpha_at(image@.pixels, i)
                        == 255 implies #[trigger] new_img@.pixels[i] == image@.pixels[i] by {
                    lemma_bytes_corner_on_corner(width as nat, height as nat, i);
                }
            }
        }
        new_img
    } else {
        resize_exact(image, target_width, target_height, Filter::Gaussian)
    }
}

/// Calls rayon's `map` and `collect` over the images, which hand back the
/// results of `scale_image_iterable` in the order of the images.
#[verifier::external_body]
pub(crate) fn scale_all_images_to_same_size(
    image_array: &[Bitmap],
    target_width: u32,
    target_height: u32,
    pad: bool,
) -> (r: Vec<Bitmap>)
    requires
        forall|i: int|
            0 <= i < image_array@.len() ==> scale_fits(
                (#[trigger] image_array@[i])@.width,
                image_array@[i]@.height,
                target_width as nat,
                target_height as nat,
                pad,
            ),
    ensures
        r@.len() == image_array@.len(),
        forall|i: int|
            0 <= i < r@.len() ==> (#[trigger] r@[i])@ == scaled(
                image_array@[i]@,
                target_width as nat,
                target_height as nat,
                pad,
            ),
{
    image_array
        .par_iter()
        .map(|image| scale_image_iterable(image, target_width, target_height, pad))
        .collect()
}

/// Sum of the widths of the given images.
pub open spec fn row_width(images: Seq<BitmapView>) -> nat
    decreases images.len(),
{
    if images.len() == 0 {
        0
    } else {
        row_width(images.drop_last()) + images.last().width
    }
}

/// `canvas` after the images have been drawn onto it side by side from the
/// left edge, in their order, with their top edges at height `y`: each image
/// starts where the one before it ends.
pub open spec fn placed_row(canvas: BitmapView, images: Seq<BitmapView>, y: int) -> BitmapView
    decreases images.len(),
{
    if images.len() == 0 {
        canvas
    } else {
        overlay_view(
            placed_row(canvas, images.drop_last(), y),
            images.last(),
            row_width(images.drop_last()) as int,
            y,
        )
    }
}

/// Whether the byte at position `i` of a canvas that is `width` pixels wide
/// belongs to a pixel under one of the images of a row drawn with its top
/// edge at height `y`.
pub open spec fn in_row(width: nat, images: Seq<BitmapView>, y: int, i: int) -> bool
    decreases images.len(),
{
    if images.len() == 0 {
        false
    } else {
        in_row(width, images.drop_last(), y, i) || in_rect(
            width,
            row_width(images.drop_last()) as int,
            y,
            images.last().width,
            images.last().height,
            i,
        )
    }
}

/// Where the image at position `j` of a row starts: as far from the left
/// edge as the images before it are wide together.
pub open spec fn row_start(images: Seq<BitmapView>, j: int) -> nat {
    row_width(images.subrange(0, j))
}

/// An image of a row ends no further right than any later one starts.
pub proof fn lemma_row_start(images: Seq<BitmapView>, j: int, n: int)
    requires
        0 <= j < n <= images.len(),
    ensures
        row_start(images, j) + images[j].width <= row_start(images, n),
{
    let upto = images.subrange(0, j + 1);
    assert(upto.drop_last() =~= images.subrange(0, j));
    assert(upto.last() == images[j]);
    lemma_row_width_of_prefix(images.subrange(0, n), j + 1);
    assert(images.subrange(0, n).subrange(0, j + 1) =~= upto);
}

/// What lies under a row lies to the left of its end.
pub proof fn lemma_in_row_left_of_end(width: nat, images: Seq<BitmapView>, y: int, i: int)
    requires
        in_row(width, images, y, i),
    ensures
        (i / 4) % (width as int) < row_width(images),
    decreases images.len(),
{
    if images.len() > 0 && in_row(width, images.drop_last(), y, i) {
        lemma_in_row_left_of_end(width, images.drop_last(), y, i);
    }
}

/// Drawing a row changes the pixels of a canvas, never its size.
pub proof fn lemma_placed_row_keeps_size(canvas: BitmapView, images: Seq<BitmapView>, y: int)
    ensures
        placed_row(canvas, images, y).width == canvas.width,
        placed_row(canvas, images, y).height == canvas.height,
    decreases images.len(),
{
    if images.len() > 0 {
        lemma_placed_row_keeps_size(canvas, images.drop_last(), y);
    }
}

/// The width of a row grows with every image added to it.
pub proof fn lemma_row_width_of_prefix(images: Seq<BitmapView>, n: int)
    requires
        0 <= n <= images.len(),
    ensures
        row_width(images.subrange(0, n)) <= row_width(images),
    decreases images.len(),
{
    if n == images.len() {
        assert(images.subrange(0, n) =~= images);
    } else {
        lemma_row_width_of_prefix(images.drop_last(), n);
        assert(images.drop_last().subrange(0, n) =~= images.subrange(0, n));
    }
}

/// Draws the images onto `new_image` side by side from the left edge, with
/// their top edges `y_offset` pixels below the top of the canvas. The canvas
/// keeps its size, and every pixel that lies under none of the images keeps
/// its value. Under an opaque pixel of an image the canvas takes that pixel,
/// and under a transparent one it keeps its own.
pub fn layout_horizontal(new_image: &mut Bitmap, images: &[Bitmap], y_offset: u32)
    requires
        row_width(views(images@)) <= u32::MAX,
    ensures
        final(new_image)@ == placed_row(old(new_image)@, views(images@), y_offset as int),
        final(new_image)@.width == old(new_image)@.width,
        final(new_image)@.height == old(new_image)@.height,
        forall|i: int|
            0 <= i < old(new_image)@.pixels.len() && !in_row(
                old(new_image)@.width,
                views(images@),
                y_offset as int,
                i,
            ) ==> #[trigger] final(new_image)@.pixels[i] == old(new_image)@.pixels[i],
        forall|j: int, i: int|
            0 <= j < images@.len() && 0 <= i < old(new_image)@.pixels.len() && #[trigger] under(
                old(new_image)@.width,
                views(images@)[j],
                row_start(views(images@), j) as int,
                y_offset as int,
                i,
            ) ==> drawn_over(
                old(new_image)@,
                final(new_image)@,
                views(images@)[j],
                row_start(views(images@), j) as int,
                y_offset as int,
                i,
            ),
{
    proof {
        use_type_invariant(&*new_image);
    }
    let ghost canvas = new_image@;
    let ghost row = views(images@);
    let mut x_offset: u32 = 0;
    let mut i: usize = 0;
    while i < images.len()
        invariant
            i <= images.len(),
            row == views(images@),
            row_width(row) <= u32::MAX,
            x_offset == row_width(row.subrange(0, i as int)),
            new_image@ == placed_row(canvas, row.subrange(0, i as int), y_offset as int),
            new_image@.width == canvas.width,
            new_image@.height == canvas.height,
            new_image@.wf(),
            canvas.wf(),
            forall|k: int|
                0 <= k < canvas.pixels.len() && !in_row(
                    canvas.width,
                    row.subrange(0, i as int),
                    y_offset as int,
                    k,
                ) ==> #[trigger] new_image@.pixels[k] == canvas.pixels[k],
            forall|j: int, k: int|
                0 <= j < i && 0 <= k < canvas.pixels.len() && #[trigger] under(
                    canvas.width,
                    row[j],
                    row_start(row, j) as int,
                    y_offset as int,
                    k,
                ) ==> drawn_over(
                    canvas,
                    new_image@,
                    row[j],
                    row_start(row, j) as int,
                    y_offset as int,
                    k,
                ),
        decreases images.len() - i,
    {
        proof {
            lemma_row_width_of_prefix(row, i + 1);
            assert(row.subrange(0, i + 1).drop_last() =~= row.subrange(0, i as int));
            assert(row.subrange(0, i + 1).last() == images@[i as int]@);
        }
        let image = &images[i];
        let ghost before = new_image@;
        overlay(new_image, image, x_offset, y_offset);
        proof {
            assert forall|k: int|
                0 <= k < canvas.pixels.len() && !in_row(
                    canvas.width,
                    row.subrange(0, i + 1),
                    y_offset as int,
                    k,
                ) implies #[trigger] new_image@.pixels[k] == canvas.pixels[k] by {
                assert(new_image@.pixels[k] == before.pixels[k]);
            }
            assert forall|j: int, k: int|
                0 <= j < i + 1 && 0 <= k < canvas.pixels.len() && #[trigger] under(
                    canvas.width,
                    row[j],
                    row_start(row, j) as int,
                    y_offset as int,
                    k,
                ) implies drawn_over(
                canvas,
                new_image@,
                row[j],
                row_start(row, j) as int,
                y_offset as int,
                k,
            ) by {
                if j < i {
                    lemma_row_start(row, j, i as int);
                    assert(!under(canvas.width, image@, x_offset as int, y_offset as int, k));
                    assert(new_image@.pixels[k] == before.pixels[k]);
                } else {
                    assert(row[j] == image@);
                    if in_row(canvas.width, row.subrange(0, i as int), y_offset as int, k) {
                        lemma_in_row_left_of_end(
                            canvas.width,
                            row.subrange(0, i as int),
                            y_offset as int,
                            k,
                        );
                    }
                    assert(before.pixels[k] == canvas.pixels[k]);
                }
            }
        }
        x_offset += image.width();
        i += 1;
    }
    proof {
        assert(row.subrange(0, i as int) =~= row);
    }
}

/// What scaling makes of each of the images, in their order.
pub open spec fn scaled_all(
    images: Seq<BitmapView>,
    target_width: nat,
    target_height: nat,
    pad: bool,
) -> Seq<BitmapView> {
    Seq::new(images.len(), |i: int| scaled(images[i], target_width, target_height, pad))
}

/// The arrangement of one to four images on a canvas of `total_width` by
/// `total_height` pixels.
///
/// A single image is the arrangement itself. Otherwise every image is scaled
/// to the size of the reference image and drawn onto a transparent canvas:
/// the first two side by side along the top, and below them, at the height
/// of the reference image, either the last two side by side or, of three
/// images, the third one scaled once more to the full width of the canvas.
pub open spec fn combined(
    images: Seq<BitmapView>,
    total_width: nat,
    total_height: nat,
    pad: bool,
) -> BitmapView {
    if images.len() == 1 {
        images[0]
    } else {
        let top = images[reference_index(images)];
        let all = scaled_all(images, top.width, top.height, pad);
        let canvas = transparent_view(total_width, total_height);
        let first_row = placed_row(canvas, all.subrange(0, 2), 0);
        if images.len() == 2 {
            first_row
        } else if images.len() == 3 {
            let last = scaled_all(all.subrange(2, 3), total_width, top.height, pad);
            placed_row(first_row, last, top.height as int)
        } else {
            placed_row(first_row, all.subrange(2, 4), top.height as int)
        }
    }
}

/// Whether two to four images can be combined on a canvas of the given size
/// within the limits of memory and of 32-bit coordinates.
pub open spec fn combine_fits(
    images: Seq<BitmapView>,
    total_width: nat,
    total_height: nat,
    pad: bool,
) -> bool {
    let top = images[reference_index(images)];
    &&& fits_in_memory(total_width, total_height)
    &&& 2 * top.width <= u32::MAX
    &&& forall|i: int|
        0 <= i < images.len() ==> scale_fits(
            (#[trigger] images[i]).width,
            images[i].height,
            top.width,
            top.height,
            pad,
        )
    &&& images.len() == 3 ==> scale_fits(
        top.width,
        top.height,
        total_width,
        top.height,
        pad,
    )
}

/// Whether the byte at position `i` of a canvas that is `total_width` pixels
/// wide belongs to a pixel under one of the pieces that are drawn for `count`
/// images whose reference image measures `ref_width` by `ref_height`: two
/// pieces of that size side by side along the top and, below them, two more
/// for four images or, for three, one piece as wide as the canvas.
pub open spec fn in_layout(
    count: nat,
    total_width: nat,
    ref_width: nat,
    ref_height: nat,
    i: int,
) -> bool {
    ||| in_rect(total_width, 0, 0, ref_width, ref_height, i)
    ||| in_rect(total_width, ref_width as int, 0, ref_width, ref_height, i)
    ||| count == 3 && in_rect(total_width, 0, ref_height as int, total_width, ref_height, i)
    ||| count == 4 && in_rect(total_width, 0, ref_height as int, ref_width, ref_height, i)
    ||| count == 4 && in_rect(
        total_width,
        ref_width as int,
        ref_height as int,
        ref_width,
        ref_height,
        i,
    )
}

/// Where the top left corner of the piece for the image at position `k` lies
/// on the canvas.
pub open spec fn piece_corner(images: Seq<BitmapView>, k: int) -> (int, int) {
    let top = images[reference_index(images)];
    placement(k, top.width, top.height)
}

/// The piece that is drawn for the image at position `k`: the image scaled
/// to the size of the reference image, and of three images the third scaled
/// once more to the width of the canvas.
pub open spec fn piece(images: Seq<BitmapView>, total_width: nat, pad: bool, k: int) -> BitmapView {
    let top = images[reference_index(images)];
    let cell = scaled(images[k], top.width, top.height, pad);
    if images.len() == 3 && k == 2 {
        scaled(cell, total_width, top.height, pad)
    } else {
        cell
    }
}

/// The first image of a row starts at the left edge, the second where the
/// first ends.
pub proof fn lemma_row_starts(images: Seq<BitmapView>)
    requires
        images.len() >= 1,
    ensures
        row_start(images, 0) == 0,
        images.len() >= 2 ==> row_start(images, 1) == images[0].width,
{
    assert(images.subrange(0, 0).len() == 0);
    if images.len() >= 2 {
        lemma_row_of_one(images.subrange(0, 1));
    }
}

/// Whether the byte at position `i` of `canvas`, which was transparent before
/// `top` was drawn onto it at `corner`, shows `top` where `top` is opaque and
/// is still transparent where `top` is.
pub open spec fn shows(
    canvas: BitmapView,
    width: nat,
    top: BitmapView,
    corner: (int, int),
    i: int,
) -> bool {
    &&& alpha_above(width, top, corner.0, corner.1, i) == 255 ==> canvas.pixels[i] == value_above(
        width,
        top,
        corner.0,
        corner.1,
        i,
    )
    &&& alpha_above(width, top, corner.0, corner.1, i) == 0 ==> canvas.pixels[i] == 0
}

/// Whether the byte at position `i` of a canvas that is `total_width` pixels
/// wide lies under the piece for the image at position `k`.
pub open spec fn under_piece(
    images: Seq<BitmapView>,
    total_width: nat,
    pad: bool,
    k: int,
    i: int,
) -> bool {
    let corner = piece_corner(images, k);
    under(total_width, piece(images, total_width, pad, k), corner.0, corner.1, i)
}

/// Whether the byte at position `i` of `canvas` shows the piece for the image
/// at position `k` where that piece is opaque, and is transparent black where
/// the piece is transparent.
pub open spec fn shows_piece(
    canvas: BitmapView,
    images: Seq<BitmapView>,
    total_width: nat,
    pad: bool,
    k: int,
    i: int,
) -> bool {
    shows(
        canvas,
        total_width,
        piece(images, total_width, pad, k),
        piece_corner(images, k),
        i,
    )
}

/// A byte lies under a row of a single image where it lies under that image.
pub proof fn lemma_in_row_of_one(width: nat, images: Seq<BitmapView>, y: int, i: int)
    requires
        images.len() == 1,
    ensures
        in_row(width, images, y, i) == in_rect(width, 0, y, images[0].width, images[0].height, i),
{
    assert(images.drop_last().len() == 0);
    assert(row_width(images.drop_last()) == 0);
    assert(!in_row(width, images.drop_last(), y, i));
}

/// A byte lies under a row of two images where it lies under the first, at
/// the left edge, or under the second, which starts where the first ends.
pub proof fn lemma_in_row_of_two(width: nat, images: Seq<BitmapView>, y: int, i: int)
    requires
        images.len() == 2,
    ensures
        in_row(width, images, y, i) == (in_rect(
            width,
            0,
            y,
            images[0].width,
            images[0].height,
            i,
        ) || in_rect(width, images[0].width as int, y, images[1].width, images[1].height, i)),
{
    lemma_in_row_of_one(width, images.drop_last(), y, i);
    lemma_row_of_one(images.drop_last());
}

/// Combines the images into one, laid out by their number. No image gives
/// `EmptyImageArray`, more than four give `TooManyImages`. Two to four images
/// are drawn onto a canvas of the given size, of which every pixel that lies
/// under none of the pieces stays transparent black. Under an opaque pixel of
/// a piece the canvas shows that pixel, and under a transparent one it stays
/// transparent black.
pub fn combine_images(
    images: &[Bitmap],
    total_width: u32,
    total_height: u32,
    pad: bool,
) -> (r: Result<Bitmap, ProcessingError>)
    requires
        2 <= images@.len() <= 4 ==> combine_fits(
            views(images@),
            total_width as nat,
            total_height as nat,
            pad,
        ),
    ensures
        images@.len() == 0 ==> r == Err::<Bitmap, ProcessingError>(
            ProcessingError::EmptyImageArray,
        ),
        images@.len() > 4 ==> r == Err::<Bitmap, ProcessingError>(ProcessingError::TooManyImages),
        1 <= images@.len() <= 4 ==> r is Ok && r->Ok_0@ == combined(
            views(images@),
            total_width as nat,
            total_height as nat,
            pad,
        ),
        2 <= images@.len() <= 4 ==> r->Ok_0@.width == total_width && r->Ok_0@.height
            == total_height,
        2 <= images@.len() <= 4 ==> forall|i: int|
            0 <= i < r->Ok_0@.pixels.len() && !in_layout(
                images@.len(),
                total_width as nat,
                views(images@)[reference_index(views(images@))].width,
                views(images@)[reference_index(views(images@))].height,
                i,
            ) ==> #[trigger] r->Ok_0@.pixels[i] == 0,
        2 <= images@.len() <= 4 ==> forall|k: int, i: int|
            0 <= k < images@.len() && 0 <= i < r->Ok_0@.pixels.len() && #[trigger] under_piece(
                views(images@),
                total_width as nat,
                pad,
                k,
                i,
            ) ==> shows_piece(r->Ok_0@, views(images@), total_width as nat, pad, k, i),
{
    let count = images.len();
    if count == 0 {
        return Err(ProcessingError::EmptyImageArray);
    }
    if count > 4 {
        return Err(ProcessingError::TooManyImages);
    }
    // If there is only one image, return it
    if count == 1 {
        return Ok(images[0].clone());
    }
    let ghost sources = views(images@);
    let mut new_image = Bitmap::transparent(total_width, total_height);
    let top_img = match find_img_with_most_pixels(images) {
        Ok(image) => image,
        Err(error) => {
            return Err(error);
        },
    };
    let (top_width, top_height) = top_img.dimensions();
    proof {
        lemma_reference_is_last_largest(sources);
        assert forall|i: int| 0 <= i < images@.len() implies scale_fits(
            (#[trigger] images@[i])@.width,
            images@[i]@.height,
            top_width as nat,
            top_height as nat,
            pad,
        ) by {
            assert(sources[i] == images@[i]@);
        }
    }
    let scaled_images = scale_all_images_to_same_size(images, top_width, top_height, pad);
    let ghost all = scaled_all(sources, top_width as nat, top_height as nat, pad);
    proof {
        assert(views(scaled_images@) =~= all);
        assert(views(scaled_images@.subrange(0, 2)) =~= all.subrange(0, 2));
        lemma_row_of_two(all.subrange(0, 2));
    }
    // The first two images always form the top row
    let ghost blank = new_image@;
    layout_horizontal(&mut new_image, &scaled_images[0..2], 0);
    let ghost first_row = new_image@;
    let ghost (cw, rw, rh) = (total_width as nat, top_width as nat, top_height as nat);
    proof {
        use_type_invariant(&new_image);
        assert forall|k: int|
            0 <= k < blank.pixels.len() && !in_layout(
                count as nat,
                cw,
                rw,
                rh,
                k,
            ) implies #[trigger] first_row.pixels[k] == 0 by {
            lemma_in_row_of_two(cw, all.subrange(0, 2), 0, k);
        }
        let a = all.subrange(0, 2);
        lemma_row_starts(a);
        assert forall|k: int, i: int|
            0 <= k < 2 && 0 <= i < blank.pixels.len() && #[trigger] under_piece(
                sources,
                cw,
                pad,
                k,
                i,
            ) implies shows_piece(first_row, sources, cw, pad, k, i) by {
            assert(a[k] == piece(sources, cw, pad, k));
            assert(under(cw, a[k], row_start(a, k) as int, 0, i));
        }
    }
    if count == 3 {
        // Scale the last image once more, to the total width but with the same height as the
        // images above it, and draw it below them
        proof {
            assert(scaled_images@.subrange(2, 3)[0] == scaled_images@[2]);
        }
        let processed_last_img = scale_all_images_to_same_size(
            &scaled_images[2..3],
            total_width,
            top_height,
            pad,
        );
        proof {
            let last = scaled_all(all.subrange(2, 3), total_width as nat, top_height as nat, pad);
            assert(views(processed_last_img@) =~= last);
            lemma_row_of_one(last);
        }
        layout_horizontal(&mut new_image, processed_last_img.as_slice(), top_height);
        proof {
            let last = scaled_all(all.subrange(2, 3), cw, rh, pad);
            assert forall|k: int|
                0 <= k < blank.pixels.len() && !in_layout(
                    3,
                    cw,
                    rw,
                    rh,
                    k,
                ) implies #[trigger] new_image@.pixels[k] == 0 by {
                lemma_in_row_of_one(cw, last, rh as int, k);
                assert(new_image@.pixels[k] == first_row.pixels[k]);
            }
            lemma_row_starts(last);
            assert forall|k: int, i: int|
                0 <= k < 3 && 0 <= i < blank.pixels.len() && #[trigger] under_piece(
                    sources,
                    cw,
                    pad,
                    k,
                    i,
                ) implies shows_piece(new_image@, sources, cw, pad, k, i) by {
                lemma_in_row_of_one(cw, last, rh as int, i);
                lemma_in_row_of_two(cw, all.subrange(0, 2), 0, i);
                if k < 2 {
                    assert(new_image@.pixels[i] == first_row.pixels[i]);
                } else {
                    assert(all.subrange(2, 3)[0] == all[2]);
                    assert(last[0] == piece(sources, cw, pad, k));
                    assert(under(cw, last[0], row_start(last, 0) as int, rh as int, i));
                    assert(first_row.pixels[i] == 0);
                }
            }
        }
    } else if count == 4 {
        // The remaining two images form the bottom row of a 2x2 grid
        proof {
            assert(views(scaled_images@.subrange(2, 4)) =~= all.subrange(2, 4));
            lemma_row_of_two(all.subrange(2, 4));
        }
        layout_horizontal(&mut new_image, &scaled_images[2..4], top_height);
        proof {
            assert forall|k: int|
                0 <= k < blank.pixels.len() && !in_layout(
                    4,
                    cw,
                    rw,
                    rh,
                    k,
                ) implies #[trigger] new_image@.pixels[k] == 0 by {
                lemma_in_row_of_two(cw, all.subrange(2, 4), rh as int, k);
                assert(new_image@.pixels[k] == first_row.pixels[k]);
            }
            let b = all.subrange(2, 4);
            lemma_row_starts(b);
            assert forall|k: int, i: int|
                0 <= k < 4 && 0 <= i < blank.pixels.len() && #[trigger] under_piece(
                    sources,
                    cw,
                    pad,
                    k,
                    i,
                ) implies shows_piece(new_image@, sources, cw, pad, k, i) by {
                lemma_in_row_of_two(cw, b, rh as int, i);
                lemma_in_row_of_two(cw, all.subrange(0, 2), 0, i);
                if k < 2 {
                    assert(new_image@.pixels[i] == first_row.pixels[i]);
                } else {
                    assert(b[k - 2] == piece(sources, cw, pad, k));
                    assert(under(cw, b[k - 2], row_start(b, k - 2) as int, rh as int, i));
                    assert(first_row.pixels[i] == 0);
                }
            }
        }
    }
    proof {
        use_type_invariant(&new_image);
    }
    Ok(new_image)
}

/// A row of a single image is as wide as that image.
pub proof fn lemma_row_of_one(images: Seq<BitmapView>)
    requires
        images.len() == 1,
    ensures
        row_width(images) == images[0].width,
{
    assert(row_width(images.drop_last()) == 0);
}

/// A row of two images is as wide as both together.
pub proof fn lemma_row_of_two(images: Seq<BitmapView>)
    requires
        images.len() == 2,
    ensures
        row_width(images) == images[0].width + images[1].width,
{
    lemma_row_of_one(images.drop_last());
}

/// The arrangement on its canvas has the size of that canvas.
pub proof fn lemma_combined_size(
    images: Seq<BitmapView>,
    total_width: nat,
    total_height: nat,
    pad: bool,
)
    requires
        images.len() >= 2,
    ensures
        combined(images, total_width, total_height, pad).width == total_width,
        combined(images, total_width, total_height, pad).height == total_height,
{
    let top = images[reference_index(images)];
    let all = scaled_all(images, top.width, top.height, pad);
    let canvas = transparent_view(total_width, total_height);
    lemma_placed_row_keeps_size(canvas, all.subrange(0, 2), 0);
    let first_row = placed_row(canvas, all.subrange(0, 2), 0);
    if images.len() == 3 {
        let last = scaled_all(all.subrange(2, 3), total_width, top.height, pad);
        lemma_placed_row_keeps_size(first_row, last, top.height as int);
    } else if images.len() > 3 {
        lemma_placed_row_keeps_size(first_row, all.subrange(2, 4), top.height as int);
    }
}

/// The sharp layer of a thumbnail: the arrangement of the images with
/// padding, on the canvas that their number calls for.
pub open spec fn foreground(images: Seq<BitmapView>) -> BitmapView {
    let size = total_size(images);
    combined(images, size.0, size.1, true)
}

/// The layer behind it: the arrangement of the images without padding, on
/// the same canvas, blurred.
pub open spec fn background(images: Seq<BitmapView>) -> BitmapView {
    let size = total_size(images);
    blur_view(combined(images, size.0, size.1, false), BACKGROUND_BLUR as nat)
}

/// The finished picture for one to four images: the sharp layer drawn over
/// the blurred one, corner on corner.
pub open spec fn thumbnail_canvas(images: Seq<BitmapView>) -> BitmapView {
    overlay_view(background(images), foreground(images), 0, 0)
}

/// The finished picture has the size of the canvas.
pub proof fn lemma_thumbnail_size(images: Seq<BitmapView>)
    requires
        1 <= images.len(),
    ensures
        thumbnail_canvas(images).width == total_size(images).0,
        thumbnail_canvas(images).height == total_size(images).1,
{
    if images.len() >= 2 {
        let size = total_size(images);
        lemma_combined_size(images, size.0, size.1, false);
    } else {
        lemma_reference_is_last_largest(images);
    }
}

/// Whether the picture for these images can be made within the limits of
/// memory and of 32-bit coordinates.
pub open spec fn thumbnail_fits(images: Seq<BitmapView>) -> bool {
    let size = total_size(images);
    &&& sizes_fit(images)
    &&& samples_fit(size.0, size.1)
    &&& images.len() >= 2 ==> {
        &&& combine_fits(images, size.0, size.1, true)
        &&& combine_fits(images, size.0, size.1, false)
    }
}

/// Makes the picture of a thumbnail: the sharp arrangement of the images
/// over the blurred one. Where the sharp layer is opaque the picture shows
/// it, and where it is transparent the picture shows the blurred layer. No
/// image gives `EmptyImageArray`, more than four give `TooManyImages`.
pub fn compose_thumbnail(images: &[Bitmap]) -> (r: Result<Bitmap, ProcessingError>)
    requires
        1 <= images@.len() <= 4 ==> thumbnail_fits(views(images@)),
    ensures
        images@.len() == 0 ==> r == Err::<Bitmap, ProcessingError>(
            ProcessingError::EmptyImageArray,
        ),
        images@.len() > 4 ==> r == Err::<Bitmap, ProcessingError>(ProcessingError::TooManyImages),
        1 <= images@.len() <= 4 ==> r is Ok && r->Ok_0@ == thumbnail_canvas(views(images@)),
        1 <= images@.len() <= 4 ==> forall|i: int|
            0 <= i < r->Ok_0@.pixels.len() && alpha_at(foreground(views(images@)).pixels, i)
                == 255 ==> #[trigger] r->Ok_0@.pixels[i] == foreground(views(images@)).pixels[i],
        1 <= images@.len() <= 4 ==> forall|i: int|
            0 <= i < r->Ok_0@.pixels.len() && alpha_at(foreground(views(images@)).pixels, i)
                == 0 ==> #[trigger] r->Ok_0@.pixels[i] == background(views(images@)).pixels[i],
{
    if images.len() == 0 {
        return Err(ProcessingError::EmptyImageArray);
    }
    if images.len() > 4 {
        return Err(ProcessingError::TooManyImages);
    }
    let total_size = match get_total_img_size(images) {
        Ok(size) => size,
        Err(error) => {
            return Err(error);
        },
    };
    let combined = match combine_images(images, total_size.0, total_size.1, true) {
        Ok(image) => image,
        Err(error) => {
            return Err(error);
        },
    };
    let stretched = match combine_images(images, total_size.0, total_size.1, false) {
        Ok(image) => image,
        Err(error) => {
            return Err(error);
        },
    };
    proof {
        if images@.len() >= 2 {
            lemma_combined_size(views(images@), total_size.0 as nat, total_size.1 as nat, false);
            lemma_combined_size(views(images@), total_size.0 as nat, total_size.1 as nat, true);
        } else {
            lemma_reference_is_last_largest(views(images@));
        }
        use_type_invariant(&combined);
    }
    let mut background = blur(&stretched, BACKGROUND_BLUR);
    let ghost blurred = background@;
    overlay(&mut background, &combined, 0, 0);
    proof {
        assert forall|i: int|
            0 <= i < background@.pixels.len() && alpha_at(combined@.pixels, i)
                == 255 implies #[trigger] background@.pixels[i] == combined@.pixels[i] by {
            lemma_bytes_corner_on_corner(blurred.width, blurred.height, i);
        }
        assert forall|i: int|
            0 <= i < background@.pixels.len() && alpha_at(combined@.pixels, i)
                == 0 implies #[trigger] background@.pixels[i] == blurred.pixels[i] by {
            lemma_bytes_corner_on_corner(blurred.width, blurred.height, i);
        }
    }
    Ok(background)
}

/// Generates a combined thumbnail from a list of images: their arrangement
/// over a blurred copy of itself, encoded as PNG.
///
/// No image gives `EmptyImageArray`, more than four give `TooManyImages`.
/// One to four images give their thumbnail wherever the canvas has pixels,
/// which is wherever the reference image has; an empty canvas the encoder
/// refuses, and its error is handed on.
pub fn generate_combined_thumbnail(
    images: Vec<Bitmap>,
) -> (r: Result<CombinedThumbnail, ProcessingError>)
    requires
        1 <= images@.len() <= 4 ==> thumbnail_fits(views(images@)),
    ensures
        images@.len() == 0 ==> r == Err::<CombinedThumbnail, ProcessingError>(
            ProcessingError::EmptyImageArray,
        ),
        images@.len() > 4 ==> r == Err::<CombinedThumbnail, ProcessingError>(
            ProcessingError::TooManyImages,
        ),
        1 <= images@.len() <= 4 ==> (r is Ok <==> total_size(views(images@)).0 > 0 && total_size(
            views(images@),
        ).1 > 0),
        1 <= images@.len() <= 4 ==> match r {
            Ok(thumbnail) => thumbnail@ == encoded(
                thumbnail_canvas(views(images@)),
                OutputFormat::Png,
            ) && thumbnail.spec_format() == OutputFormat::Png,
            Err(error) => error is ImageError,
        },
{
    let picture = match compose_thumbnail(images.as_slice()) {
        Ok(picture) => picture,
        Err(error) => {
            return Err(error);
        },
    };
    proof {
        lemma_thumbnail_size(views(images@));
    }
    match CombinedThumbnail::new(picture, OutputFormat::Png) {
        Ok(thumbnail) => Ok(thumbnail),
        Err(error) => Err(ProcessingError::from(error)),
    }
}

} // verus!
