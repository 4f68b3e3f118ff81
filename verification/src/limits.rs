//! Tests, at run time, of the limits that memory and 32-bit coordinates set
//! to the sizes of images. A caller that cannot know its images' sizes
//! beforehand asks here before it scales or combines them.

use vstd::prelude::*;
use crate::bitmap::{fits_in_memory, Bitmap};
use crate::geometry::{
    letterbox_dimensions, lemma_reference_is_last_largest, product, reference_index,
};
use crate::processing::{
    combine_fits, find_img_with_most_pixels, lemma_row_width_of_prefix, row_width, scale_fits,
    sizes_fit, thumbnail_fits, views,
};
use crate::raster::{resize_fits, samples_fit};

verus! {

/// Tells whether a bitmap of `width` by `height` pixels can be allocated.
pub fn can_allocate(width: u32, height: u32) -> (ok: bool)
    ensures
        ok == fits_in_memory(width as nat, height as nat),
{
    product(width, height) <= (isize::MAX as u64) / 4
}

/// Tells whether the samples of `width` by `height` pixels, through which
/// resampling and blurring pass, can be allocated.
pub fn can_sample(width: u32, height: u32) -> (ok: bool)
    ensures
        ok == samples_fit(width as nat, height as nat),
{
    product(width, height) <= (isize::MAX as u64) / 16
}

/// Tells whether a bitmap of `source_width` by `source_height` pixels can be
/// resampled to `width` by `height` pixels.
pub fn can_resize(source_width: u32, source_height: u32, width: u32, height: u32) -> (ok: bool)
    ensures
        ok == resize_fits(source_width as nat, source_height as nat, width as nat, height as nat),
{
    can_allocate(width, height) && ((width == source_width && height == source_height)
        || can_sample(source_width, height))
}

/// Tells whether a bitmap of `width` by `height` pixels can be scaled to the
/// target, with padding or without.
pub fn can_scale(
    width: u32,
    height: u32,
    target_width: u32,
    target_height: u32,
    pad: bool,
) -> (ok: bool)
    ensures
        ok == scale_fits(
            width as nat,
            height as nat,
            target_width as nat,
            target_height as nat,
            pad,
        ),
{
    if pad {
        let size = letterbox_dimensions(width, height, target_width, target_height);
        can_allocate(target_width, target_height) && can_resize(width, height, size.0, size.1)
    } else {
        can_resize(width, height, target_width, target_height)
    }
}

/// Tells whether the canvas for the images has sides that can be counted in
/// 32 bits.
pub fn can_size(images: &[Bitmap]) -> (ok: bool)
    ensures
        ok == sizes_fit(views(images@)),
{
    let top = match find_img_with_most_pixels(images) {
        Ok(image) => image,
        Err(_) => {
            return true;
        },
    };
    let (top_width, top_height) = top.dimensions();
    proof {
        lemma_reference_is_last_largest(views(images@));
    }
    let count = images.len();
    (count < 2 || top_width <= u32::MAX / 2) && (count < 3 || top_height <= u32::MAX / 2)
}

/// Tells whether the images, laid side by side, end at a coordinate that can
/// be counted in 32 bits.
pub fn can_lay_out(images: &[Bitmap]) -> (ok: bool)
    ensures
        ok == (row_width(views(images@)) <= u32::MAX),
{
    let ghost row = views(images@);
    let mut end: u64 = 0;
    let mut i: usize = 0;
    while i < images.len()
        invariant
            i <= images.len(),
            row == views(images@),
            end == row_width(row.subrange(0, i as int)),
            end <= u32::MAX,
        decreases images.len() - i,
    {
        proof {
            lemma_row_width_of_prefix(row, i + 1);
            assert(row.subrange(0, i + 1).drop_last() =~= row.subrange(0, i as int));
            assert(row.subrange(0, i + 1).last() == images@[i as int]@);
        }
        end = end + images[i].width() as u64;
        if end > u32::MAX as u64 {
            return false;
        }
        i += 1;
    }
    proof {
        assert(row.subrange(0, i as int) =~= row);
    }
    true
}

/// Tells whether the images can be combined on a canvas of `total_width` by
/// `total_height` pixels: whether they are fewer than two, or more than four,
/// or within the limits that combining them has.
pub fn can_combine(images: &[Bitmap], total_width: u32, total_height: u32, pad: bool) -> (ok: bool)
    ensures
        ok == (2 <= images@.len() <= 4 ==> combine_fits(
            views(images@),
            total_width as nat,
            total_height as nat,
            pad,
        )),
{
    if images.len() < 2 || images.len() > 4 {
        return true;
    }
    let ghost sources = views(images@);
    let top = match find_img_with_most_pixels(images) {
        Ok(image) => image,
        Err(_) => {
            return false;
        },
    };
    let (top_width, top_height) = top.dimensions();
    proof {
        lemma_reference_is_last_largest(sources);
    }
    if !can_allocate(total_width, total_height) || top_width > u32::MAX / 2 {
        return false;
    }
    if images.len() == 3 && !can_scale(top_width, top_height, total_width, top_height, pad) {
        return false;
    }
    let mut i: usize = 0;
    while i < images.len()
        invariant
            i <= images.len(),
            sources == views(images@),
            2 <= images@.len() <= 4,
            0 <= reference_index(sources) < sources.len(),
            top_width == sources[reference_index(sources)].width,
            top_height == sources[reference_index(sources)].height,
            forall|j: int|
                0 <= j < i ==> scale_fits(
                    (#[trigger] sources[j]).width,
                    sources[j].height,
                    top_width as nat,
                    top_height as nat,
                    pad,
                ),
        decreases images.len() - i,
    {
        let (width, height) = images[i].dimensions();
        if !can_scale(width, height, top_width, top_height, pad) {
            assert(!scale_fits(
                sources[i as int].width,
                sources[i as int].height,
                top_width as nat,
                top_height as nat,
                pad,
            ));
            return false;
        }
        i += 1;
    }
    true
}

/// Tells whether a thumbnail can be made of the images: whether they are
/// none, or more than four, or within the limits that making one has.
pub fn can_generate(images: &[Bitmap]) -> (ok: bool)
    ensures
        ok == (1 <= images@.len() <= 4 ==> thumbnail_fits(views(images@))),
{
    let count = images.len();
    if count == 0 || count > 4 {
        return true;
    }
    let top = match find_img_with_most_pixels(images) {
        Ok(image) => image,
        Err(_) => {
            return false;
        },
    };
    let (top_width, top_height) = top.dimensions();
    proof {
        lemma_reference_is_last_largest(views(images@));
    }
    if count == 1 {
        return can_sample(top_width, top_height);
    }
    if top_width > u32::MAX / 2 || (count > 2 && top_height > u32::MAX / 2) {
        return false;
    }
    let total_width = 2 * top_width;
    let total_height = if count > 2 {
        2 * top_height
    } else {
        top_height
    };
    can_sample(total_width, total_height) && can_combine(images, total_width, total_height, true)
        && can_combine(images, total_width, total_height, false)
}

} // verus!
