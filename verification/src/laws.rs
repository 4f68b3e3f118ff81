//! What holds of every thumbnail, stated over the models of the images and
//! proved from the definitions of the layout.

use vstd::prelude::*;
use crate::bitmap::{transparent_view, BitmapView};
use crate::geometry::{
    is_last_largest, lemma_last_largest_is_unique, lemma_letterbox_size,
    lemma_reference_is_last_largest, letterbox_size, piece_size, placement, reference_index,
    total_size, width_bound,
};
use crate::processing::{
    combined, lemma_thumbnail_size, piece, placed_row, row_width, scaled, scaled_all,
    thumbnail_canvas, BACKGROUND_BLUR,
};
use crate::raster::{blur_view, overlay_view, resampled, resized, Filter};

verus! {

/// The canvas of a thumbnail is as large as the number of images and the
/// reference image say: the reference image itself for one image, twice its
/// width for two, twice its width and twice its height for three or four.
/// The reference image is the last of those with the most pixels.
pub proof fn lemma_canvas_follows_count(images: Seq<BitmapView>, k: int)
    requires
        1 <= images.len() <= 4,
        is_last_largest(images, k),
    ensures
        k == reference_index(images),
        total_size(images).0 == (if images.len() == 1 {
            images[k].width
        } else {
            2 * images[k].width
        }),
        total_size(images).1 == (if images.len() <= 2 {
            images[k].height
        } else {
            2 * images[k].height
        }),
        thumbnail_canvas(images).width == total_size(images).0,
        thumbnail_canvas(images).height == total_size(images).1,
{
    lemma_reference_is_last_largest(images);
    lemma_last_largest_is_unique(images, k, reference_index(images));
    lemma_thumbnail_size(images);
}

/// Scaling with padding gives a bitmap of exactly the target size. It is a
/// transparent bitmap onto which the resampled source was drawn; the
/// resampled source fits into the target, fills it along one axis, keeps the
/// aspect ratio of the source to within one pixel along the other, and lies
/// in the middle: half of the free space, rounded down, is to its left and
/// above it.
pub proof fn lemma_padded_scaling(source: BitmapView, target_width: nat, target_height: nat)
    ensures
        ({
            let result = scaled(source, target_width, target_height, true);
            let size = letterbox_size(source.width, source.height, target_width, target_height);
            let wide = width_bound(source.width, source.height, target_width, target_height);
            &&& result.width == target_width
            &&& result.height == target_height
            &&& result == overlay_view(
                transparent_view(target_width, target_height),
                resized(source, size.0, size.1, Filter::Lanczos3),
                (target_width - size.0) / 2,
                (target_height - size.1) / 2,
            )
            &&& size.0 <= target_width
            &&& size.1 <= target_height
            &&& wide ==> size.0 == target_width && size.1 * source.width <= target_width
                * source.height < (size.1 + 1) * source.width
            &&& !wide ==> size.1 == target_height
            &&& !wide && source.height > 0 ==> size.0 * source.height <= target_height
                * source.width < (size.0 + 1) * source.height
        }),
{
    lemma_letterbox_size(source.width, source.height, target_width, target_height);
}

/// Scaling without padding gives a bitmap of exactly the target size, every
/// pixel of which the resampler made from the source: nothing of it is
/// padding.
pub proof fn lemma_stretched_scaling(source: BitmapView, target_width: nat, target_height: nat)
    ensures
        ({
            let result = scaled(source, target_width, target_height, false);
            &&& result.width == target_width
            &&& result.height == target_height
            &&& result.pixels == resampled(source, target_width, target_height, Filter::Gaussian)
        }),
{
}

/// The thumbnail of a single image is that image, unscaled, drawn at the top
/// left corner over a blurred copy of itself, and has its size.
pub proof fn lemma_single_image(image: BitmapView)
    ensures
        thumbnail_canvas(seq![image]) == overlay_view(
            blur_view(image, BACKGROUND_BLUR as nat),
            image,
            0,
            0,
        ),
        thumbnail_canvas(seq![image]).width == image.width,
        thumbnail_canvas(seq![image]).height == image.height,
{
    let images = seq![image];
    assert(images[0] == image);
    assert(reference_index(images) == 0);
}

/// Two images lie side by side along the top of the canvas, the first at the
/// left edge and the second where the first ends, each scaled to the size of
/// the reference image.
pub proof fn lemma_pair_layout(
    images: Seq<BitmapView>,
    total_width: nat,
    total_height: nat,
    pad: bool,
)
    requires
        images.len() == 2,
    ensures
        ({
            let top = images[reference_index(images)];
            let left = scaled(images[0], top.width, top.height, pad);
            let right = scaled(images[1], top.width, top.height, pad);
            let canvas = transparent_view(total_width, total_height);
            &&& left.width == top.width
            &&& combined(images, total_width, total_height, pad) == overlay_view(
                overlay_view(canvas, left, 0, 0),
                right,
                top.width as int,
                0,
            )
        }),
{
    let top = images[reference_index(images)];
    let all = scaled_all(images, top.width, top.height, pad);
    let canvas = transparent_view(total_width, total_height);
    lemma_row_of_pair(canvas, all.subrange(0, 2), 0);
}

/// Of three images the third lies directly below the first two: its top edge
/// is at the height of the reference image, its left edge at the left edge of
/// the canvas, and it is as wide as the canvas and as high as the reference
/// image.
pub proof fn lemma_third_image_spans_width(
    images: Seq<BitmapView>,
    total_width: nat,
    total_height: nat,
    pad: bool,
)
    requires
        images.len() == 3,
    ensures
        ({
            let top = images[reference_index(images)];
            let all = scaled_all(images, top.width, top.height, pad);
            let canvas = transparent_view(total_width, total_height);
            let first_row = placed_row(canvas, all.subrange(0, 2), 0);
            let third = scaled(all[2], total_width, top.height, pad);
            &&& third.width == total_width
            &&& third.height == top.height
            &&& all[0].height == top.height
            &&& all[1].height == top.height
            &&& combined(images, total_width, total_height, pad) == overlay_view(
                first_row,
                third,
                0,
                top.height as int,
            )
        }),
{
    let top = images[reference_index(images)];
    let all = scaled_all(images, top.width, top.height, pad);
    let canvas = transparent_view(total_width, total_height);
    let first_row = placed_row(canvas, all.subrange(0, 2), 0);
    let last = scaled_all(all.subrange(2, 3), total_width, top.height, pad);
    lemma_reference_is_last_largest(images);
    assert(all.subrange(2, 3)[0] == all[2]);
    assert(last.len() == 1);
    assert(last.last() == scaled(all[2], total_width, top.height, pad));
    assert(last.drop_last().len() == 0);
    assert(row_width(last.drop_last()) == 0);
    assert(placed_row(first_row, last.drop_last(), top.height as int) == first_row);
    assert(placed_row(first_row, last, top.height as int) == overlay_view(
        first_row,
        last.last(),
        0,
        top.height as int,
    ));
}

/// Four images form a grid of two by two: the first two along the top, the
/// last two below them at the height of the reference image, and in each row
/// the second image where the first ends.
pub proof fn lemma_grid_layout(
    images: Seq<BitmapView>,
    total_width: nat,
    total_height: nat,
    pad: bool,
)
    requires
        images.len() == 4,
    ensures
        ({
            let top = images[reference_index(images)];
            let all = scaled_all(images, top.width, top.height, pad);
            let canvas = transparent_view(total_width, total_height);
            let first_row = overlay_view(
                overlay_view(canvas, all[0], 0, 0),
                all[1],
                top.width as int,
                0,
            );
            combined(images, total_width, total_height, pad) == overlay_view(
                overlay_view(first_row, all[2], 0, top.height as int),
                all[3],
                top.width as int,
                top.height as int,
            )
        }),
{
    let top = images[reference_index(images)];
    let all = scaled_all(images, top.width, top.height, pad);
    let canvas = transparent_view(total_width, total_height);
    lemma_row_of_pair(canvas, all.subrange(0, 2), 0);
    let first_row = placed_row(canvas, all.subrange(0, 2), 0);
    lemma_row_of_pair(first_row, all.subrange(2, 4), top.height as int);
}

/// The pieces that are drawn for two to four images: each image scaled to
/// the size of the reference image, and of three images the third scaled once
/// more to twice that width.
pub open spec fn pieces(images: Seq<BitmapView>, pad: bool) -> Seq<BitmapView> {
    Seq::new(images.len(), |k: int| piece(images, total_size(images).0, pad, k))
}

/// `canvas` after the pieces have been drawn onto it in their order, each
/// with its top left corner at its placement.
pub open spec fn arranged(
    canvas: BitmapView,
    pieces: Seq<BitmapView>,
    ref_width: nat,
    ref_height: nat,
) -> BitmapView
    decreases pieces.len(),
{
    if pieces.len() == 0 {
        canvas
    } else {
        let corner = placement(pieces.len() - 1, ref_width, ref_height);
        overlay_view(
            arranged(canvas, pieces.drop_last(), ref_width, ref_height),
            pieces.last(),
            corner.0,
            corner.1,
        )
    }
}

/// On the canvas that their number calls for, two to four images are laid
/// out by position alone: the piece for each image is drawn at its placement
/// and has the size of its region, in the order of the images and whatever
/// their sizes are.
pub proof fn lemma_layout_follows_placement(images: Seq<BitmapView>, pad: bool)
    requires
        2 <= images.len() <= 4,
    ensures
        ({
            let top = images[reference_index(images)];
            let size = total_size(images);
            let drawn = pieces(images, pad);
            &&& drawn.len() == images.len()
            &&& forall|i: int|
                0 <= i < drawn.len() ==> (#[trigger] drawn[i]).width == piece_size(
                    images.len(),
                    i,
                    top.width,
                    top.height,
                ).0 && drawn[i].height == piece_size(images.len(), i, top.width, top.height).1
            &&& combined(images, size.0, size.1, pad) == arranged(
                transparent_view(size.0, size.1),
                drawn,
                top.width,
                top.height,
            )
        }),
{
    let top = images[reference_index(images)];
    let size = total_size(images);
    let drawn = pieces(images, pad);
    let canvas = transparent_view(size.0, size.1);
    let (w, h) = (top.width, top.height);
    let one = drawn.subrange(0, 1);
    let two = drawn.subrange(0, 2);
    assert(one.drop_last() =~= Seq::<BitmapView>::empty());
    assert(two.drop_last() =~= one);
    assert(arranged(canvas, one.drop_last(), w, h) == canvas);
    assert(arranged(canvas, one, w, h) == overlay_view(canvas, drawn[0], 0, 0));
    assert(arranged(canvas, two, w, h) == overlay_view(
        overlay_view(canvas, drawn[0], 0, 0),
        drawn[1],
        w as int,
        0,
    ));
    if images.len() == 2 {
        lemma_pair_layout(images, size.0, size.1, pad);
        assert(drawn =~= two);
    } else if images.len() == 3 {
        lemma_third_image_spans_width(images, size.0, size.1, pad);
        let all = scaled_all(images, w, h, pad);
        lemma_row_of_pair(canvas, all.subrange(0, 2), 0);
        assert(drawn.drop_last() =~= two);
    } else {
        lemma_grid_layout(images, size.0, size.1, pad);
        let three = drawn.subrange(0, 3);
        assert(three.drop_last() =~= two);
        assert(drawn.drop_last() =~= three);
        assert(arranged(canvas, three, w, h) == overlay_view(
            arranged(canvas, two, w, h),
            drawn[2],
            0,
            h as int,
        ));
    }
}

/// A row of two images is the first drawn at the left edge and the second
/// drawn where the first ends.
pub proof fn lemma_row_of_pair(canvas: BitmapView, images: Seq<BitmapView>, y: int)
    requires
        images.len() == 2,
    ensures
        placed_row(canvas, images, y) == overlay_view(
            overlay_view(canvas, images[0], 0, y),
            images[1],
            images[0].width as int,
            y,
        ),
{
    let front = images.drop_last();
    assert(front.len() == 1);
    assert(front.last() == images[0]);
    assert(front.drop_last().len() == 0);
    assert(row_width(front.drop_last()) == 0);
    assert(row_width(front) == images[0].width);
    assert(placed_row(canvas, front.drop_last(), y) == canvas);
    assert(placed_row(canvas, front, y) == overlay_view(canvas, images[0], 0, y));
}

} // verus!
