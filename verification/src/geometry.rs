//! Sizes and positions: which image sets the scale, how large the canvas is,
//! and how an image fits into a target rectangle without distortion.

use vstd::prelude::*;
use crate::bitmap::BitmapView;

verus! {

/// Index of the reference image: the one with the most pixels, and among
/// several of that size the last one.
pub open spec fn reference_index(images: Seq<BitmapView>) -> int
    decreases images.len(),
{
    if images.len() <= 1 {
        0
    } else {
        let last = images.len() - 1;
        let before = reference_index(images.drop_last());
        if images[last].area() >= images[before].area() {
            last
        } else {
            before
        }
    }
}

/// Whether `k` is the last index at which the largest area occurs.
pub open spec fn is_last_largest(images: Seq<BitmapView>, k: int) -> bool {
    &&& 0 <= k < images.len()
    &&& forall|j: int| 0 <= j < images.len() ==> images[j].area() <= images[k].area()
    &&& forall|j: int| k < j < images.len() ==> images[j].area() < images[k].area()
}

/// The reference index is the last index of the largest area.
pub proof fn lemma_reference_is_last_largest(images: Seq<BitmapView>)
    requires
        images.len() > 0,
    ensures
        is_last_largest(images, reference_index(images)),
    decreases images.len(),
{
    if images.len() > 1 {
        let front = images.drop_last();
        lemma_reference_is_last_largest(front);
        assert(forall|j: int| 0 <= j < front.len() ==> front[j] == images[j]);
    }
}

/// At most one index is the last index of the largest area.
pub proof fn lemma_last_largest_is_unique(images: Seq<BitmapView>, a: int, b: int)
    requires
        is_last_largest(images, a),
        is_last_largest(images, b),
    ensures
        a == b,
{
    if a < b {
        assert(images[b].area() < images[a].area());
        assert(images[a].area() <= images[b].area());
    } else if b < a {
        assert(images[a].area() < images[b].area());
        assert(images[b].area() <= images[a].area());
    }
}

/// Size of the canvas for `count` images whose reference image measures
/// `ref_width` by `ref_height`: the reference itself for one image, two of
/// them side by side for two, a grid of two by two for more.
pub open spec fn canvas_size(count: nat, ref_width: nat, ref_height: nat) -> (nat, nat) {
    if count <= 1 {
        (ref_width, ref_height)
    } else if count == 2 {
        (2 * ref_width, ref_height)
    } else {
        (2 * ref_width, 2 * ref_height)
    }
}

/// Size of the canvas for the given images.
pub open spec fn total_size(images: Seq<BitmapView>) -> (nat, nat) {
    let reference = images[reference_index(images)];
    canvas_size(images.len(), reference.width, reference.height)
}

/// Where the top left corner of the piece at position `index` lies on the
/// canvas: the pieces fill a grid of two columns row by row, whose cells have
/// the size of the reference image.
pub open spec fn placement(index: int, ref_width: nat, ref_height: nat) -> (int, int) {
    let x: int = if index % 2 == 1 {
        ref_width as int
    } else {
        0
    };
    let y: int = if index >= 2 {
        ref_height as int
    } else {
        0
    };
    (x, y)
}

/// The size of the piece at position `index` of `count`: that of the
/// reference image, but for the third of three, which spans both columns.
pub open spec fn piece_size(count: nat, index: int, ref_width: nat, ref_height: nat) -> (nat, nat) {
    if count == 3 && index == 2 {
        (2 * ref_width, ref_height)
    } else {
        (ref_width, ref_height)
    }
}

/// Whether the pixel at `(x, y)` lies in the region that the piece at
/// position `index` of `count` takes on the canvas.
pub open spec fn in_piece(
    count: nat,
    index: int,
    ref_width: nat,
    ref_height: nat,
    x: int,
    y: int,
) -> bool {
    let corner = placement(index, ref_width, ref_height);
    let size = piece_size(count, index, ref_width, ref_height);
    corner.0 <= x < corner.0 + size.0 && corner.1 <= y < corner.1 + size.1
}

/// Whether the pixel at `(x, y)` lies on the canvas for `count` images.
pub open spec fn on_canvas(count: nat, ref_width: nat, ref_height: nat, x: int, y: int) -> bool {
    let size = canvas_size(count, ref_width, ref_height);
    0 <= x < size.0 && 0 <= y < size.1
}

/// The pieces of two to four images tile the canvas: each lies within it, no
/// two of them share a pixel, and every pixel of the canvas belongs to one.
pub proof fn lemma_pieces_tile_the_canvas(count: nat, ref_width: nat, ref_height: nat)
    requires
        2 <= count <= 4,
    ensures
        forall|i: int, x: int, y: int|
            0 <= i < count && #[trigger] in_piece(count, i, ref_width, ref_height, x, y)
                ==> on_canvas(count, ref_width, ref_height, x, y),
        forall|i: int, j: int, x: int, y: int|
            0 <= i < j < count && #[trigger] in_piece(count, i, ref_width, ref_height, x, y)
                ==> !#[trigger] in_piece(count, j, ref_width, ref_height, x, y),
        forall|x: int, y: int| #[trigger]
            on_canvas(count, ref_width, ref_height, x, y) ==> exists|i: int|
                0 <= i < count && #[trigger] in_piece(count, i, ref_width, ref_height, x, y),
{
    assert forall|x: int, y: int| #[trigger]
        on_canvas(count, ref_width, ref_height, x, y) implies exists|i: int|
        0 <= i < count && #[trigger] in_piece(count, i, ref_width, ref_height, x, y) by {
        let column: int = if x < ref_width {
            0
        } else {
            1
        };
        let row: int = if y < ref_height {
            0
        } else {
            1
        };
        let i = if count == 3 && row == 1 {
            2
        } else {
            2 * row + column
        };
        assert(in_piece(count, i, ref_width, ref_height, x, y));
    }
}

/// Whether a `width` by `height` image is relatively wider than the target,
/// so that its width is what limits its scale.
pub open spec fn width_bound(
    width: nat,
    height: nat,
    target_width: nat,
    target_height: nat,
) -> bool {
    width * target_height > target_width * height
}

/// The largest size of the same aspect ratio as `width` by `height` that fits
/// into the target, rounded down to whole pixels. It fills the target along
/// the axis that limits the scale; an image of no height, which has no aspect
/// ratio, is given no width.
pub open spec fn letterbox_size(
    width: nat,
    height: nat,
    target_width: nat,
    target_height: nat,
) -> (nat, nat) {
    if width_bound(width, height, target_width, target_height) {
        (target_width, (target_width * height) / width)
    } else if height == 0 {
        (0, target_height)
    } else {
        ((target_height * width) / height, target_height)
    }
}

/// Where the scaled image is placed so that it is centred in the target:
/// half of the free space on each axis, rounded down.
pub open spec fn letterbox_offset(
    width: nat,
    height: nat,
    target_width: nat,
    target_height: nat,
) -> (nat, nat) {
    let size = letterbox_size(width, height, target_width, target_height);
    (((target_width - size.0) / 2) as nat, ((target_height - size.1) / 2) as nat)
}

/// A letterboxed image never exceeds its target, touches it on the axis that
/// limits the scale, and on the other axis keeps the aspect ratio of the
/// source to within one pixel.
pub proof fn lemma_letterbox_size(width: nat, height: nat, target_width: nat, target_height: nat)
    ensures
        ({
            let size = letterbox_size(width, height, target_width, target_height);
            &&& size.0 <= target_width
            &&& size.1 <= target_height
            &&& width_bound(width, height, target_width, target_height) ==> {
                &&& size.0 == target_width
                &&& size.1 * width <= target_width * height < (size.1 + 1) * width
            }
            &&& !width_bound(width, height, target_width, target_height) ==> {
                &&& size.1 == target_height
                &&& height > 0 ==> size.0 * height <= target_height * width < (size.0 + 1) * height
            }
        }),
{
    if width_bound(width, height, target_width, target_height) {
        assert(width > 0) by (nonlinear_arith)
            requires
                width * target_height > target_width * height,
        ;
        lemma_floor_quotient(target_width * height, width, target_height);
    } else if height > 0 {
        assert(target_height * width < height * (target_width + 1)) by (nonlinear_arith)
            requires
                width * target_height <= target_width * height,
                height > 0,
        ;
        lemma_floor_quotient(target_height * width, height, target_width + 1);
    }
}

/// The quotient `q` of `n` by `d` is the number with `q * d <= n < (q + 1) * d`,
/// and it stays below every `bound` with `n < d * bound`.
pub proof fn lemma_floor_quotient(n: nat, d: nat, bound: nat)
    requires
        d > 0,
        n < d * bound,
    ensures
        (n / d) * d <= n < (n / d + 1) * d,
        n / d < bound,
{
    let q = n / d;
    assert(q * d <= n < (q + 1) * d && q < bound) by (nonlinear_arith)
        requires
            d > 0,
            n < d * bound,
            q == n / d,
    ;
}

/// Computes the size that a `width` by `height` image takes when it is
/// fitted into the target without distortion.
pub fn letterbox_dimensions(
    width: u32,
    height: u32,
    target_width: u32,
    target_height: u32,
) -> (size: (u32, u32))
    ensures
        (size.0 as nat, size.1 as nat) == letterbox_size(
            width as nat,
            height as nat,
            target_width as nat,
            target_height as nat,
        ),
        size.0 <= target_width,
        size.1 <= target_height,
{
    proof {
        lemma_letterbox_size(
            width as nat,
            height as nat,
            target_width as nat,
            target_height as nat,
        );
    }
    let by_width: u64 = product(width, target_height);
    let by_height: u64 = product(target_width, height);
    if by_width > by_height {
        let scaled: u64 = by_height / (width as u64);
        (target_width, scaled as u32)
    } else if height == 0 {
        (0, target_height)
    } else {
        let scaled: u64 = product(target_height, width) / (height as u64);
        (scaled as u32, target_height)
    }
}

/// Computes where a scaled image of the given size is placed so that it is
/// centred in the target.
pub fn centering_offset(
    size: (u32, u32),
    target_width: u32,
    target_height: u32,
) -> (offset: (u32, u32))
    requires
        size.0 <= target_width,
        size.1 <= target_height,
    ensures
        offset.0 == (target_width - size.0) / 2,
        offset.1 == (target_height - size.1) / 2,
{
    ((target_width - size.0) / 2, (target_height - size.1) / 2)
}

/// The product of two 32-bit numbers, which always fits into 64 bits.
pub fn product(a: u32, b: u32) -> (p: u64)
    ensures
        p == (a as nat) * (b as nat),
{
    assert((a as nat) * (b as nat) <= 0xffff_ffff * 0xffff_ffff) by (nonlinear_arith)
        requires
            a <= 0xffff_ffff,
            b <= 0xffff_ffff,
    ;
    (a as u64) * (b as u64)
}

} // verus!
