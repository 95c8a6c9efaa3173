//! Painting filled rectangles with a border around them.

use vstd::prelude::*;

use crate::util::MRegion;

verus! {

/// Where the pixel at `(x, y)` is stored in a picture `width` pixels wide.
pub open spec fn spot(width: int, x: int, y: int) -> int {
    y * width + x
}

/// The pixel lies in `r` or directly next to it.
pub open spec fn near(r: MRegion, x: int, y: int) -> bool {
    &&& r.x - 1 <= x < r.x + r.width + 1
    &&& r.y - 1 <= y < r.y + r.height + 1
}

/// The pixel at `(x, y)` once `r` is painted over `under`: filled inside, a border around it.
pub open spec fn coat(r: MRegion, fill: u32, border: u32, x: int, y: int, under: u32) -> u32 {
    if r.has(x, y) {
        fill
    } else if near(r, x, y) {
        border
    } else {
        under
    }
}

/// The pixel lies in the block of columns `left..right` and rows `top..bottom`.
pub open spec fn in_block(left: int, right: int, top: int, bottom: int, x: int, y: int) -> bool {
    left <= x < right && top <= y < bottom
}

/// A spot in range lies within the picture.
pub proof fn lemma_spot_range(width: int, height: int, x: int, y: int)
    requires
        0 <= x < width,
        0 <= y < height,
    ensures
        0 <= spot(width, x, y) < width * height,
{
    assert(0 <= y * width) by (nonlinear_arith)
        requires
            0 <= y,
            0 < width,
    ;
    assert(y * width + width <= height * width) by (nonlinear_arith)
        requires
            y + 1 <= height,
            0 < width,
    ;
    assert(height * width == width * height) by (nonlinear_arith);
}

/// The spots of a run of pixels in row `row` are those from its first to its last column.
proof fn lemma_row(width: int, row: int, left: int, right: int, x: int, y: int)
    requires
        0 <= left <= right <= width,
        0 <= x < width,
    ensures
        (row * width + left <= spot(width, x, y) < row * width + right) <==> (y == row && left <= x
            < right),
{
    if y < row {
        assert(y * width + width <= row * width) by (nonlinear_arith)
            requires
                y + 1 <= row,
                0 < width,
        ;
    } else if y > row {
        assert(row * width + width <= y * width) by (nonlinear_arith)
            requires
                row + 1 <= y,
                0 < width,
        ;
    }
}

/// Sets the pixels stored from `from` up to `to`.
fn fill_run(pixels: &mut [u32], from: usize, to: usize, value: u32)
    requires
        from <= to <= old(pixels)@.len(),
    ensures
        final(pixels)@.len() == old(pixels)@.len(),
        forall|i: int|
            0 <= i < final(pixels)@.len() ==> #[trigger] final(pixels)@[i] == if from <= i < to {
                value
            } else {
                old(pixels)@[i]
            },
{
    let ghost start = pixels@;
    let mut i: usize = from;
    while i < to
        invariant
            from <= i <= to <= pixels@.len(),
            pixels@.len() == start.len(),
            forall|k: int|
                0 <= k < pixels@.len() ==> #[trigger] pixels@[k] == if from <= k < i {
                    value
                } else {
                    start[k]
                },
        decreases to - i,
    {
        pixels[i] = value;
        i = i + 1;
    }
}

/// Sets the pixels of columns `left..right` and rows `top..bottom`.
fn fill_block(
    pixels: &mut [u32],
    width: usize,
    height: usize,
    left: usize,
    right: usize,
    top: usize,
    bottom: usize,
    value: u32,
)
    requires
        old(pixels)@.len() == width * height,
        left <= right <= width,
        top <= bottom <= height,
    ensures
        final(pixels)@.len() == old(pixels)@.len(),
        forall|x: int, y: int|
            0 <= x < width && 0 <= y < height ==> #[trigger] final(pixels)@[spot(
                width as int,
                x,
                y,
            )] == if in_block(left as int, right as int, top as int, bottom as int, x, y) {
                value
            } else {
                old(pixels)@[spot(width as int, x, y)]
            },
{
    let ghost start = pixels@;
    let ghost w = width as int;
    let total: usize = pixels.len();
    let mut row: usize = top;
    while row < bottom
        invariant
            top <= row <= bottom <= height,
            left <= right <= width,
            w == width,
            total == width * height,
            pixels@.len() == width * height,
            start.len() == width * height,
            forall|x: int, y: int|
                0 <= x < width && 0 <= y < height ==> #[trigger] pixels@[spot(w, x, y)]
                    == if in_block(left as int, right as int, top as int, row as int, x, y) {
                    value
                } else {
                    start[spot(w, x, y)]
                },
        decreases bottom - row,
    {
        let ghost before = pixels@;
        proof {
            assert(row * width + width <= width * height) by (nonlinear_arith)
                requires
                    row + 1 <= height,
                    0 <= width,
            ;
            assert(0 <= row * width) by (nonlinear_arith);
        }
        let first: usize = row * width;
        fill_run(pixels, first + left, first + right, value);
        proof {
            assert forall|x: int, y: int|
                0 <= x < width && 0 <= y < height implies #[trigger] pixels@[spot(w, x, y)]
                == if in_block(left as int, right as int, top as int, row + 1, x, y) {
                value
            } else {
                start[spot(w, x, y)]
            } by {
                lemma_spot_range(w, height as int, x, y);
                lemma_row(w, row as int, left as int, right as int, x, y);
                assert(before[spot(w, x, y)] == if in_block(
                    left as int,
                    right as int,
                    top as int,
                    row as int,
                    x,
                    y,
                ) {
                    value
                } else {
                    start[spot(w, x, y)]
                });
            }
        }
        row = row + 1;
    }
}

/// Paints `region` with a border around it, as far as the border lies in the picture.
pub fn rect(pixels: &mut [u32], width: usize, height: usize, region: &MRegion, fill: u32, border: u32)
    requires
        old(pixels)@.len() == width * height,
        width < i32::MAX,
        height < i32::MAX,
        region.inside(width as int, height as int),
    ensures
        final(pixels)@.len() == old(pixels)@.len(),
        forall|x: int, y: int|
            0 <= x < width && 0 <= y < height ==> #[trigger] final(pixels)@[spot(
                width as int,
                x,
                y,
            )] == coat(
                *region,
                fill,
                border,
                x,
                y,
                old(pixels)@[spot(width as int, x, y)],
            ),
{
    let left: usize = region.x as usize;
    let top: usize = region.y as usize;
    let right: usize = (region.x + region.width) as usize;
    let bottom: usize = (region.y + region.height) as usize;
    fill_block(pixels, width, height, left, right, top, bottom, fill);
    let outer_left: usize = if left > 0 {
        left - 1
    } else {
        0
    };
    let outer_top: usize = if top > 0 {
        top - 1
    } else {
        0
    };
    let outer_right: usize = if right < width {
        right + 1
    } else {
        width
    };
    let outer_bottom: usize = if bottom < height {
        bottom + 1
    } else {
        height
    };
    fill_block(pixels, width, height, outer_left, left, outer_top, outer_bottom, border);
    fill_block(pixels, width, height, right, outer_right, outer_top, outer_bottom, border);
    fill_block(pixels, width, height, outer_left, outer_right, outer_top, top, border);
    fill_block(pixels, width, height, outer_left, outer_right, bottom, outer_bottom, border);
}

/// The pixels of a picture are stored row by row, from left to right.
pub proof fn spots_follow_each_other(width: int, x: int, y: int)
    ensures
        spot(width, 0, 0) == 0,
        spot(width, x + 1, y) == spot(width, x, y) + 1,
        spot(width, x, y + 1) == spot(width, x, y) + width,
{
    assert((y + 1) * width == y * width + width) by (nonlinear_arith);
}

/// A painted region is filled, and every pixel around it that touches one of its own, be it only at
/// a corner, belongs to the border. All others stay as they were.
pub proof fn borders_are_one_pixel_wide(
    r: MRegion,
    fill: u32,
    border: u32,
    x: int,
    y: int,
    under: u32,
)
    requires
        r.width > 0,
        r.height > 0,
    ensures
        ({
            let inside = |u: int, v: int|
                r.x <= u && u < r.x + r.width && r.y <= v && v < r.y + r.height;
            let touches = inside(x - 1, y - 1) || inside(x, y - 1) || inside(x + 1, y - 1) || inside(
                x - 1,
                y,
            ) || inside(x + 1, y) || inside(x - 1, y + 1) || inside(x, y + 1) || inside(
                x + 1,
                y + 1,
            );
            let painted = coat(r, fill, border, x, y, under);
            &&& inside(x, y) ==> painted == fill
            &&& !inside(x, y) && touches ==> painted == border
            &&& !inside(x, y) && !touches ==> painted == under
        }),
{
}

} // verus!
