//! Clipping tiles against the output crop, and cropping pixel buffers.

use vstd::prelude::*;
use crate::grid::{cell, gather_rows, in_rect};

verus! {

/// A rectangle of the image: where it starts and how far it reaches.
#[derive(Debug, Clone, Copy, PartialEq, Eq, Structural)]
pub struct CropRect {
    pub x: usize,
    pub y: usize,
    pub width: usize,
    pub height: usize,
}

/// Result of clipping a tile's interior rectangle against the output crop
/// rectangle, in the coordinate systems each consumer needs.
///
/// All fields describe the same pixels, the intersection of the tile's
/// interior and the crop: `pad_off` is its offset into the padded tile buffer,
/// `dest_off` its offset into the cropped output, `width` x `height` its size.
#[derive(Debug, Clone, Copy, PartialEq, Eq)]
pub struct TileClip {
    pub pad_off: (usize, usize),
    pub dest_off: (usize, usize),
    pub width: usize,
    pub height: usize,
}

/// The larger of two integers.
pub open spec fn max_of(a: int, b: int) -> int {
    if a >= b { a } else { b }
}

/// The smaller of two integers.
pub open spec fn min_of(a: int, b: int) -> int {
    if a <= b { a } else { b }
}

/// Where the overlap of `[a, a + a_len)` and `[b, b + b_len)` starts.
pub open spec fn overlap_start(a: int, b: int) -> int {
    max_of(a, b)
}

/// Where the overlap of `[a, a + a_len)` and `[b, b + b_len)` ends.
pub open spec fn overlap_end(a: int, a_len: int, b: int, b_len: int) -> int {
    min_of(a + a_len, b + b_len)
}

/// Whether the tile and the crop have a pixel in common.
pub open spec fn tile_meets_crop(
    tile_x: int,
    tile_y: int,
    tile_w: int,
    tile_h: int,
    crop_x: int,
    crop_y: int,
    crop_w: int,
    crop_h: int,
) -> bool {
    &&& overlap_start(tile_x, crop_x) < overlap_end(tile_x, tile_w, crop_x, crop_w)
    &&& overlap_start(tile_y, crop_y) < overlap_end(tile_y, tile_h, crop_y, crop_h)
}

/// The clip of a tile that meets the crop.
pub open spec fn clip_of(
    tile_x: int,
    tile_y: int,
    tile_w: int,
    tile_h: int,
    pad: (int, int),
    crop_x: int,
    crop_y: int,
    crop_w: int,
    crop_h: int,
) -> ((int, int), (int, int), int, int) {
    let x0 = overlap_start(tile_x, crop_x);
    let y0 = overlap_start(tile_y, crop_y);
    (
        (pad.0 + (x0 - tile_x), pad.1 + (y0 - tile_y)),
        (x0 - crop_x, y0 - crop_y),
        overlap_end(tile_x, tile_w, crop_x, crop_w) - x0,
        overlap_end(tile_y, tile_h, crop_y, crop_h) - y0,
    )
}

impl TileClip {
    /// The clip's numbers: padded offset, destination offset, width, height.
    pub open spec fn numbers(self) -> ((int, int), (int, int), int, int) {
        (
            (self.pad_off.0 as int, self.pad_off.1 as int),
            (self.dest_off.0 as int, self.dest_off.1 as int),
            self.width as int,
            self.height as int,
        )
    }
}

/// Clips a tile's interior rectangle `(tile_x, tile_y, tile_w, tile_h)`
/// against the crop rectangle, both in image coordinates. `pad_off_in_tile`
/// is where the interior begins within the tile's padded buffer.
///
/// `None` when the interior and the crop have no pixel in common.
pub fn clip_tile_to_crop(
    tile_x: usize,
    tile_y: usize,
    tile_w: usize,
    tile_h: usize,
    pad_off_in_tile: (usize, usize),
    crop_x: usize,
    crop_y: usize,
    crop_w: usize,
    crop_h: usize,
) -> (r: Option<TileClip>)
    requires
        tile_x + tile_w <= usize::MAX,
        tile_y + tile_h <= usize::MAX,
        crop_x + crop_w <= usize::MAX,
        crop_y + crop_h <= usize::MAX,
        tile_meets_crop(
            tile_x as int,
            tile_y as int,
            tile_w as int,
            tile_h as int,
            crop_x as int,
            crop_y as int,
            crop_w as int,
            crop_h as int,
        ) ==> {
            &&& pad_off_in_tile.0 + (max_of(tile_x as int, crop_x as int) - tile_x) <= usize::MAX
            &&& pad_off_in_tile.1 + (max_of(tile_y as int, crop_y as int) - tile_y) <= usize::MAX
        },
    ensures
        r is Some <==> tile_meets_crop(
            tile_x as int,
            tile_y as int,
            tile_w as int,
            tile_h as int,
            crop_x as int,
            crop_y as int,
            crop_w as int,
            crop_h as int,
        ),
        r matches Some(c) ==> c.numbers() == clip_of(
            tile_x as int,
            tile_y as int,
            tile_w as int,
            tile_h as int,
            (pad_off_in_tile.0 as int, pad_off_in_tile.1 as int),
            crop_x as int,
            crop_y as int,
            crop_w as int,
            crop_h as int,
        ),
{
    let ix0: usize = if tile_x >= crop_x { tile_x } else { crop_x };
    let iy0: usize = if tile_y >= crop_y { tile_y } else { crop_y };
    let tile_x1: usize = tile_x + tile_w;
    let tile_y1: usize = tile_y + tile_h;
    let crop_x1: usize = crop_x + crop_w;
    let crop_y1: usize = crop_y + crop_h;
    let ix1: usize = if tile_x1 <= crop_x1 { tile_x1 } else { crop_x1 };
    let iy1: usize = if tile_y1 <= crop_y1 { tile_y1 } else { crop_y1 };
    if ix0 >= ix1 || iy0 >= iy1 {
        return None;
    }
    Some(
        TileClip {
            pad_off: (pad_off_in_tile.0 + (ix0 - tile_x), pad_off_in_tile.1 + (iy0 - tile_y)),
            dest_off: (ix0 - crop_x, iy0 - crop_y),
            width: ix1 - ix0,
            height: iy1 - iy0,
        },
    )
}

/// A clip holds exactly the pixels that the tile and the crop share: a pixel
/// of the image lies in both rectangles exactly when it lies in the clip's
/// destination rectangle, shifted back by the crop's origin. A tile and a
/// crop without a common pixel have no clip.
pub proof fn law_clip_is_intersection(
    tile_x: int,
    tile_y: int,
    tile_w: int,
    tile_h: int,
    pad: (int, int),
    crop_x: int,
    crop_y: int,
    crop_w: int,
    crop_h: int,
    x: int,
    y: int,
)
    ensures
        in_rect(x, y, tile_x, tile_y, tile_w, tile_h) && in_rect(
            x,
            y,
            crop_x,
            crop_y,
            crop_w,
            crop_h,
        ) ==> tile_meets_crop(tile_x, tile_y, tile_w, tile_h, crop_x, crop_y, crop_w, crop_h),
        ({
            let c = clip_of(
                tile_x,
                tile_y,
                tile_w,
                tile_h,
                pad,
                crop_x,
                crop_y,
                crop_w,
                crop_h,
            );
            (in_rect(x, y, tile_x, tile_y, tile_w, tile_h) && in_rect(
                x,
                y,
                crop_x,
                crop_y,
                crop_w,
                crop_h,
            )) <==> in_rect(x - crop_x, y - crop_y, c.1.0, c.1.1, c.2, c.3)
        }),
{
}

/// A clip stays inside the cropped output, and its source pixels stay inside
/// the tile's interior within the padded buffer.
pub proof fn law_clip_in_bounds(
    tile_x: int,
    tile_y: int,
    tile_w: int,
    tile_h: int,
    pad: (int, int),
    crop_x: int,
    crop_y: int,
    crop_w: int,
    crop_h: int,
)
    requires
        tile_meets_crop(tile_x, tile_y, tile_w, tile_h, crop_x, crop_y, crop_w, crop_h),
    ensures
        ({
            let c = clip_of(
                tile_x,
                tile_y,
                tile_w,
                tile_h,
                pad,
                crop_x,
                crop_y,
                crop_w,
                crop_h,
            );
            &&& 0 <= c.1.0 && c.1.0 + c.2 <= crop_w
            &&& 0 <= c.1.1 && c.1.1 + c.3 <= crop_h
            &&& pad.0 <= c.0.0 && c.0.0 + c.2 <= pad.0 + tile_w
            &&& pad.1 <= c.0.1 && c.0.1 + c.3 <= pad.1 + tile_h
        }),
{
}

/// A clip keeps each pixel in its place: the pixel `(x, y)` that a tile and a
/// crop share is read from where the tile's padded buffer holds it, and written
/// to where the cropped output has it. Both rectangles of the clip start at the
/// same image pixel.
pub proof fn law_clip_moves_no_pixel(
    tile_x: int,
    tile_y: int,
    tile_w: int,
    tile_h: int,
    pad: (int, int),
    crop_x: int,
    crop_y: int,
    crop_w: int,
    crop_h: int,
    x: int,
    y: int,
)
    ensures
        ({
            let c = clip_of(
                tile_x,
                tile_y,
                tile_w,
                tile_h,
                pad,
                crop_x,
                crop_y,
                crop_w,
                crop_h,
            );
            &&& c.0.0 + ((x - crop_x) - c.1.0) == pad.0 + (x - tile_x)
            &&& c.0.1 + ((y - crop_y) - c.1.1) == pad.1 + (y - tile_y)
        }),
        tile_meets_crop(tile_x, tile_y, tile_w, tile_h, crop_x, crop_y, crop_w, crop_h) <==> exists|
            p: int,
            q: int,
        |
            #[trigger] in_rect(p, q, tile_x, tile_y, tile_w, tile_h) && in_rect(
                p,
                q,
                crop_x,
                crop_y,
                crop_w,
                crop_h,
            ),
{
    if tile_meets_crop(tile_x, tile_y, tile_w, tile_h, crop_x, crop_y, crop_w, crop_h) {
        let p = if tile_x >= crop_x { tile_x } else { crop_x };
        let q = if tile_y >= crop_y { tile_y } else { crop_y };
        assert(in_rect(p, q, tile_x, tile_y, tile_w, tile_h));
    }
}

/// Crops an interleaved pixel buffer (rows of `full_w * channels` samples) to
/// the rectangle `(cx, cy, cw, ch)`.
pub fn crop_interleaved<T: Copy>(
    src: &[T],
    full_w: usize,
    channels: usize,
    cx: usize,
    cy: usize,
    cw: usize,
    ch: usize,
) -> (out: Vec<T>)
    requires
        ch > 0 ==> ((cy + ch - 1) * full_w + cx) * channels + cw * channels <= src@.len(),
        ch > 0 ==> (cy + ch - 1) * full_w + cx <= usize::MAX,
        ch > 0 ==> full_w * channels <= usize::MAX,
        (cw * channels) * ch <= usize::MAX,
    ensures
        out@.len() == ch * (cw * channels),
        forall|row: int, i: int|
            0 <= row < ch && 0 <= i < cw * channels ==> #[trigger] cell(
                out@,
                cw * channels,
                row,
                i,
            ) == cell(src@, full_w * channels, cy + row, cx * channels + i),
{
    if ch == 0 {
        return Vec::new();
    }
    let total: usize = src.len();
    proof {
        lemma_crop_offsets(full_w as int, channels as int, cx as int, cy as int, ch as int);
        assert(cw * channels <= (cw * channels) * ch) by (nonlinear_arith)
            requires
                0 <= cw * channels,
                1 <= ch,
        ;
        assert(0 <= cw * channels) by (nonlinear_arith)
            requires
                0 <= cw,
                0 <= channels,
        ;
        assert((cw * channels) * ch == ch * (cw * channels)) by (nonlinear_arith);
    }
    let step: usize = full_w * channels;
    let len: usize = cw * channels;
    let first: usize = (cy * full_w + cx) * channels;
    let out = gather_rows(src, first, step, ch, len);
    proof {
        assert forall|row: int, i: int| 0 <= row < ch && 0 <= i < cw * channels implies #[trigger] cell(
            out@,
            cw * channels,
            row,
            i,
        ) == cell(src@, full_w * channels, cy + row, cx * channels + i) by {
            assert(first + row * step == (cy + row) * (full_w * channels) + cx * channels)
                by (nonlinear_arith)
                requires
                    first == (cy * full_w + cx) * channels,
                    step == full_w * channels,
            ;
        }
    }
    out
}

proof fn lemma_crop_offsets(full_w: int, channels: int, cx: int, cy: int, ch: int)
    requires
        0 <= full_w,
        0 <= channels,
        0 <= cx,
        0 <= cy,
        1 <= ch,
    ensures
        ((cy + ch - 1) * full_w + cx) * channels == (cy * full_w + cx) * channels + (ch - 1) * (
        full_w * channels),
        0 <= cy * full_w + cx <= (cy + ch - 1) * full_w + cx,
        0 <= cy * full_w,
        0 <= (cy * full_w + cx) * channels <= ((cy + ch - 1) * full_w + cx) * channels,
        channels >= 1 ==> cy * full_w + cx <= (cy * full_w + cx) * channels,
{
    assert(((cy + ch - 1) * full_w + cx) * channels == (cy * full_w + cx) * channels + (ch - 1) * (
    full_w * channels)) by (nonlinear_arith);
    assert(0 <= cy * full_w <= (cy + ch - 1) * full_w) by (nonlinear_arith)
        requires
            0 <= full_w,
            0 <= cy,
            1 <= ch,
    ;
    assert(0 <= (ch - 1) * (full_w * channels)) by (nonlinear_arith)
        requires
            0 <= full_w,
            0 <= channels,
            1 <= ch,
    ;
    assert(0 <= (cy * full_w + cx) * channels) by (nonlinear_arith)
        requires
            0 <= cy * full_w + cx,
            0 <= channels,
    ;
    if channels >= 1 {
        assert(cy * full_w + cx <= (cy * full_w + cx) * channels) by (nonlinear_arith)
            requires
                0 <= cy * full_w + cx,
                1 <= channels,
        ;
    }
}

/// Cropping moves no pixel: row `y` and column `x` of the crop hold the samples
/// of the row and column that far from the crop's corner.
pub proof fn law_cropping_moves_no_pixel<T: Copy>(
    src: &[T],
    full_w: usize,
    channels: usize,
    cx: usize,
    cy: usize,
    cw: usize,
    ch: usize,
    out: Vec<T>,
    x: int,
    y: int,
    c: int,
)
    requires
        call_ensures(crop_interleaved::<T>, (src, full_w, channels, cx, cy, cw, ch), out),
        0 <= x < cw,
        0 <= y < ch,
        0 <= c < channels,
    ensures
        out@.len() == ch * (cw * channels),
        out@[(y * cw + x) * channels + c] == src@[((cy + y) * full_w + (cx + x)) * channels + c],
{
    let i = x * channels + c;
    assert(0 <= i < cw * channels) by (nonlinear_arith)
        requires
            i == x * channels + c,
            0 <= x < cw,
            0 <= c < channels,
    ;
    assert(cell(out@, cw * channels, y, i) == cell(
        src@,
        full_w * channels,
        cy + y,
        cx * channels + i,
    ));
    assert(y * (cw * channels) + i == (y * cw + x) * channels + c) by (nonlinear_arith)
        requires
            i == x * channels + c,
    ;
    assert((cy + y) * (full_w * channels) + (cx * channels + i) == ((cy + y) * full_w + (cx + x))
        * channels + c) by (nonlinear_arith)
        requires
            i == x * channels + c,
    ;
}

} // verus!
