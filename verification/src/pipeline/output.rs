//! Writing the result: pasting fused tiles, and what is saved in the end.

use vstd::prelude::*;
use crate::grid::{cell, in_rect, lemma_cell_index, lemma_cell_unique};
use crate::paths::{
    extension_of, file_name, folded, folded_extension, opt_text, portable, reads_folded,
};
use crate::pipeline::clip::{crop_interleaved, CropRect};
use crate::pipeline::fusion::TilePaste;
use crate::pipeline::select::FusionMode;
use crate::text::same;

verus! {

/// Whether a lower-case extension stands for a format with 16 bits per
/// sample.
pub open spec fn is_deep_extension(ext: Option<Seq<char>>) -> bool {
    ext == Some("png"@) || ext == Some("tif"@) || ext == Some("tiff"@)
}

/// Whether a lower-case extension stands for JPEG.
pub open spec fn is_jpeg_extension(ext: Option<Seq<char>>) -> bool {
    ext == Some("jpg"@) || ext == Some("jpeg"@)
}

/// The lower-case extension of a portable path.
pub open spec fn output_extension(path: Seq<char>) -> Option<Seq<char>> {
    folded(extension_of(file_name(path)))
}

/// Whether a file with this lower-case extension can hold 16-bit samples.
pub fn deep_extension(ext: &Option<String>) -> (r: bool)
    ensures
        r == is_deep_extension(opt_text(*ext)),
{
    match ext {
        Some(e) => same(e.as_str(), "png") || same(e.as_str(), "tif") || same(e.as_str(), "tiff"),
        None => false,
    }
}

/// Whether a file with this lower-case extension is a JPEG file.
pub fn jpeg_extension(ext: &Option<String>) -> (r: bool)
    ensures
        r == is_jpeg_extension(opt_text(*ext)),
{
    match ext {
        Some(e) => same(e.as_str(), "jpg") || same(e.as_str(), "jpeg"),
        None => false,
    }
}

/// Whether the output path's extension implies a format that can hold 16-bit
/// samples.
pub fn supports_16bit_output(path: &str) -> (r: bool)
    ensures
        exists|ext: Option<Seq<char>>| #[trigger]
            reads_folded(path@, ext) && r == is_deep_extension(ext),
        portable(path@) ==> r == is_deep_extension(output_extension(path@)),
{
    deep_extension(&folded_extension(path))
}

/// Whether the output path's extension is one of JPEG's.
pub fn is_jpeg_output(path: &str) -> (r: bool)
    ensures
        exists|ext: Option<Seq<char>>| #[trigger]
            reads_folded(path@, ext) && r == is_jpeg_extension(ext),
        portable(path@) ==> r == is_jpeg_extension(output_extension(path@)),
{
    jpeg_extension(&folded_extension(path))
}

/// Whether output pixel `(x, y)` lies in the destination of the paste.
pub open spec fn is_pasted(p: TilePaste, x: int, y: int) -> bool {
    in_rect(x, y, p.dest.0 as int, p.dest.1 as int, p.width as int, p.height as int)
}

/// Whether the paste reads inside a tile of that size and writes inside an
/// output of that size.
pub open spec fn paste_fits(p: TilePaste, tile_w: int, tile_h: int, out_w: int, out_h: int) -> bool {
    &&& p.pad_off.0 + p.width <= tile_w
    &&& p.pad_off.1 + p.height <= tile_h
    &&& p.dest.0 + p.width <= out_w
    &&& p.dest.1 + p.height <= out_h
}

/// Sample `c` of pixel `(x, y)` of an interleaved RGB image.
pub open spec fn sample_at<T>(pixels: Seq<T>, width: int, x: int, y: int, c: int) -> T {
    cell(pixels, width * 3, y, x * 3 + c)
}

/// Whether `after` is `before` with the tile's rectangle written into it:
/// pixels in the destination are the tile's, all others stay.
pub open spec fn is_paste_result<T>(
    before: Seq<T>,
    after: Seq<T>,
    out_w: int,
    out_h: int,
    tile: Seq<T>,
    tile_w: int,
    p: TilePaste,
) -> bool {
    &&& after.len() == before.len()
    &&& forall|x: int, y: int, c: int|
        0 <= x < out_w && 0 <= y < out_h && 0 <= c < 3 ==> #[trigger] sample_at(
            after,
            out_w,
            x,
            y,
            c,
        ) == (if is_pasted(p, x, y) {
            sample_at(
                tile,
                tile_w,
                x - p.dest.0 + p.pad_off.0,
                y - p.dest.1 + p.pad_off.1,
                c,
            )
        } else {
            sample_at(before, out_w, x, y, c)
        })
}

/// Writes a rectangle of a fused tile into the output. Both hold interleaved
/// RGB samples.
pub fn paste_tile<T: Copy>(
    output: &mut Vec<T>,
    out_w: usize,
    out_h: usize,
    tile: &Vec<T>,
    tile_w: usize,
    tile_h: usize,
    p: TilePaste,
)
    requires
        old(output)@.len() == out_h * (out_w * 3),
        tile@.len() == tile_h * (tile_w * 3),
        paste_fits(p, tile_w as int, tile_h as int, out_w as int, out_h as int),
    ensures
        is_paste_result(
            old(output)@,
            final(output)@,
            out_w as int,
            out_h as int,
            tile@,
            tile_w as int,
            p,
        ),
{
    let ghost initial = output@;
    let out_len: usize = output.len();
    let tile_len: usize = tile.len();
    let mut oy: usize = 0;
    while oy < p.height
        invariant
            oy <= p.height,
            initial == old(output)@,
            output@.len() == initial.len(),
            out_len == output@.len(),
            tile_len == tile@.len(),
            initial.len() == out_h * (out_w * 3),
            tile@.len() == tile_h * (tile_w * 3),
            paste_fits(p, tile_w as int, tile_h as int, out_w as int, out_h as int),
            forall|x: int, y: int, c: int|
                0 <= x < out_w && 0 <= y < out_h && 0 <= c < 3 ==> #[trigger] sample_at(
                    output@,
                    out_w as int,
                    x,
                    y,
                    c,
                ) == (if is_pasted(p, x, y) && y < p.dest.1 + oy {
                    sample_at(
                        tile@,
                        tile_w as int,
                        x - p.dest.0 + p.pad_off.0,
                        y - p.dest.1 + p.pad_off.1,
                        c,
                    )
                } else {
                    sample_at(initial, out_w as int, x, y, c)
                }),
        decreases p.height - oy,
    {
        let dy: usize = p.dest.1 + oy;
        let sy: usize = p.pad_off.1 + oy;
        if p.width > 0 {
            proof {
                lemma_row_in_image(dy as int, p.dest.0 + p.width - 1, out_h as int, out_w as int);
                lemma_row_in_image(
                    sy as int,
                    p.pad_off.0 + p.width - 1,
                    tile_h as int,
                    tile_w as int,
                );
            }
            let out_row: usize = dy * (out_w * 3) + p.dest.0 * 3;
            let tile_row: usize = sy * (tile_w * 3) + p.pad_off.0 * 3;
            let ghost before = output@;
            let n: usize = p.width * 3;
            let mut i: usize = 0;
            while i < n
                invariant
                    i <= n,
                    n == p.width * 3,
                    out_row == dy * (out_w * 3) + p.dest.0 * 3,
                    tile_row == sy * (tile_w * 3) + p.pad_off.0 * 3,
                    out_row + n <= output@.len(),
                    tile_row + n <= tile@.len(),
                    output@.len() == before.len(),
                    out_len == output@.len(),
                    tile_len == tile@.len(),
                    forall|k: int|
                        0 <= k < output@.len() ==> #[trigger] output@[k] == (if out_row <= k
                            < out_row + i {
                            tile@[k - out_row + tile_row]
                        } else {
                            before[k]
                        }),
                decreases n - i,
            {
                output[out_row + i] = tile[tile_row + i];
                i = i + 1;
            }
            proof {
                assert forall|x: int, y: int, c: int|
                    0 <= x < out_w && 0 <= y < out_h && 0 <= c < 3 implies #[trigger] sample_at(
                    output@,
                    out_w as int,
                    x,
                    y,
                    c,
                ) == (if is_pasted(p, x, y) && y < p.dest.1 + oy + 1 {
                    sample_at(
                        tile@,
                        tile_w as int,
                        x - p.dest.0 + p.pad_off.0,
                        y - p.dest.1 + p.pad_off.1,
                        c,
                    )
                } else {
                    sample_at(initial, out_w as int, x, y, c)
                }) by {
                    let col = x * 3 + c;
                    let k = y * (out_w * 3) + col;
                    lemma_cell_index(y, col, out_h as int, out_w * 3);
                    assert(sample_at(before, out_w as int, x, y, c) == before[k]);
                    if out_row <= k < out_row + n {
                        let other = k - dy * (out_w * 3);
                        lemma_cell_unique(y, col, dy as int, other, out_w * 3);
                    }
                }
            }
        } else {
            proof {
                assert(forall|x: int, y: int| !is_pasted(p, x, y));
            }
        }
        oy = oy + 1;
    }
}

/// The last pixel of a row lies inside an interleaved RGB image.
proof fn lemma_row_in_image(y: int, x: int, h: int, w: int)
    requires
        0 <= y < h,
        0 <= x < w,
    ensures
        0 <= y * (w * 3),
        y * (w * 3) + x * 3 + 3 <= h * (w * 3),
        w * 3 <= h * (w * 3),
{
    lemma_cell_index(y, x * 3 + 2, h, w * 3);
    assert(w * 3 <= h * (w * 3)) by (nonlinear_arith)
        requires
            1 <= h,
            0 <= w,
    ;
}

/// Writes a rectangle of a fused tile into an 8-bit output.
pub fn paste_tile_to_rgb8(
    output: &mut Vec<u8>,
    out_w: usize,
    out_h: usize,
    tile: &Vec<u8>,
    tile_w: usize,
    tile_h: usize,
    p: TilePaste,
)
    requires
        old(output)@.len() == out_h * (out_w * 3),
        tile@.len() == tile_h * (tile_w * 3),
        paste_fits(p, tile_w as int, tile_h as int, out_w as int, out_h as int),
    ensures
        is_paste_result(
            old(output)@,
            final(output)@,
            out_w as int,
            out_h as int,
            tile@,
            tile_w as int,
            p,
        ),
{
    paste_tile(output, out_w, out_h, tile, tile_w, tile_h, p)
}

/// Writes a rectangle of a fused tile into a 16-bit output.
pub fn paste_tile_to_rgb16(
    output: &mut Vec<u16>,
    out_w: usize,
    out_h: usize,
    tile: &Vec<u16>,
    tile_w: usize,
    tile_h: usize,
    p: TilePaste,
)
    requires
        old(output)@.len() == out_h * (out_w * 3),
        tile@.len() == tile_h * (tile_w * 3),
        paste_fits(p, tile_w as int, tile_h as int, out_w as int, out_h as int),
    ensures
        is_paste_result(
            old(output)@,
            final(output)@,
            out_w as int,
            out_h as int,
            tile@,
            tile_w as int,
            p,
        ),
{
    paste_tile(output, out_w, out_h, tile, tile_w, tile_h, p)
}

/// Size of the buffer that fusion writes into: the full canvas where whole
/// images are fused, the crop's size otherwise.
pub open spec fn buffer_size(
    mode: FusionMode,
    img_w: usize,
    img_h: usize,
    crop: Option<CropRect>,
) -> (usize, usize) {
    if mode == FusionMode::Apex {
        (img_w, img_h)
    } else {
        match crop {
            Some(c) => (c.width, c.height),
            None => (img_w, img_h),
        }
    }
}

/// Size of the buffer that fusion writes into.
pub fn output_size(mode: FusionMode, img_w: usize, img_h: usize, crop: Option<CropRect>) -> (r: (
    usize,
    usize,
))
    ensures
        r == buffer_size(mode, img_w, img_h, crop),
{
    if mode == FusionMode::Apex {
        (img_w, img_h)
    } else {
        match crop {
            Some(c) => (c.width, c.height),
            None => (img_w, img_h),
        }
    }
}

/// Whether the output is written with 16 bits per sample.
pub fn uses_16bit(path: &str, bit_depth: u32) -> (r: bool)
    ensures
        exists|ext: Option<Seq<char>>| #[trigger]
            reads_folded(path@, ext) && r == (bit_depth == 16 && is_deep_extension(ext)),
        portable(path@) ==> r == (bit_depth == 16 && is_deep_extension(output_extension(path@))),
{
    supports_16bit_output(path) && bit_depth == 16
}

/// What happens to the fused buffer before it is saved.
#[derive(Debug, Clone, Copy, PartialEq, Eq)]
pub struct SavePlan {
    /// The part of the buffer that is saved, `None` for all of it.
    pub crop: Option<CropRect>,
    /// Size of the part that is saved.
    pub width: usize,
    pub height: usize,
    /// The size that the part is resampled to.
    pub resize: Option<(u32, u32)>,
}

/// The part of the buffer that is saved, as a rectangle of it.
pub open spec fn saved_rect(
    mode: FusionMode,
    img_w: usize,
    img_h: usize,
    crop: Option<CropRect>,
) -> CropRect {
    let size = buffer_size(mode, img_w, img_h, crop);
    if mode == FusionMode::Apex && crop is Some {
        crop->0
    } else {
        CropRect { x: 0, y: 0, width: size.0, height: size.1 }
    }
}

/// What happens to the fused buffer before it is saved: a whole-image result
/// is cut to the crop, and a result smaller than the canvas is resampled back
/// to it where both settings ask for that.
pub fn save_plan(
    mode: FusionMode,
    img_w: usize,
    img_h: usize,
    crop: Option<CropRect>,
    crop_to_common_area: bool,
    resize_cropped_to_original: bool,
) -> (r: SavePlan)
    requires
        img_w <= u32::MAX,
        img_h <= u32::MAX,
    ensures
        ({
            let rect = saved_rect(mode, img_w, img_h, crop);
            let size = buffer_size(mode, img_w, img_h, crop);
            let full = CropRect { x: 0, y: 0, width: size.0, height: size.1 };
            &&& r.crop == (if rect == full {
                None::<CropRect>
            } else {
                Some(rect)
            })
            &&& r.width == rect.width
            &&& r.height == rect.height
            &&& r.resize == (if crop_to_common_area && resize_cropped_to_original && !(rect.width
                == img_w && rect.height == img_h) {
                Some((img_w as u32, img_h as u32))
            } else {
                None::<(u32, u32)>
            })
        }),
{
    let (buf_w, buf_h) = output_size(mode, img_w, img_h, crop);
    let rect = match crop {
        Some(c) => if mode == FusionMode::Apex {
            c
        } else {
            CropRect { x: 0, y: 0, width: buf_w, height: buf_h }
        },
        None => CropRect { x: 0, y: 0, width: buf_w, height: buf_h },
    };
    let whole = rect.x == 0 && rect.y == 0 && rect.width == buf_w && rect.height == buf_h;
    let resize = if crop_to_common_area && resize_cropped_to_original && !(rect.width == img_w
        && rect.height == img_h) {
        Some((img_w as u32, img_h as u32))
    } else {
        None
    };
    SavePlan {
        crop: if whole {
            None
        } else {
            Some(rect)
        },
        width: rect.width,
        height: rect.height,
        resize,
    }
}

/// Size of the saved image under a plan.
pub open spec fn saved_size(plan: SavePlan) -> (int, int) {
    match plan.resize {
        Some(size) => (size.0 as int, size.1 as int),
        None => (plan.width as int, plan.height as int),
    }
}

/// What is kept of the canvas does not depend on how the image was fused: a
/// whole-image run and a tiled run over the same canvas and crop keep the same
/// size, the crop's or, where there is none, the canvas's.
pub proof fn law_saved_size_same_for_all_modes(
    a: FusionMode,
    b: FusionMode,
    img_w: usize,
    img_h: usize,
    crop: Option<CropRect>,
)
    ensures
        saved_rect(a, img_w, img_h, crop).width == saved_rect(b, img_w, img_h, crop).width,
        saved_rect(a, img_w, img_h, crop).height == saved_rect(b, img_w, img_h, crop).height,
        saved_rect(a, img_w, img_h, crop).width == (match crop {
            Some(c) => c.width,
            None => img_w,
        }),
        saved_rect(a, img_w, img_h, crop).height == (match crop {
            Some(c) => c.height,
            None => img_h,
        }),
{
}

/// Largest image side that is resampled.
pub const MAX_RESIZE_SIDE: u32 = 0x80_0000;

/// Whether an image can be resampled between these sizes: its sides stay in
/// the range where single precision holds every pixel centre, and neither the
/// intermediate image nor the result has more samples than memory can address.
pub open spec fn can_resize(w: int, h: int, new_w: int, new_h: int) -> bool {
    &&& w <= MAX_RESIZE_SIDE && h <= MAX_RESIZE_SIDE
    &&& new_w <= MAX_RESIZE_SIDE && new_h <= MAX_RESIZE_SIDE
    &&& w * new_h * 4 <= usize::MAX
    &&& new_w * new_h * 3 <= usize::MAX
}

/// Whether `to` may be `from` resampled to another size: it has the new size;
/// a size that stays leaves the samples as they are; an image without pixels
/// gives a black one.
pub open spec fn is_resampled<T>(
    from: Seq<T>,
    w: int,
    h: int,
    to: Seq<T>,
    new_w: int,
    new_h: int,
    black: T,
) -> bool {
    &&& to.len() == new_w * new_h * 3
    &&& w > 0 && h > 0 && new_w == w && new_h == h ==> to == from
    &&& w == 0 || h == 0 ==> forall|i: int| 0 <= i < to.len() ==> #[trigger] to[i] == black
}

/// `image::imageops::resize` with the Lanczos filter, on an 8-bit RGB image:
/// the result has the size asked for, an unchanged size copies the image, and
/// an image without pixels gives a black one. Which values the filter yields
/// is not stated: they come out of floating-point sines.
#[verifier::external_body]
fn resize_rgb8(pixels: Vec<u8>, w: u32, h: u32, new_w: u32, new_h: u32) -> (r: Vec<u8>)
    requires
        pixels@.len() == w * h * 3,
        can_resize(w as int, h as int, new_w as int, new_h as int),
    ensures
        is_resampled(pixels@, w as int, h as int, r@, new_w as int, new_h as int, 0u8),
{
    let image = image::ImageBuffer::<image::Rgb<u8>, Vec<u8>>::from_raw(w, h, pixels).unwrap();
    image::imageops::resize(&image, new_w, new_h, image::imageops::FilterType::Lanczos3).into_raw()
}

/// `image::imageops::resize` with the Lanczos filter, on a 16-bit RGB image:
/// the result has the size asked for, an unchanged size copies the image, and
/// an image without pixels gives a black one. Which values the filter yields
/// is not stated: they come out of floating-point sines.
#[verifier::external_body]
fn resize_rgb16(pixels: Vec<u16>, w: u32, h: u32, new_w: u32, new_h: u32) -> (r: Vec<u16>)
    requires
        pixels@.len() == w * h * 3,
        can_resize(w as int, h as int, new_w as int, new_h as int),
    ensures
        is_resampled(pixels@, w as int, h as int, r@, new_w as int, new_h as int, 0u16),
{
    let image = image::ImageBuffer::<image::Rgb<u16>, Vec<u16>>::from_raw(w, h, pixels).unwrap();
    image::imageops::resize(&image, new_w, new_h, image::imageops::FilterType::Lanczos3).into_raw()
}

/// Whether `out` is an outcome of [`resize_rgb8`] for the 8-bit RGB image
/// `part`: that image, resampled with the Lanczos filter.
pub closed spec fn is_resize_of8(
    part: Seq<u8>,
    w: u32,
    h: u32,
    new_w: u32,
    new_h: u32,
    out: Seq<u8>,
) -> bool {
    exists|p: Vec<u8>, o: Vec<u8>|
        p@ == part && o@ == out && #[trigger] call_ensures(
            resize_rgb8,
            (p, w, h, new_w, new_h),
            o,
        )
}

/// Whether `out` is an outcome of [`resize_rgb16`] for the 16-bit RGB image
/// `part`: that image, resampled with the Lanczos filter.
pub closed spec fn is_resize_of16(
    part: Seq<u16>,
    w: u32,
    h: u32,
    new_w: u32,
    new_h: u32,
    out: Seq<u16>,
) -> bool {
    exists|p: Vec<u16>, o: Vec<u16>|
        p@ == part && o@ == out && #[trigger] call_ensures(
            resize_rgb16,
            (p, w, h, new_w, new_h),
            o,
        )
}

/// Whether a plan fits a buffer of that size.
pub open spec fn plan_fits(plan: SavePlan, buf_w: int, buf_h: int) -> bool {
    &&& match plan.crop {
        Some(c) => {
            &&& c.width == plan.width
            &&& c.height == plan.height
            &&& c.x + c.width <= buf_w
            &&& c.y + c.height <= buf_h
        },
        None => plan.width == buf_w && plan.height == buf_h,
    }
    &&& plan.resize matches Some(size) ==> can_resize(
        plan.width as int,
        plan.height as int,
        size.0 as int,
        size.1 as int,
    )
}

/// The samples of a buffer that a plan keeps.
pub open spec fn is_kept_part<T>(plan: SavePlan, buf: Seq<T>, buf_w: int, part: Seq<T>) -> bool {
    match plan.crop {
        None => part == buf,
        Some(rect) => {
            &&& part.len() == rect.height * (rect.width * 3)
            &&& forall|x: int, y: int, c: int|
                0 <= x < rect.width && 0 <= y < rect.height && 0 <= c < 3 ==> #[trigger] sample_at(
                    part,
                    rect.width as int,
                    x,
                    y,
                    c,
                ) == sample_at(buf, buf_w, rect.x + x, rect.y + y, c)
        },
    }
}

/// Whether `saved` is what a plan makes of a buffer: the part it keeps, and,
/// where it resamples, that part resampled.
pub open spec fn is_saved_image<T>(
    plan: SavePlan,
    buf: Seq<T>,
    buf_w: int,
    saved: Seq<T>,
    black: T,
) -> bool {
    match plan.resize {
        None => is_kept_part(plan, buf, buf_w, saved),
        Some(size) => exists|part: Seq<T>|
            #[trigger] is_kept_part(plan, buf, buf_w, part) && is_resampled(
                part,
                plan.width as int,
                plan.height as int,
                saved,
                size.0 as int,
                size.1 as int,
                black,
            ),
    }
}

fn keep_part<T: Copy>(plan: &SavePlan, buf: Vec<T>, buf_w: usize, buf_h: usize) -> (r: Vec<T>)
    requires
        buf@.len() == buf_h * (buf_w * 3),
        plan_fits(*plan, buf_w as int, buf_h as int),
    ensures
        is_kept_part(*plan, buf@, buf_w as int, r@),
        r@.len() == plan.height * (plan.width * 3),
{
    match plan.crop {
        None => buf,
        Some(rect) => {
            let total: usize = buf.len();
            proof {
                lemma_crop_fits(rect, buf_w as int, buf_h as int, total as int);
            }
            let part = crop_interleaved(
                buf.as_slice(),
                buf_w,
                3,
                rect.x,
                rect.y,
                rect.width,
                rect.height,
            );
            proof {
                assert forall|x: int, y: int, c: int|
                    0 <= x < rect.width && 0 <= y < rect.height && 0 <= c < 3 implies #[trigger] sample_at(
                    part@,
                    rect.width as int,
                    x,
                    y,
                    c,
                ) == sample_at(buf@, buf_w as int, rect.x + x, rect.y + y, c) by {
                    assert(cell(part@, rect.width * 3, y, x * 3 + c) == cell(
                        buf@,
                        buf_w * 3,
                        rect.y + y,
                        rect.x * 3 + (x * 3 + c),
                    ));
                }
            }
            part
        },
    }
}

proof fn lemma_crop_fits(rect: CropRect, buf_w: int, buf_h: int, len: int)
    requires
        len == buf_h * (buf_w * 3),
        len <= usize::MAX,
        rect.x + rect.width <= buf_w,
        rect.y + rect.height <= buf_h,
    ensures
        rect.height > 0 ==> ((rect.y + rect.height - 1) * buf_w + rect.x) * 3 + rect.width * 3
            <= len,
        rect.height > 0 ==> (rect.y + rect.height - 1) * buf_w + rect.x <= len,
        rect.height > 0 ==> buf_w * 3 <= len,
        (rect.width * 3) * rect.height <= usize::MAX,
{
    let last = rect.y + rect.height - 1;
    assert((rect.width * 3) * rect.height <= len) by (nonlinear_arith)
        requires
            0 <= rect.width <= buf_w,
            0 <= rect.height <= buf_h,
            len == buf_h * (buf_w * 3),
    ;
    if rect.height > 0 {
        assert(last * buf_w + buf_w <= buf_h * buf_w) by (nonlinear_arith)
            requires
                last + 1 <= buf_h,
                0 <= buf_w,
        ;
        assert(len == (buf_h * buf_w) * 3) by (nonlinear_arith)
            requires
                len == buf_h * (buf_w * 3),
        ;
        assert(0 <= last * buf_w) by (nonlinear_arith)
            requires
                0 <= last,
                0 <= buf_w,
        ;
    }
}

/// The 8-bit image to save: the fused buffer cut and resampled as planned.
/// Returns its width, height and samples.
pub fn finish_rgb8(buf: Vec<u8>, buf_w: usize, buf_h: usize, plan: SavePlan) -> (r: (
    usize,
    usize,
    Vec<u8>,
))
    requires
        buf@.len() == buf_h * (buf_w * 3),
        plan_fits(plan, buf_w as int, buf_h as int),
    ensures
        (r.0 as int, r.1 as int) == saved_size(plan),
        is_saved_image(plan, buf@, buf_w as int, r.2@, 0u8),
        plan.resize matches Some(size) ==> exists|part: Seq<u8>| #[trigger]
            is_kept_part(plan, buf@, buf_w as int, part) && is_resize_of8(
                part,
                plan.width as u32,
                plan.height as u32,
                size.0,
                size.1,
                r.2@,
            ),
{
    let part = keep_part(&plan, buf, buf_w, buf_h);
    match plan.resize {
        None => (plan.width, plan.height, part),
        Some((rw, rh)) => {
            proof {
                assert(plan.height * (plan.width * 3) == plan.width * plan.height * 3)
                    by (nonlinear_arith);
            }
            let out = resize_rgb8(part, plan.width as u32, plan.height as u32, rw, rh);
            (rw as usize, rh as usize, out)
        },
    }
}

/// The 16-bit image to save: the fused buffer cut and resampled as planned.
/// Returns its width, height and samples.
pub fn finish_rgb16(buf: Vec<u16>, buf_w: usize, buf_h: usize, plan: SavePlan) -> (r: (
    usize,
    usize,
    Vec<u16>,
))
    requires
        buf@.len() == buf_h * (buf_w * 3),
        plan_fits(plan, buf_w as int, buf_h as int),
    ensures
        (r.0 as int, r.1 as int) == saved_size(plan),
        is_saved_image(plan, buf@, buf_w as int, r.2@, 0u16),
        plan.resize matches Some(size) ==> exists|part: Seq<u16>| #[trigger]
            is_kept_part(plan, buf@, buf_w as int, part) && is_resize_of16(
                part,
                plan.width as u32,
                plan.height as u32,
                size.0,
                size.1,
                r.2@,
            ),
{
    let part = keep_part(&plan, buf, buf_w, buf_h);
    match plan.resize {
        None => (plan.width, plan.height, part),
        Some((rw, rh)) => {
            proof {
                assert(plan.height * (plan.width * 3) == plan.width * plan.height * 3)
                    by (nonlinear_arith);
            }
            let out = resize_rgb16(part, plan.width as u32, plan.height as u32, rw, rh);
            (rw as usize, rh as usize, out)
        },
    }
}

/// The JPEG quality that is used: the setting, kept between 1 and 100.
pub fn jpeg_quality(setting: u32) -> (r: u8)
    ensures
        r == (if setting < 1 {
            1int
        } else if setting > 100 {
            100
        } else {
            setting as int
        }),
{
    if setting < 1 {
        1
    } else if setting > 100 {
        100
    } else {
        setting as u8
    }
}

/// A paste moves no pixel: inside its destination the output holds the tile's
/// samples, from the tile's own offset on, and everywhere else what it held
/// before. Samples of a pixel stand side by side, pixels row by row.
pub proof fn law_paste_writes_its_rectangle<T>(
    before: Seq<T>,
    after: Seq<T>,
    out_w: int,
    out_h: int,
    tile: Seq<T>,
    tile_w: int,
    p: TilePaste,
    x: int,
    y: int,
    c: int,
)
    requires
        is_paste_result(before, after, out_w, out_h, tile, tile_w, p),
        0 <= x < out_w,
        0 <= y < out_h,
        0 <= c < 3,
    ensures
        after.len() == before.len(),
        after[(y * out_w + x) * 3 + c] == (if p.dest.0 <= x < p.dest.0 + p.width && p.dest.1 <= y
            < p.dest.1 + p.height {
            tile[((y - p.dest.1 + p.pad_off.1) * tile_w + (x - p.dest.0 + p.pad_off.0)) * 3 + c]
        } else {
            before[(y * out_w + x) * 3 + c]
        }),
{
    let tx = x - p.dest.0 + p.pad_off.0;
    let ty = y - p.dest.1 + p.pad_off.1;
    assert(y * (out_w * 3) + (x * 3 + c) == (y * out_w + x) * 3 + c) by (nonlinear_arith);
    assert(ty * (tile_w * 3) + (tx * 3 + c) == (ty * tile_w + tx) * 3 + c) by (nonlinear_arith);
    assert(sample_at(after, out_w, x, y, c) == after[(y * out_w + x) * 3 + c]);
    assert(sample_at(before, out_w, x, y, c) == before[(y * out_w + x) * 3 + c]);
}

/// Cutting the buffer moves no pixel: what is kept starts at the rectangle's
/// corner, row by row. A plan without a rectangle keeps the buffer as it is.
pub proof fn law_cutting_moves_no_pixel<T>(
    plan: SavePlan,
    buf: Seq<T>,
    buf_w: int,
    part: Seq<T>,
    x: int,
    y: int,
    c: int,
)
    requires
        is_kept_part(plan, buf, buf_w, part),
        0 <= c < 3,
    ensures
        plan.crop is None ==> part == buf,
        plan.crop matches Some(rect) ==> {
            &&& part.len() == rect.height * (rect.width * 3)
            &&& 0 <= x < rect.width && 0 <= y < rect.height ==> part[(y * rect.width + x) * 3 + c]
                == buf[((rect.y + y) * buf_w + (rect.x + x)) * 3 + c]
        },
{
    if let Some(rect) = plan.crop {
        if 0 <= x < rect.width && 0 <= y < rect.height {
            let w = rect.width as int;
            let bx = rect.x + x;
            let by = rect.y + y;
            assert(y * (w * 3) + (x * 3 + c) == (y * w + x) * 3 + c) by (nonlinear_arith);
            assert(by * (buf_w * 3) + (bx * 3 + c) == (by * buf_w + bx) * 3 + c)
                by (nonlinear_arith);
            assert(sample_at(part, w, x, y, c) == part[(y * w + x) * 3 + c]);
        }
    }
}

/// What is saved starts at the crop's corner of the canvas, whatever the mode:
/// a whole-image run writes the canvas and is cut at the crop, a tiled run
/// writes the crop alone and is not cut. Either way it lies inside the buffer.
pub proof fn law_saved_part_starts_at_the_crop(
    mode: FusionMode,
    img_w: usize,
    img_h: usize,
    crop: Option<CropRect>,
)
    requires
        crop matches Some(c) ==> c.x + c.width <= img_w && c.y + c.height <= img_h,
    ensures
        ({
            let size = buffer_size(mode, img_w, img_h, crop);
            let rect = saved_rect(mode, img_w, img_h, crop);
            &&& rect.x + rect.width <= size.0 && rect.y + rect.height <= size.1
            &&& mode == FusionMode::Apex ==> size == (img_w, img_h)
            &&& mode != FusionMode::Apex ==> rect.x == 0 && rect.y == 0 && rect.width == size.0
                && rect.height == size.1
            &&& crop matches Some(c) ==> {
                &&& mode == FusionMode::Apex ==> rect.x == c.x && rect.y == c.y
                &&& rect.width == c.width && rect.height == c.height
            }
            &&& crop is None ==> rect.x == 0 && rect.y == 0 && rect.width == img_w && rect.height
                == img_h
        }),
{
}

/// The saved image has the canvas's size where both settings ask for that, and
/// the crop's otherwise; it is resampled only where the two differ. It is cut
/// only where whole images were fused.
pub proof fn law_save_plan_gives_the_size_asked_for(
    mode: FusionMode,
    img_w: usize,
    img_h: usize,
    crop: Option<CropRect>,
    crop_to_common_area: bool,
    resize_cropped_to_original: bool,
    r: SavePlan,
)
    requires
        img_w <= u32::MAX,
        img_h <= u32::MAX,
        call_ensures(
            save_plan,
            (mode, img_w, img_h, crop, crop_to_common_area, resize_cropped_to_original),
            r,
        ),
    ensures
        crop_to_common_area && resize_cropped_to_original ==> saved_size(r) == (
            img_w as int,
            img_h as int,
        ),
        !(crop_to_common_area && resize_cropped_to_original) ==> saved_size(r) == (match crop {
            Some(c) => (c.width as int, c.height as int),
            None => (img_w as int, img_h as int),
        }),
        r.resize is Some ==> crop_to_common_area && resize_cropped_to_original && !(r.width == img_w
            && r.height == img_h),
        r.crop is Some ==> mode == FusionMode::Apex && r.crop == crop,
        r.crop is None && mode == FusionMode::Apex ==> r.width == img_w && r.height == img_h,
        crop matches Some(c) ==> r.width == c.width && r.height == c.height,
        crop is None ==> r.crop is None && r.resize is None,
{
}

/// A setting between 1 and 100 is the quality that is used; a lower or higher
/// one is taken to the nearer of the two.
pub proof fn law_quality_is_kept_in_range(setting: u32, r: u8)
    requires
        call_ensures(jpeg_quality, (setting,), r),
    ensures
        1 <= r <= 100,
        1 <= setting <= 100 ==> r == setting,
        setting == 0 ==> r == 1,
        setting > 100 ==> r == 100,
{
}

/// A file is written with 16 bits per sample only where that is asked for, and
/// only as PNG or TIFF, by its lower-case extension. JPEG never is.
pub proof fn law_deep_formats(ext: Option<Seq<char>>)
    ensures
        is_deep_extension(ext) <==> ext == Some("png"@) || ext == Some("tif"@) || ext == Some(
            "tiff"@,
        ),
        is_jpeg_extension(ext) <==> ext == Some("jpg"@) || ext == Some("jpeg"@),
        !(is_deep_extension(ext) && is_jpeg_extension(ext)),
{
    reveal_strlit("png");
    reveal_strlit("tif");
    reveal_strlit("tiff");
    reveal_strlit("jpg");
    reveal_strlit("jpeg");
    assert("png"@[0] == 'p' && "tif"@[0] == 't' && "tiff"@[0] == 't' && "jpg"@[0] == 'j'
        && "jpeg"@[0] == 'j');
}

/// Pasting a fused tile writes its rectangle and nothing else, sample by sample.
pub proof fn law_pasting_writes_its_rectangle<T: Copy>(
    output: &mut Vec<T>,
    out_w: usize,
    out_h: usize,
    tile: Vec<T>,
    tile_w: usize,
    tile_h: usize,
    p: TilePaste,
    x: int,
    y: int,
    c: int,
)
    requires
        call_ensures(paste_tile::<T>, (output, out_w, out_h, &tile, tile_w, tile_h, p), ()),
        0 <= x < out_w,
        0 <= y < out_h,
        0 <= c < 3,
    ensures
        final(output)@.len() == old(output)@.len(),
        final(output)@[(y * out_w + x) * 3 + c] == (if p.dest.0 <= x < p.dest.0 + p.width
            && p.dest.1 <= y < p.dest.1 + p.height {
            tile@[((y - p.dest.1 + p.pad_off.1) * tile_w + (x - p.dest.0 + p.pad_off.0)) * 3 + c]
        } else {
            old(output)@[(y * out_w + x) * 3 + c]
        }),
{
    law_paste_writes_its_rectangle(
        old(output)@,
        final(output)@,
        out_w as int,
        out_h as int,
        tile@,
        tile_w as int,
        p,
        x,
        y,
        c,
    );
}

/// The image to save has the size planned and as many samples; where it is not
/// resampled it is the part of the buffer that is kept, unmoved. This holds for
/// 8 and for 16 bits per sample.
pub proof fn law_finished_image_is_the_part_kept(
    buf8: Vec<u8>,
    buf16: Vec<u16>,
    buf_w: usize,
    buf_h: usize,
    plan: SavePlan,
    r: (usize, usize, Vec<u8>),
    q: (usize, usize, Vec<u16>),
)
    requires
        plan_fits(plan, buf_w as int, buf_h as int),
        buf8@.len() == buf_h * (buf_w * 3),
        buf16@.len() == buf_h * (buf_w * 3),
        call_ensures(finish_rgb8, (buf8, buf_w, buf_h, plan), r),
        call_ensures(finish_rgb16, (buf16, buf_w, buf_h, plan), q),
    ensures
        r.0 == q.0 && r.1 == q.1,
        plan.resize is None ==> {
            &&& r.0 == plan.width && r.1 == plan.height
            &&& is_kept_part(plan, buf8@, buf_w as int, r.2@)
            &&& is_kept_part(plan, buf16@, buf_w as int, q.2@)
        },
        plan.resize matches Some(size) ==> {
            &&& r.0 == size.0 && r.1 == size.1
            &&& r.2@.len() == r.0 * r.1 * 3
            &&& q.2@.len() == q.0 * q.1 * 3
        },
{
}

} // verus!
