//! Square crops of planar images.

use vstd::prelude::*;
use crate::grid::append_run;

verus! {

/// A square crop: its first row and column, and its side.
#[derive(Debug, Clone, Copy, PartialEq, Eq, Structural)]
pub struct CropParams {
    pub top: usize,
    pub left: usize,
    pub size: usize,
}

/// Why a sample cannot be built.
#[derive(Debug, PartialEq, Eq)]
pub enum DataError {
    /// The scene's descriptor, the file at `path`, contradicts itself or what
    /// is asked of it.
    InvalidMetadata { path: String, reason: MetadataFault },
    /// An image has another shape than the scene: channels, height, width.
    ShapeMismatch { expected: (usize, usize, usize), got: (usize, usize, usize) },
    /// The crop is larger than the image.
    CropTooLarge { crop: usize, dim: usize },
}

/// The parts of a scene descriptor that have one entry per plane.
#[derive(Debug, Clone, Copy, PartialEq, Eq, Structural)]
pub enum MetaField {
    FocusFractions,
    Stack,
    Masks,
    MergeOrder,
    AlignmentGt,
}

/// What is wrong with a scene descriptor.
#[derive(Debug, Clone, Copy, PartialEq, Eq, Structural)]
pub enum MetadataFault {
    /// A field does not have one entry per plane.
    WrongLength { field: MetaField, got: usize, n_planes: usize },
    /// There are fewer planes than a scene needs.
    TooFewPlanes { min: usize },
    /// A frame was asked for that the scene does not have.
    FrameOutOfRange { frame_index: usize, n_planes: usize },
}

/// The crop that does not fit an image of that size, if it does not: the
/// height is looked at first.
pub open spec fn crop_error(h: usize, w: usize, cp: CropParams) -> Option<DataError> {
    if cp.size > h {
        Some(DataError::CropTooLarge { crop: cp.size, dim: h })
    } else if cp.size > w {
        Some(DataError::CropTooLarge { crop: cp.size, dim: w })
    } else {
        None
    }
}

/// Whether the last pixel of the crop lies inside an image of that size.
pub open spec fn crop_in_range(h: int, w: int, cp: CropParams) -> bool {
    cp.size > 0 ==> (cp.top + cp.size - 1) * w + cp.left + cp.size <= h * w
}

/// A crop of an image of `c` planes of size `h` x `w`, stored plane by plane,
/// row by row.
pub open spec fn cropped<T>(data: Seq<T>, h: int, w: int, c: int, cp: CropParams) -> Seq<T> {
    let s = cp.size as int;
    Seq::new(
        (c * s * s) as nat,
        |k: int| data[((k / s) / s * h + cp.top + (k / s) % s) * w + cp.left + k % s],
    )
}

proof fn lemma_crop_bounds(h: int, w: int, c: int, cp: CropParams, ci: int, row: int, len: int)
    requires
        0 <= h,
        0 <= w,
        0 <= ci < c,
        0 <= row < cp.size,
        c * (h * w) <= len,
        crop_in_range(h, w, cp),
        cp.size <= h,
    ensures
        0 <= (ci * h + cp.top + row) * w,
        (ci * h + cp.top + row) * w + cp.left + cp.size <= len,
        0 <= ci * h,
{
    assert(0 <= ci * h) by (nonlinear_arith)
        requires
            0 <= ci,
            0 <= h,
    ;
    assert((ci * h + cp.top + row) * w == ci * (h * w) + (cp.top + row) * w) by (nonlinear_arith);
    assert((cp.top + row) * w <= (cp.top + cp.size - 1) * w) by (nonlinear_arith)
        requires
            0 <= row <= cp.size - 1,
            0 <= w,
    ;
    assert(ci * (h * w) + h * w <= c * (h * w)) by (nonlinear_arith)
        requires
            ci + 1 <= c,
            0 <= h * w,
    ;
    assert(0 <= h * w) by (nonlinear_arith)
        requires
            0 <= h,
            0 <= w,
    ;
    assert(0 <= (ci * h + cp.top + row) * w) by (nonlinear_arith)
        requires
            0 <= ci * h + cp.top + row,
            0 <= w,
    ;
}

proof fn lemma_crop_position(ci: int, row: int, col: int, s: int)
    requires
        0 <= ci,
        0 <= row < s,
        0 <= col < s,
    ensures
        ((ci * s + row) * s + col) % s == col,
        ((ci * s + row) * s + col) / s == ci * s + row,
        (ci * s + row) % s == row,
        (ci * s + row) / s == ci,
{
    vstd::arithmetic::div_mod::lemma_fundamental_div_mod_converse(
        (ci * s + row) * s + col,
        s,
        ci * s + row,
        col,
    );
    vstd::arithmetic::div_mod::lemma_fundamental_div_mod_converse(ci * s + row, s, ci, row);
}

/// Crops an image of `c` planes of size `h` x `w` to `c` planes of side
/// `size`.
pub fn crop_chw<T: Copy>(data: &[T], h: usize, w: usize, c: usize, cp: CropParams) -> (r: Result<
    Vec<T>,
    DataError,
>)
    requires
        c * (h * w) <= data@.len(),
        crop_error(h, w, cp) is None ==> crop_in_range(h as int, w as int, cp),
    ensures
        match r {
            Ok(out) => crop_error(h, w, cp) is None && out@ == cropped(
                data@,
                h as int,
                w as int,
                c as int,
                cp,
            ),
            Err(e) => crop_error(h, w, cp) == Some(e),
        },
{
    if cp.size > h {
        return Err(DataError::CropTooLarge { crop: cp.size, dim: h });
    }
    if cp.size > w {
        return Err(DataError::CropTooLarge { crop: cp.size, dim: w });
    }
    let total: usize = data.len();
    let s: usize = cp.size;
    let ghost want = cropped(data@, h as int, w as int, c as int, cp);
    let mut out: Vec<T> = Vec::new();
    if s == 0 {
        assert(c * s * s == 0) by (nonlinear_arith)
            requires
                s == 0,
        ;
        assert(out@ =~= want);
        return Ok(out);
    }
    let mut ci: usize = 0;
    assert(0 * s * s == 0) by (nonlinear_arith);
    while ci < c
        invariant
            ci <= c,
            s == cp.size,
            0 < s <= h,
            s <= w,
            total == data@.len(),
            c * (h * w) <= data@.len(),
            crop_in_range(h as int, w as int, cp),
            want == cropped(data@, h as int, w as int, c as int, cp),
            out@.len() == ci * s * s,
            forall|k: int| 0 <= k < out@.len() ==> #[trigger] out@[k] == want[k],
        decreases c - ci,
    {
        let mut row: usize = 0;
        proof {
            assert((ci * s + 0) * s == ci * s * s) by (nonlinear_arith);
        }
        while row < s
            invariant
                row <= s,
                ci < c,
                s == cp.size,
                0 < s <= h,
                s <= w,
                total == data@.len(),
                c * (h * w) <= data@.len(),
                crop_in_range(h as int, w as int, cp),
                want == cropped(data@, h as int, w as int, c as int, cp),
                out@.len() == (ci * s + row) * s,
                forall|k: int| 0 <= k < out@.len() ==> #[trigger] out@[k] == want[k],
            decreases s - row,
        {
            proof {
                lemma_crop_bounds(
                    h as int,
                    w as int,
                    c as int,
                    cp,
                    ci as int,
                    row as int,
                    total as int,
                );
                assert(ci * h + cp.top + row <= (ci * h + cp.top + row) * w) by (nonlinear_arith)
                    requires
                        0 <= ci * h + cp.top + row,
                        1 <= w,
                ;
            }
            let start: usize = (ci * h + cp.top + row) * w + cp.left;
            let ghost before = out@;
            append_run(&mut out, data, start, start + s);
            proof {
                assert((ci * s + (row + 1)) * s == (ci * s + row) * s + s) by (nonlinear_arith);
                assert((ci * s + row) * s + s <= c * s * s) by (nonlinear_arith)
                    requires
                        0 <= ci < c,
                        0 <= row < s,
                ;
                assert forall|k: int| 0 <= k < out@.len() implies #[trigger] out@[k] == want[k] by {
                    if k < before.len() {
                        assert(out@[k] == before[k]);
                    } else {
                        let col = k - before.len();
                        lemma_crop_position(ci as int, row as int, col, s as int);
                        assert(k == (ci * s + row) * s + col);
                        assert(out@[k] == data@[start + col]);
                    }
                }
            }
            row = row + 1;
        }
        proof {
            assert((ci * s + s) * s == (ci + 1) * s * s) by (nonlinear_arith);
        }
        ci = ci + 1;
    }
    assert(out@ =~= want);
    Ok(out)
}

/// Crops a single plane of size `h` x `w` to side `size`.
pub fn crop_hw<T: Copy>(data: &[T], h: usize, w: usize, cp: CropParams) -> (r: Result<
    Vec<T>,
    DataError,
>)
    requires
        h * w <= data@.len(),
        crop_error(h, w, cp) is None ==> crop_in_range(h as int, w as int, cp),
    ensures
        match r {
            Ok(out) => crop_error(h, w, cp) is None && out@ == cropped(
                data@,
                h as int,
                w as int,
                1,
                cp,
            ),
            Err(e) => crop_error(h, w, cp) == Some(e),
        },
{
    proof {
        assert(1 * (h * w) == h * w) by (nonlinear_arith);
    }
    crop_chw(data, h, w, 1, cp)
}

/// A crop shows the image: its pixel in row `y` and column `x` of plane `p` is
/// the image's pixel in row `top + y` and column `left + x` of that plane.
pub proof fn law_crop_shows_image<T>(
    data: Seq<T>,
    h: int,
    w: int,
    c: int,
    cp: CropParams,
    p: int,
    y: int,
    x: int,
)
    requires
        0 <= p < c,
        0 <= y < cp.size,
        0 <= x < cp.size,
    ensures
        cropped(data, h, w, c, cp).len() == c * cp.size * cp.size,
        cropped(data, h, w, c, cp)[(p * cp.size + y) * cp.size + x] == data[(p * h + (cp.top + y))
            * w + (cp.left + x)],
{
    let s = cp.size as int;
    lemma_crop_position(p, y, x, s);
    let k = (p * s + y) * s + x;
    assert(0 <= k < c * s * s) by (nonlinear_arith)
        requires
            0 <= p < c,
            0 <= y < s,
            0 <= x < s,
            k == (p * s + y) * s + x,
    ;
    assert(0 <= c * s * s);
    assert(cropped(data, h, w, c, cp)[k] == data[((k / s) / s * h + cp.top + (k / s) % s) * w
        + cp.left + k % s]);
}

} // verus!
