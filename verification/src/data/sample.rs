//! Training samples, put together from the images of a scene.
//!
//! Colours can be of any sample type; weights are bit patterns of floats.

use vstd::prelude::*;
use crate::data::composite::{
    composite, confidence, law_best_is_highest, law_composite_of_prefix,
    law_composite_shows_the_sharpest, law_confidence_is_a_weight, law_confidence_of_prefix,
    prefix_composite, prefix_confidence, IN_FOCUS,
};
use crate::data::crop::{
    crop_chw, crop_error, crop_hw, crop_in_range, cropped, law_crop_shows_image, CropParams,
    DataError,
};
use crate::data::scene::{
    files_of, law_step_loads_its_frames, AlignSequence, Load, LoadKind, RealStackScene,
    RolloutSequence,
};
use crate::order::float_gt;

verus! {

/// The images of a sample as they are loaded: colour images and weight maps,
/// each in loading order, all of one size.
#[derive(Debug)]
pub struct ImageSet<T> {
    pub rgb: Vec<Vec<T>>,
    pub gray: Vec<Vec<u32>>,
    pub h: usize,
    pub w: usize,
}

impl<T: Copy> ImageSet<T> {
    /// Every image has the set's size; a set without colour images is empty.
    pub open spec fn wf(self) -> bool {
        &&& forall|i: int|
            0 <= i < self.rgb@.len() ==> (#[trigger] self.rgb@[i])@.len() == 3 * (self.h * self.w)
        &&& forall|i: int|
            0 <= i < self.gray@.len() ==> (#[trigger] self.gray@[i])@.len() == self.h * self.w
        &&& self.rgb@.len() == 0 ==> self.gray@.len() == 0 && self.h == 0 && self.w == 0
        &&& self.rgb@.len() > 0 ==> self.h > 0
    }

    /// A set without images.
    pub fn new() -> (r: Self)
        ensures
            r.wf(),
            r.rgb@.len() == 0,
            r.gray@.len() == 0,
    {
        ImageSet { rgb: Vec::new(), gray: Vec::new(), h: 0, w: 0 }
    }

    /// Takes in a colour image of size `h` x `w`. The first one sets the size,
    /// and each one after it has to have that size.
    pub fn admit_rgb(&mut self, data: Vec<T>, h: usize, w: usize) -> (r: Result<(), DataError>)
        requires
            old(self).wf(),
            data@.len() == 3 * (h * w),
            h > 0,
        ensures
            final(self).wf(),
            match r {
                Ok(_) => {
                    &&& old(self).rgb@.len() == 0 || (h == old(self).h && w == old(self).w)
                    &&& final(self).rgb@ == old(self).rgb@.push(data)
                    &&& final(self).gray@ == old(self).gray@
                    &&& final(self).h == h && final(self).w == w
                },
                Err(e) => {
                    &&& old(self).rgb@.len() > 0 && !(h == old(self).h && w == old(self).w)
                    &&& e == (DataError::ShapeMismatch {
                        expected: (3, old(self).h, old(self).w),
                        got: (3, h, w),
                    })
                    &&& *final(self) == *old(self)
                },
            },
    {
        if self.h == 0 {
            self.h = h;
            self.w = w;
        } else if h != self.h || w != self.w {
            return Err(
                DataError::ShapeMismatch { expected: (3, self.h, self.w), got: (3, h, w) },
            );
        }
        self.rgb.push(data);
        Ok(())
    }

    /// Takes in a weight map of size `h` x `w`, which has to be the set's size.
    pub fn admit_gray(&mut self, data: Vec<u32>, h: usize, w: usize) -> (r: Result<(), DataError>)
        requires
            old(self).wf(),
            old(self).rgb@.len() > 0,
            data@.len() == h * w,
        ensures
            final(self).wf(),
            match r {
                Ok(_) => {
                    &&& h == old(self).h && w == old(self).w
                    &&& final(self).gray@ == old(self).gray@.push(data)
                    &&& final(self).rgb@ == old(self).rgb@
                    &&& final(self).h == h && final(self).w == w
                },
                Err(e) => {
                    &&& !(h == old(self).h && w == old(self).w)
                    &&& e == (DataError::ShapeMismatch {
                        expected: (1, old(self).h, old(self).w),
                        got: (1, h, w),
                    })
                    &&& *final(self) == *old(self)
                },
            },
    {
        if h != self.h || w != self.w {
            return Err(
                DataError::ShapeMismatch { expected: (1, self.h, self.w), got: (1, h, w) },
            );
        }
        self.gray.push(data);
        Ok(())
    }
}

/// The part of an image of `c` planes that a sample shows: all of it, or a
/// crop.
pub open spec fn shown<T>(data: Seq<T>, h: int, w: int, c: int, crop: Option<CropParams>) -> Seq<
    T,
> {
    match crop {
        Some(cp) => cropped(data, h, w, c, cp),
        None => data,
    }
}

/// Why a crop cannot be shown, if it cannot.
pub open spec fn shown_error(h: usize, w: usize, crop: Option<CropParams>) -> Option<DataError> {
    match crop {
        Some(cp) => crop_error(h, w, cp),
        None => None,
    }
}

/// Height of what is shown.
pub open spec fn shown_height(h: usize, crop: Option<CropParams>) -> usize {
    match crop {
        Some(cp) => cp.size,
        None => h,
    }
}

/// Width of what is shown.
pub open spec fn shown_width(w: usize, crop: Option<CropParams>) -> usize {
    match crop {
        Some(cp) => cp.size,
        None => w,
    }
}

/// Whether a crop that fits the image ends inside it.
pub open spec fn crop_ok(h: usize, w: usize, crop: Option<CropParams>) -> bool {
    match crop {
        Some(cp) => crop_error(h, w, cp) is None ==> crop_in_range(h as int, w as int, cp),
        None => true,
    }
}

fn show<T: Copy>(data: Vec<T>, h: usize, w: usize, c: usize, crop: Option<CropParams>) -> (r:
    Result<Vec<T>, DataError>)
    requires
        data@.len() == c * (h * w),
        crop_ok(h, w, crop),
    ensures
        match r {
            Ok(out) => shown_error(h, w, crop) is None && out@ == shown(
                data@,
                h as int,
                w as int,
                c as int,
                crop,
            ),
            Err(e) => shown_error(h, w, crop) == Some(e),
        },
{
    match crop {
        Some(cp) => crop_chw(data.as_slice(), h, w, c, cp),
        None => Ok(data),
    }
}

fn show_plane(data: Vec<u32>, h: usize, w: usize, crop: Option<CropParams>) -> (r: Result<
    Vec<u32>,
    DataError,
>)
    requires
        data@.len() == h * w,
        crop_ok(h, w, crop),
    ensures
        match r {
            Ok(out) => shown_error(h, w, crop) is None && out@ == shown(
                data@,
                h as int,
                w as int,
                1,
                crop,
            ),
            Err(e) => shown_error(h, w, crop) == Some(e),
        },
{
    match crop {
        Some(cp) => crop_hw(data.as_slice(), h, w, cp),
        None => Ok(data),
    }
}

fn shown_size(h: usize, w: usize, crop: Option<CropParams>) -> (r: (usize, usize))
    ensures
        r == (shown_height(h, crop), shown_width(w, crop)),
{
    match crop {
        Some(cp) => (cp.size, cp.size),
        None => (h, w),
    }
}

/// A pairwise-merge sample of height `h` and width `w`.
#[derive(Debug)]
pub struct MergeSample<T> {
    pub h: usize,
    pub w: usize,
    /// The composite so far.
    pub target: Vec<T>,
    /// The composite's confidence.
    pub target_conf: Vec<u32>,
    /// The frame to merge in.
    pub source: Vec<T>,
    /// The composite after the merge.
    pub gt_merged: Vec<T>,
    /// The confidence after the merge.
    pub gt_conf: Vec<u32>,
    /// The depth edges.
    pub occlusion: Vec<u32>,
}

/// Whether a set holds the images of step `k`: `k + 2` frames, the
/// all-in-focus image and the source; as many weight maps and the depth edges.
pub open spec fn holds_step<T>(images: ImageSet<T>, k: int) -> bool {
    images.rgb@.len() == k + 4 && images.gray@.len() == k + 3
}

/// Whether `m` is the sample of step `k` of a scene, shown through a crop.
pub open spec fn is_step_sample<T>(
    images: ImageSet<T>,
    k: int,
    crop: Option<CropParams>,
    m: MergeSample<T>,
) -> bool {
    let h = images.h as int;
    let w = images.w as int;
    let np = h * w;
    let frames = images.rgb@.take(k + 2);
    let masks = images.gray@.take(k + 2);
    let allfocus = images.rgb@[k + 2]@;
    &&& m.h == shown_height(images.h, crop)
    &&& m.w == shown_width(images.w, crop)
    &&& m.target@ == shown(composite(frames, masks, allfocus, k + 1, np, IN_FOCUS), h, w, 3, crop)
    &&& m.target_conf@ == shown(confidence(masks, k + 1, np), h, w, 1, crop)
    &&& m.source@ == shown(images.rgb@[k + 3]@, h, w, 3, crop)
    &&& m.gt_merged@ == shown(
        composite(frames, masks, allfocus, k + 2, np, IN_FOCUS),
        h,
        w,
        3,
        crop,
    )
    &&& m.gt_conf@ == shown(confidence(masks, k + 2, np), h, w, 1, crop)
    &&& m.occlusion@ == shown(images.gray@[k + 2]@, h, w, 1, crop)
}

/// Builds the sample of step `k` from its images: the composites of the first
/// `k + 1` and `k + 2` frames with their confidences, the frame to merge in,
/// and the depth edges.
fn build_step<T: Copy>(images: ImageSet<T>, k: usize, crop: Option<CropParams>) -> (r: Result<
    MergeSample<T>,
    DataError,
>)
    requires
        images.wf(),
        k + 4 <= usize::MAX,
        holds_step(images, k as int),
        crop_ok(images.h, images.w, crop),
    ensures
        match r {
            Ok(m) => shown_error(images.h, images.w, crop) is None && is_step_sample(
                images,
                k as int,
                crop,
                m,
            ),
            Err(e) => shown_error(images.h, images.w, crop) == Some(e),
        },
{
    let h: usize = images.h;
    let w: usize = images.w;
    let mut rgb = images.rgb;
    let mut gray = images.gray;
    let ghost all_rgb = rgb@;
    let ghost all_gray = gray@;
    proof {
        assert(all_rgb[k + 2]@.len() == 3 * (h * w));
        assert(all_rgb[k + 3]@.len() == 3 * (h * w));
        assert(all_gray[k + 2]@.len() == h * w);
    }
    let occlusion = match gray.pop() {
        Some(v) => v,
        None => Vec::new(),
    };
    let source = match rgb.pop() {
        Some(v) => v,
        None => Vec::new(),
    };
    let allfocus = match rgb.pop() {
        Some(v) => v,
        None => Vec::new(),
    };
    proof {
        assert(rgb@ =~= all_rgb.take(k + 2));
        assert(gray@ =~= all_gray.take(k + 2));
        assert forall|i: int| 0 <= i < rgb@.len() implies 3 * (h * w) <= (#[trigger] rgb@[i])@.len()
            by {
            assert(rgb@[i] == all_rgb[i]);
        }
        assert forall|i: int| 0 <= i < gray@.len() implies h * w <= (#[trigger] gray@[i])@.len() by {
            assert(gray@[i] == all_gray[i]);
        }
    }
    let target_full = prefix_composite(&rgb, &gray, &allfocus, k + 1, h, w, IN_FOCUS);
    let gt_full = prefix_composite(&rgb, &gray, &allfocus, k + 2, h, w, IN_FOCUS);
    let np: usize = occlusion.len();
    let conf_full = prefix_confidence(&gray, k + 1, np);
    let gt_conf_full = prefix_confidence(&gray, k + 2, np);
    let target = match show(target_full, h, w, 3, crop) {
        Ok(v) => v,
        Err(e) => {
            return Err(e);
        },
    };
    let target_conf = match show_plane(conf_full, h, w, crop) {
        Ok(v) => v,
        Err(e) => {
            return Err(e);
        },
    };
    let source = match show(source, h, w, 3, crop) {
        Ok(v) => v,
        Err(e) => {
            return Err(e);
        },
    };
    let gt_merged = match show(gt_full, h, w, 3, crop) {
        Ok(v) => v,
        Err(e) => {
            return Err(e);
        },
    };
    let gt_conf = match show_plane(gt_conf_full, h, w, crop) {
        Ok(v) => v,
        Err(e) => {
            return Err(e);
        },
    };
    let occlusion = match show_plane(occlusion, h, w, crop) {
        Ok(v) => v,
        Err(e) => {
            return Err(e);
        },
    };
    let (out_h, out_w) = shown_size(h, w, crop);
    Ok(
        MergeSample {
            h: out_h,
            w: out_w,
            target,
            target_conf,
            source,
            gt_merged,
            gt_conf,
            occlusion,
        },
    )
}

/// Images of `c` planes, each as shown, one after the other.
pub open spec fn joined<T>(
    images: Seq<Vec<T>>,
    h: int,
    w: int,
    c: int,
    crop: Option<CropParams>,
) -> Seq<T>
    decreases images.len(),
{
    if images.len() == 0 {
        Seq::empty()
    } else {
        joined(images.drop_last(), h, w, c, crop) + shown(images.last()@, h, w, c, crop)
    }
}

fn join<T: Copy>(images: Vec<Vec<T>>, h: usize, w: usize, c: usize, crop: Option<CropParams>) -> (r:
    Result<Vec<T>, DataError>)
    requires
        forall|i: int| 0 <= i < images@.len() ==> (#[trigger] images@[i])@.len() == c * (h * w),
        images@.len() > 0 ==> crop_ok(h, w, crop),
    ensures
        match r {
            Ok(out) => (images@.len() == 0 || shown_error(h, w, crop) is None) && out@ == joined(
                images@,
                h as int,
                w as int,
                c as int,
                crop,
            ),
            Err(e) => images@.len() > 0 && shown_error(h, w, crop) == Some(e),
        },
{
    let ghost all = images@;
    let mut out: Vec<T> = Vec::new();
    for image in it: images
        invariant
            it.seq() == all,
            all.len() > 0 ==> crop_ok(h, w, crop),
            forall|i: int| 0 <= i < all.len() ==> (#[trigger] all[i])@.len() == c * (h * w),
            it.index() > 0 ==> shown_error(h, w, crop) is None,
            out@ == joined(
                all.take(it.index() as int),
                h as int,
                w as int,
                c as int,
                crop,
            ),
    {
        proof {
            assert(all.take(it.index() + 1).drop_last() == all.take(it.index() as int));
            assert(all.take(it.index() + 1).last() == image);
            assert(all[it.index() as int]@.len() == c * (h * w));
        }
        match show(image, h, w, c, crop) {
            Ok(mut part) => {
                out.append(&mut part);
            },
            Err(e) => {
                return Err(e);
            },
        }
    }
    assert(all.take(all.len() as int) == all);
    Ok(out)
}

/// A whole-stack fusion sample: `n` frames of height `h` and width `w`.
#[derive(Debug)]
pub struct BatchSample<T> {
    pub n: usize,
    pub h: usize,
    pub w: usize,
    /// The frames, one after the other.
    pub stack: Vec<T>,
    /// The all-in-focus image.
    pub gt_merged: Vec<T>,
    /// The weight maps, one after the other.
    pub masks: Vec<u32>,
    /// The depth edges.
    pub occlusion: Vec<u32>,
}

/// Whether `b` is the sample of a stack of `n` frames, shown through a crop.
pub open spec fn is_batch_sample<T>(
    images: ImageSet<T>,
    n: int,
    crop: Option<CropParams>,
    b: BatchSample<T>,
) -> bool {
    let h = images.h as int;
    let w = images.w as int;
    &&& b.n == n
    &&& b.h == shown_height(images.h, crop)
    &&& b.w == shown_width(images.w, crop)
    &&& b.stack@ == joined(images.rgb@.take(n), h, w, 3, crop)
    &&& b.masks@ == joined(images.gray@.take(n), h, w, 1, crop)
    &&& b.gt_merged@ == shown(images.rgb@[n]@, h, w, 3, crop)
    &&& b.occlusion@ == shown(images.gray@[n]@, h, w, 1, crop)
}

/// Builds the sample of a whole stack of `n` frames from its images.
fn build_batch<T: Copy>(images: ImageSet<T>, n: usize, crop: Option<CropParams>) -> (r: Result<
    BatchSample<T>,
    DataError,
>)
    requires
        images.wf(),
        images.rgb@.len() == n + 1,
        images.gray@.len() == n + 1,
        crop_ok(images.h, images.w, crop),
    ensures
        match r {
            Ok(b) => shown_error(images.h, images.w, crop) is None && is_batch_sample(
                images,
                n as int,
                crop,
                b,
            ),
            Err(e) => shown_error(images.h, images.w, crop) == Some(e),
        },
{
    let h: usize = images.h;
    let w: usize = images.w;
    let mut rgb = images.rgb;
    let mut gray = images.gray;
    let ghost all_rgb = rgb@;
    let ghost all_gray = gray@;
    proof {
        assert(all_rgb[n as int]@.len() == 3 * (h * w));
        assert(all_gray[n as int]@.len() == h * w);
    }
    let allfocus = match rgb.pop() {
        Some(v) => v,
        None => Vec::new(),
    };
    let occlusion = match gray.pop() {
        Some(v) => v,
        None => Vec::new(),
    };
    proof {
        assert(rgb@ =~= all_rgb.take(n as int));
        assert(gray@ =~= all_gray.take(n as int));
        assert forall|i: int| 0 <= i < rgb@.len() implies (#[trigger] rgb@[i])@.len() == 3 * (h * w)
            by {
            assert(rgb@[i] == all_rgb[i]);
        }
        assert forall|i: int| 0 <= i < gray@.len() implies (#[trigger] gray@[i])@.len() == 1 * (h
            * w) by {
            assert(gray@[i] == all_gray[i]);
        }
    }
    let stack = match join(rgb, h, w, 3, crop) {
        Ok(v) => v,
        Err(e) => {
            return Err(e);
        },
    };
    let masks = match join(gray, h, w, 1, crop) {
        Ok(v) => v,
        Err(e) => {
            return Err(e);
        },
    };
    let gt_merged = match show(allfocus, h, w, 3, crop) {
        Ok(v) => v,
        Err(e) => {
            return Err(e);
        },
    };
    let occlusion = match show_plane(occlusion, h, w, crop) {
        Ok(v) => v,
        Err(e) => {
            return Err(e);
        },
    };
    let (out_h, out_w) = shown_size(h, w, crop);
    Ok(BatchSample { n, h: out_h, w: out_w, stack, gt_merged, masks, occlusion })
}

/// A stack of `n` frames of height `h` and width `w`, one after the other.
#[derive(Debug)]
pub struct StackSample<T> {
    pub n: usize,
    pub h: usize,
    pub w: usize,
    pub stack: Vec<T>,
}

/// Whether `s` is a set's frames, shown through a crop.
pub open spec fn is_stack_sample<T>(
    images: ImageSet<T>,
    crop: Option<CropParams>,
    s: StackSample<T>,
) -> bool {
    &&& s.n == images.rgb@.len()
    &&& s.h == shown_height(images.h, crop)
    &&& s.w == shown_width(images.w, crop)
    &&& s.stack@ == joined(images.rgb@, images.h as int, images.w as int, 3, crop)
}

/// Builds the sample of a real stack from its frames. A stack without frames
/// takes any crop.
fn build_stack<T: Copy>(images: ImageSet<T>, crop: Option<CropParams>) -> (r: Result<
    StackSample<T>,
    DataError,
>)
    requires
        images.wf(),
        images.rgb@.len() > 0 ==> crop_ok(images.h, images.w, crop),
    ensures
        match r {
            Ok(s) => (images.rgb@.len() == 0 || shown_error(images.h, images.w, crop) is None)
                && is_stack_sample(images, crop, s),
            Err(e) => images.rgb@.len() > 0 && shown_error(images.h, images.w, crop) == Some(e),
        },
{
    let h: usize = images.h;
    let w: usize = images.w;
    let n: usize = images.rgb.len();
    match join(images.rgb, h, w, 3, crop) {
        Ok(stack) => {
            let (out_h, out_w) = shown_size(h, w, crop);
            Ok(StackSample { n, h: out_h, w: out_w, stack })
        },
        Err(e) => Err(e),
    }
}

/// Why the frames of an alignment scene are refused, if they are: they do not
/// have the size that the scene's descriptor gives, or the crop is too large.
pub open spec fn align_error(
    h: usize,
    w: usize,
    full_h: usize,
    full_w: usize,
    crop: Option<CropParams>,
) -> Option<DataError> {
    if h != full_h || w != full_w {
        Some(DataError::ShapeMismatch { expected: (3, full_h, full_w), got: (3, h, w) })
    } else {
        shown_error(h, w, crop)
    }
}

/// Builds the sample of an alignment scene from its frames, which have to have
/// the size of the scene's descriptor.
fn build_align<T: Copy>(
    images: ImageSet<T>,
    full_w: usize,
    full_h: usize,
    crop: Option<CropParams>,
) -> (r: Result<StackSample<T>, DataError>)
    requires
        images.wf(),
        images.rgb@.len() > 0,
        images.h == full_h && images.w == full_w ==> crop_ok(full_h, full_w, crop),
    ensures
        match r {
            Ok(s) => align_error(images.h, images.w, full_h, full_w, crop) is None
                && is_stack_sample(images, crop, s),
            Err(e) => align_error(images.h, images.w, full_h, full_w, crop) == Some(e),
        },
{
    if images.h != full_h || images.w != full_w {
        return Err(
            DataError::ShapeMismatch {
                expected: (3, full_h, full_w),
                got: (3, images.h, images.w),
            },
        );
    }
    build_stack(images, crop)
}

/// An alignment sample: a stack of `n` frames of height `h` and width `w`, one
/// after the other, and the frames' matrices. These refer to the pixels of the
/// full images, of size `full_w` x `full_h`.
#[derive(Debug)]
pub struct AlignSample<T> {
    pub n: usize,
    pub h: usize,
    pub w: usize,
    pub stack: Vec<T>,
    pub gt_matrices: Vec<[[u32; 3]; 3]>,
    pub full_w: usize,
    pub full_h: usize,
}

/// A pairwise-alignment sample of height `h` and width `w`: the reference, a
/// frame, and that frame's matrix, which refers to the pixels of the full
/// images, of size `full_w` x `full_h`.
#[derive(Debug)]
pub struct PairAlignSample<T> {
    pub h: usize,
    pub w: usize,
    pub reference: Vec<T>,
    pub frame: Vec<T>,
    pub gt_matrix: [[u32; 3]; 3],
    pub full_w: usize,
    pub full_h: usize,
}

/// An image of three planes, with its size.
#[derive(Debug)]
pub struct RgbImage<T> {
    pub data: Vec<T>,
    pub h: usize,
    pub w: usize,
}

impl<T> RgbImage<T> {
    /// The image holds three planes of its size.
    pub open spec fn wf(self) -> bool {
        self.data@.len() == 3 * (self.h * self.w)
    }
}

/// Whether `p` shows a reference and a frame through a crop, with the frame's
/// matrix.
pub open spec fn is_pair_of<T>(
    reference: Seq<T>,
    frame: Seq<T>,
    gt_matrix: [[u32; 3]; 3],
    full_h: usize,
    full_w: usize,
    crop: Option<CropParams>,
    p: PairAlignSample<T>,
) -> bool {
    &&& p.h == shown_height(full_h, crop)
    &&& p.w == shown_width(full_w, crop)
    &&& p.reference@ == shown(reference, full_h as int, full_w as int, 3, crop)
    &&& p.frame@ == shown(frame, full_h as int, full_w as int, 3, crop)
    &&& p.gt_matrix == gt_matrix
    &&& p.full_w == full_w
    &&& p.full_h == full_h
}

/// Why a pair is refused, if it is: the reference's size is looked at first,
/// then the frame's, then the crop's.
pub open spec fn pair_error<T>(
    reference: RgbImage<T>,
    frame: RgbImage<T>,
    full_h: usize,
    full_w: usize,
    crop: Option<CropParams>,
) -> Option<DataError> {
    if reference.h != full_h || reference.w != full_w {
        Some(
            DataError::ShapeMismatch {
                expected: (3, full_h, full_w),
                got: (3, reference.h, reference.w),
            },
        )
    } else if frame.h != full_h || frame.w != full_w {
        Some(
            DataError::ShapeMismatch {
                expected: (3, full_h, full_w),
                got: (3, frame.h, frame.w),
            },
        )
    } else {
        shown_error(full_h, full_w, crop)
    }
}

/// Whether both images of a pair have the size of the scene's descriptor.
pub open spec fn pair_sizes_ok<T>(
    reference: RgbImage<T>,
    frame: RgbImage<T>,
    full_h: usize,
    full_w: usize,
) -> bool {
    &&& reference.h == full_h && reference.w == full_w
    &&& frame.h == full_h && frame.w == full_w
}

/// Builds the sample of a reference and a frame with this matrix. Both have to
/// have the size of the scene's descriptor.
fn build_pair<T: Copy>(
    reference: RgbImage<T>,
    frame: RgbImage<T>,
    gt_matrix: [[u32; 3]; 3],
    full_w: usize,
    full_h: usize,
    crop: Option<CropParams>,
) -> (r: Result<PairAlignSample<T>, DataError>)
    requires
        reference.wf(),
        frame.wf(),
        pair_sizes_ok(reference, frame, full_h, full_w) ==> crop_ok(full_h, full_w, crop),
    ensures
        match r {
            Ok(p) => {
                &&& pair_error(reference, frame, full_h, full_w, crop) is None
                &&& is_pair_of(reference.data@, frame.data@, gt_matrix, full_h, full_w, crop, p)
            },
            Err(e) => pair_error(reference, frame, full_h, full_w, crop) == Some(e),
        },
{
    if reference.h != full_h || reference.w != full_w {
        return Err(
            DataError::ShapeMismatch {
                expected: (3, full_h, full_w),
                got: (3, reference.h, reference.w),
            },
        );
    }
    if frame.h != full_h || frame.w != full_w {
        return Err(
            DataError::ShapeMismatch {
                expected: (3, full_h, full_w),
                got: (3, frame.h, frame.w),
            },
        );
    }
    let shown_reference = match show(reference.data, full_h, full_w, 3, crop) {
        Ok(v) => v,
        Err(e) => {
            return Err(e);
        },
    };
    let shown_frame = match show(frame.data, full_h, full_w, 3, crop) {
        Ok(v) => v,
        Err(e) => {
            return Err(e);
        },
    };
    let (h, w) = shown_size(full_h, full_w, crop);
    Ok(
        PairAlignSample {
            h,
            w,
            reference: shown_reference,
            frame: shown_frame,
            gt_matrix,
            full_w,
            full_h,
        },
    )
}

impl RolloutSequence {
    /// The sample of step `k`, built from the images that
    /// [`step_loads`](Self::step_loads) names.
    pub fn get_step<T: Copy>(&self, k: usize, images: ImageSet<T>, crop: Option<CropParams>) -> (r:
        Result<MergeSample<T>, DataError>)
        requires
            self.wf(),
            k < self.n_steps,
            images.wf(),
            holds_step(images, k as int),
            crop_ok(images.h, images.w, crop),
        ensures
            match r {
                Ok(m) => shown_error(images.h, images.w, crop) is None && is_step_sample(
                    images,
                    k as int,
                    crop,
                    m,
                ),
                Err(e) => shown_error(images.h, images.w, crop) == Some(e),
            },
    {
        let count: usize = images.rgb.len();
        assert(k + 4 == count);
        build_step(images, k, crop)
    }

    /// The sample of the whole stack, built from the images that
    /// [`batch_loads`](Self::batch_loads) names.
    pub fn get_batch<T: Copy>(&self, images: ImageSet<T>, crop: Option<CropParams>) -> (r: Result<
        BatchSample<T>,
        DataError,
    >)
        requires
            self.wf(),
            images.wf(),
            images.rgb@.len() == self.meta.n_planes + 1,
            images.gray@.len() == self.meta.n_planes + 1,
            crop_ok(images.h, images.w, crop),
        ensures
            match r {
                Ok(b) => shown_error(images.h, images.w, crop) is None && is_batch_sample(
                    images,
                    self.meta.n_planes as int,
                    crop,
                    b,
                ),
                Err(e) => shown_error(images.h, images.w, crop) == Some(e),
            },
    {
        build_batch(images, self.meta.n_planes, crop)
    }
}

/// Whether `s` is the sample of a whole alignment scene: its frames, shown
/// through a crop, and their matrices.
pub open spec fn is_align_sample<T>(
    scene: AlignSequence,
    images: ImageSet<T>,
    crop: Option<CropParams>,
    s: AlignSample<T>,
) -> bool {
    &&& s.n == images.rgb@.len()
    &&& s.h == shown_height(images.h, crop)
    &&& s.w == shown_width(images.w, crop)
    &&& s.stack@ == joined(images.rgb@, images.h as int, images.w as int, 3, crop)
    &&& s.gt_matrices@ == scene.meta.alignment_gt@
    &&& s.full_w == scene.full_width()
    &&& s.full_h == scene.full_height()
}

/// Whether `p` is the sample of the pair of an alignment scene's reference and
/// frame `frame_index`.
pub open spec fn is_pair_sample<T>(
    scene: AlignSequence,
    frame_index: int,
    reference: RgbImage<T>,
    frame: RgbImage<T>,
    crop: Option<CropParams>,
    p: PairAlignSample<T>,
) -> bool {
    is_pair_of(
        reference.data@,
        frame.data@,
        scene.meta.alignment_gt@[frame_index],
        scene.full_height(),
        scene.full_width(),
        crop,
        p,
    )
}

impl AlignSequence {
    /// Width of the scene's full images.
    pub open spec fn full_width(self) -> usize {
        self.meta.cropped_dims@[0] as usize
    }

    /// Height of the scene's full images.
    pub open spec fn full_height(self) -> usize {
        self.meta.cropped_dims@[1] as usize
    }

    fn matrices(&self) -> (r: Vec<[[u32; 3]; 3]>)
        ensures
            r@ == self.meta.alignment_gt@,
    {
        let mut out: Vec<[[u32; 3]; 3]> = Vec::new();
        let mut i: usize = 0;
        while i < self.meta.alignment_gt.len()
            invariant
                i <= self.meta.alignment_gt@.len(),
                out@ == self.meta.alignment_gt@.take(i as int),
            decreases self.meta.alignment_gt@.len() - i,
        {
            out.push(self.meta.alignment_gt[i]);
            i = i + 1;
            assert(out@ =~= self.meta.alignment_gt@.take(i as int));
        }
        out
    }

    /// The sample of the whole scene, built from the frames that
    /// [`stack_loads`](Self::stack_loads) names. Matrices refer to the full
    /// size of the scene's images, whatever the crop.
    pub fn get<T: Copy>(&self, images: ImageSet<T>, crop: Option<CropParams>) -> (r: Result<
        AlignSample<T>,
        DataError,
    >)
        requires
            self.wf(),
            images.wf(),
            images.rgb@.len() == self.meta.n_planes,
            images.h == self.full_height() && images.w == self.full_width() ==> crop_ok(
                images.h,
                images.w,
                crop,
            ),
        ensures
            ({
                let refusal = align_error(
                    images.h,
                    images.w,
                    self.full_height(),
                    self.full_width(),
                    crop,
                );
                match r {
                    Ok(s) => refusal is None && is_align_sample(*self, images, crop, s),
                    Err(e) => refusal == Some(e),
                }
            }),
    {
        let full_w: usize = self.meta.cropped_dims[0] as usize;
        let full_h: usize = self.meta.cropped_dims[1] as usize;
        match build_align(images, full_w, full_h, crop) {
            Ok(s) => Ok(
                AlignSample {
                    n: s.n,
                    h: s.h,
                    w: s.w,
                    stack: s.stack,
                    gt_matrices: self.matrices(),
                    full_w,
                    full_h,
                },
            ),
            Err(e) => Err(e),
        }
    }

    /// The sample of the pair of the reference and frame `frame_index`, built
    /// from the images that [`pair_loads`](Self::pair_loads) names. The matrix
    /// refers to the full size of the scene's images, whatever the crop.
    pub fn get_pair<T: Copy>(
        &self,
        frame_index: usize,
        reference: RgbImage<T>,
        frame: RgbImage<T>,
        crop: Option<CropParams>,
    ) -> (r: Result<PairAlignSample<T>, DataError>)
        requires
            self.wf(),
            reference.wf(),
            frame.wf(),
            frame_index < self.meta.n_planes && pair_sizes_ok(
                reference,
                frame,
                self.full_height(),
                self.full_width(),
            ) ==> crop_ok(self.full_height(), self.full_width(), crop),
        ensures
            ({
                let refusal = pair_error(
                    reference,
                    frame,
                    self.full_height(),
                    self.full_width(),
                    crop,
                );
                match r {
                    Ok(p) => {
                        &&& frame_index < self.meta.n_planes
                        &&& refusal is None
                        &&& is_pair_sample(*self, frame_index as int, reference, frame, crop, p)
                    },
                    Err(e) => if frame_index >= self.meta.n_planes {
                        self.is_out_of_range(frame_index, e)
                    } else {
                        refusal == Some(e)
                    },
                }
            }),
    {
        if frame_index >= self.meta.n_planes {
            return Err(self.out_of_range(frame_index));
        }
        let full_w: usize = self.meta.cropped_dims[0] as usize;
        let full_h: usize = self.meta.cropped_dims[1] as usize;
        let gt_matrix = self.meta.alignment_gt[frame_index];
        build_pair(reference, frame, gt_matrix, full_w, full_h, crop)
    }
}

impl RealStackScene {
    /// The sample of the stack, built from its frames. A stack without frames
    /// takes any crop.
    pub fn get<T: Copy>(&self, images: ImageSet<T>, crop: Option<CropParams>) -> (r: Result<
        StackSample<T>,
        DataError,
    >)
        requires
            images.wf(),
            images.rgb@.len() == self.frames@.len(),
            self.frames@.len() > 0 ==> crop_ok(images.h, images.w, crop),
        ensures
            match r {
                Ok(s) => (self.frames@.len() == 0 || shown_error(images.h, images.w, crop) is None)
                    && is_stack_sample(images, crop, s),
                Err(e) => self.frames@.len() > 0 && shown_error(images.h, images.w, crop) == Some(
                    e,
                ),
            },
    {
        build_stack(images, crop)
    }
}

/// The target of a rollout step is the ground truth of the step before, over
/// the same scene: step `k + 1` starts from what step `k` is to produce.
pub proof fn law_rollout_chains<T>(
    before: ImageSet<T>,
    after: ImageSet<T>,
    k: int,
    crop: Option<CropParams>,
    m: MergeSample<T>,
    next: MergeSample<T>,
)
    requires
        0 <= k,
        holds_step(before, k),
        holds_step(after, k + 1),
        before.h == after.h,
        before.w == after.w,
        before.rgb@.take(k + 2) == after.rgb@.take(k + 2),
        before.gray@.take(k + 2) == after.gray@.take(k + 2),
        before.rgb@[k + 2] == after.rgb@[k + 3],
        is_step_sample(before, k, crop, m),
        is_step_sample(after, k + 1, crop, next),
    ensures
        next.target@ == m.gt_merged@,
        next.target_conf@ == m.gt_conf@,
{
    let np = before.h * before.w;
    assert(0 <= np) by (nonlinear_arith)
        requires
            np == before.h * before.w,
    ;
    let frames = after.rgb@.take(k + 3);
    let masks = after.gray@.take(k + 3);
    assert(frames.take(k + 2) =~= before.rgb@.take(k + 2));
    assert(masks.take(k + 2) =~= before.gray@.take(k + 2));
    law_composite_of_prefix(
        frames,
        masks,
        after.rgb@[k + 3]@,
        k + 2,
        k + 2,
        np,
        IN_FOCUS,
    );
    law_confidence_of_prefix(masks, k + 2, k + 2, np);
}

proof fn lemma_joined_part<T>(
    images: Seq<Vec<T>>,
    h: int,
    w: int,
    c: int,
    crop: Option<CropParams>,
    len: int,
    k: int,
)
    requires
        0 <= len,
        forall|i: int|
            0 <= i < images.len() ==> shown((#[trigger] images[i])@, h, w, c, crop).len() == len,
        0 <= k < images.len(),
    ensures
        joined(images, h, w, c, crop).len() == images.len() * len,
        0 <= k * len,
        (k + 1) * len <= images.len() * len,
        joined(images, h, w, c, crop).subrange(k * len, (k + 1) * len) == shown(
            images[k]@,
            h,
            w,
            c,
            crop,
        ),
    decreases images.len(),
{
    let n = images.len() as int;
    let init = images.drop_last();
    let before = joined(init, h, w, c, crop);
    let all = joined(images, h, w, c, crop);
    let last = shown(images.last()@, h, w, c, crop);
    assert(0 <= k * len && (k + 1) * len <= n * len && (n - 1) * len + len == n * len && (k + 1)
        * len == k * len + len) by (nonlinear_arith)
        requires
            0 <= len,
            0 <= k < n,
    ;
    if n == 1 {
        assert(before =~= Seq::<T>::empty());
        assert(0 * len == 0 && 1 * len == len);
        assert(all.subrange(0, len) =~= last);
    } else if k < n - 1 {
        lemma_joined_part(init, h, w, c, crop, len, k);
        assert(images[k] == init[k]);
        assert(all.subrange(k * len, (k + 1) * len) =~= before.subrange(k * len, (k + 1) * len));
    } else {
        lemma_joined_part(init, h, w, c, crop, len, 0);
        assert(all.subrange(k * len, (k + 1) * len) =~= last);
    }
}

/// The part of a stack of images of `len` samples each that holds image `k`.
pub open spec fn stack_part<T>(stack: Seq<T>, len: int, k: int) -> Seq<T> {
    stack.subrange(k * len, (k + 1) * len)
}

/// A pair read by itself is the matching part of the whole sample of its
/// scene: where the sample of the whole scene can be had, so can the pair of
/// each frame, its reference is the stack's first image, its frame is image
/// `frame_index`, and its matrix is that frame's.
pub proof fn law_pair_is_part_of_sample<T: Copy>(
    scene: AlignSequence,
    frame_index: usize,
    images: ImageSet<T>,
    reference: RgbImage<T>,
    frame: RgbImage<T>,
    crop: Option<CropParams>,
    s: AlignSample<T>,
    p: PairAlignSample<T>,
)
    requires
        scene.wf(),
        images.wf(),
        images.rgb@.len() == scene.meta.n_planes,
        frame_index < scene.meta.n_planes,
        reference.h == images.h && reference.w == images.w,
        frame.h == images.h && frame.w == images.w,
        reference.data@ == images.rgb@[0]@,
        frame.data@ == images.rgb@[frame_index as int]@,
        align_error(images.h, images.w, scene.full_height(), scene.full_width(), crop) is None,
        is_align_sample(scene, images, crop, s),
    ensures
        pair_error(reference, frame, scene.full_height(), scene.full_width(), crop) is None,
        is_pair_sample(scene, frame_index as int, reference, frame, crop, p) ==> {
            let len = 3 * (s.h * s.w);
            &&& p.h == s.h && p.w == s.w
            &&& s.stack@.len() == s.n * len
            &&& p.reference@ == stack_part(s.stack@, len, 0)
            &&& p.frame@ == stack_part(s.stack@, len, frame_index as int)
            &&& p.gt_matrix == s.gt_matrices@[frame_index as int]
            &&& p.full_w == s.full_w && p.full_h == s.full_h
        },
{
    let h = images.h as int;
    let w = images.w as int;
    let len = 3 * (s.h * s.w);
    assert(0 <= s.h * s.w) by (nonlinear_arith);
    assert forall|i: int| 0 <= i < images.rgb@.len() implies shown(
        (#[trigger] images.rgb@[i])@,
        h,
        w,
        3,
        crop,
    ).len() == len by {
        match crop {
            Some(cp) => {
                let side = cp.size as int;
                assert(3 * side * side == 3 * (side * side) && 0 <= side * side)
                    by (nonlinear_arith);
            },
            None => {},
        }
    }
    lemma_joined_part(images.rgb@, h, w, 3, crop, len, 0);
    lemma_joined_part(images.rgb@, h, w, 3, crop, len, frame_index as int);
}

/// A frame's matrix, and the size that it refers to, do not depend on the crop
/// that the images are shown through.
pub proof fn law_matrix_ignores_crop<T>(
    scene: AlignSequence,
    frame_index: int,
    reference: RgbImage<T>,
    frame: RgbImage<T>,
    crop: Option<CropParams>,
    other: Option<CropParams>,
    p: PairAlignSample<T>,
    q: PairAlignSample<T>,
)
    requires
        is_pair_sample(scene, frame_index, reference, frame, crop, p),
        is_pair_sample(scene, frame_index, reference, frame, other, q),
    ensures
        p.gt_matrix == q.gt_matrix,
        p.full_w == q.full_w,
        p.full_h == q.full_h,
{
}

/// The row of an image that row `y` of what a sample shows of it lies in.
pub open spec fn row_shown(crop: Option<CropParams>, y: int) -> int {
    match crop {
        Some(cp) => cp.top + y,
        None => y,
    }
}

/// The column of an image that column `x` of what a sample shows of it lies
/// in.
pub open spec fn column_shown(crop: Option<CropParams>, x: int) -> int {
    match crop {
        Some(cp) => cp.left + x,
        None => x,
    }
}

/// A sample shows an image unmoved: the pixel in row `y` and column `x` of
/// plane `p` of what is shown is the image's own, in the same row and column
/// without a crop, and in those from the crop's corner on with one.
pub proof fn law_sample_moves_no_pixel<T>(
    data: Seq<T>,
    h: usize,
    w: usize,
    c: int,
    crop: Option<CropParams>,
    p: int,
    y: int,
    x: int,
)
    requires
        0 <= p < c,
        0 <= y < shown_height(h, crop),
        0 <= x < shown_width(w, crop),
    ensures
        crop is None ==> shown_height(h, crop) == h && shown_width(w, crop) == w,
        crop is Some ==> shown_height(h, crop) == crop->0.size && shown_width(w, crop)
            == crop->0.size,
        shown(data, h as int, w as int, c, crop)[(p * shown_height(h, crop) + y) * shown_width(
            w,
            crop,
        ) + x] == data[(p * h + row_shown(crop, y)) * w + column_shown(crop, x)],
{
    match crop {
        Some(cp) => {
            law_crop_shows_image(data, h as int, w as int, c, cp, p, y, x);
        },
        None => {},
    }
}

/// The sample of a step shows the last colour image that is loaded as the
/// frame to merge in, and the last weight map as the depth edges, pixel by
/// pixel. Nothing else that is loaded has a part in either.
pub proof fn law_step_shows_its_source<T>(
    images: ImageSet<T>,
    k: int,
    crop: Option<CropParams>,
    m: MergeSample<T>,
    p: int,
    y: int,
    x: int,
)
    requires
        0 <= k,
        holds_step(images, k),
        is_step_sample(images, k, crop, m),
        0 <= p < 3,
        0 <= y < m.h,
        0 <= x < m.w,
    ensures
        m.source@[(p * m.h + y) * m.w + x] == images.rgb@.last()@[(p * images.h + row_shown(
            crop,
            y,
        )) * images.w + column_shown(crop, x)],
        m.occlusion@[y * m.w + x] == images.gray@.last()@[row_shown(crop, y) * images.w
            + column_shown(crop, x)],
{
    law_sample_moves_no_pixel(images.rgb@.last()@, images.h, images.w, 3, crop, p, y, x);
    law_sample_moves_no_pixel(images.gray@.last()@, images.h, images.w, 1, crop, 0, y, x);
    assert(0 * m.h + y == y && 0 * images.h + row_shown(crop, y) == row_shown(crop, y));
}

/// The frame to merge in does not depend on the other images of the step, the
/// all-in-focus image among them.
pub proof fn law_source_ignores_other_images<T>(
    images: ImageSet<T>,
    other: ImageSet<T>,
    k: int,
    crop: Option<CropParams>,
    m: MergeSample<T>,
    n: MergeSample<T>,
)
    requires
        0 <= k,
        holds_step(images, k),
        holds_step(other, k),
        images.h == other.h,
        images.w == other.w,
        images.rgb@.last()@ == other.rgb@.last()@,
        is_step_sample(images, k, crop, m),
        is_step_sample(other, k, crop, n),
    ensures
        m.source@ == n.source@,
{
}

/// Whether a set's images are those of the files that `loads` names: `colours`
/// and `weights` say what each file holds.
pub open spec fn loaded_from<T>(
    images: ImageSet<T>,
    loads: Seq<Load>,
    colours: spec_fn(Seq<char>) -> Seq<T>,
    weights: spec_fn(Seq<char>) -> Seq<u32>,
) -> bool {
    &&& images.rgb@.len() == files_of(loads, LoadKind::Rgb).len()
    &&& images.gray@.len() == files_of(loads, LoadKind::Gray).len()
    &&& forall|i: int|
        0 <= i < images.rgb@.len() ==> (#[trigger] images.rgb@[i])@ == colours(
            files_of(loads, LoadKind::Rgb)[i],
        )
    &&& forall|i: int|
        0 <= i < images.gray@.len() ==> (#[trigger] images.gray@[i])@ == weights(
            files_of(loads, LoadKind::Gray)[i],
        )
}

/// The frame that step `k` merges in is frame `k + 1` of the merge order: its
/// sample shows that file, and it is the last of the frames that the ground
/// truth after the merge is made of.
pub proof fn law_step_merges_the_next_frame<T>(
    scene: RolloutSequence,
    k: usize,
    loads: Vec<Load>,
    images: ImageSet<T>,
    colours: spec_fn(Seq<char>) -> Seq<T>,
    weights: spec_fn(Seq<char>) -> Seq<u32>,
    crop: Option<CropParams>,
    m: MergeSample<T>,
    p: int,
    y: int,
    x: int,
)
    requires
        call_ensures(RolloutSequence::step_loads, (&scene, k), loads),
        loaded_from(images, loads@, colours, weights),
        is_step_sample(images, k as int, crop, m),
        0 <= p < 3,
        0 <= y < m.h,
        0 <= x < m.w,
    ensures
        holds_step(images, k as int),
        m.source@[(p * m.h + y) * m.w + x] == colours(
            scene.meta.stack@[scene.meta.merge_order@[k + 1] as int]@,
        )[(p * images.h + row_shown(crop, y)) * images.w + column_shown(crop, x)],
        m.occlusion@[y * m.w + x] == weights(scene.meta.occlusion@)[row_shown(crop, y) * images.w
            + column_shown(crop, x)],
        images.rgb@[k + 1]@ == images.rgb@.last()@,
        forall|i: int|
            0 <= i < k + 2 ==> (#[trigger] images.gray@[i])@ == weights(
                scene.meta.masks@[scene.meta.merge_order@[i] as int]@,
            ),
{
    law_step_loads_its_frames(scene, k, loads);
    law_step_shows_its_source(images, k as int, crop, m, p, y, x);
    let rgb = files_of(loads@, LoadKind::Rgb);
    assert(images.rgb@[k + 1]@ == colours(rgb[k + 1]));
    assert(images.rgb@[k + 3]@ == colours(rgb[k + 3]));
    assert(images.gray@[k + 2]@ == weights(files_of(loads@, LoadKind::Gray)[k + 2]));
}

proof fn lemma_pixel_in_image(h: int, w: int, q: int, p: int)
    requires
        0 <= q < h * w,
        0 <= p < 3,
    ensures
        0 <= p * (h * w) + q < 3 * (h * w),
        (p * (h * w) + q) % (h * w) == q,
{
    let np = h * w;
    assert(0 <= p * np && p * np + np <= 3 * np) by (nonlinear_arith)
        requires
            0 <= p <= 2,
            0 < np,
    ;
    vstd::arithmetic::div_mod::lemma_fundamental_div_mod_converse(p * np + q, np, p, q);
}

proof fn lemma_shown_inside(h: usize, w: usize, crop: Option<CropParams>, p: int, y: int, x: int)
    requires
        shown_error(h, w, crop) is None,
        crop_ok(h, w, crop),
        0 <= y < shown_height(h, crop),
        0 <= x < shown_width(w, crop),
    ensures
        0 <= row_shown(crop, y) * w + column_shown(crop, x) < h * w,
        (p * h + row_shown(crop, y)) * w + column_shown(crop, x) == p * (h * w) + (row_shown(
            crop,
            y,
        ) * w + column_shown(crop, x)),
{
    let row = row_shown(crop, y);
    let last = match crop {
        Some(cp) => cp.top + cp.size - 1,
        None => h - 1,
    };
    assert(0 <= row * w <= last * w) by (nonlinear_arith)
        requires
            0 <= row <= last,
            0 <= w,
    ;
    assert((h - 1) * w + w == h * w) by (nonlinear_arith);
    assert((p * h + row) * w == p * (h * w) + row * w) by (nonlinear_arith);
}

/// What the composite of a step's first frames shows at a pixel: `q` is the
/// pixel's place in its plane of the image. Where the weight of one of the
/// frames is above 0.1 it is the all-in-focus image; elsewhere the frame with
/// the highest weight, the first of them where several are equal, and the
/// first frame of all where no weight is positive. The target is made of the
/// frames before the one that is merged in, the ground truth of that one too.
pub proof fn law_step_composites_are_the_sharpest<T: Copy>(
    images: ImageSet<T>,
    k: int,
    crop: Option<CropParams>,
    m: MergeSample<T>,
    p: int,
    y: int,
    x: int,
    b: int,
)
    requires
        0 <= k,
        images.wf(),
        holds_step(images, k),
        is_step_sample(images, k, crop, m),
        shown_error(images.h, images.w, crop) is None,
        crop_ok(images.h, images.w, crop),
        0 <= p < 3,
        0 <= y < m.h,
        0 <= x < m.w,
        0 <= b < k + 2,
    ensures
        ({
            let q = row_shown(crop, y) * images.w + column_shown(crop, x);
            let at = p * (images.h * images.w) + q;
            let i = (p * m.h + y) * m.w + x;
            let allfocus = images.rgb@[images.rgb@.len() - 2]@[at];
            let sharpest = |n: int|
                float_gt(images.gray@[b]@[q], 0) && forall|j: int|
                    0 <= j < n && j != b ==> float_gt(
                        images.gray@[b]@[q],
                        (#[trigger] images.gray@[j])@[q],
                    ) || (j > b && !float_gt(images.gray@[j]@[q], images.gray@[b]@[q]));
            let sharp = |n: int|
                exists|j: int|
                    0 <= j < n && float_gt((#[trigger] images.gray@[j])@[q], 0x3dcc_cccd);
            let blank = |n: int|
                forall|j: int| 0 <= j < n ==> !float_gt((#[trigger] images.gray@[j])@[q], 0);
            &&& sharp(k + 1) ==> m.target@[i] == allfocus
            &&& !sharp(k + 1) && b < k + 1 && sharpest(k + 1) ==> m.target@[i]
                == images.rgb@[b]@[at]
            &&& blank(k + 1) ==> m.target@[i] == images.rgb@[0]@[at]
            &&& sharp(k + 2) ==> m.gt_merged@[i] == allfocus
            &&& !sharp(k + 2) && sharpest(k + 2) ==> m.gt_merged@[i] == images.rgb@[b]@[at]
            &&& blank(k + 2) ==> m.gt_merged@[i] == images.rgb@[0]@[at]
        }),
{
    let np = images.h * images.w;
    let frames = images.rgb@.take(k + 2);
    let masks = images.gray@.take(k + 2);
    let allfocus = images.rgb@[k + 2]@;
    let q = row_shown(crop, y) * images.w + column_shown(crop, x);
    let at = p * np + q;
    lemma_shown_inside(images.h, images.w, crop, p, y, x);
    lemma_pixel_in_image(images.h as int, images.w as int, q, p);
    assert forall|j: int| 0 <= j < k + 2 implies #[trigger] masks[j] == images.gray@[j] by {}
    assert forall|j: int| 0 <= j < k + 2 implies #[trigger] frames[j] == images.rgb@[j] by {}
    let before = composite(frames, masks, allfocus, k + 1, np, IN_FOCUS);
    let after = composite(frames, masks, allfocus, k + 2, np, IN_FOCUS);
    law_sample_moves_no_pixel(before, images.h, images.w, 3, crop, p, y, x);
    law_sample_moves_no_pixel(after, images.h, images.w, 3, crop, p, y, x);
    let c = if b < k + 1 {
        b
    } else {
        0
    };
    lemma_composite_over(images, k, k + 1, np, at, q, c);
    lemma_composite_over(images, k, k + 2, np, at, q, b);
}

proof fn lemma_composite_over<T>(
    images: ImageSet<T>,
    k: int,
    n: int,
    np: int,
    at: int,
    q: int,
    b: int,
)
    requires
        0 <= k,
        holds_step(images, k),
        n == k + 1 || n == k + 2,
        0 <= b < n,
        0 <= at < 3 * np,
        at % np == q,
    ensures
        ({
            let seen = composite(
                images.rgb@.take(k + 2),
                images.gray@.take(k + 2),
                images.rgb@[k + 2]@,
                n,
                np,
                IN_FOCUS,
            )[at];
            let sharp = exists|j: int|
                0 <= j < n && float_gt((#[trigger] images.gray@[j])@[q], 0x3dcc_cccd);
            &&& sharp ==> seen == images.rgb@[k + 2]@[at]
            &&& !sharp && float_gt(images.gray@[b]@[q], 0) && (forall|j: int|
                0 <= j < n && j != b ==> float_gt(
                    images.gray@[b]@[q],
                    (#[trigger] images.gray@[j])@[q],
                ) || (j > b && !float_gt(images.gray@[j]@[q], images.gray@[b]@[q]))) ==> seen
                == images.rgb@[b]@[at]
            &&& (forall|j: int|
                0 <= j < n ==> !float_gt((#[trigger] images.gray@[j])@[q], 0)) ==> seen
                == images.rgb@[0]@[at]
        }),
{
    let frames = images.rgb@.take(k + 2);
    let masks = images.gray@.take(k + 2);
    law_composite_shows_the_sharpest(
        frames,
        masks,
        images.rgb@[k + 2]@,
        n,
        np,
        IN_FOCUS,
        at,
        b,
    );
    assert forall|j: int| 0 <= j < n implies #[trigger] masks[j] == images.gray@[j] by {}
    assert(frames[b] == images.rgb@[b] && frames[0] == images.rgb@[0]);
    if exists|j: int| 0 <= j < n && float_gt((#[trigger] images.gray@[j])@[q], 0x3dcc_cccd) {
        let j = choose|j: int|
            0 <= j < n && float_gt((#[trigger] images.gray@[j])@[q], 0x3dcc_cccd);
        assert(float_gt(masks[j]@[q], IN_FOCUS));
    }
}

/// Where the frame that a step merges in is the sharpest at a pixel, and no
/// weight there is above 0.1, the ground truth after the merge shows that
/// frame, as the sample's source does.
pub proof fn law_merge_takes_the_sharper_source<T: Copy>(
    images: ImageSet<T>,
    k: int,
    crop: Option<CropParams>,
    m: MergeSample<T>,
    p: int,
    y: int,
    x: int,
)
    requires
        0 <= k,
        images.wf(),
        holds_step(images, k),
        images.rgb@[k + 1]@ == images.rgb@.last()@,
        is_step_sample(images, k, crop, m),
        shown_error(images.h, images.w, crop) is None,
        crop_ok(images.h, images.w, crop),
        0 <= p < 3,
        0 <= y < m.h,
        0 <= x < m.w,
        ({
            let q = row_shown(crop, y) * images.w + column_shown(crop, x);
            let own = images.gray@[k + 1]@[q];
            &&& float_gt(own, 0)
            &&& !float_gt(own, 0x3dcc_cccd)
            &&& forall|j: int| 0 <= j < k + 1 ==> float_gt(own, (#[trigger] images.gray@[j])@[q])
        }),
    ensures
        m.gt_merged@[(p * m.h + y) * m.w + x] == m.source@[(p * m.h + y) * m.w + x],
{
    lemma_shown_inside(images.h, images.w, crop, p, y, x);
    law_step_shows_its_source(images, k, crop, m, p, y, x);
    law_step_composites_are_the_sharpest(images, k, crop, m, p, y, x, k + 1);
}

/// A step's confidences are the highest weights: at every pixel that of the
/// target is no lower than any weight of the frames merged so far, and is one
/// of these or zero; that of the ground truth counts the new frame too.
pub proof fn law_step_confidences_are_the_highest<T: Copy>(
    images: ImageSet<T>,
    k: int,
    crop: Option<CropParams>,
    m: MergeSample<T>,
    y: int,
    x: int,
    j: int,
)
    requires
        0 <= k,
        images.wf(),
        holds_step(images, k),
        is_step_sample(images, k, crop, m),
        shown_error(images.h, images.w, crop) is None,
        crop_ok(images.h, images.w, crop),
        0 <= y < m.h,
        0 <= x < m.w,
        0 <= j < k + 2,
    ensures
        ({
            let q = row_shown(crop, y) * images.w + column_shown(crop, x);
            let so_far = m.target_conf@[y * m.w + x];
            let after = m.gt_conf@[y * m.w + x];
            let weight = images.gray@[j]@[q];
            &&& j < k + 1 ==> !float_gt(weight, so_far)
            &&& !float_gt(weight, after)
            &&& so_far == 0 || exists|i: int|
                0 <= i < k + 1 && (#[trigger] images.gray@[i])@[q] == so_far && float_gt(so_far, 0)
            &&& after == 0 || exists|i: int|
                0 <= i < k + 2 && (#[trigger] images.gray@[i])@[q] == after && float_gt(after, 0)
        }),
{
    let np = images.h * images.w;
    let masks = images.gray@.take(k + 2);
    let q = row_shown(crop, y) * images.w + column_shown(crop, x);
    lemma_shown_inside(images.h, images.w, crop, 0, y, x);
    let before = confidence(masks, k + 1, np);
    let after = confidence(masks, k + 2, np);
    law_sample_moves_no_pixel(before, images.h, images.w, 1, crop, 0, y, x);
    law_sample_moves_no_pixel(after, images.h, images.w, 1, crop, 0, y, x);
    assert(0 * m.h + y == y && 0 * images.h + row_shown(crop, y) == row_shown(crop, y));
    law_confidence_is_a_weight(masks, q, k + 1);
    law_confidence_is_a_weight(masks, q, k + 2);
    if j < k + 1 {
        law_best_is_highest(masks, q, k + 1, j);
    }
    law_best_is_highest(masks, q, k + 2, j);
    assert forall|i: int| 0 <= i < k + 2 implies #[trigger] masks[i] == images.gray@[i] by {}
}

proof fn lemma_shown_length<T>(data: Seq<T>, h: usize, w: usize, c: int, crop: Option<CropParams>)
    requires
        data.len() == c * (h * w),
        0 <= c,
    ensures
        shown(data, h as int, w as int, c, crop).len() == c * (shown_height(h, crop) * shown_width(
            w,
            crop,
        )),
        0 <= c * (shown_height(h, crop) * shown_width(w, crop)),
{
    let a = shown_height(h, crop) as int;
    let b = shown_width(w, crop) as int;
    assert(c * a * b == c * (a * b) && 0 <= c * (a * b)) by (nonlinear_arith)
        requires
            0 <= a,
            0 <= b,
            0 <= c,
    ;
}

proof fn lemma_joined_pixel<T>(
    images: Seq<Vec<T>>,
    h: usize,
    w: usize,
    c: int,
    crop: Option<CropParams>,
    k: int,
    p: int,
    y: int,
    x: int,
)
    requires
        forall|i: int| 0 <= i < images.len() ==> (#[trigger] images[i])@.len() == c * (h * w),
        0 <= k < images.len(),
        0 <= p < c,
        0 <= y < shown_height(h, crop),
        0 <= x < shown_width(w, crop),
    ensures
        ({
            let a = shown_height(h, crop) as int;
            let b = shown_width(w, crop) as int;
            joined(images, h as int, w as int, c, crop)[((k * c + p) * a + y) * b + x]
                == images[k]@[(p * h + row_shown(crop, y)) * w + column_shown(crop, x)]
        }),
        joined(images, h as int, w as int, c, crop).len() == images.len() * (c * (shown_height(
            h,
            crop,
        ) * shown_width(w, crop))),
{
    let a = shown_height(h, crop) as int;
    let b = shown_width(w, crop) as int;
    let len = c * (a * b);
    assert forall|i: int| 0 <= i < images.len() implies shown(
        (#[trigger] images[i])@,
        h as int,
        w as int,
        c,
        crop,
    ).len() == len by {
        lemma_shown_length(images[i]@, h, w, c, crop);
    }
    lemma_shown_length(images[k]@, h, w, c, crop);
    lemma_joined_part(images, h as int, w as int, c, crop, len, k);
    law_sample_moves_no_pixel(images[k]@, h, w, c, crop, p, y, x);
    let i = (p * a + y) * b + x;
    assert(0 <= i < len) by (nonlinear_arith)
        requires
            i == (p * a + y) * b + x,
            len == c * (a * b),
            0 <= p < c,
            0 <= y < a,
            0 <= x < b,
    ;
    assert(((k * c + p) * a + y) * b + x == k * len + i) by (nonlinear_arith)
        requires
            i == (p * a + y) * b + x,
            len == c * (a * b),
    ;
    assert((k + 1) * len == k * len + len) by (nonlinear_arith);
    let all = joined(images, h as int, w as int, c, crop);
    assert(all.subrange(k * len, (k + 1) * len)[i] == all[k * len + i]);
}

/// The sample of a whole stack shows every image unmoved: frame `f` of the
/// stack is the frame that is loaded in that place, the weights beside it are
/// that frame's, the ground truth is the last colour image, and the depth
/// edges are the last weight map.
pub proof fn law_batch_moves_no_pixel<T: Copy>(
    images: ImageSet<T>,
    n: int,
    crop: Option<CropParams>,
    b: BatchSample<T>,
    f: int,
    p: int,
    y: int,
    x: int,
)
    requires
        images.wf(),
        images.rgb@.len() == n + 1,
        images.gray@.len() == n + 1,
        is_batch_sample(images, n, crop, b),
        0 <= f < b.n,
        0 <= p < 3,
        0 <= y < b.h,
        0 <= x < b.w,
    ensures
        ({
            let q = row_shown(crop, y) * images.w + column_shown(crop, x);
            let at = (p * images.h + row_shown(crop, y)) * images.w + column_shown(crop, x);
            &&& b.stack@.len() == b.n * (3 * (b.h * b.w))
            &&& b.masks@.len() == b.n * (1 * (b.h * b.w))
            &&& b.stack@[((f * 3 + p) * b.h + y) * b.w + x] == images.rgb@[f]@[at]
            &&& b.masks@[(f * b.h + y) * b.w + x] == images.gray@[f]@[q]
            &&& b.gt_merged@[(p * b.h + y) * b.w + x] == images.rgb@.last()@[at]
            &&& b.occlusion@[y * b.w + x] == images.gray@.last()@[q]
        }),
{
    let rgb = images.rgb@.take(n);
    let gray = images.gray@.take(n);
    assert forall|i: int| 0 <= i < rgb.len() implies (#[trigger] rgb[i])@.len() == 3 * (images.h
        * images.w) by {
        assert(rgb[i] == images.rgb@[i]);
    }
    assert forall|i: int| 0 <= i < gray.len() implies (#[trigger] gray[i])@.len() == 1 * (images.h
        * images.w) by {
        assert(gray[i] == images.gray@[i]);
    }
    lemma_joined_pixel(rgb, images.h, images.w, 3, crop, f, p, y, x);
    lemma_joined_pixel(gray, images.h, images.w, 1, crop, f, 0, y, x);
    law_sample_moves_no_pixel(images.rgb@.last()@, images.h, images.w, 3, crop, p, y, x);
    law_sample_moves_no_pixel(images.gray@.last()@, images.h, images.w, 1, crop, 0, y, x);
    assert(f * 1 + 0 == f && 0 * images.h + row_shown(crop, y) == row_shown(crop, y) && 0 * b.h + y
        == y);
}

/// The sample of a real stack or of an alignment scene shows every frame
/// unmoved, in the order in which the frames are loaded.
pub proof fn law_stack_moves_no_pixel<T: Copy>(
    images: ImageSet<T>,
    crop: Option<CropParams>,
    s: StackSample<T>,
    f: int,
    p: int,
    y: int,
    x: int,
)
    requires
        images.wf(),
        is_stack_sample(images, crop, s),
        0 <= f < s.n,
        0 <= p < 3,
        0 <= y < s.h,
        0 <= x < s.w,
    ensures
        s.stack@.len() == s.n * (3 * (s.h * s.w)),
        s.stack@[((f * 3 + p) * s.h + y) * s.w + x] == images.rgb@[f]@[(p * images.h + row_shown(
            crop,
            y,
        )) * images.w + column_shown(crop, x)],
{
    lemma_joined_pixel(images.rgb@, images.h, images.w, 3, crop, f, p, y, x);
}

/// The sample of an alignment scene shows every frame unmoved, with the
/// descriptor's matrix beside it and the descriptor's width and height.
pub proof fn law_alignment_moves_no_pixel<T: Copy>(
    scene: AlignSequence,
    images: ImageSet<T>,
    crop: Option<CropParams>,
    s: AlignSample<T>,
    f: int,
    p: int,
    y: int,
    x: int,
)
    requires
        images.wf(),
        is_align_sample(scene, images, crop, s),
        0 <= f < s.n,
        0 <= p < 3,
        0 <= y < s.h,
        0 <= x < s.w,
    ensures
        s.stack@[((f * 3 + p) * s.h + y) * s.w + x] == images.rgb@[f]@[(p * images.h + row_shown(
            crop,
            y,
        )) * images.w + column_shown(crop, x)],
        s.gt_matrices@[f] == scene.meta.alignment_gt@[f],
        s.full_w == scene.meta.cropped_dims@[0] as usize,
        s.full_h == scene.meta.cropped_dims@[1] as usize,
{
    lemma_joined_pixel(images.rgb@, images.h, images.w, 3, crop, f, p, y, x);
}

/// The sample of a pair shows the reference and the frame unmoved, each in its
/// own place, with the matrix of the frame asked for.
pub proof fn law_pair_moves_no_pixel<T>(
    scene: AlignSequence,
    frame_index: int,
    reference: RgbImage<T>,
    frame: RgbImage<T>,
    crop: Option<CropParams>,
    s: PairAlignSample<T>,
    p: int,
    y: int,
    x: int,
)
    requires
        pair_sizes_ok(reference, frame, scene.full_height(), scene.full_width()),
        is_pair_sample(scene, frame_index, reference, frame, crop, s),
        0 <= p < 3,
        0 <= y < s.h,
        0 <= x < s.w,
    ensures
        ({
            let i = (p * s.h + y) * s.w + x;
            let at = (p * reference.h + row_shown(crop, y)) * reference.w + column_shown(crop, x);
            &&& s.reference@[i] == reference.data@[at]
            &&& s.frame@[i] == frame.data@[at]
            &&& s.gt_matrix == scene.meta.alignment_gt@[frame_index]
            &&& s.full_w == frame.w && s.full_h == frame.h
        }),
{
    law_sample_moves_no_pixel(reference.data@, reference.h, reference.w, 3, crop, p, y, x);
    law_sample_moves_no_pixel(frame.data@, frame.h, frame.w, 3, crop, p, y, x);
}

/// Samples are refused for one reason only, besides an image of another size:
/// a crop that is taller or wider than the image, and the answer names the
/// crop's side and the side of the image that it exceeds.
pub proof fn law_only_large_crops_are_refused(h: usize, w: usize, crop: Option<CropParams>)
    ensures
        shown_error(h, w, crop) is Some <==> crop is Some && (crop->0.size > h || crop->0.size > w),
        shown_error(h, w, crop) matches Some(e) ==> {
            &&& e matches DataError::CropTooLarge { crop: side, dim }
            &&& side == crop->0.size && side > dim && (dim == h || dim == w)
            &&& crop->0.size > h ==> dim == h
        },
{
}

/// Images are kept in the order in which they are taken in, colours and weights
/// apart. The first colour image sets the size; one of another size is refused
/// with both sizes, and changes nothing.
pub proof fn law_colours_are_kept_in_order<T: Copy>(
    set: &mut ImageSet<T>,
    data: Vec<T>,
    h: usize,
    w: usize,
    r: Result<(), DataError>,
)
    requires
        call_ensures(ImageSet::<T>::admit_rgb, (set, data, h, w), r),
    ensures
        r is Ok <==> old(set).rgb@.len() == 0 || (old(set).h == h && old(set).w == w),
        r is Ok ==> {
            &&& final(set).rgb@.len() == old(set).rgb@.len() + 1
            &&& final(set).rgb@.last() == data
            &&& forall|i: int|
                0 <= i < old(set).rgb@.len() ==> #[trigger] final(set).rgb@[i] == old(set).rgb@[i]
            &&& final(set).gray@ == old(set).gray@
            &&& final(set).h == h && final(set).w == w
        },
        r matches Err(e) ==> {
            &&& e matches DataError::ShapeMismatch { expected, got }
            &&& expected == (3usize, old(set).h, old(set).w) && got == (3usize, h, w)
            &&& *final(set) == *old(set)
        },
{
}

/// A weight map is taken in behind those before it where it has the set's size,
/// and is refused with both sizes elsewhere, which changes nothing.
pub proof fn law_weights_are_kept_in_order<T: Copy>(
    set: &mut ImageSet<T>,
    data: Vec<u32>,
    h: usize,
    w: usize,
    r: Result<(), DataError>,
)
    requires
        call_ensures(ImageSet::<T>::admit_gray, (set, data, h, w), r),
    ensures
        r is Ok <==> old(set).h == h && old(set).w == w,
        r is Ok ==> {
            &&& final(set).gray@.len() == old(set).gray@.len() + 1
            &&& final(set).gray@.last() == data
            &&& forall|i: int|
                0 <= i < old(set).gray@.len() ==> #[trigger] final(set).gray@[i]
                    == old(set).gray@[i]
            &&& final(set).rgb@ == old(set).rgb@
            &&& final(set).h == h && final(set).w == w
        },
        r matches Err(e) ==> {
            &&& e matches DataError::ShapeMismatch { expected, got }
            &&& expected == (1usize, old(set).h, old(set).w) && got == (1usize, h, w)
            &&& *final(set) == *old(set)
        },
{
}

/// The sample that a scene gives for step `k` shows as its source the frame
/// that the merge order names next, unmoved, and is refused only for its crop.
pub proof fn law_scene_gives_the_next_frame<T: Copy>(
    scene: RolloutSequence,
    k: usize,
    loads: Vec<Load>,
    images: ImageSet<T>,
    colours: spec_fn(Seq<char>) -> Seq<T>,
    weights: spec_fn(Seq<char>) -> Seq<u32>,
    crop: Option<CropParams>,
    r: Result<MergeSample<T>, DataError>,
    p: int,
    y: int,
    x: int,
)
    requires
        call_ensures(RolloutSequence::step_loads, (&scene, k), loads),
        loaded_from(images, loads@, colours, weights),
        call_ensures(RolloutSequence::get_step::<T>, (&scene, k, images, crop), r),
        0 <= p < 3,
        0 <= y,
        0 <= x,
    ensures
        r is Err <==> crop is Some && (crop->0.size > images.h || crop->0.size > images.w),
        r matches Ok(m) ==> y < m.h && x < m.w ==> m.source@[(p * m.h + y) * m.w + x] == colours(
            scene.meta.stack@[scene.meta.merge_order@[k + 1] as int]@,
        )[(p * images.h + row_shown(crop, y)) * images.w + column_shown(crop, x)],
{
    law_only_large_crops_are_refused(images.h, images.w, crop);
    if let Ok(m) = r {
        if y < m.h && x < m.w {
            law_step_merges_the_next_frame(
                scene,
                k,
                loads,
                images,
                colours,
                weights,
                crop,
                m,
                p,
                y,
                x,
            );
        }
    }
}

} // verus!
