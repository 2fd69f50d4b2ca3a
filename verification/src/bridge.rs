//! Handing planar frames to a network: checks on the stack, and the size at
//! which an alignment network sees it.

use vstd::prelude::*;

verus! {

/// Longest side of the frames that an alignment network sees.
pub const ALIGN_DOWNSCALE_LONG_SIDE: usize = 512;

/// Why a stack of planar frames is refused.
#[derive(Debug, Clone, Copy, PartialEq, Eq)]
pub enum BridgeError {
    /// There is no frame.
    EmptyStack,
    /// A frame has another size than the first.
    ShapeMismatch { index: usize, exp_w: usize, exp_h: usize, got_w: usize, got_h: usize },
}

/// Whether frame `i` is the first of another size than frame 0. Sizes are
/// width, height.
pub open spec fn is_first_odd_size(sizes: Seq<(usize, usize)>, i: int) -> bool {
    &&& 0 < i < sizes.len()
    &&& sizes[i] != sizes[0]
    &&& forall|k: int| 0 <= k < i ==> #[trigger] sizes[k] == sizes[0]
}

/// The common size of a stack of frames, each given as width and height.
/// Refuses an empty stack and the first frame of another size.
pub fn stack_size(sizes: &Vec<(usize, usize)>) -> (r: Result<(usize, usize), BridgeError>)
    ensures
        match r {
            Ok(size) => {
                &&& sizes@.len() > 0
                &&& size == sizes@[0]
                &&& forall|k: int| 0 <= k < sizes@.len() ==> #[trigger] sizes@[k] == size
            },
            Err(BridgeError::EmptyStack) => sizes@.len() == 0,
            Err(BridgeError::ShapeMismatch { index, exp_w, exp_h, got_w, got_h }) => {
                &&& is_first_odd_size(sizes@, index as int)
                &&& (exp_w, exp_h) == sizes@[0]
                &&& (got_w, got_h) == sizes@[index as int]
            },
        },
{
    if sizes.len() == 0 {
        return Err(BridgeError::EmptyStack);
    }
    let (w, h) = sizes[0];
    let mut i: usize = 1;
    while i < sizes.len()
        invariant
            1 <= i <= sizes@.len(),
            (w, h) == sizes@[0],
            forall|k: int| 0 <= k < i ==> #[trigger] sizes@[k] == sizes@[0],
        decreases sizes@.len() - i,
    {
        let (got_w, got_h) = sizes[i];
        if got_w != w || got_h != h {
            return Err(
                BridgeError::ShapeMismatch { index: i, exp_w: w, exp_h: h, got_w, got_h },
            );
        }
        i = i + 1;
    }
    Ok((w, h))
}

/// Whether frames of that size are made smaller for an alignment network.
pub open spec fn is_oversized(w: int, h: int) -> bool {
    w > ALIGN_DOWNSCALE_LONG_SIDE || h > ALIGN_DOWNSCALE_LONG_SIDE
}

/// Whether frames of that size are made smaller for an alignment network.
pub fn needs_downscale(w: usize, h: usize) -> (r: bool)
    ensures
        r == is_oversized(w as int, h as int),
{
    w > ALIGN_DOWNSCALE_LONG_SIDE || h > ALIGN_DOWNSCALE_LONG_SIDE
}

/// The size at which an alignment network sees frames of size `w` x `h`, as
/// height and width: their own, or the scaled one, kept at two pixels or more
/// on each side. `scaled_h` and `scaled_w` are the sides scaled so that the
/// longer one has [`ALIGN_DOWNSCALE_LONG_SIDE`] pixels, rounded.
pub fn align_size(w: usize, h: usize, scaled_h: usize, scaled_w: usize) -> (r: (usize, usize))
    ensures
        !is_oversized(w as int, h as int) ==> r == (h, w),
        is_oversized(w as int, h as int) ==> r.0 == (if scaled_h >= 2 {
            scaled_h as int
        } else {
            2
        }) && r.1 == (if scaled_w >= 2 {
            scaled_w as int
        } else {
            2
        }),
{
    if !needs_downscale(w, h) {
        (h, w)
    } else {
        (
            if scaled_h >= 2 {
                scaled_h
            } else {
                2
            },
            if scaled_w >= 2 {
                scaled_w
            } else {
                2
            },
        )
    }
}

/// Whether frames of that size can be aligned: each side has two pixels, so
/// that a normalised coordinate exists along it.
pub fn can_align(w: usize, h: usize) -> (r: bool)
    ensures
        r == (w >= 2 && h >= 2),
{
    w >= 2 && h >= 2
}

/// Whether every frame of a stack can be aligned, by its width and height.
pub fn align_stack_ok(sizes: &Vec<(usize, usize)>) -> (r: bool)
    ensures
        r == (forall|k: int|
            0 <= k < sizes@.len() ==> (#[trigger] sizes@[k]).0 >= 2 && sizes@[k].1 >= 2),
{
    let mut i: usize = 0;
    while i < sizes.len()
        invariant
            i <= sizes@.len(),
            forall|k: int| 0 <= k < i ==> (#[trigger] sizes@[k]).0 >= 2 && sizes@[k].1 >= 2,
        decreases sizes@.len() - i,
    {
        if !can_align(sizes[i].0, sizes[i].1) {
            return false;
        }
        i = i + 1;
    }
    true
}

/// A stack has a common size where it has a frame and all its frames have one
/// size, and only there; otherwise the answer names the first frame of another
/// size, with both sizes.
pub proof fn law_first_odd_size_is_named(
    sizes: Vec<(usize, usize)>,
    r: Result<(usize, usize), BridgeError>,
    k: int,
)
    requires
        call_ensures(stack_size, (&sizes,), r),
        0 <= k < sizes@.len(),
    ensures
        r matches Ok(size) ==> size == sizes@[k],
        r matches Err(e) ==> {
            &&& e matches BridgeError::ShapeMismatch { index, exp_w, exp_h, got_w, got_h }
            &&& 0 < index < sizes@.len()
            &&& exp_w == sizes@[0].0 && exp_h == sizes@[0].1
            &&& got_w == sizes@[index as int].0 && got_h == sizes@[index as int].1
            &&& !(got_w == exp_w && got_h == exp_h)
            &&& k < index ==> sizes@[k] == sizes@[0]
        },
{
}

/// A network sees frames of up to 512 pixels a side as they are; larger ones it
/// sees scaled, with height and width each in its own place and never below
/// two pixels.
pub proof fn law_large_frames_are_scaled(
    w: usize,
    h: usize,
    scaled_h: usize,
    scaled_w: usize,
    r: (usize, usize),
)
    requires
        call_ensures(align_size, (w, h, scaled_h, scaled_w), r),
    ensures
        w <= 512 && h <= 512 ==> r.0 == h && r.1 == w,
        w > 512 || h > 512 ==> {
            &&& r.0 >= 2 && r.1 >= 2
            &&& scaled_h >= 2 ==> r.0 == scaled_h
            &&& scaled_w >= 2 ==> r.1 == scaled_w
            &&& scaled_h < 2 ==> r.0 == 2
            &&& scaled_w < 2 ==> r.1 == 2
        },
{
}

} // verus!
