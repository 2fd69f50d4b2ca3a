//! A whole run: what it is made of, what it reports, and how its result is
//! written.

use vstd::prelude::*;
use crate::paths::{folded_extension, opt_text, portable, reads_folded};
use crate::pipeline::cache::{decode_events, decode_steps, law_decoding_progress};
use crate::pipeline::clip::CropRect;
use crate::pipeline::frames::{
    align_steps, law_alignment_progress, law_frames_are_read_from_one_end, marked, reports,
    resolves_crop, select_frames, stacked_frames, AlignSetup, AlignmentMode, PipelineProgress,
};
use crate::pipeline::fusion::{
    align_setup, fuse_reports, fuse_steps, law_fusion_progress, pastes, TileSite,
};
use crate::pipeline::output::{
    buffer_size, deep_extension, is_deep_extension, is_jpeg_extension, jpeg_extension,
    jpeg_quality, law_saved_part_starts_at_the_crop, output_extension, output_size, save_plan,
    saved_rect, saved_size, SavePlan,
};
use crate::pipeline::select::{
    law_modes_have_their_own_names, mode_named, FusionMode, SelectError,
};
use crate::text::lower;

verus! {

/// What a run is asked to do.
#[derive(Debug)]
pub struct RunSettings {
    /// Name of the fusion mode.
    pub mode: String,
    /// Path of the result.
    pub output_file: String,
    pub sort_reverse: bool,
    pub stack_every_nth: u32,
    pub alignment: AlignmentMode,
    pub akaze_seeding: bool,
    pub crop_to_common_area: bool,
    pub resize_cropped_to_original: bool,
    pub bit_depth: u32,
    pub jpeg_quality: u32,
}

/// Which optional parts are built.
#[derive(Debug, Clone, Copy, PartialEq, Eq, Structural)]
pub struct BuiltParts {
    pub akaze: bool,
    pub nn: bool,
}

/// What a run is made of before any image is loaded.
#[derive(Debug)]
pub struct RunPlan {
    pub mode: FusionMode,
    /// The frames that are stacked, the reference frame first.
    pub frames: Vec<String>,
    pub setup: AlignSetup,
    /// Whether the common coverage is resolved to a crop after alignment.
    pub resolves_crop: bool,
}

/// What a run is made of: refused where no fusion mode has the name asked for.
pub fn plan_run(paths: &Vec<String>, settings: &RunSettings, built: BuiltParts) -> (r: Result<
    RunPlan,
    SelectError,
>)
    ensures
        match r {
            Ok(plan) => {
                let n = plan.frames@.len();
                &&& mode_named(lower(settings.mode@), built.nn) == Some(plan.mode)
                &&& plan.frames@ == stacked_frames(
                    paths@,
                    settings.sort_reverse,
                    settings.stack_every_nth as int,
                )
                &&& plan.setup.n_frames == n
                &&& plan.setup.whole_image == (plan.mode == FusionMode::Apex)
                &&& plan.setup.seeding == (settings.akaze_seeding && built.akaze)
                &&& plan.setup.neural == (settings.alignment == AlignmentMode::Neural && built.nn)
                &&& plan.resolves_crop == (settings.crop_to_common_area && n > 1
                    && settings.alignment != AlignmentMode::Off)
            },
            Err(e) => {
                &&& mode_named(lower(settings.mode@), built.nn) is None
                &&& e matches SelectError::UnknownMode { mode, nn }
                &&& mode@ == lower(settings.mode@)
                &&& nn == built.nn
            },
        },
{
    let mode = match FusionMode::from_str(settings.mode.as_str(), built.nn) {
        Ok(m) => m,
        Err(e) => {
            return Err(e);
        },
    };
    let frames = select_frames(paths, settings.sort_reverse, settings.stack_every_nth);
    let n: usize = frames.len();
    let setup = align_setup(
        mode,
        n,
        settings.alignment,
        settings.akaze_seeding,
        built.akaze,
        built.nn,
    );
    let crops = resolves_crop(settings.crop_to_common_area, n, settings.alignment);
    Ok(RunPlan { mode, frames, setup, resolves_crop: crops })
}

/// How the result is encoded.
#[derive(Debug, Clone, Copy, PartialEq, Eq, Structural)]
pub enum Encoding {
    /// 16 bits per sample, in the format of the path's extension.
    Deep,
    /// 8 bits per sample, in the format of the path's extension.
    Shallow,
    /// JPEG with this quality.
    Jpeg { quality: u8 },
}

/// How the result is written.
#[derive(Debug, Clone, Copy, PartialEq, Eq)]
pub struct OutputPlan {
    /// Width and height of the buffer that fusion writes into.
    pub buffer: (usize, usize),
    pub encoding: Encoding,
    pub save: SavePlan,
}

/// How a result with this lower-case extension is encoded: deep where the
/// format and the setting both allow it, as JPEG where the extension says so.
pub open spec fn encoding_of(ext: Option<Seq<char>>, bit_depth: u32, quality: u32) -> Encoding {
    if bit_depth == 16 && is_deep_extension(ext) {
        Encoding::Deep
    } else if is_jpeg_extension(ext) {
        Encoding::Jpeg {
            quality: if quality < 1 {
                1
            } else if quality > 100 {
                100
            } else {
                quality as u8
            },
        }
    } else {
        Encoding::Shallow
    }
}

/// How a result with this lower-case extension is encoded.
pub fn encoding(ext: &Option<String>, bit_depth: u32, quality: u32) -> (r: Encoding)
    ensures
        r == encoding_of(opt_text(*ext), bit_depth, quality),
{
    if bit_depth == 16 && deep_extension(ext) {
        Encoding::Deep
    } else if jpeg_extension(ext) {
        Encoding::Jpeg { quality: jpeg_quality(quality) }
    } else {
        Encoding::Shallow
    }
}

/// How the result of a run is written, once the canvas and the crop are known.
pub fn plan_output(
    mode: FusionMode,
    settings: &RunSettings,
    img_w: usize,
    img_h: usize,
    crop: Option<CropRect>,
) -> (r: OutputPlan)
    requires
        img_w <= u32::MAX,
        img_h <= u32::MAX,
    ensures
        r.buffer == buffer_size(mode, img_w, img_h, crop),
        exists|ext: Option<Seq<char>>| #[trigger]
            reads_folded(settings.output_file@, ext) && r.encoding == encoding_of(
                ext,
                settings.bit_depth,
                settings.jpeg_quality,
            ),
        portable(settings.output_file@) ==> r.encoding == encoding_of(
            output_extension(settings.output_file@),
            settings.bit_depth,
            settings.jpeg_quality,
        ),
        r.save.width == saved_rect(mode, img_w, img_h, crop).width,
        r.save.height == saved_rect(mode, img_w, img_h, crop).height,
        r.save.crop == (if saved_rect(mode, img_w, img_h, crop) == (CropRect {
            x: 0,
            y: 0,
            width: r.buffer.0,
            height: r.buffer.1,
        }) {
            None::<CropRect>
        } else {
            Some(saved_rect(mode, img_w, img_h, crop))
        }),
        r.save.resize == (if settings.crop_to_common_area && settings.resize_cropped_to_original
            && !(r.save.width == img_w && r.save.height == img_h) {
            Some((img_w as u32, img_h as u32))
        } else {
            None::<(u32, u32)>
        }),
{
    let ext = folded_extension(settings.output_file.as_str());
    OutputPlan {
        buffer: output_size(mode, img_w, img_h, crop),
        encoding: encoding(&ext, settings.bit_depth, settings.jpeg_quality),
        save: save_plan(
            mode,
            img_w,
            img_h,
            crop,
            settings.crop_to_common_area,
            settings.resize_cropped_to_original,
        ),
    }
}

/// A JPEG result is never written with 16 bits per sample.
pub proof fn law_jpeg_is_never_deep(ext: Option<Seq<char>>, bit_depth: u32, quality: u32)
    ensures
        is_jpeg_extension(ext) ==> encoding_of(ext, bit_depth, quality) is Jpeg,
{
    reveal_strlit("png");
    reveal_strlit("tif");
    reveal_strlit("tiff");
    reveal_strlit("jpg");
    reveal_strlit("jpeg");
    assert("png"@[0] == 'p' && "tif"@[0] == 't' && "tiff"@[0] == 't');
    assert("jpg"@[0] == 'j' && "jpeg"@[0] == 'j');
}

/// Where a cropped result is resampled back, every run saves at the canvas's
/// size, whatever the fusion mode and the crop.
pub proof fn law_resized_result_has_canvas_size(
    mode: FusionMode,
    img_w: usize,
    img_h: usize,
    crop: Option<CropRect>,
    save: SavePlan,
)
    requires
        img_w <= u32::MAX,
        img_h <= u32::MAX,
        save.width == saved_rect(mode, img_w, img_h, crop).width,
        save.height == saved_rect(mode, img_w, img_h, crop).height,
        save.resize == (if !(save.width == img_w && save.height == img_h) {
            Some((img_w as u32, img_h as u32))
        } else {
            None::<(u32, u32)>
        }),
    ensures
        saved_size(save) == (img_w as int, img_h as int),
{
}

/// The events of decoding `total` RAW frames.
pub open spec fn decode_reports(total: nat) -> Seq<PipelineProgress> {
    Seq::new(
        total,
        |k: int| PipelineProgress::DecodeRaw { current: (k + 1) as usize, total: total as usize },
    )
}

/// All events of a run, in order. `raw[i]` says whether frame `i` is RAW.
pub open spec fn run_events(
    raw: Seq<bool>,
    setup: AlignSetup,
    mode: FusionMode,
    sites: Seq<TileSite>,
    crop: Option<CropRect>,
    img_w: usize,
    img_h: usize,
) -> Seq<PipelineProgress> {
    decode_events(decode_steps(marked(raw), marked(raw).len() as int)) + reports(
        align_steps(setup),
    ) + fuse_reports(
        fuse_steps(mode, sites, crop, img_w, img_h),
    ) + seq![PipelineProgress::Encoding]
}

/// What a run reports: each RAW frame decoded, each frame aligned, in tiled
/// modes each fused tile, and the encoding last. A run without RAW frames
/// starts with its alignment.
pub proof fn law_run_progress(
    raw: Seq<bool>,
    setup: AlignSetup,
    mode: FusionMode,
    sites: Seq<TileSite>,
    crop: Option<CropRect>,
    img_w: usize,
    img_h: usize,
)
    requires
        setup.n_frames >= 1,
        raw.len() == setup.n_frames,
    ensures
        ({
            let n = setup.n_frames;
            let tiles = pastes(sites, crop).len();
            let events = run_events(raw, setup, mode, sites, crop, img_w, img_h);
            &&& events == decode_reports(marked(raw).len()) + seq![
                PipelineProgress::AlignStart { total: n },
            ] + Seq::new(
                n as nat,
                |k: int| PipelineProgress::AlignFrame { current: (k + 1) as usize, total: n },
            ) + seq![PipelineProgress::AlignDone] + (if mode == FusionMode::Apex {
                Seq::empty()
            } else {
                seq![PipelineProgress::FuseStart { total: tiles as usize }] + Seq::new(
                    tiles,
                    |k: int|
                        PipelineProgress::FuseTile {
                            current: (k + 1) as usize,
                            total: tiles as usize,
                        },
                )
            }) + seq![PipelineProgress::FuseDone] + seq![PipelineProgress::Encoding]
            &&& (forall|i: int| 0 <= i < raw.len() ==> !raw[i]) ==> events[0]
                == (PipelineProgress::AlignStart { total: n })
        }),
{
    law_decoding_progress(marked(raw), marked(raw).len() as int);
    law_alignment_progress(setup);
    law_fusion_progress(mode, sites, crop, img_w, img_h);
    let n = setup.n_frames;
    let tiles = pastes(sites, crop).len();
    let events = run_events(raw, setup, mode, sites, crop, img_w, img_h);
    assert(events =~= decode_reports(marked(raw).len()) + seq![
        PipelineProgress::AlignStart { total: n },
    ] + Seq::new(
        n as nat,
        |k: int| PipelineProgress::AlignFrame { current: (k + 1) as usize, total: n },
    ) + seq![PipelineProgress::AlignDone] + (if mode == FusionMode::Apex {
        Seq::empty()
    } else {
        seq![PipelineProgress::FuseStart { total: tiles as usize }] + Seq::new(
            tiles,
            |k: int|
                PipelineProgress::FuseTile { current: (k + 1) as usize, total: tiles as usize },
        )
    }) + seq![PipelineProgress::FuseDone] + seq![PipelineProgress::Encoding]);
    if forall|i: int| 0 <= i < raw.len() ==> !raw[i] {
        lemma_none_marked(raw);
        assert(events[0] == (PipelineProgress::AlignStart { total: n }));
    }
}

proof fn lemma_none_marked(raw: Seq<bool>)
    requires
        forall|i: int| 0 <= i < raw.len() ==> !raw[i],
    ensures
        marked(raw).len() == 0,
    decreases raw.len(),
{
    if raw.len() > 0 {
        lemma_none_marked(raw.drop_last());
    }
}

/// How a result is encoded: with 16 bits where that is asked for and the
/// extension is PNG's or TIFF's, as JPEG with the quality asked for where the
/// extension is JPEG's, and with 8 bits otherwise.
pub proof fn law_encoding_follows_extension(ext: Option<Seq<char>>, bit_depth: u32, quality: u32)
    ensures
        encoding_of(ext, bit_depth, quality) is Deep <==> bit_depth == 16 && (ext == Some("png"@)
            || ext == Some("tif"@) || ext == Some("tiff"@)),
        encoding_of(ext, bit_depth, quality) is Jpeg <==> ext == Some("jpg"@) || ext == Some(
            "jpeg"@,
        ),
        encoding_of(ext, bit_depth, quality) matches Encoding::Jpeg { quality: q } ==> {
            &&& 1 <= q <= 100
            &&& 1 <= quality <= 100 ==> q == quality
            &&& quality == 0 ==> q == 1
            &&& quality > 100 ==> q == 100
        },
{
    law_jpeg_is_never_deep(ext, bit_depth, quality);
}

/// What a run is made of follows its settings: the mode named, the frames
/// selected, whole images only where they are fused whole, seeding and neural
/// alignment only where they are asked for and built, and a crop only where it
/// is asked for and there is something to align.
pub proof fn law_run_follows_its_settings(
    paths: Vec<String>,
    settings: RunSettings,
    built: BuiltParts,
    plan: RunPlan,
)
    requires
        call_ensures(plan_run, (&paths, &settings, built), Ok(plan)),
    ensures
        plan.setup.whole_image <==> lower(settings.mode@) == "apex"@,
        plan.mode is Ai ==> built.nn,
        plan.frames@.len() <= paths@.len(),
        plan.setup.n_frames == plan.frames@.len(),
        plan.setup.seeding ==> settings.akaze_seeding && built.akaze,
        settings.akaze_seeding && built.akaze ==> plan.setup.seeding,
        plan.setup.neural <==> settings.alignment is Neural && built.nn,
        plan.resolves_crop <==> settings.crop_to_common_area && plan.frames@.len() > 1
            && settings.alignment !is Off,
        settings.stack_every_nth <= 1 && !settings.sort_reverse ==> plan.frames@ == paths@,
        settings.stack_every_nth <= 1 && settings.sort_reverse ==> plan.frames@ == paths@.reverse(),
{
    law_modes_have_their_own_names(lower(settings.mode@), built.nn);
    let nth = settings.stack_every_nth as int;
    let n = paths@.len() as int;
    law_frames_are_read_from_one_end(paths@, settings.sort_reverse, nth, n);
    if nth > 1 {
        assert(n <= n * nth) by (nonlinear_arith)
            requires
                0 <= n,
                1 < nth,
        ;
    }
}

/// How a result is written follows the settings: the saved image has the
/// canvas's size where both settings ask for that and the crop's otherwise, is
/// cut only where whole images were fused, and the buffer holds what is cut.
pub proof fn law_output_follows_its_settings(
    mode: FusionMode,
    settings: RunSettings,
    img_w: usize,
    img_h: usize,
    crop: Option<CropRect>,
    r: OutputPlan,
)
    requires
        img_w <= u32::MAX,
        img_h <= u32::MAX,
        crop matches Some(c) ==> c.x + c.width <= img_w && c.y + c.height <= img_h,
        call_ensures(plan_output, (mode, &settings, img_w, img_h, crop), r),
    ensures
        settings.crop_to_common_area && settings.resize_cropped_to_original ==> saved_size(r.save)
            == (img_w as int, img_h as int),
        !(settings.crop_to_common_area && settings.resize_cropped_to_original) ==> saved_size(
            r.save,
        ) == (match crop {
            Some(c) => (c.width as int, c.height as int),
            None => (img_w as int, img_h as int),
        }),
        mode == FusionMode::Apex ==> r.buffer == (img_w, img_h),
        mode != FusionMode::Apex ==> r.buffer == (r.save.width, r.save.height) && r.save.crop
            is None,
        r.save.crop is Some ==> r.save.crop == crop,
        r.save.crop is None ==> r.buffer == (r.save.width, r.save.height),
        portable(settings.output_file@) ==> (r.encoding is Jpeg <==> output_extension(
            settings.output_file@,
        ) == Some("jpg"@) || output_extension(settings.output_file@) == Some("jpeg"@)),
        r.encoding is Deep ==> settings.bit_depth == 16,
{
    law_saved_part_starts_at_the_crop(mode, img_w, img_h, crop);
    if portable(settings.output_file@) {
        law_encoding_follows_extension(
            output_extension(settings.output_file@),
            settings.bit_depth,
            settings.jpeg_quality,
        );
    }
}

} // verus!
