//! The schedule of the fusion pass: which tiles are fused, and where each
//! one's pixels go.

use vstd::prelude::*;
use crate::grid::in_rect;
use crate::pipeline::clip::{
    clip_of, clip_tile_to_crop, law_clip_in_bounds, law_clip_is_intersection,
    law_clip_moves_no_pixel, tile_meets_crop, CropRect,
};
use crate::pipeline::frames::{AlignSetup, AlignmentMode, PipelineProgress};
use crate::pipeline::select::FusionMode;

verus! {

/// A tile's rectangle in image coordinates.
#[derive(Debug, Clone, Copy, PartialEq, Eq, Structural)]
pub struct TileCoordinate {
    pub start_x: usize,
    pub start_y: usize,
    pub width: usize,
    pub height: usize,
}

/// A tile of the grid: its interior, the padded region that is fetched for
/// it, and where the interior begins within the padded region.
#[derive(Debug, Clone, Copy, PartialEq, Eq)]
pub struct TileSite {
    pub interior: TileCoordinate,
    pub padded: TileCoordinate,
    pub pad_off: (usize, usize),
}

/// Where a fused tile's pixels go: `width` x `height` pixels from `pad_off`
/// in the padded tile to `dest` in the output.
#[derive(Debug, Clone, Copy, PartialEq, Eq)]
pub struct TilePaste {
    pub tile: usize,
    pub pad_off: (usize, usize),
    pub dest: (usize, usize),
    pub width: usize,
    pub height: usize,
}

impl TileSite {
    /// A site whose numbers stay in range: the interior lies inside the
    /// padded region, and neither rectangle ends beyond `usize`.
    pub open spec fn wf(self) -> bool {
        &&& self.interior.start_x + self.interior.width <= usize::MAX
        &&& self.interior.start_y + self.interior.height <= usize::MAX
        &&& self.pad_off.0 + self.interior.width <= self.padded.width
        &&& self.pad_off.1 + self.interior.height <= self.padded.height
    }

    /// Whether the tile's interior holds the pixel.
    pub open spec fn holds(self, x: int, y: int) -> bool {
        in_rect(
            x,
            y,
            self.interior.start_x as int,
            self.interior.start_y as int,
            self.interior.width as int,
            self.interior.height as int,
        )
    }

    /// Whether the site is [well formed](Self::wf).
    pub fn is_wf(&self) -> (r: bool)
        ensures
            r == self.wf(),
    {
        self.interior.width <= usize::MAX - self.interior.start_x && self.interior.height
            <= usize::MAX - self.interior.start_y && self.interior.width <= self.padded.width
            && self.pad_off.0 <= self.padded.width - self.interior.width && self.interior.height
            <= self.padded.height && self.pad_off.1 <= self.padded.height - self.interior.height
    }
}

impl CropRect {
    /// Whether the rectangle ends within `usize`.
    pub open spec fn wf(self) -> bool {
        self.x + self.width <= usize::MAX && self.y + self.height <= usize::MAX
    }

    /// Whether the rectangle holds the pixel.
    pub open spec fn holds(self, x: int, y: int) -> bool {
        in_rect(x, y, self.x as int, self.y as int, self.width as int, self.height as int)
    }
}

/// Whether a tile contributes to the output.
pub open spec fn is_fused(site: TileSite, crop: Option<CropRect>) -> bool {
    match crop {
        Some(c) => tile_meets_crop(
            site.interior.start_x as int,
            site.interior.start_y as int,
            site.interior.width as int,
            site.interior.height as int,
            c.x as int,
            c.y as int,
            c.width as int,
            c.height as int,
        ),
        None => true,
    }
}

/// The clip of a tile against the crop.
pub open spec fn site_clip(site: TileSite, c: CropRect) -> ((int, int), (int, int), int, int) {
    clip_of(
        site.interior.start_x as int,
        site.interior.start_y as int,
        site.interior.width as int,
        site.interior.height as int,
        (site.pad_off.0 as int, site.pad_off.1 as int),
        c.x as int,
        c.y as int,
        c.width as int,
        c.height as int,
    )
}

/// Where the pixels of tile `tile` go: its whole interior, or its overlap with
/// the crop.
pub open spec fn paste_of(site: TileSite, tile: int, crop: Option<CropRect>) -> TilePaste {
    match crop {
        Some(c) => {
            let clip = site_clip(site, c);
            TilePaste {
                tile: tile as usize,
                pad_off: (clip.0.0 as usize, clip.0.1 as usize),
                dest: (clip.1.0 as usize, clip.1.1 as usize),
                width: clip.2 as usize,
                height: clip.3 as usize,
            }
        },
        None => TilePaste {
            tile: tile as usize,
            pad_off: site.pad_off,
            dest: (site.interior.start_x, site.interior.start_y),
            width: site.interior.width,
            height: site.interior.height,
        },
    }
}

/// The tiles that are fused, in grid order, with where their pixels go.
pub open spec fn pastes(sites: Seq<TileSite>, crop: Option<CropRect>) -> Seq<TilePaste>
    decreases sites.len(),
{
    if sites.len() == 0 {
        Seq::empty()
    } else {
        let before = pastes(sites.drop_last(), crop);
        if is_fused(sites.last(), crop) {
            before.push(paste_of(sites.last(), sites.len() - 1, crop))
        } else {
            before
        }
    }
}

/// Whether every site is in range.
pub open spec fn sites_wf(sites: Seq<TileSite>) -> bool {
    forall|i: int| 0 <= i < sites.len() ==> (#[trigger] sites[i]).wf()
}

/// Where one tile's pixels go, `None` where it does not meet the crop.
pub fn tile_paste(site: &TileSite, tile: usize, crop: Option<CropRect>) -> (r: Option<TilePaste>)
    requires
        site.wf(),
        crop matches Some(c) ==> c.wf(),
    ensures
        r == (if is_fused(*site, crop) {
            Some(paste_of(*site, tile as int, crop))
        } else {
            None
        }),
{
    match crop {
        Some(c) => {
            match clip_tile_to_crop(
                site.interior.start_x,
                site.interior.start_y,
                site.interior.width,
                site.interior.height,
                site.pad_off,
                c.x,
                c.y,
                c.width,
                c.height,
            ) {
                Some(clip) => Some(
                    TilePaste {
                        tile,
                        pad_off: clip.pad_off,
                        dest: clip.dest_off,
                        width: clip.width,
                        height: clip.height,
                    },
                ),
                None => None,
            }
        },
        None => Some(
            TilePaste {
                tile,
                pad_off: site.pad_off,
                dest: (site.interior.start_x, site.interior.start_y),
                width: site.interior.width,
                height: site.interior.height,
            },
        ),
    }
}

/// The tiles that are fused: all of them, or those that meet the crop, in
/// grid order.
pub fn fused_tiles(sites: &Vec<TileSite>, crop: Option<CropRect>) -> (r: Vec<TilePaste>)
    requires
        sites_wf(sites@),
        crop matches Some(c) ==> c.wf(),
    ensures
        r@ == pastes(sites@, crop),
{
    let mut out: Vec<TilePaste> = Vec::new();
    let mut i: usize = 0;
    while i < sites.len()
        invariant
            i <= sites@.len(),
            sites_wf(sites@),
            crop matches Some(c) ==> c.wf(),
            out@ == pastes(sites@.take(i as int), crop),
        decreases sites@.len() - i,
    {
        proof {
            assert(sites@.take(i + 1).drop_last() == sites@.take(i as int));
            assert(sites@[i as int].wf());
        }
        match tile_paste(&sites[i], i, crop) {
            Some(p) => {
                out.push(p);
            },
            None => {},
        }
        i = i + 1;
    }
    assert(sites@.take(sites@.len() as int) == sites@);
    out
}

/// Whether a paste writes the output pixel `(x, y)`.
pub open spec fn writes(p: TilePaste, x: int, y: int) -> bool {
    in_rect(x, y, p.dest.0 as int, p.dest.1 as int, p.width as int, p.height as int)
}

/// The output pixel of an image pixel: shifted by the crop's origin.
pub open spec fn output_pixel(x: int, y: int, crop: Option<CropRect>) -> (int, int) {
    match crop {
        Some(c) => (x - c.x, y - c.y),
        None => (x, y),
    }
}

/// Whether the image pixel is part of the output.
pub open spec fn is_kept(x: int, y: int, crop: Option<CropRect>) -> bool {
    match crop {
        Some(c) => c.holds(x, y),
        None => true,
    }
}

/// The paste of a fused tile writes exactly the kept pixels of its interior.
pub proof fn law_paste_writes_its_tile(
    site: TileSite,
    tile: int,
    crop: Option<CropRect>,
    x: int,
    y: int,
)
    requires
        site.wf(),
        crop matches Some(c) ==> c.wf(),
        is_fused(site, crop),
    ensures
        ({
            let o = output_pixel(x, y, crop);
            writes(paste_of(site, tile, crop), o.0, o.1) <==> site.holds(x, y) && is_kept(
                x,
                y,
                crop,
            )
        }),
{
    match crop {
        Some(c) => {
            law_clip_is_intersection(
                site.interior.start_x as int,
                site.interior.start_y as int,
                site.interior.width as int,
                site.interior.height as int,
                (site.pad_off.0 as int, site.pad_off.1 as int),
                c.x as int,
                c.y as int,
                c.width as int,
                c.height as int,
                x,
                y,
            );
            law_clip_in_bounds(
                site.interior.start_x as int,
                site.interior.start_y as int,
                site.interior.width as int,
                site.interior.height as int,
                (site.pad_off.0 as int, site.pad_off.1 as int),
                c.x as int,
                c.y as int,
                c.width as int,
                c.height as int,
            );
        },
        None => {},
    }
}

/// A paste reads inside its tile's interior and, where there is a crop,
/// writes inside the cropped output.
pub proof fn law_paste_in_bounds(site: TileSite, tile: int, crop: Option<CropRect>)
    requires
        site.wf(),
        crop matches Some(c) ==> c.wf(),
        is_fused(site, crop),
    ensures
        ({
            let p = paste_of(site, tile, crop);
            &&& site.pad_off.0 <= p.pad_off.0 && p.pad_off.0 + p.width <= site.pad_off.0
                + site.interior.width
            &&& site.pad_off.1 <= p.pad_off.1 && p.pad_off.1 + p.height <= site.pad_off.1
                + site.interior.height
            &&& crop matches Some(c) ==> p.dest.0 + p.width <= c.width && p.dest.1 + p.height
                <= c.height
        }),
{
    match crop {
        Some(c) => {
            law_clip_in_bounds(
                site.interior.start_x as int,
                site.interior.start_y as int,
                site.interior.width as int,
                site.interior.height as int,
                (site.pad_off.0 as int, site.pad_off.1 as int),
                c.x as int,
                c.y as int,
                c.width as int,
                c.height as int,
            );
        },
        None => {},
    }
}

/// A paste keeps each pixel in its place: a kept pixel `(x, y)` of the tile's
/// interior is read from where the padded tile holds it, and written to where
/// the output has it.
pub proof fn law_paste_moves_no_pixel(
    site: TileSite,
    tile: int,
    crop: Option<CropRect>,
    x: int,
    y: int,
)
    requires
        site.wf(),
        crop matches Some(c) ==> c.wf(),
        is_fused(site, crop),
    ensures
        ({
            let p = paste_of(site, tile, crop);
            let origin = match crop {
                Some(c) => (c.x as int, c.y as int),
                None => (0, 0),
            };
            &&& p.pad_off.0 + (x - origin.0 - p.dest.0) == site.pad_off.0 + (x
                - site.interior.start_x)
            &&& p.pad_off.1 + (y - origin.1 - p.dest.1) == site.pad_off.1 + (y
                - site.interior.start_y)
        }),
        0 <= tile <= usize::MAX ==> paste_of(site, tile, crop).tile == tile,
{
    match crop {
        Some(c) => {
            law_clip_moves_no_pixel(
                site.interior.start_x as int,
                site.interior.start_y as int,
                site.interior.width as int,
                site.interior.height as int,
                (site.pad_off.0 as int, site.pad_off.1 as int),
                c.x as int,
                c.y as int,
                c.width as int,
                c.height as int,
                x,
                y,
            );
            law_clip_in_bounds(
                site.interior.start_x as int,
                site.interior.start_y as int,
                site.interior.width as int,
                site.interior.height as int,
                (site.pad_off.0 as int, site.pad_off.1 as int),
                c.x as int,
                c.y as int,
                c.width as int,
                c.height as int,
            );
        },
        None => {},
    }
}

/// A tile is fused exactly where it has a pixel in the output: an image pixel
/// that its interior and the crop share. Without a crop every tile is fused.
pub proof fn law_only_tiles_in_the_output_are_fused(site: TileSite, crop: Option<CropRect>)
    ensures
        crop is None ==> is_fused(site, crop),
        crop is Some ==> (is_fused(site, crop) <==> exists|x: int, y: int|
            #[trigger] site.holds(x, y) && is_kept(x, y, crop)),
{
    match crop {
        Some(c) => {
            law_clip_moves_no_pixel(
                site.interior.start_x as int,
                site.interior.start_y as int,
                site.interior.width as int,
                site.interior.height as int,
                (0, 0),
                c.x as int,
                c.y as int,
                c.width as int,
                c.height as int,
                0,
                0,
            );
            if is_fused(site, crop) {
                let (x, y) = choose|p: int, q: int|
                    #[trigger] in_rect(
                        p,
                        q,
                        site.interior.start_x as int,
                        site.interior.start_y as int,
                        site.interior.width as int,
                        site.interior.height as int,
                    ) && in_rect(
                        p,
                        q,
                        c.x as int,
                        c.y as int,
                        c.width as int,
                        c.height as int,
                    );
                assert(site.holds(x, y) && is_kept(x, y, crop));
            }
            if exists|x: int, y: int| #[trigger] site.holds(x, y) && is_kept(x, y, crop) {
                let (x, y) = choose|x: int, y: int|
                    #[trigger] site.holds(x, y) && is_kept(x, y, crop);
                assert(in_rect(
                    x,
                    y,
                    site.interior.start_x as int,
                    site.interior.start_y as int,
                    site.interior.width as int,
                    site.interior.height as int,
                ));
            }
        },
        None => {},
    }
}

/// Every paste stands for a fused tile, later pastes for later tiles.
pub proof fn lemma_pastes_follow_tiles(sites: Seq<TileSite>, crop: Option<CropRect>)
    requires
        sites.len() <= usize::MAX,
    ensures
        forall|k: int|
            0 <= k < pastes(sites, crop).len() ==> {
                let p = #[trigger] pastes(sites, crop)[k];
                &&& p.tile < sites.len()
                &&& is_fused(sites[p.tile as int], crop)
                &&& p == paste_of(sites[p.tile as int], p.tile as int, crop)
            },
        forall|k: int, l: int|
            0 <= k < l < pastes(sites, crop).len() ==> (#[trigger] pastes(sites, crop)[k]).tile < (
            #[trigger] pastes(sites, crop)[l]).tile,
    decreases sites.len(),
{
    if sites.len() > 0 {
        let init = sites.drop_last();
        lemma_pastes_follow_tiles(init, crop);
        let before = pastes(init, crop);
        let all = pastes(sites, crop);
        assert forall|k: int| 0 <= k < all.len() implies {
            let p = #[trigger] all[k];
            &&& p.tile < sites.len()
            &&& is_fused(sites[p.tile as int], crop)
            &&& p == paste_of(sites[p.tile as int], p.tile as int, crop)
        } by {
            if k < before.len() {
                assert(all[k] == before[k]);
                assert(init[before[k].tile as int] == sites[before[k].tile as int]);
            }
        }
        assert forall|k: int, l: int| 0 <= k < l < all.len() implies (#[trigger] all[k]).tile < (
        #[trigger] all[l]).tile by {
            assert(all[k] == before[k]);
            if l < before.len() {
                assert(all[l] == before[l]);
            }
        }
    }
}

/// Every fused tile has a paste.
pub proof fn lemma_fused_tile_has_paste(sites: Seq<TileSite>, crop: Option<CropRect>, i: int)
    requires
        sites.len() <= usize::MAX,
        0 <= i < sites.len(),
        is_fused(sites[i], crop),
    ensures
        exists|k: int|
            0 <= k < pastes(sites, crop).len() && (#[trigger] pastes(sites, crop)[k]).tile == i,
    decreases sites.len(),
{
    let init = sites.drop_last();
    let before = pastes(init, crop);
    let all = pastes(sites, crop);
    if i < sites.len() - 1 {
        assert(init[i] == sites[i]);
        lemma_fused_tile_has_paste(init, crop, i);
        let k = choose|k: int| 0 <= k < before.len() && (#[trigger] before[k]).tile == i;
        assert(all[k] == before[k]);
    } else {
        assert(all[all.len() - 1].tile == i);
    }
}

/// Whether some tile's interior holds the pixel.
pub open spec fn is_covered(sites: Seq<TileSite>, x: int, y: int) -> bool {
    exists|i: int| 0 <= i < sites.len() && (#[trigger] sites[i]).holds(x, y)
}

/// Whether the interiors of the tiles cover the image of size `w` x `h`, each
/// pixel once.
pub open spec fn tiles_partition(sites: Seq<TileSite>, w: int, h: int) -> bool {
    &&& forall|x: int, y: int|
        0 <= x < w && 0 <= y < h ==> #[trigger] is_covered(sites, x, y)
    &&& forall|i: int, j: int, x: int, y: int|
        #![trigger sites[i].holds(x, y), sites[j].holds(x, y)]
        0 <= i < j < sites.len() ==> !(sites[i].holds(x, y) && sites[j].holds(x, y))
}

/// Where the tiles partition the image, every pixel of the output is written
/// by exactly one fused tile: some paste writes it, and no two pastes do.
pub proof fn law_output_written_once(
    sites: Seq<TileSite>,
    crop: Option<CropRect>,
    w: int,
    h: int,
    x: int,
    y: int,
)
    requires
        sites.len() <= usize::MAX,
        sites_wf(sites),
        crop matches Some(c) ==> c.wf(),
        tiles_partition(sites, w, h),
        0 <= x < w,
        0 <= y < h,
        is_kept(x, y, crop),
    ensures
        ({
            let o = output_pixel(x, y, crop);
            let all = pastes(sites, crop);
            &&& exists|k: int| 0 <= k < all.len() && writes(#[trigger] all[k], o.0, o.1)
            &&& forall|k: int, l: int|
                0 <= k < l < all.len() ==> !(writes(#[trigger] all[k], o.0, o.1) && writes(
                    #[trigger] all[l],
                    o.0,
                    o.1,
                ))
        }),
{
    let o = output_pixel(x, y, crop);
    let all = pastes(sites, crop);
    lemma_pastes_follow_tiles(sites, crop);
    assert(is_covered(sites, x, y));
    let i = choose|i: int| 0 <= i < sites.len() && (#[trigger] sites[i]).holds(x, y);
    assert(sites[i].wf());
    assert(is_fused(sites[i], crop)) by {
        match crop {
            Some(c) => {
                law_clip_is_intersection(
                    sites[i].interior.start_x as int,
                    sites[i].interior.start_y as int,
                    sites[i].interior.width as int,
                    sites[i].interior.height as int,
                    (sites[i].pad_off.0 as int, sites[i].pad_off.1 as int),
                    c.x as int,
                    c.y as int,
                    c.width as int,
                    c.height as int,
                    x,
                    y,
                );
            },
            None => {},
        }
    }
    lemma_fused_tile_has_paste(sites, crop, i);
    let k0 = choose|k: int| 0 <= k < all.len() && (#[trigger] all[k]).tile == i;
    law_paste_writes_its_tile(sites[i], i, crop, x, y);
    assert(writes(all[k0], o.0, o.1));
    assert forall|k: int, l: int| 0 <= k < l < all.len() implies !(writes(
        #[trigger] all[k],
        o.0,
        o.1,
    ) && writes(#[trigger] all[l], o.0, o.1)) by {
        let a = all[k].tile as int;
        let b = all[l].tile as int;
        assert(sites[a].wf() && sites[b].wf());
        law_paste_writes_its_tile(sites[a], a, crop, x, y);
        law_paste_writes_its_tile(sites[b], b, crop, x, y);
        assert(a < b);
        assert(!(sites[a].holds(x, y) && sites[b].holds(x, y)));
    }
}

/// One step of the fusion pass.
#[derive(Debug, Clone, Copy, PartialEq, Eq)]
pub enum FuseStep {
    /// Load the fusion network.
    LoadModel,
    /// Reconstruct the whole image from the accumulator and write it.
    FuseWhole { paste: TilePaste },
    /// Resolve the depth threshold shared by all tiles.
    ResolveThreshold,
    /// Report progress.
    Report(PipelineProgress),
    /// Fetch the tile from every frame, fuse it and write it.
    FuseTile { paste: TilePaste },
}

/// The steps of the first `upto` fused tiles.
pub open spec fn tile_steps(all: Seq<TilePaste>, upto: int) -> Seq<FuseStep>
    decreases upto,
{
    if upto <= 0 {
        Seq::empty()
    } else {
        tile_steps(all, upto - 1) + seq![
            FuseStep::FuseTile { paste: all[upto - 1] },
            FuseStep::Report(
                PipelineProgress::FuseTile { current: upto as usize, total: all.len() as usize },
            ),
        ]
    }
}

/// Where the whole image goes.
pub open spec fn whole_paste(img_w: usize, img_h: usize) -> TilePaste {
    TilePaste { tile: 0, pad_off: (0, 0), dest: (0, 0), width: img_w, height: img_h }
}

/// All steps of the fusion pass.
pub open spec fn fuse_steps(
    mode: FusionMode,
    sites: Seq<TileSite>,
    crop: Option<CropRect>,
    img_w: usize,
    img_h: usize,
) -> Seq<FuseStep> {
    let all = pastes(sites, crop);
    let load = if mode == FusionMode::Ai {
        seq![FuseStep::LoadModel]
    } else {
        Seq::empty()
    };
    let work = if mode == FusionMode::Apex {
        seq![FuseStep::FuseWhole { paste: whole_paste(img_w, img_h) }]
    } else {
        (if mode == FusionMode::Relief {
            seq![FuseStep::ResolveThreshold]
        } else {
            Seq::empty()
        }) + seq![
            FuseStep::Report(PipelineProgress::FuseStart { total: all.len() as usize }),
        ] + tile_steps(all, all.len() as int)
    };
    load + work + seq![FuseStep::Report(PipelineProgress::FuseDone)]
}

/// The schedule of the fusion pass. Whole-image fusion writes the full canvas
/// at once; every other mode fuses the tiles that meet the crop one by one.
pub fn fusion_schedule(
    mode: FusionMode,
    sites: &Vec<TileSite>,
    crop: Option<CropRect>,
    img_w: usize,
    img_h: usize,
) -> (r: Vec<FuseStep>)
    requires
        sites_wf(sites@),
        crop matches Some(c) ==> c.wf(),
    ensures
        r@ == fuse_steps(mode, sites@, crop, img_w, img_h),
{
    let mut steps: Vec<FuseStep> = Vec::new();
    if mode == FusionMode::Ai {
        steps.push(FuseStep::LoadModel);
    }
    if mode == FusionMode::Apex {
        steps.push(
            FuseStep::FuseWhole {
                paste: TilePaste {
                    tile: 0,
                    pad_off: (0, 0),
                    dest: (0, 0),
                    width: img_w,
                    height: img_h,
                },
            },
        );
    } else {
        let all = fused_tiles(sites, crop);
        let total: usize = all.len();
        if mode == FusionMode::Relief {
            steps.push(FuseStep::ResolveThreshold);
        }
        steps.push(FuseStep::Report(PipelineProgress::FuseStart { total }));
        let ghost head = steps@;
        assert(head + tile_steps(all@, 0) =~= head);
        let mut i: usize = 0;
        while i < total
            invariant
                i <= total,
                total == all@.len(),
                steps@ == head + tile_steps(all@, i as int),
            decreases total - i,
        {
            steps.push(FuseStep::FuseTile { paste: all[i] });
            steps.push(FuseStep::Report(PipelineProgress::FuseTile { current: i + 1, total }));
            i = i + 1;
            assert(steps@ =~= head + tile_steps(all@, i as int));
        }
    }
    steps.push(FuseStep::Report(PipelineProgress::FuseDone));
    proof {
        assert(steps@ =~= fuse_steps(mode, sites@, crop, img_w, img_h));
    }
    steps
}

/// The progress events among some fusion steps, in order.
pub open spec fn fuse_reports(steps: Seq<FuseStep>) -> Seq<PipelineProgress>
    decreases steps.len(),
{
    if steps.len() == 0 {
        Seq::empty()
    } else {
        match steps.last() {
            FuseStep::Report(p) => fuse_reports(steps.drop_last()).push(p),
            _ => fuse_reports(steps.drop_last()),
        }
    }
}

proof fn lemma_fuse_reports_concat(a: Seq<FuseStep>, b: Seq<FuseStep>)
    ensures
        fuse_reports(a + b) == fuse_reports(a) + fuse_reports(b),
    decreases b.len(),
{
    if b.len() == 0 {
        assert(a + b == a);
    } else {
        assert((a + b).drop_last() == a + b.drop_last());
        assert((a + b).last() == b.last());
        lemma_fuse_reports_concat(a, b.drop_last());
    }
}

proof fn lemma_tile_reports(all: Seq<TilePaste>, upto: int)
    requires
        0 <= upto <= all.len(),
    ensures
        fuse_reports(tile_steps(all, upto)) == Seq::new(
            upto as nat,
            |k: int|
                PipelineProgress::FuseTile { current: (k + 1) as usize, total: all.len() as usize },
        ),
    decreases upto,
{
    if upto > 0 {
        lemma_tile_reports(all, upto - 1);
        let pair = seq![
            FuseStep::FuseTile { paste: all[upto - 1] },
            FuseStep::Report(
                PipelineProgress::FuseTile { current: upto as usize, total: all.len() as usize },
            ),
        ];
        lemma_fuse_reports_concat(tile_steps(all, upto - 1), pair);
        reveal_with_fuel(fuse_reports, 3);
        assert(pair.drop_last().drop_last() =~= Seq::<FuseStep>::empty());
        assert(fuse_reports(pair) =~= seq![
            PipelineProgress::FuseTile { current: upto as usize, total: all.len() as usize },
        ]);
        assert(fuse_reports(tile_steps(all, upto)) =~= Seq::new(
            upto as nat,
            |k: int|
                PipelineProgress::FuseTile { current: (k + 1) as usize, total: all.len() as usize },
        ));
    }
}

/// The progress of the fusion pass: whole-image fusion reports its end alone;
/// tiled fusion reports the number of fused tiles, then each of them from 1
/// on, then its end.
pub proof fn law_fusion_progress(
    mode: FusionMode,
    sites: Seq<TileSite>,
    crop: Option<CropRect>,
    img_w: usize,
    img_h: usize,
)
    ensures
        ({
            let total = pastes(sites, crop).len();
            fuse_reports(fuse_steps(mode, sites, crop, img_w, img_h)) == (if mode
                == FusionMode::Apex {
                Seq::empty()
            } else {
                seq![PipelineProgress::FuseStart { total: total as usize }] + Seq::new(
                    total,
                    |k: int|
                        PipelineProgress::FuseTile {
                            current: (k + 1) as usize,
                            total: total as usize,
                        },
                )
            }) + seq![PipelineProgress::FuseDone]
        }),
{
    let all = pastes(sites, crop);
    let total = all.len();
    let load = if mode == FusionMode::Ai {
        seq![FuseStep::LoadModel]
    } else {
        Seq::empty()
    };
    let end = seq![FuseStep::Report(PipelineProgress::FuseDone)];
    reveal_with_fuel(fuse_reports, 2);
    assert(end.drop_last() =~= Seq::<FuseStep>::empty());
    assert(fuse_reports(end) =~= seq![PipelineProgress::FuseDone]);
    if mode == FusionMode::Ai {
        assert(load.drop_last() =~= Seq::<FuseStep>::empty());
    }
    assert(fuse_reports(load) =~= Seq::<PipelineProgress>::empty());
    if mode == FusionMode::Apex {
        let work = seq![FuseStep::FuseWhole { paste: whole_paste(img_w, img_h) }];
        assert(work.drop_last() =~= Seq::<FuseStep>::empty());
        lemma_fuse_reports_concat(load, work);
        lemma_fuse_reports_concat(load + work, end);
    } else {
        let threshold = if mode == FusionMode::Relief {
            seq![FuseStep::ResolveThreshold]
        } else {
            Seq::empty()
        };
        if mode == FusionMode::Relief {
            assert(threshold.drop_last() =~= Seq::<FuseStep>::empty());
        }
        assert(fuse_reports(threshold) =~= Seq::<PipelineProgress>::empty());
        let start = seq![
            FuseStep::Report(PipelineProgress::FuseStart { total: all.len() as usize }),
        ];
        assert(start.drop_last() =~= Seq::<FuseStep>::empty());
        assert(fuse_reports(start) =~= seq![
            PipelineProgress::FuseStart { total: all.len() as usize },
        ]);
        lemma_tile_reports(all, total as int);
        let tiles = tile_steps(all, total as int);
        lemma_fuse_reports_concat(threshold, start);
        lemma_fuse_reports_concat(threshold + start, tiles);
        lemma_fuse_reports_concat(load, threshold + start + tiles);
        lemma_fuse_reports_concat(load + (threshold + start + tiles), end);
    }
    assert(fuse_reports(fuse_steps(mode, sites, crop, img_w, img_h)) =~= (if mode
        == FusionMode::Apex {
        Seq::empty()
    } else {
        seq![PipelineProgress::FuseStart { total: total as usize }] + Seq::new(
            total,
            |k: int|
                PipelineProgress::FuseTile { current: (k + 1) as usize, total: total as usize },
        )
    }) + seq![PipelineProgress::FuseDone]);
}

/// The tile pastes among some fusion steps, in order.
pub open spec fn pasted(steps: Seq<FuseStep>) -> Seq<TilePaste>
    decreases steps.len(),
{
    if steps.len() == 0 {
        Seq::empty()
    } else {
        match steps.last() {
            FuseStep::FuseTile { paste } => pasted(steps.drop_last()).push(paste),
            _ => pasted(steps.drop_last()),
        }
    }
}

proof fn lemma_pasted_concat(a: Seq<FuseStep>, b: Seq<FuseStep>)
    ensures
        pasted(a + b) == pasted(a) + pasted(b),
    decreases b.len(),
{
    if b.len() == 0 {
        assert(a + b == a);
    } else {
        assert((a + b).drop_last() == a + b.drop_last());
        assert((a + b).last() == b.last());
        lemma_pasted_concat(a, b.drop_last());
    }
}

proof fn lemma_nothing_pasted(steps: Seq<FuseStep>)
    requires
        forall|i: int| 0 <= i < steps.len() ==> !((#[trigger] steps[i]) is FuseTile),
    ensures
        pasted(steps) == Seq::<TilePaste>::empty(),
    decreases steps.len(),
{
    if steps.len() > 0 {
        assert(!(steps[steps.len() - 1] is FuseTile));
        assert forall|i: int| 0 <= i < steps.drop_last().len() implies !((
        #[trigger] steps.drop_last()[i]) is FuseTile) by {
            assert(steps.drop_last()[i] == steps[i]);
        }
        lemma_nothing_pasted(steps.drop_last());
    }
}

proof fn lemma_tiles_pasted(all: Seq<TilePaste>, upto: int)
    requires
        0 <= upto <= all.len(),
    ensures
        pasted(tile_steps(all, upto)) == all.take(upto),
    decreases upto,
{
    if upto > 0 {
        lemma_tiles_pasted(all, upto - 1);
        let steps = tile_steps(all, upto);
        reveal_with_fuel(pasted, 3);
        assert(steps.drop_last().drop_last() =~= tile_steps(all, upto - 1));
        assert(pasted(steps) =~= all.take(upto));
    } else {
        assert(all.take(0) =~= Seq::<TilePaste>::empty());
    }
}

proof fn lemma_steps_pasted(
    mode: FusionMode,
    sites: Seq<TileSite>,
    crop: Option<CropRect>,
    img_w: usize,
    img_h: usize,
)
    ensures
        pasted(fuse_steps(mode, sites, crop, img_w, img_h)) == (if mode == FusionMode::Apex {
            Seq::<TilePaste>::empty()
        } else {
            pastes(sites, crop)
        }),
{
    let all = pastes(sites, crop);
    let steps = fuse_steps(mode, sites, crop, img_w, img_h);
    let end = seq![FuseStep::Report(PipelineProgress::FuseDone)];
    if mode == FusionMode::Apex {
        lemma_nothing_pasted(steps);
    } else {
        let tiles = tile_steps(all, all.len() as int);
        let head = steps.take(steps.len() - 1 - tiles.len());
        lemma_tiles_pasted(all, all.len() as int);
        lemma_nothing_pasted(head);
        lemma_nothing_pasted(end);
        assert(steps =~= head + tiles + end);
        lemma_pasted_concat(head, tiles);
        lemma_pasted_concat(head + tiles, end);
        assert(all.take(all.len() as int) =~= all);
        assert(pasted(steps) =~= all);
    }
}

/// Where images are fused tile by tile, the schedule fuses exactly the tiles
/// with a pixel in the output, each once and in grid order: the `k`-th tile
/// step is for a tile that meets the crop, later steps are for later tiles, and
/// every tile that meets the crop has its step, whose paste is that tile's own.
/// Where the whole image is fused, no tile is.
pub proof fn law_every_tile_fused_once(
    mode: FusionMode,
    sites: Seq<TileSite>,
    crop: Option<CropRect>,
    img_w: usize,
    img_h: usize,
    i: int,
)
    requires
        sites.len() <= usize::MAX,
    ensures
        ({
            let done = pasted(fuse_steps(mode, sites, crop, img_w, img_h));
            if mode == FusionMode::Apex {
                done.len() == 0
            } else {
                &&& done == pastes(sites, crop)
                &&& forall|k: int|
                    0 <= k < done.len() ==> (#[trigger] done[k]).tile < sites.len() && is_fused(
                        sites[done[k].tile as int],
                        crop,
                    ) && done[k] == paste_of(
                        sites[done[k].tile as int],
                        done[k].tile as int,
                        crop,
                    )
                &&& forall|k: int, l: int|
                    0 <= k < l < done.len() ==> (#[trigger] done[k]).tile < (
                    #[trigger] done[l]).tile
                &&& 0 <= i < sites.len() && is_fused(sites[i], crop) ==> exists|k: int|
                    0 <= k < done.len() && (#[trigger] done[k]).tile == i
            }
        }),
{
    lemma_steps_pasted(mode, sites, crop, img_w, img_h);
    if mode != FusionMode::Apex {
        lemma_pastes_follow_tiles(sites, crop);
        if 0 <= i < sites.len() && is_fused(sites[i], crop) {
            lemma_fused_tile_has_paste(sites, crop, i);
        }
    }
}

/// Where the tiles partition the image, every pixel of the output is written
/// by exactly one tile step of the schedule.
pub proof fn law_schedule_writes_each_pixel_once(
    mode: FusionMode,
    sites: Seq<TileSite>,
    crop: Option<CropRect>,
    img_w: usize,
    img_h: usize,
    x: int,
    y: int,
)
    requires
        mode != FusionMode::Apex,
        sites.len() <= usize::MAX,
        sites_wf(sites),
        crop matches Some(c) ==> c.wf(),
        tiles_partition(sites, img_w as int, img_h as int),
        0 <= x < img_w,
        0 <= y < img_h,
        is_kept(x, y, crop),
    ensures
        ({
            let o = output_pixel(x, y, crop);
            let done = pasted(fuse_steps(mode, sites, crop, img_w, img_h));
            &&& exists|k: int| 0 <= k < done.len() && writes(#[trigger] done[k], o.0, o.1)
            &&& forall|k: int, l: int|
                0 <= k < l < done.len() ==> !(writes(#[trigger] done[k], o.0, o.1) && writes(
                    #[trigger] done[l],
                    o.0,
                    o.1,
                ))
        }),
{
    lemma_steps_pasted(mode, sites, crop, img_w, img_h);
    law_output_written_once(sites, crop, img_w as int, img_h as int, x, y);
}

proof fn lemma_tile_steps_kinds(all: Seq<TilePaste>, upto: int)
    requires
        0 <= upto <= all.len(),
    ensures
        tile_steps(all, upto).len() == 2 * upto,
        forall|i: int|
            0 <= i < tile_steps(all, upto).len() ==> match #[trigger] tile_steps(all, upto)[i] {
                FuseStep::FuseTile { paste } => i % 2 == 0,
                FuseStep::Report(p) => i % 2 == 1 && p == (PipelineProgress::FuseTile {
                    current: (i / 2 + 1) as usize,
                    total: all.len() as usize,
                }),
                _ => false,
            },
    decreases upto,
{
    if upto > 0 {
        lemma_tile_steps_kinds(all, upto - 1);
        let before = tile_steps(all, upto - 1);
        assert forall|i: int| 0 <= i < tile_steps(all, upto).len() implies match #[trigger] tile_steps(
            all,
            upto,
        )[i] {
            FuseStep::FuseTile { paste } => i % 2 == 0,
            FuseStep::Report(p) => i % 2 == 1 && p == (PipelineProgress::FuseTile {
                current: (i / 2 + 1) as usize,
                total: all.len() as usize,
            }),
            _ => false,
        } by {
            if i < before.len() {
                assert(tile_steps(all, upto)[i] == before[i]);
            }
        }
    }
}

/// What a fusion mode needs is there before its first tile: neural fusion
/// loads its network first of all, and depth-map fusion resolves the shared
/// threshold; no other mode does either. The whole image is fused in one step
/// exactly in whole-image mode, and its paste covers the canvas. A tile is
/// reported right after it is fused.
pub proof fn law_fusion_is_prepared(
    mode: FusionMode,
    sites: Seq<TileSite>,
    crop: Option<CropRect>,
    img_w: usize,
    img_h: usize,
    i: int,
)
    requires
        0 <= i < fuse_steps(mode, sites, crop, img_w, img_h).len(),
    ensures
        ({
            let steps = fuse_steps(mode, sites, crop, img_w, img_h);
            &&& (steps[0] == FuseStep::LoadModel <==> mode == FusionMode::Ai)
            &&& (steps.contains(FuseStep::ResolveThreshold) <==> mode == FusionMode::Relief)
            &&& mode == FusionMode::Relief ==> steps[0] == FuseStep::ResolveThreshold
            &&& match steps[i] {
                FuseStep::LoadModel => mode == FusionMode::Ai && i == 0,
                FuseStep::ResolveThreshold => mode == FusionMode::Relief && i == 0,
                FuseStep::FuseWhole { paste } => {
                    &&& mode == FusionMode::Apex && i == 0
                    &&& paste.dest == (0usize, 0usize) && paste.pad_off == (0usize, 0usize)
                    &&& paste.width == img_w && paste.height == img_h
                },
                FuseStep::FuseTile { paste } => {
                    &&& mode != FusionMode::Apex
                    &&& i + 1 < steps.len() && steps[i + 1] is Report
                },
                FuseStep::Report(_) => true,
            }
            &&& mode == FusionMode::Apex ==> steps[0] is FuseWhole
        }),
{
    let all = pastes(sites, crop);
    let steps = fuse_steps(mode, sites, crop, img_w, img_h);
    let total = all.len() as int;
    lemma_tile_steps_kinds(all, total);
    if mode == FusionMode::Relief {
        assert(steps[0] == FuseStep::ResolveThreshold);
    }
    if mode != FusionMode::Apex {
        let tiles = tile_steps(all, total);
        let first = steps.len() - 1 - tiles.len();
        assert forall|k: int| first <= k < steps.len() - 1 implies #[trigger] steps[k]
            == tiles[k - first] by {}
        assert forall|k: int| 0 <= k < steps.len() && steps[k]
            == FuseStep::ResolveThreshold implies mode == FusionMode::Relief by {
            if first <= k < steps.len() - 1 {
                assert(steps[k] == tiles[k - first]);
            }
        }
        if first <= i < steps.len() - 1 {
            assert(steps[i] == tiles[i - first]);
            if steps[i] is FuseTile {
                assert(steps[i + 1] == tiles[i + 1 - first]);
            }
        }
    }
}

/// What the alignment pass of a run depends on: whole-image fusion blends
/// instead of committing tiles; coarse seeds and neural transforms come in
/// where they are asked for and built.
pub fn align_setup(
    mode: FusionMode,
    n_frames: usize,
    alignment: AlignmentMode,
    akaze_seeding: bool,
    akaze_built: bool,
    nn_built: bool,
) -> (r: AlignSetup)
    ensures
        r.n_frames == n_frames,
        r.whole_image == (mode == FusionMode::Apex),
        r.seeding == (akaze_seeding && akaze_built),
        r.neural == (alignment == AlignmentMode::Neural && nn_built),
{
    AlignSetup {
        n_frames,
        whole_image: mode == FusionMode::Apex,
        seeding: akaze_seeding && akaze_built,
        neural: alignment == AlignmentMode::Neural && nn_built,
    }
}

/// The schedule of the fusion pass: in tiled modes the tiles that are pasted are
/// those that have a pixel in the output, each once and in grid order, each
/// with its own paste; whole-image fusion pastes none.
pub proof fn law_schedule_fuses_every_tile(
    mode: FusionMode,
    sites: Vec<TileSite>,
    crop: Option<CropRect>,
    img_w: usize,
    img_h: usize,
    r: Vec<FuseStep>,
    i: int,
)
    requires
        call_ensures(fusion_schedule, (mode, &sites, crop, img_w, img_h), r),
        0 <= i < sites@.len(),
    ensures
        mode == FusionMode::Apex ==> pasted(r@) == Seq::<TilePaste>::empty(),
        mode != FusionMode::Apex ==> {
            &&& is_fused(sites@[i], crop) <==> exists|k: int|
                0 <= k < pasted(r@).len() && (#[trigger] pasted(r@)[k]).tile == i
            &&& forall|k: int|
                0 <= k < pasted(r@).len() && (#[trigger] pasted(r@)[k]).tile == i ==> pasted(r@)[k]
                    == paste_of(sites@[i], i, crop)
            &&& forall|k: int, l: int|
                0 <= k < l < pasted(r@).len() ==> (#[trigger] pasted(r@)[k]).tile < (
                #[trigger] pasted(r@)[l]).tile
        },
{
    lemma_steps_pasted(mode, sites@, crop, img_w, img_h);
    assert(sites.len() == sites@.len());
    lemma_pastes_follow_tiles(sites@, crop);
    if is_fused(sites@[i], crop) {
        lemma_fused_tile_has_paste(sites@, crop, i);
    }
}

} // verus!
