//! Network capacity presets and the geometry of the four network families.

use vstd::prelude::*;
use crate::text::{lower, same, trimmed};

verus! {

/// Named capacity presets, smallest to largest.
#[derive(Debug, Clone, Copy, PartialEq, Eq, Structural)]
pub enum ModelSize {
    Xs,
    S,
    M,
    L,
    Xl,
    Xxl,
}

/// The lower-case tag of a preset.
pub open spec fn size_tag(size: ModelSize) -> Seq<char> {
    match size {
        ModelSize::Xs => "xs"@,
        ModelSize::S => "s"@,
        ModelSize::M => "m"@,
        ModelSize::L => "l"@,
        ModelSize::Xl => "xl"@,
        ModelSize::Xxl => "xxl"@,
    }
}

/// The preset with the given tag.
pub open spec fn size_of_tag(tag: Seq<char>) -> Option<ModelSize> {
    if tag == "xs"@ {
        Some(ModelSize::Xs)
    } else if tag == "s"@ {
        Some(ModelSize::S)
    } else if tag == "m"@ {
        Some(ModelSize::M)
    } else if tag == "l"@ {
        Some(ModelSize::L)
    } else if tag == "xl"@ {
        Some(ModelSize::Xl)
    } else if tag == "xxl"@ {
        Some(ModelSize::Xxl)
    } else {
        None
    }
}

/// `(width, depth)` of the fusion networks at a preset.
pub open spec fn fusion_dims(size: ModelSize) -> (int, int) {
    match size {
        ModelSize::Xs => (16, 2),
        ModelSize::S => (24, 3),
        ModelSize::M => (32, 4),
        ModelSize::L => (48, 6),
        ModelSize::Xl => (64, 9),
        ModelSize::Xxl => (96, 12),
    }
}

/// `(width, depth)` of the alignment networks at a preset.
pub open spec fn align_dims(size: ModelSize) -> (int, int) {
    match size {
        ModelSize::Xs => (32, 1),
        ModelSize::S => (48, 1),
        ModelSize::M => (64, 2),
        ModelSize::L => (96, 2),
        ModelSize::Xl => (128, 3),
        ModelSize::Xxl => (160, 3),
    }
}

impl ModelSize {
    /// All presets, smallest to largest.
    pub const ALL: [ModelSize; 6] = [
        ModelSize::Xs,
        ModelSize::S,
        ModelSize::M,
        ModelSize::L,
        ModelSize::Xl,
        ModelSize::Xxl,
    ];

    /// Lower-case tag of the preset.
    pub fn as_str(self) -> (r: &'static str)
        ensures
            r@ == size_tag(self),
    {
        match self {
            ModelSize::Xs => "xs",
            ModelSize::S => "s",
            ModelSize::M => "m",
            ModelSize::L => "l",
            ModelSize::Xl => "xl",
            ModelSize::Xxl => "xxl",
        }
    }

    /// Parses a preset tag, ignoring ASCII case and surrounding white space.
    pub fn parse(s: &str) -> (r: Option<ModelSize>)
        ensures
            r == size_of_tag(lower(trimmed(s@))),
    {
        let folded = s.trim().to_ascii_lowercase();
        let tag = folded.as_str();
        if same(tag, "xs") {
            Some(ModelSize::Xs)
        } else if same(tag, "s") {
            Some(ModelSize::S)
        } else if same(tag, "m") {
            Some(ModelSize::M)
        } else if same(tag, "l") {
            Some(ModelSize::L)
        } else if same(tag, "xl") {
            Some(ModelSize::Xl)
        } else if same(tag, "xxl") {
            Some(ModelSize::Xxl)
        } else {
            None
        }
    }

    /// `(width, depth)` of the fusion networks at this preset.
    pub fn dims(self) -> (r: (usize, usize))
        ensures
            (r.0 as int, r.1 as int) == fusion_dims(self),
    {
        match self {
            ModelSize::Xs => (16, 2),
            ModelSize::S => (24, 3),
            ModelSize::M => (32, 4),
            ModelSize::L => (48, 6),
            ModelSize::Xl => (64, 9),
            ModelSize::Xxl => (96, 12),
        }
    }

    /// `(width, depth)` of the alignment networks at this preset.
    pub fn align_dims(self) -> (r: (usize, usize))
        ensures
            (r.0 as int, r.1 as int) == align_dims(self),
    {
        match self {
            ModelSize::Xs => (32, 1),
            ModelSize::S => (48, 1),
            ModelSize::M => (64, 2),
            ModelSize::L => (96, 2),
            ModelSize::Xl => (128, 3),
            ModelSize::Xxl => (160, 3),
        }
    }
}

proof fn lemma_reveal_tags()
    ensures
        "xs"@ == seq!['x', 's'],
        "s"@ == seq!['s'],
        "m"@ == seq!['m'],
        "l"@ == seq!['l'],
        "xl"@ == seq!['x', 'l'],
        "xxl"@ == seq!['x', 'x', 'l'],
{
    reveal_strlit("xs");
    reveal_strlit("s");
    reveal_strlit("m");
    reveal_strlit("l");
    reveal_strlit("xl");
    reveal_strlit("xxl");
}

/// Parsing a preset's tag gives the preset back.
pub proof fn law_size_tag_round_trip(size: ModelSize)
    ensures
        size_of_tag(lower(trimmed(size_tag(size)))) == Some(size),
{
    lemma_reveal_tags();
    let tag = size_tag(size);
    assert(trimmed(tag) == tag);
    assert(lower(tag) == tag);
    assert("xs"@.len() == 2 && "s"@.len() == 1 && "m"@.len() == 1 && "l"@.len() == 1 && "xl"@.len()
        == 2 && "xxl"@.len() == 3);
    assert("xs"@[1] == 's' && "s"@[0] == 's' && "m"@[0] == 'm' && "l"@[0] == 'l' && "xl"@[1] == 'l');
}

/// The residual-refinement scale that a fusion network has unless its
/// manifest says otherwise: the bit pattern of 0.1 in IEEE 754 double
/// precision.
pub const DEFAULT_REFINE_SCALE_BITS: u64 = 0x3fb9_9999_9999_999a;

/// Group count of every preset's group normalisation.
pub const PRESET_NORM_GROUPS: usize = 8;

/// Correlation search radius of every preset of the alignment networks.
pub const DEFAULT_CORR_RADIUS: usize = 4;

/// Geometry of the pairwise fusion network. `refine_scale` holds the bit
/// pattern of a double.
#[derive(Debug, Clone, Copy, PartialEq, Eq, Structural)]
pub struct FocusMergeNetConfig {
    pub width: usize,
    pub depth: usize,
    pub norm_groups: usize,
    pub refine_scale: u64,
}

/// Geometry of the batch fusion network. `refine_scale` holds the bit pattern
/// of a double.
#[derive(Debug, Clone, Copy, PartialEq, Eq, Structural)]
pub struct BatchMergeNetConfig {
    pub width: usize,
    pub depth: usize,
    pub norm_groups: usize,
    pub refine_scale: u64,
}

/// Geometry of the batch alignment network.
#[derive(Debug, Clone, Copy, PartialEq, Eq, Structural)]
pub struct BatchAlignNetConfig {
    pub width: usize,
    pub depth: usize,
    pub norm_groups: usize,
    pub corr_radius: usize,
}

/// Geometry of the pairwise alignment network.
#[derive(Debug, Clone, Copy, PartialEq, Eq, Structural)]
pub struct FusionAlignNetConfig {
    pub width: usize,
    pub depth: usize,
    pub norm_groups: usize,
    pub corr_radius: usize,
}

/// The pairwise fusion geometry of a preset.
pub open spec fn focus_preset(size: ModelSize) -> FocusMergeNetConfig {
    FocusMergeNetConfig {
        width: fusion_dims(size).0 as usize,
        depth: fusion_dims(size).1 as usize,
        norm_groups: PRESET_NORM_GROUPS,
        refine_scale: DEFAULT_REFINE_SCALE_BITS,
    }
}

/// The batch fusion geometry of a preset.
pub open spec fn batch_preset(size: ModelSize) -> BatchMergeNetConfig {
    BatchMergeNetConfig {
        width: fusion_dims(size).0 as usize,
        depth: fusion_dims(size).1 as usize,
        norm_groups: PRESET_NORM_GROUPS,
        refine_scale: DEFAULT_REFINE_SCALE_BITS,
    }
}

/// The batch alignment geometry of a preset.
pub open spec fn batch_align_preset(size: ModelSize) -> BatchAlignNetConfig {
    BatchAlignNetConfig {
        width: align_dims(size).0 as usize,
        depth: align_dims(size).1 as usize,
        norm_groups: PRESET_NORM_GROUPS,
        corr_radius: DEFAULT_CORR_RADIUS,
    }
}

/// The pairwise alignment geometry of a preset.
pub open spec fn fusion_align_preset(size: ModelSize) -> FusionAlignNetConfig {
    FusionAlignNetConfig {
        width: align_dims(size).0 as usize,
        depth: align_dims(size).1 as usize,
        norm_groups: PRESET_NORM_GROUPS,
        corr_radius: DEFAULT_CORR_RADIUS,
    }
}

impl FocusMergeNetConfig {
    /// The geometry of a preset.
    pub fn from_size(size: ModelSize) -> (r: Self)
        ensures
            r == focus_preset(size),
    {
        let (width, depth) = size.dims();
        FocusMergeNetConfig {
            width,
            depth,
            norm_groups: PRESET_NORM_GROUPS,
            refine_scale: DEFAULT_REFINE_SCALE_BITS,
        }
    }
}

impl BatchMergeNetConfig {
    /// The geometry of a preset.
    pub fn from_size(size: ModelSize) -> (r: Self)
        ensures
            r == batch_preset(size),
    {
        let (width, depth) = size.dims();
        BatchMergeNetConfig {
            width,
            depth,
            norm_groups: PRESET_NORM_GROUPS,
            refine_scale: DEFAULT_REFINE_SCALE_BITS,
        }
    }
}

impl BatchAlignNetConfig {
    /// The geometry of a preset.
    pub fn from_size(size: ModelSize) -> (r: Self)
        ensures
            r == batch_align_preset(size),
    {
        let (width, depth) = size.align_dims();
        BatchAlignNetConfig {
            width,
            depth,
            norm_groups: PRESET_NORM_GROUPS,
            corr_radius: DEFAULT_CORR_RADIUS,
        }
    }
}

impl FusionAlignNetConfig {
    /// The geometry of a preset.
    pub fn from_size(size: ModelSize) -> (r: Self)
        ensures
            r == fusion_align_preset(size),
    {
        let (width, depth) = size.align_dims();
        FusionAlignNetConfig {
            width,
            depth,
            norm_groups: PRESET_NORM_GROUPS,
            corr_radius: DEFAULT_CORR_RADIUS,
        }
    }
}

/// Dilation of context block `i`: the cycle 1, 2, 4, 8.
pub open spec fn dilation(i: int) -> int {
    let k = i % 4;
    if k == 0 {
        1
    } else if k == 1 {
        2
    } else if k == 2 {
        4
    } else {
        8
    }
}

/// Sum of the dilations of the first `depth` context blocks.
pub open spec fn dilation_sum(depth: nat) -> nat
    decreases depth,
{
    if depth == 0 {
        0
    } else {
        dilation_sum((depth - 1) as nat) + dilation(depth - 1) as nat
    }
}

/// Receptive-field radius, in pixels, of a fusion network with `depth`
/// dilated context blocks.
pub open spec fn receptive_radius(depth: nat) -> nat {
    2 + 2 * dilation_sum(depth)
}

proof fn lemma_dilation_sum_mono(a: nat, b: nat)
    requires
        a <= b,
    ensures
        dilation_sum(a) <= dilation_sum(b),
    decreases b - a,
{
    if a < b {
        lemma_dilation_sum_mono(a, (b - 1) as nat);
    }
}

/// Dilations of the context blocks of a fusion network, in order.
pub fn context_dilations(depth: usize) -> (r: Vec<usize>)
    ensures
        r@.len() == depth,
        forall|i: int| 0 <= i < depth ==> #[trigger] r@[i] == dilation(i),
{
    let mut out: Vec<usize> = Vec::new();
    let mut i: usize = 0;
    while i < depth
        invariant
            i <= depth,
            out@.len() == i,
            forall|j: int| 0 <= j < i ==> #[trigger] out@[j] == dilation(j),
        decreases depth - i,
    {
        let k: usize = i % 4;
        let d: usize = if k == 0 {
            1
        } else if k == 1 {
            2
        } else if k == 2 {
            4
        } else {
            8
        };
        out.push(d);
        i = i + 1;
    }
    out
}

/// Receptive-field radius, in pixels, of a fusion network with `depth`
/// dilated context blocks.
pub fn receptive_field(depth: usize) -> (r: usize)
    requires
        receptive_radius(depth as nat) <= usize::MAX,
    ensures
        r == receptive_radius(depth as nat),
{
    let mut sum: usize = 0;
    let mut i: usize = 0;
    while i < depth
        invariant
            i <= depth,
            sum == dilation_sum(i as nat),
            receptive_radius(depth as nat) <= usize::MAX,
        decreases depth - i,
    {
        proof {
            lemma_dilation_sum_mono((i + 1) as nat, depth as nat);
        }
        let k: usize = i % 4;
        let d: usize = if k == 0 {
            1
        } else if k == 1 {
            2
        } else if k == 2 {
            4
        } else {
            8
        };
        sum = sum + d;
        i = i + 1;
    }
    2 + 2 * sum
}

/// Channel counts of a fusion network's heads, and its context dilations.
#[derive(Debug, PartialEq, Eq)]
pub struct MergeLayout {
    pub width: usize,
    pub norm_groups: usize,
    pub dilations: Vec<usize>,
    pub gate_inputs: usize,
    pub refine_inputs: usize,
}

impl FocusMergeNetConfig {
    /// The channel counts of the pairwise fusion network. Its gate takes both
    /// feature maps, both sharpness maps and the target's confidence; its
    /// refinement head takes three colour images.
    pub fn layout(&self) -> (r: MergeLayout)
        requires
            2 * self.width + 3 <= usize::MAX,
        ensures
            r.width == self.width,
            r.norm_groups == self.norm_groups,
            r.dilations@.len() == self.depth,
            forall|i: int| 0 <= i < self.depth ==> #[trigger] r.dilations@[i] == dilation(i),
            r.gate_inputs == 2 * self.width + 3,
            r.refine_inputs == 9,
    {
        MergeLayout {
            width: self.width,
            norm_groups: self.norm_groups,
            dilations: context_dilations(self.depth),
            gate_inputs: 2 * self.width + 3,
            refine_inputs: 9,
        }
    }
}

impl BatchMergeNetConfig {
    /// The channel counts of the batch fusion network. Its gate takes a feature
    /// map and its sharpness; its refinement head takes a colour image and the
    /// pooled features.
    pub fn layout(&self) -> (r: MergeLayout)
        requires
            3 + self.width <= usize::MAX,
        ensures
            r.width == self.width,
            r.norm_groups == self.norm_groups,
            r.dilations@.len() == self.depth,
            forall|i: int| 0 <= i < self.depth ==> #[trigger] r.dilations@[i] == dilation(i),
            r.gate_inputs == self.width + 1,
            r.refine_inputs == 3 + self.width,
    {
        MergeLayout {
            width: self.width,
            norm_groups: self.norm_groups,
            dilations: context_dilations(self.depth),
            gate_inputs: self.width + 1,
            refine_inputs: 3 + self.width,
        }
    }
}

/// Whether `a` is a multiple of `b`; only zero is a multiple of zero.
pub open spec fn divides(b: int, a: int) -> bool {
    if b == 0 {
        a == 0
    } else {
        a % b == 0
    }
}

fn is_multiple(a: usize, b: usize) -> (r: bool)
    ensures
        r == divides(b as int, a as int),
{
    if b == 0 {
        a == 0
    } else {
        a % b == 0
    }
}

/// The widths an alignment network can have: even, with both the width and
/// its half a multiple of the group count.
pub open spec fn align_width_ok(width: int, norm_groups: int) -> bool {
    &&& width % 2 == 0
    &&& divides(norm_groups, width / 2)
    &&& divides(norm_groups, width)
}

/// Whether an alignment network can be built at this width.
pub fn align_geometry_ok(width: usize, norm_groups: usize) -> (r: bool)
    ensures
        r == align_width_ok(width as int, norm_groups as int),
{
    width % 2 == 0 && is_multiple(width / 2, norm_groups) && is_multiple(width, norm_groups)
}

/// Channel counts of an alignment network.
#[derive(Debug, Clone, Copy, PartialEq, Eq, Structural)]
pub struct AlignLayout {
    pub width: usize,
    pub half_width: usize,
    pub norm_groups: usize,
    pub depth: usize,
    pub corr_channels: usize,
    pub head_inputs: usize,
}

/// The channel plan of an alignment network: the head reads one correlation
/// channel per displacement and two feature maps.
pub fn align_layout(width: usize, depth: usize, norm_groups: usize, corr_radius: usize) -> (r:
    AlignLayout)
    requires
        align_width_ok(width as int, norm_groups as int),
        (2 * corr_radius + 1) * (2 * corr_radius + 1) + 2 * width <= usize::MAX,
    ensures
        r.width == width,
        r.half_width == width / 2,
        r.norm_groups == norm_groups,
        r.depth == depth,
        r.corr_channels == (2 * corr_radius + 1) * (2 * corr_radius + 1),
        r.head_inputs == (2 * corr_radius + 1) * (2 * corr_radius + 1) + 2 * width,
{
    proof {
        assert(2 * corr_radius + 1 <= (2 * corr_radius + 1) * (2 * corr_radius + 1))
            by (nonlinear_arith)
            requires
                0 <= corr_radius,
        ;
    }
    let side: usize = 2 * corr_radius + 1;
    let corr_channels: usize = side * side;
    AlignLayout {
        width,
        half_width: width / 2,
        norm_groups,
        depth,
        corr_channels,
        head_inputs: corr_channels + 2 * width,
    }
}

/// The displacements that the local correlation compares, in channel order:
/// `(dy, dx)` row by row over a square of side `2 * radius + 1`.
pub fn correlation_windows(radius: usize) -> (r: Vec<(usize, usize)>)
    requires
        (2 * radius + 1) * (2 * radius + 1) <= usize::MAX,
    ensures
        r@.len() == (2 * radius + 1) * (2 * radius + 1),
        forall|k: int|
            0 <= k < r@.len() ==> (#[trigger] r@[k]).0 == k / (2 * radius + 1) && r@[k].1 == k % (2
                * radius + 1),
{
    proof {
        assert(2 * radius + 1 <= (2 * radius + 1) * (2 * radius + 1)) by (nonlinear_arith)
            requires
                0 <= radius,
        ;
    }
    let side: usize = 2 * radius + 1;
    let mut out: Vec<(usize, usize)> = Vec::new();
    let mut dy: usize = 0;
    while dy < side
        invariant
            dy <= side,
            side == 2 * radius + 1,
            out@.len() == dy * side,
            forall|k: int|
                0 <= k < out@.len() ==> (#[trigger] out@[k]).0 == k / (2 * radius + 1) && out@[k].1
                    == k % (2 * radius + 1),
        decreases side - dy,
    {
        let mut dx: usize = 0;
        while dx < side
            invariant
                dx <= side,
                dy < side,
                side == 2 * radius + 1,
                out@.len() == dy * side + dx,
                forall|k: int|
                    0 <= k < out@.len() ==> (#[trigger] out@[k]).0 == k / (2 * radius + 1)
                        && out@[k].1 == k % (2 * radius + 1),
            decreases side - dx,
        {
            proof {
                vstd::arithmetic::div_mod::lemma_fundamental_div_mod_converse(
                    dy * side + dx,
                    side as int,
                    dy as int,
                    dx as int,
                );
            }
            out.push((dy, dx));
            dx = dx + 1;
        }
        proof {
            assert((dy + 1) * side == dy * side + side) by (nonlinear_arith);
        }
        dy = dy + 1;
    }
    out
}

/// Every preset can be built: the group count divides each fusion width, and
/// each alignment width satisfies the alignment networks' condition.
pub proof fn law_presets_are_buildable(size: ModelSize)
    ensures
        fusion_dims(size).0 % (PRESET_NORM_GROUPS as int) == 0,
        align_width_ok(align_dims(size).0, PRESET_NORM_GROUPS as int),
{
}

/// Presets grow: a larger preset is wider and no shallower than a smaller one,
/// in both kinds of networks, and its alignment networks are wider than its
/// fusion networks.
pub proof fn law_presets_grow(i: int, j: int)
    requires
        0 <= i < j < 6,
    ensures
        ({
            let a = ModelSize::ALL@[i];
            let b = ModelSize::ALL@[j];
            &&& fusion_dims(a).0 < fusion_dims(b).0
            &&& fusion_dims(a).1 < fusion_dims(b).1
            &&& align_dims(a).0 < align_dims(b).0
            &&& align_dims(a).1 <= align_dims(b).1
            &&& fusion_dims(a).0 < align_dims(a).0
        }),
{
}

/// The two fusion networks of a preset share their geometry, and so do the two
/// alignment networks.
pub proof fn law_families_share_their_geometry(size: ModelSize)
    ensures
        focus_preset(size).width == batch_preset(size).width == fusion_dims(size).0,
        focus_preset(size).depth == batch_preset(size).depth == fusion_dims(size).1,
        focus_preset(size).norm_groups == batch_preset(size).norm_groups,
        focus_preset(size).refine_scale == batch_preset(size).refine_scale,
        batch_align_preset(size).width == fusion_align_preset(size).width == align_dims(size).0,
        batch_align_preset(size).depth == fusion_align_preset(size).depth == align_dims(size).1,
        batch_align_preset(size).norm_groups == fusion_align_preset(size).norm_groups
            == focus_preset(size).norm_groups,
        batch_align_preset(size).corr_radius == fusion_align_preset(size).corr_radius,
{
}

proof fn lemma_next_dilation(depth: nat)
    ensures
        dilation_sum(depth + 1) == dilation_sum(depth) + dilation(depth as int),
{
}

proof fn lemma_dilation_cycle(i: int)
    ensures
        i % 4 == 0 ==> dilation(i) == 1,
        i % 4 != 3 ==> dilation(i + 1) == 2 * dilation(i),
        i % 4 == 3 ==> dilation(i + 1) == 1,
        dilation(i) + dilation(i + 1) + dilation(i + 2) + dilation(i + 3) == 15,
{
    assert((i + 1) % 4 == (i % 4 + 1) % 4);
    assert((i + 2) % 4 == (i % 4 + 2) % 4);
    assert((i + 3) % 4 == (i % 4 + 3) % 4);
}

/// Dilations double from one context block to the next, and start again from
/// one after every four blocks. Each block widens the receptive field by twice
/// its dilation on each side, so four blocks widen it by thirty.
pub proof fn law_dilations_double(i: nat)
    ensures
        i % 4 == 0 ==> dilation(i as int) == 1,
        i % 4 != 3 ==> dilation(i as int + 1) == 2 * dilation(i as int),
        i % 4 == 3 ==> dilation(i as int + 1) == 1,
        receptive_radius(0) == 2,
        receptive_radius(i + 1) == receptive_radius(i) + 2 * dilation(i as int),
        receptive_radius(i + 4) == receptive_radius(i) + 30,
{
    lemma_next_dilation(i);
    lemma_next_dilation(i + 1);
    lemma_next_dilation(i + 2);
    lemma_next_dilation(i + 3);
    lemma_dilation_cycle(i as int);
}

/// The correlation compares every displacement of its square once: the one of
/// `dy` rows and `dx` columns has the channel that counts `dy` whole rows and
/// `dx` columns.
pub proof fn law_every_displacement_has_a_channel(
    radius: usize,
    r: Vec<(usize, usize)>,
    dy: int,
    dx: int,
)
    requires
        call_ensures(correlation_windows, (radius,), r),
        0 <= dy <= 2 * radius,
        0 <= dx <= 2 * radius,
    ensures
        0 <= dy * (2 * radius + 1) + dx < r@.len(),
        r@[dy * (2 * radius + 1) + dx].0 == dy,
        r@[dy * (2 * radius + 1) + dx].1 == dx,
        r@.len() == (2 * radius + 1) * (2 * radius + 1),
{
    let side = 2 * radius + 1;
    let k = dy * side + dx;
    vstd::arithmetic::div_mod::lemma_fundamental_div_mod_converse(k, side, dy, dx);
    assert(0 <= k < side * side) by (nonlinear_arith)
        requires
            k == dy * side + dx,
            0 <= dy < side,
            0 <= dx < side,
    ;
    assert(r@[k].0 == k / side);
}

/// The channel plan of an alignment network: its head reads a channel for each
/// displacement and two feature maps, and halving its width is exact.
pub proof fn law_head_reads_correlation_and_features(
    width: usize,
    depth: usize,
    norm_groups: usize,
    corr_radius: usize,
    r: AlignLayout,
    windows: Vec<(usize, usize)>,
)
    requires
        align_width_ok(width as int, norm_groups as int),
        call_ensures(align_layout, (width, depth, norm_groups, corr_radius), r),
        call_ensures(correlation_windows, (corr_radius,), windows),
    ensures
        r.corr_channels == windows@.len(),
        r.head_inputs == windows@.len() + r.width + r.width,
        r.half_width + r.half_width == r.width,
        r.width == width,
        r.depth == depth,
        r.norm_groups == norm_groups,
{
}

/// An alignment network can have a width where the groups fit both the width
/// and its half: for groups at all, where the width is a multiple of twice
/// their number.
pub proof fn law_groups_fit_half_the_width(width: int, norm_groups: int, m: int)
    requires
        0 <= width,
        0 < norm_groups,
    ensures
        width == 2 * norm_groups * m ==> align_width_ok(width, norm_groups),
        align_width_ok(width, norm_groups) ==> width == 2 * (norm_groups * (width / 2
            / norm_groups)),
{
    let half = width / 2;
    if width == 2 * norm_groups * m {
        assert(2 * norm_groups * m == 2 * (norm_groups * m)) by (nonlinear_arith);
        assert(half == norm_groups * m);
        vstd::arithmetic::div_mod::lemma_mod_multiples_basic(m, norm_groups);
        vstd::arithmetic::div_mod::lemma_mod_multiples_basic(2 * m, norm_groups);
        assert(m * norm_groups == norm_groups * m && 2 * m * norm_groups == 2 * (norm_groups * m))
            by (nonlinear_arith);
    }
    vstd::arithmetic::div_mod::lemma_fundamental_div_mod(half, norm_groups);
}

/// The dilations of a fusion network double from block to block and start again
/// from one after every four, and each block widens the receptive field by
/// twice its dilation.
pub proof fn law_context_blocks_double(
    depth: usize,
    r: Vec<usize>,
    field: usize,
    longer: usize,
    i: int,
)
    requires
        depth < usize::MAX,
        receptive_radius((depth + 1) as nat) <= usize::MAX,
        call_ensures(context_dilations, ((depth + 1) as usize,), r),
        call_ensures(receptive_field, (depth,), field),
        call_ensures(receptive_field, ((depth + 1) as usize,), longer),
        0 <= i < depth,
    ensures
        r@.len() == depth + 1,
        r@[0] == 1,
        r@[i + 1] == (if i % 4 == 3 {
            1
        } else {
            2 * r@[i]
        }),
        longer == field + 2 * r@[depth as int],
{
    law_dilations_double(i as nat);
    law_dilations_double(depth as nat);
    assert(r@[0] == dilation(0));
    assert(r@[i] == dilation(i));
    assert(r@[i + 1] == dilation(i + 1));
    assert(r@[depth as int] == dilation(depth as int));
}

/// What the heads of a fusion network read: the pairwise gate two feature maps
/// with a sharpness map each, and one confidence; the batch gate one feature
/// map with its sharpness. The pairwise refinement reads three colour images,
/// the batch one a colour image and the pooled features.
pub proof fn law_heads_read_their_inputs(
    focus: FocusMergeNetConfig,
    batch: BatchMergeNetConfig,
    a: MergeLayout,
    b: MergeLayout,
)
    requires
        2 * focus.width + 3 <= usize::MAX,
        3 + batch.width <= usize::MAX,
        call_ensures(FocusMergeNetConfig::layout, (&focus,), a),
        call_ensures(BatchMergeNetConfig::layout, (&batch,), b),
    ensures
        a.width == focus.width && a.norm_groups == focus.norm_groups && a.dilations@.len()
            == focus.depth,
        b.width == batch.width && b.norm_groups == batch.norm_groups && b.dilations@.len()
            == batch.depth,
        a.gate_inputs == 2 * (focus.width + 1) + 1,
        b.gate_inputs == batch.width + 1,
        a.refine_inputs == 3 * 3,
        b.refine_inputs == 3 + batch.width,
        forall|i: int|
            0 <= i < focus.depth && i < batch.depth ==> #[trigger] a.dilations@[i]
                == b.dilations@[i],
{
    assert forall|i: int| 0 <= i < focus.depth && i < batch.depth implies #[trigger] a.dilations@[i]
        == b.dilations@[i] by {
        assert(b.dilations@[i] == dilation(i));
    }
}

/// A preset is read back from its own tag.
pub proof fn law_preset_survives_its_tag(size: ModelSize, tag: &'static str, r: Option<ModelSize>)
    requires
        call_ensures(ModelSize::as_str, (size,), tag),
        call_ensures(ModelSize::parse, (tag,), r),
    ensures
        r == Some(size),
{
    law_size_tag_round_trip(size);
}

} // verus!
