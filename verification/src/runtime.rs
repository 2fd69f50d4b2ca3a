//! Inference devices, and which network a model entry is run as.

use vstd::prelude::*;
use crate::discovery::{
    align_config_of, batch_config_of, focus_config_of, fusion_align_config_of, is_mismatch,
    DiscoveryError, ModelEntry, BATCHALIGN_V2, BATCHMERGE_V2, FOCUSMERGE_V1, FUSIONALIGN_V1,
};
use crate::model::{
    BatchAlignNetConfig, BatchMergeNetConfig, FocusMergeNetConfig, FusionAlignNetConfig,
};
use crate::text::same;

verus! {

/// A compute device for inference.
#[derive(Debug, Clone, Copy, PartialEq, Eq, Structural)]
pub enum InferDevice {
    /// The CPU backend.
    Cpu,
    /// The GPU backend.
    Gpu,
}

impl InferDevice {
    /// Short label for user interfaces.
    pub fn label(self) -> (r: &'static str)
        ensures
            r@ == (match self {
                InferDevice::Cpu => "CPU"@,
                InferDevice::Gpu => "GPU"@,
            }),
    {
        match self {
            InferDevice::Cpu => "CPU",
            InferDevice::Gpu => "GPU",
        }
    }
}

/// The inference backends that a build holds.
#[derive(Debug, Clone, Copy, PartialEq, Eq, Structural)]
pub struct Backends {
    pub cpu: bool,
    pub gpu: bool,
}

/// The backends of this build: the CPU backend alone.
pub open spec fn this_build() -> Backends {
    Backends { cpu: true, gpu: false }
}

/// The devices of a build, the preferred one first: the GPU before the CPU.
pub open spec fn devices_of(b: Backends) -> Seq<InferDevice> {
    if b.gpu && b.cpu {
        seq![InferDevice::Gpu, InferDevice::Cpu]
    } else if b.gpu {
        seq![InferDevice::Gpu]
    } else if b.cpu {
        seq![InferDevice::Cpu]
    } else {
        Seq::empty()
    }
}

impl Backends {
    /// The backends of this build: the CPU backend alone.
    pub fn built() -> (r: Backends)
        ensures
            r == this_build(),
    {
        Backends { cpu: true, gpu: false }
    }

    /// The devices of this build, the preferred one first.
    pub fn devices(self) -> (r: Vec<InferDevice>)
        ensures
            r@ == devices_of(self),
    {
        let mut devices: Vec<InferDevice> = Vec::new();
        if self.gpu {
            devices.push(InferDevice::Gpu);
        }
        if self.cpu {
            devices.push(InferDevice::Cpu);
        }
        devices
    }
}

/// Whether this build holds the GPU backend.
pub fn gpu_available() -> (r: bool)
    ensures
        r == this_build().gpu,
{
    Backends::built().gpu
}

/// The devices of this build, the preferred one first.
pub fn available_devices() -> (r: Vec<InferDevice>)
    ensures
        r@ == devices_of(this_build()),
{
    Backends::built().devices()
}

/// The preferred device of this build.
pub fn default_device() -> (r: Option<InferDevice>)
    ensures
        r == (if devices_of(this_build()).len() > 0 {
            Some(devices_of(this_build())[0])
        } else {
            None::<InferDevice>
        }),
{
    let devices = available_devices();
    if devices.len() > 0 {
        Some(devices[0])
    } else {
        None
    }
}

/// Why a requested device cannot be had.
#[derive(Debug, PartialEq, Eq)]
pub enum DeviceError {
    /// The build holds no backend at all.
    NoBackend,
    /// The CPU was asked for and the build lacks it.
    CpuNotBuilt,
    /// The GPU was asked for and the build lacks it.
    GpuNotBuilt,
    /// The request names no device.
    UnknownDevice { name: String },
}

/// The device that a request gets from a build, or why it gets none.
pub open spec fn device_for(request: Option<Seq<char>>, b: Backends) -> Option<InferDevice> {
    match request {
        None => if devices_of(b).len() > 0 {
            Some(devices_of(b)[0])
        } else {
            None
        },
        Some(name) => if name == "cpu"@ && b.cpu {
            Some(InferDevice::Cpu)
        } else if name == "gpu"@ && b.gpu {
            Some(InferDevice::Gpu)
        } else {
            None
        },
    }
}

/// The text of an optional string slice.
pub open spec fn request_text(s: Option<&str>) -> Option<Seq<char>> {
    match s {
        Some(t) => Some(t@),
        None => None,
    }
}

/// Resolves a requested device against the backends of a build: `None` takes
/// the preferred one, `"cpu"` and `"gpu"` name one.
pub fn select_device(request: Option<&str>, built: Backends) -> (r: Result<
    InferDevice,
    DeviceError,
>)
    ensures
        match r {
            Ok(d) => device_for(request_text(request), built) == Some(d),
            Err(e) => device_for(request_text(request), built) is None && (match e {
                DeviceError::NoBackend => request is None,
                DeviceError::CpuNotBuilt => request_text(request) == Some("cpu"@),
                DeviceError::GpuNotBuilt => request_text(request) == Some("gpu"@),
                DeviceError::UnknownDevice { name } => request_text(request) == Some(name@) && name@
                    != "cpu"@ && name@ != "gpu"@,
            }),
        },
{
    proof {
        reveal_strlit("cpu");
        reveal_strlit("gpu");
        assert("cpu"@[0] == 'c');
        assert("gpu"@[0] == 'g');
    }
    match request {
        None => {
            let devices = built.devices();
            if devices.len() > 0 {
                Ok(devices[0])
            } else {
                Err(DeviceError::NoBackend)
            }
        },
        Some(name) => {
            if same(name, "cpu") {
                if built.cpu {
                    Ok(InferDevice::Cpu)
                } else {
                    Err(DeviceError::CpuNotBuilt)
                }
            } else if same(name, "gpu") {
                if built.gpu {
                    Ok(InferDevice::Gpu)
                } else {
                    Err(DeviceError::GpuNotBuilt)
                }
            } else {
                Err(DeviceError::UnknownDevice { name: name.to_owned() })
            }
        },
    }
}

/// A request for the preferred device, or for one that the build holds, is
/// served; the device served is one of the build's.
pub proof fn law_device_is_available(request: Option<Seq<char>>, b: Backends)
    ensures
        device_for(request, b) matches Some(d) ==> devices_of(b).contains(d),
        request is None && (b.cpu || b.gpu) ==> device_for(request, b) is Some,
        request == Some("cpu"@) && b.cpu ==> device_for(request, b) == Some(InferDevice::Cpu),
        request == Some("gpu"@) && b.gpu ==> device_for(request, b) == Some(InferDevice::Gpu),
{
    reveal_strlit("cpu");
    reveal_strlit("gpu");
    assert("cpu"@[0] == 'c' && "gpu"@[0] == 'g');
    let devices = devices_of(b);
    if b.gpu && b.cpu {
        assert(devices[0] == InferDevice::Gpu);
        assert(devices[1] == InferDevice::Cpu);
    } else if b.gpu {
        assert(devices[0] == InferDevice::Gpu);
    } else if b.cpu {
        assert(devices[0] == InferDevice::Cpu);
    }
}

/// How a fusion network takes its frames.
#[derive(Debug, Clone, Copy, PartialEq, Eq, Structural)]
pub enum FusionStrategy {
    /// Frame by frame, into a running composite.
    Pairwise,
    /// The whole stack at once.
    Batch,
}

/// A fusion network of either kind.
pub enum FusionNet<F, M> {
    Focus(Box<F>),
    Batch(Box<M>),
}

impl<F, M> FusionNet<F, M> {
    /// How this network takes its frames.
    pub fn strategy(&self) -> (r: FusionStrategy)
        ensures
            r == (match *self {
                FusionNet::Focus(_) => FusionStrategy::Pairwise,
                FusionNet::Batch(_) => FusionStrategy::Batch,
            }),
    {
        match self {
            FusionNet::Focus(_) => FusionStrategy::Pairwise,
            FusionNet::Batch(_) => FusionStrategy::Batch,
        }
    }
}

/// Which alignment network a loaded model is.
#[derive(Debug, Clone, Copy, PartialEq, Eq, Structural)]
pub enum AlignNetKind {
    /// Whole-stack alignment.
    Batch,
    /// Pairwise alignment, one frame at a time.
    Fusion,
}

/// An alignment network of either kind.
pub enum AlignNet<A, P> {
    Batch(Box<A>),
    Fusion(Box<P>),
}

impl<A, P> AlignNet<A, P> {
    /// Which kind this network is.
    pub fn kind(&self) -> (r: AlignNetKind)
        ensures
            r == (match *self {
                AlignNet::Batch(_) => AlignNetKind::Batch,
                AlignNet::Fusion(_) => AlignNetKind::Fusion,
            }),
    {
        match self {
            AlignNet::Batch(_) => AlignNetKind::Batch,
            AlignNet::Fusion(_) => AlignNetKind::Fusion,
        }
    }
}

/// The fusion network that an entry is run as: a batch-fusion tag gives the
/// batch network, and any other tag has to be the pairwise one.
pub fn load_fusion_net(entry: &ModelEntry) -> (r: Result<
    FusionNet<FocusMergeNetConfig, BatchMergeNetConfig>,
    DiscoveryError,
>)
    ensures
        match r {
            Ok(FusionNet::Batch(cfg)) => entry.tag() == BATCHMERGE_V2@ && *cfg == batch_config_of(
                entry.manifest,
            ),
            Ok(FusionNet::Focus(cfg)) => entry.tag() == FOCUSMERGE_V1@ && entry.tag()
                != BATCHMERGE_V2@ && *cfg == focus_config_of(entry.manifest),
            Err(e) => entry.tag() != BATCHMERGE_V2@ && entry.tag() != FOCUSMERGE_V1@ && is_mismatch(
                e,
                FOCUSMERGE_V1@,
                *entry,
            ),
        },
{
    if same(entry.manifest.architecture.as_str(), BATCHMERGE_V2) {
        match entry.load_batch() {
            Ok(cfg) => Ok(FusionNet::Batch(Box::new(cfg))),
            Err(e) => Err(e),
        }
    } else {
        match entry.load() {
            Ok(cfg) => Ok(FusionNet::Focus(Box::new(cfg))),
            Err(e) => Err(e),
        }
    }
}

/// The alignment network that an entry is run as: a pairwise-alignment tag
/// gives the pairwise network, and any other tag has to be the batch one.
pub fn load_align_net(entry: &ModelEntry) -> (r: Result<
    AlignNet<BatchAlignNetConfig, FusionAlignNetConfig>,
    DiscoveryError,
>)
    ensures
        match r {
            Ok(AlignNet::Fusion(cfg)) => entry.tag() == FUSIONALIGN_V1@ && *cfg
                == fusion_align_config_of(entry.manifest),
            Ok(AlignNet::Batch(cfg)) => entry.tag() == BATCHALIGN_V2@ && entry.tag()
                != FUSIONALIGN_V1@ && *cfg == align_config_of(entry.manifest),
            Err(e) => entry.tag() != FUSIONALIGN_V1@ && entry.tag() != BATCHALIGN_V2@
                && is_mismatch(e, BATCHALIGN_V2@, *entry),
        },
{
    if same(entry.manifest.architecture.as_str(), FUSIONALIGN_V1) {
        match entry.load_fusion_align() {
            Ok(cfg) => Ok(AlignNet::Fusion(Box::new(cfg))),
            Err(e) => Err(e),
        }
    } else {
        match entry.load_align() {
            Ok(cfg) => Ok(AlignNet::Batch(Box::new(cfg))),
            Err(e) => Err(e),
        }
    }
}

/// The GPU is preferred where the build has it, then the CPU; a device that is
/// named is had where the build has it, and no other text names one.
pub proof fn law_gpu_is_preferred(request: Option<Seq<char>>, b: Backends, d: InferDevice)
    ensures
        devices_of(b).contains(d) <==> (d is Cpu && b.cpu) || (d is Gpu && b.gpu),
        request is None && b.gpu ==> device_for(request, b) == Some(InferDevice::Gpu),
        request is None && !b.gpu && b.cpu ==> device_for(request, b) == Some(InferDevice::Cpu),
        request is None && !b.gpu && !b.cpu ==> device_for(request, b) is None,
        request matches Some(name) ==> {
            &&& device_for(request, b) == Some(InferDevice::Cpu) <==> name == "cpu"@ && b.cpu
            &&& device_for(request, b) == Some(InferDevice::Gpu) <==> name == "gpu"@ && b.gpu
        },
{
    reveal_strlit("cpu");
    reveal_strlit("gpu");
    assert("cpu"@[0] == 'c' && "gpu"@[0] == 'g');
    let devices = devices_of(b);
    if b.gpu && b.cpu {
        assert(devices[0] == InferDevice::Gpu);
        assert(devices[1] == InferDevice::Cpu);
    } else if b.gpu {
        assert(devices[0] == InferDevice::Gpu);
    } else if b.cpu {
        assert(devices[0] == InferDevice::Cpu);
    }
}

/// A fusion model is run as the network of its tag, with the geometry of its
/// manifest, and takes its frames as that network does: the pairwise network
/// one by one, the batch network all at once.
pub proof fn law_fusion_tag_decides_the_network(
    entry: ModelEntry,
    r: Result<FusionNet<FocusMergeNetConfig, BatchMergeNetConfig>, DiscoveryError>,
    net: FusionNet<FocusMergeNetConfig, BatchMergeNetConfig>,
    strategy: FusionStrategy,
)
    requires
        call_ensures(load_fusion_net, (&entry,), r),
        call_ensures(
            FusionNet::<FocusMergeNetConfig, BatchMergeNetConfig>::strategy,
            (&net,),
            strategy,
        ),
        r is Ok ==> r->Ok_0 == net,
    ensures
        r is Ok <==> entry.manifest.architecture@ == "focusmerge-v1"@ || entry.manifest.architecture@
            == "batchmerge-v2"@,
        r is Ok && entry.manifest.architecture@ == "batchmerge-v2"@ ==> net is Batch && strategy
            == FusionStrategy::Batch && *net->Batch_0 == batch_config_of(entry.manifest),
        r is Ok && entry.manifest.architecture@ != "batchmerge-v2"@ ==> net is Focus && strategy
            == FusionStrategy::Pairwise && *net->Focus_0 == focus_config_of(entry.manifest),
{
}

/// An alignment model is run as the network of its tag, with the geometry of
/// its manifest, and is of that network's kind.
pub proof fn law_alignment_tag_decides_the_network(
    entry: ModelEntry,
    r: Result<AlignNet<BatchAlignNetConfig, FusionAlignNetConfig>, DiscoveryError>,
    net: AlignNet<BatchAlignNetConfig, FusionAlignNetConfig>,
    kind: AlignNetKind,
)
    requires
        call_ensures(load_align_net, (&entry,), r),
        call_ensures(AlignNet::<BatchAlignNetConfig, FusionAlignNetConfig>::kind, (&net,), kind),
        r is Ok ==> r->Ok_0 == net,
    ensures
        r is Ok <==> entry.manifest.architecture@ == "batchalign-v2"@ || entry.manifest.architecture@
            == "fusionalign-v1"@,
        r is Ok && entry.manifest.architecture@ == "fusionalign-v1"@ ==> net is Fusion && kind
            == AlignNetKind::Fusion && *net->Fusion_0 == fusion_align_config_of(entry.manifest),
        r is Ok && entry.manifest.architecture@ != "fusionalign-v1"@ ==> net is Batch && kind
            == AlignNetKind::Batch && *net->Batch_0 == align_config_of(entry.manifest),
{
}

} // verus!
