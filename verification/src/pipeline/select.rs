//! What a run uses: the fusion mode, the models and the device it asks for.

use vstd::prelude::*;
use crate::discovery::{is_alignment_tag, is_fusion_tag, ModelEntry};
use crate::runtime::{
    device_for, request_text, select_device, Backends, DeviceError, InferDevice,
};
use crate::text::{lower, same};

verus! {

/// Supported fusion modes.
#[derive(Debug, Clone, Copy, PartialEq, Eq, Structural)]
pub enum FusionMode {
    /// Laplacian-pyramid fusion of whole images.
    Apex,
    /// Depth-map fusion, tile by tile.
    Relief,
    /// Guided-filter soft-blend fusion, tile by tile.
    Strata,
    /// Neural fusion, tile by tile.
    Ai,
}

/// What a network is looked up for.
#[derive(Debug, Clone, Copy, PartialEq, Eq, Structural)]
pub enum ModelKind {
    Fusion,
    Alignment,
}

/// Why a run cannot use what it was asked to use.
#[derive(Debug, PartialEq, Eq)]
pub enum SelectError {
    /// No fusion mode has this name. `nn` says whether neural fusion is built.
    UnknownMode { mode: String, nn: bool },
    /// There is no model of the kind.
    NoModels { kind: ModelKind },
    /// There is no model of the kind with this name.
    ModelNotFound { kind: ModelKind, name: String },
    /// The requested device cannot be had.
    Device { kind: ModelKind, error: DeviceError },
}

/// The message of a selection error.
pub open spec fn select_message(e: SelectError) -> Seq<char> {
    match e {
        SelectError::UnknownMode { mode, nn } => "unknown fusion mode '"@ + mode@ + "'; expected "@
            + (if nn {
            "'apex', 'relief', 'strata', or 'ai'"@
        } else {
            "'apex', 'relief', or 'strata'"@
        }),
        SelectError::NoModels { kind } => match kind {
            ModelKind::Fusion => "no fusion AI models found in the models/ directory"@,
            ModelKind::Alignment => "no alignment AI models found in the models/ directory"@,
        },
        SelectError::ModelNotFound { kind, name } => (match kind {
            ModelKind::Fusion => "fusion AI model '"@,
            ModelKind::Alignment => "alignment AI model '"@,
        }) + name@ + "' not found"@,
        SelectError::Device { kind, error } => match error {
            DeviceError::NoBackend => "no inference backend built"@,
            DeviceError::CpuNotBuilt => "CPU backend not built"@,
            DeviceError::GpuNotBuilt => "GPU requested but built without --features nn-gpu"@,
            DeviceError::UnknownDevice { name } => (match kind {
                ModelKind::Fusion => "invalid --device '"@,
                ModelKind::Alignment => "invalid alignment device '"@,
            }) + name@ + "' (cpu|gpu)"@,
        },
    }
}

impl SelectError {
    /// The message shown to the user.
    pub fn message(&self) -> (r: String)
        ensures
            r@ == select_message(*self),
    {
        match self {
            SelectError::UnknownMode { mode, nn } => {
                let mut s = "unknown fusion mode '".to_owned();
                s.append(mode.as_str());
                s.append("'; expected ");
                if *nn {
                    s.append("'apex', 'relief', 'strata', or 'ai'");
                } else {
                    s.append("'apex', 'relief', or 'strata'");
                }
                s
            },
            SelectError::NoModels { kind } => match kind {
                ModelKind::Fusion =>
                "no fusion AI models found in the models/ directory".to_owned(),
                ModelKind::Alignment =>
                "no alignment AI models found in the models/ directory".to_owned(),
            },
            SelectError::ModelNotFound { kind, name } => {
                let mut s = match kind {
                    ModelKind::Fusion => "fusion AI model '".to_owned(),
                    ModelKind::Alignment => "alignment AI model '".to_owned(),
                };
                s.append(name.as_str());
                s.append("' not found");
                s
            },
            SelectError::Device { kind, error } => match error {
                DeviceError::NoBackend => "no inference backend built".to_owned(),
                DeviceError::CpuNotBuilt => "CPU backend not built".to_owned(),
                DeviceError::GpuNotBuilt =>
                "GPU requested but built without --features nn-gpu".to_owned(),
                DeviceError::UnknownDevice { name } => {
                    let mut s = match kind {
                        ModelKind::Fusion => "invalid --device '".to_owned(),
                        ModelKind::Alignment => "invalid alignment device '".to_owned(),
                    };
                    s.append(name.as_str());
                    s.append("' (cpu|gpu)");
                    s
                },
            },
        }
    }
}

/// The fusion mode of a lower-case name; neural fusion only where it is built.
pub open spec fn mode_named(name: Seq<char>, nn: bool) -> Option<FusionMode> {
    if name == "apex"@ {
        Some(FusionMode::Apex)
    } else if name == "relief"@ {
        Some(FusionMode::Relief)
    } else if name == "strata"@ {
        Some(FusionMode::Strata)
    } else if nn && (name == "ai"@ || name == "nn"@) {
        Some(FusionMode::Ai)
    } else {
        None
    }
}

impl FusionMode {
    /// Parses a fusion mode, ignoring ASCII case. `nn` says whether neural
    /// fusion is built.
    pub fn from_str(s: &str, nn: bool) -> (r: Result<FusionMode, SelectError>)
        ensures
            match r {
                Ok(m) => mode_named(lower(s@), nn) == Some(m),
                Err(e) => mode_named(lower(s@), nn) is None && (e matches SelectError::UnknownMode {
                    mode,
                    nn: built,
                } && mode@ == lower(s@) && built == nn),
            },
    {
        let name = s.to_ascii_lowercase();
        if same(name.as_str(), "apex") {
            Ok(FusionMode::Apex)
        } else if same(name.as_str(), "relief") {
            Ok(FusionMode::Relief)
        } else if same(name.as_str(), "strata") {
            Ok(FusionMode::Strata)
        } else if nn && (same(name.as_str(), "ai") || same(name.as_str(), "nn")) {
            Ok(FusionMode::Ai)
        } else {
            Err(SelectError::UnknownMode { mode: name, nn })
        }
    }
}

/// Whether an entry is of a kind.
pub open spec fn is_kind(entry: ModelEntry, kind: ModelKind) -> bool {
    match kind {
        ModelKind::Fusion => is_fusion_tag(entry.tag()),
        ModelKind::Alignment => is_alignment_tag(entry.tag()),
    }
}

/// Whether an entry is of a kind and, where a name is asked for, has it.
pub open spec fn is_wanted(entry: ModelEntry, kind: ModelKind, name: Option<Seq<char>>) -> bool {
    is_kind(entry, kind) && (match name {
        Some(n) => entry.name@ == n,
        None => true,
    })
}

/// Whether `entry` is the first of `models` that is wanted.
pub open spec fn is_first_wanted(
    models: Seq<ModelEntry>,
    kind: ModelKind,
    name: Option<Seq<char>>,
    entry: ModelEntry,
) -> bool {
    exists|i: int|
        {
            &&& 0 <= i < models.len()
            &&& #[trigger] models[i] == entry
            &&& is_wanted(entry, kind, name)
            &&& forall|k: int| 0 <= k < i ==> !is_wanted(#[trigger] models[k], kind, name)
        }
}

/// Whether none of `models` is wanted.
pub open spec fn none_wanted(
    models: Seq<ModelEntry>,
    kind: ModelKind,
    name: Option<Seq<char>>,
) -> bool {
    forall|k: int| 0 <= k < models.len() ==> !is_wanted(#[trigger] models[k], kind, name)
}

fn find_wanted<'a>(models: &'a Vec<ModelEntry>, kind: ModelKind, name: Option<&str>) -> (r: Option<
    &'a ModelEntry,
>)
    ensures
        match r {
            Some(m) => is_first_wanted(models@, kind, request_text(name), *m),
            None => none_wanted(models@, kind, request_text(name)),
        },
{
    let mut i: usize = 0;
    while i < models.len()
        invariant
            i <= models@.len(),
            forall|k: int|
                0 <= k < i ==> !is_wanted(#[trigger] models@[k], kind, request_text(name)),
        decreases models@.len() - i,
    {
        let m = &models[i];
        let of_kind = match kind {
            ModelKind::Fusion => m.is_fusion(),
            ModelKind::Alignment => m.is_alignment(),
        };
        let named = match name {
            Some(n) => same(m.name.as_str(), n),
            None => true,
        };
        if of_kind && named {
            assert(models@[i as int] == *m);
            return Some(m);
        }
        i = i + 1;
    }
    None
}

/// The fusion model of a run: the first fusion model, or the one named. A
/// directory without fusion models is reported as such, whatever was named.
pub fn select_fusion_model<'a>(models: &'a Vec<ModelEntry>, name: Option<&str>) -> (r: Result<
    &'a ModelEntry,
    SelectError,
>)
    ensures
        match r {
            Ok(m) => is_first_wanted(models@, ModelKind::Fusion, request_text(name), *m),
            Err(e) => none_wanted(models@, ModelKind::Fusion, request_text(name)) && (match e {
                SelectError::NoModels { kind } => kind == ModelKind::Fusion && none_wanted(
                    models@,
                    ModelKind::Fusion,
                    None,
                ),
                SelectError::ModelNotFound { kind, name: n } => kind == ModelKind::Fusion
                    && request_text(name) == Some(n@) && !none_wanted(
                    models@,
                    ModelKind::Fusion,
                    None,
                ),
                _ => false,
            }),
        },
{
    if find_wanted(models, ModelKind::Fusion, None).is_none() {
        assert forall|k: int| 0 <= k < models@.len() implies !is_wanted(
            #[trigger] models@[k],
            ModelKind::Fusion,
            request_text(name),
        ) by {
            assert(!is_wanted(models@[k], ModelKind::Fusion, None));
        }
        return Err(SelectError::NoModels { kind: ModelKind::Fusion });
    }
    match find_wanted(models, ModelKind::Fusion, name) {
        Some(m) => Ok(m),
        None => match name {
            Some(n) => Err(
                SelectError::ModelNotFound { kind: ModelKind::Fusion, name: n.to_owned() },
            ),
            None => Err(SelectError::NoModels { kind: ModelKind::Fusion }),
        },
    }
}

/// The alignment model of a run: the first alignment model, or the one named.
pub fn select_alignment_model<'a>(models: &'a Vec<ModelEntry>, name: Option<&str>) -> (r: Result<
    &'a ModelEntry,
    SelectError,
>)
    ensures
        match r {
            Ok(m) => is_first_wanted(models@, ModelKind::Alignment, request_text(name), *m),
            Err(e) => none_wanted(models@, ModelKind::Alignment, request_text(name)) && (match e {
                SelectError::NoModels { kind } => kind == ModelKind::Alignment && name is None,
                SelectError::ModelNotFound { kind, name: n } => kind == ModelKind::Alignment
                    && request_text(name) == Some(n@),
                _ => false,
            }),
        },
{
    match find_wanted(models, ModelKind::Alignment, name) {
        Some(m) => Ok(m),
        None => match name {
            Some(n) => Err(
                SelectError::ModelNotFound { kind: ModelKind::Alignment, name: n.to_owned() },
            ),
            None => Err(SelectError::NoModels { kind: ModelKind::Alignment }),
        },
    }
}

/// The device of a run's fusion or alignment model.
pub fn select_run_device(request: Option<&str>, built: Backends, kind: ModelKind) -> (r: Result<
    InferDevice,
    SelectError,
>)
    ensures
        match r {
            Ok(d) => device_for(request_text(request), built) == Some(d),
            Err(e) => device_for(request_text(request), built) is None && (e
                matches SelectError::Device { kind: k, error } && k == kind && (match error {
                DeviceError::NoBackend => request is None,
                DeviceError::CpuNotBuilt => request_text(request) == Some("cpu"@),
                DeviceError::GpuNotBuilt => request_text(request) == Some("gpu"@),
                DeviceError::UnknownDevice { name } => request_text(request) == Some(name@) && name@
                    != "cpu"@ && name@ != "gpu"@,
            })),
        },
{
    match select_device(request, built) {
        Ok(d) => Ok(d),
        Err(error) => Err(SelectError::Device { kind, error }),
    }
}

proof fn lemma_mode_names_differ()
    ensures
        "apex"@ != "relief"@,
        "apex"@ != "strata"@,
        "apex"@ != "ai"@,
        "apex"@ != "nn"@,
        "relief"@ != "strata"@,
        "relief"@ != "ai"@,
        "relief"@ != "nn"@,
        "strata"@ != "ai"@,
        "strata"@ != "nn"@,
{
    reveal_strlit("apex");
    reveal_strlit("relief");
    reveal_strlit("strata");
    reveal_strlit("ai");
    reveal_strlit("nn");
    assert("apex"@.len() == 4 && "relief"@.len() == 6 && "strata"@.len() == 6 && "ai"@.len() == 2
        && "nn"@.len() == 2);
    assert("relief"@[0] == 'r' && "strata"@[0] == 's');
}

/// Every mode has its own name; neural fusion has two, and is there only where
/// it is built. No other text names a mode.
pub proof fn law_modes_have_their_own_names(name: Seq<char>, nn: bool)
    ensures
        mode_named(name, nn) == Some(FusionMode::Apex) <==> name == "apex"@,
        mode_named(name, nn) == Some(FusionMode::Relief) <==> name == "relief"@,
        mode_named(name, nn) == Some(FusionMode::Strata) <==> name == "strata"@,
        mode_named(name, nn) == Some(FusionMode::Ai) <==> nn && (name == "ai"@ || name == "nn"@),
{
    lemma_mode_names_differ();
}

/// The model that a run fuses with is a fusion network, and the first one with
/// the name asked for, or the first of all. It is refused only where there is
/// none, and a directory without fusion networks is told apart from one
/// without that name.
pub proof fn law_fusion_model_is_the_first_that_fits(
    models: Vec<ModelEntry>,
    name: Option<&str>,
    r: Result<&ModelEntry, SelectError>,
    k: int,
)
    requires
        call_ensures(select_fusion_model, (&models, name), r),
        0 <= k < models@.len(),
        models@[k].manifest.architecture@ == "focusmerge-v1"@ || models@[k].manifest.architecture@
            == "batchmerge-v2"@,
    ensures
        name is None || models@[k].name@ == name->0@ ==> r is Ok,
        r is Err ==> (r->Err_0 matches SelectError::ModelNotFound { kind, name: n } && kind
            == ModelKind::Fusion && name is Some && n@ == name->0@),
        r matches Ok(m) ==> {
            &&& m.manifest.architecture@ == "focusmerge-v1"@ || m.manifest.architecture@
                == "batchmerge-v2"@
            &&& name matches Some(n) ==> m.name@ == n@
            &&& exists|i: int|
                0 <= i < models@.len() && #[trigger] models@[i] == *m && (name is None
                    || models@[k].name@ == name->0@ ==> i <= k)
        },
{
    assert(is_wanted(models@[k], ModelKind::Fusion, None));
    if name is None || models@[k].name@ == name->0@ {
        assert(is_wanted(models@[k], ModelKind::Fusion, request_text(name)));
    }
}

/// The model that a run aligns with is an alignment network, and the first one
/// with the name asked for, or the first of all. It is refused only where
/// there is none.
pub proof fn law_alignment_model_is_the_first_that_fits(
    models: Vec<ModelEntry>,
    name: Option<&str>,
    r: Result<&ModelEntry, SelectError>,
    k: int,
)
    requires
        call_ensures(select_alignment_model, (&models, name), r),
        0 <= k < models@.len(),
        models@[k].manifest.architecture@ == "batchalign-v2"@ || models@[k].manifest.architecture@
            == "fusionalign-v1"@,
    ensures
        name is None || models@[k].name@ == name->0@ ==> r is Ok,
        r is Err ==> (r->Err_0 matches SelectError::ModelNotFound { kind, name: n } && kind
            == ModelKind::Alignment && name is Some && n@ == name->0@),
        r matches Ok(m) ==> {
            &&& m.manifest.architecture@ == "batchalign-v2"@ || m.manifest.architecture@
                == "fusionalign-v1"@
            &&& name matches Some(n) ==> m.name@ == n@
            &&& exists|i: int|
                0 <= i < models@.len() && #[trigger] models@[i] == *m && (name is None
                    || models@[k].name@ == name->0@ ==> i <= k)
        },
{
    assert(is_wanted(models@[k], ModelKind::Alignment, None));
    if name is None || models@[k].name@ == name->0@ {
        assert(is_wanted(models@[k], ModelKind::Alignment, request_text(name)));
    }
}

/// The device of a run is the one that the build has for the request; a refusal
/// says for which of the run's models the device was asked.
pub proof fn law_device_refusal_names_its_model(
    request: Option<&str>,
    built: Backends,
    kind: ModelKind,
    r: Result<InferDevice, SelectError>,
    q: Result<InferDevice, DeviceError>,
)
    requires
        call_ensures(select_run_device, (request, built, kind), r),
        call_ensures(select_device, (request, built), q),
    ensures
        r is Ok <==> q is Ok,
        r matches Ok(d) ==> q == Ok::<InferDevice, DeviceError>(d),
        r matches Err(e) ==> e is Device && e->Device_kind == kind,
        request is None && (built.cpu || built.gpu) ==> r is Ok,
{
}

/// A mode is parsed from its name in any case, and what names no mode is
/// refused with its lower-case text.
pub proof fn law_mode_is_parsed_in_any_case(s: &str, nn: bool, r: Result<FusionMode, SelectError>)
    requires
        call_ensures(FusionMode::from_str, (s, nn), r),
    ensures
        r == Ok::<FusionMode, SelectError>(FusionMode::Apex) <==> lower(s@) == "apex"@,
        r == Ok::<FusionMode, SelectError>(FusionMode::Relief) <==> lower(s@) == "relief"@,
        r == Ok::<FusionMode, SelectError>(FusionMode::Strata) <==> lower(s@) == "strata"@,
        r == Ok::<FusionMode, SelectError>(FusionMode::Ai) <==> nn && (lower(s@) == "ai"@ || lower(
            s@,
        ) == "nn"@),
        r matches Err(e) ==> e is UnknownMode && e->mode@ == lower(s@) && e->nn == nn,
{
    law_modes_have_their_own_names(lower(s@), nn);
}

} // verus!
