//! The rules for turning protobuf configuration messages into engine configuration:
//! which fields must be present, which shader sources are supported, and how
//! unspecified enum values default. The messages' fields are handed over as plain values.
use vstd::prelude::*;
use crate::engine::{BackendOptions, EngineConfig, WindowCfg, no_options};
use crate::text::leak_text;
use crate::pipeline::{ColorBlendState, CullMode, FrontFace, PipelineDesc, PolygonMode, RasterState, ShaderPaths, Topology};

verus! {

#[derive(Debug, Clone, PartialEq, Eq)]
pub enum ConvertError {
    MissingField(&'static str),
    Invalid(&'static str),
}

/// A shader given either by a path or by SPIR-V words.
#[derive(Debug, Clone)]
pub enum ShaderSource {
    Path(String),
    Spirv(Vec<u8>),
}

/// The topology values a message may carry (`Unspecified` for any other value).
#[derive(Debug, Clone, Copy, PartialEq, Eq, Structural)]
pub enum ProtoTopology {
    TriangleList,
    LineList,
    PointList,
    Unspecified,
}

/// The raster enums a message may carry; `Unspecified` for any other value.
#[derive(Debug, Clone, Copy, PartialEq, Eq, Structural)]
pub enum ProtoPolygonMode {
    Fill,
    Line,
    Unspecified,
}

#[derive(Debug, Clone, Copy, PartialEq, Eq, Structural)]
pub enum ProtoCullMode {
    NoCulling,
    Front,
    Back,
    Unspecified,
}

#[derive(Debug, Clone, Copy, PartialEq, Eq, Structural)]
pub enum ProtoFrontFace {
    Cw,
    Ccw,
    Unspecified,
}

/// Unspecified topologies read as triangle lists.
pub fn topology_from_proto(t: ProtoTopology) -> (r: Topology)
    ensures
        r == (match t {
            ProtoTopology::LineList => Topology::LineList,
            ProtoTopology::PointList => Topology::PointList,
            _ => Topology::TriangleList,
        }),
{
    match t {
        ProtoTopology::TriangleList => Topology::TriangleList,
        ProtoTopology::LineList => Topology::LineList,
        ProtoTopology::PointList => Topology::PointList,
        ProtoTopology::Unspecified => Topology::TriangleList,
    }
}

/// Unspecified raster values read as filled, back-face culled, clockwise.
pub fn raster_from_proto(p: ProtoPolygonMode, c: ProtoCullMode, f: ProtoFrontFace) -> (r: RasterState)
    ensures
        r.polygon == (match p {
            ProtoPolygonMode::Line => PolygonMode::Line,
            _ => PolygonMode::Fill,
        }),
        r.cull == (match c {
            ProtoCullMode::NoCulling => CullMode::Disabled,
            ProtoCullMode::Front => CullMode::Front,
            _ => CullMode::Back,
        }),
        r.front_face == (match f {
            ProtoFrontFace::Ccw => FrontFace::Ccw,
            _ => FrontFace::Cw,
        }),
{
    let polygon = match p {
        ProtoPolygonMode::Line => PolygonMode::Line,
        _ => PolygonMode::Fill,
    };
    let cull = match c {
        ProtoCullMode::NoCulling => CullMode::Disabled,
        ProtoCullMode::Front => CullMode::Front,
        _ => CullMode::Back,
    };
    let front_face = match f {
        ProtoFrontFace::Ccw => FrontFace::Ccw,
        _ => FrontFace::Cw,
    };
    RasterState { polygon, cull, front_face }
}

/// The shader paths of a message: both shaders must be given, and by path; the vertex
/// shader is checked first.
pub open spec fn spec_shader_paths(vs: Option<ShaderSource>, fs: Option<ShaderSource>) -> Result<
    (Seq<char>, Seq<char>),
    ConvertError,
> {
    match vs {
        None => Err(ConvertError::MissingField("vs")),
        Some(ShaderSource::Spirv(_)) => Err(ConvertError::Invalid("vs_spirv not supported yet")),
        Some(ShaderSource::Path(v)) => match fs {
            None => Err(ConvertError::MissingField("fs")),
            Some(ShaderSource::Spirv(_)) => Err(ConvertError::Invalid("fs_spirv not supported yet")),
            Some(ShaderSource::Path(f)) => Ok((v@, f@)),
        },
    }
}

pub fn shader_paths_from_proto(vs: &Option<ShaderSource>, fs: &Option<ShaderSource>) -> (r: Result<
    (String, String),
    ConvertError,
>)
    ensures
        match spec_shader_paths(*vs, *fs) {
            Ok((v, f)) => r matches Ok((a, b)) && a@ == v && b@ == f,
            Err(e) => r == Err::<(String, String), ConvertError>(e),
        },
{
    let v = match vs {
        None => {
            return Err(ConvertError::MissingField("vs"));
        },
        Some(ShaderSource::Spirv(_)) => {
            return Err(ConvertError::Invalid("vs_spirv not supported yet"));
        },
        Some(ShaderSource::Path(p)) => p.clone(),
    };
    let f = match fs {
        None => {
            return Err(ConvertError::MissingField("fs"));
        },
        Some(ShaderSource::Spirv(_)) => {
            return Err(ConvertError::Invalid("fs_spirv not supported yet"));
        },
        Some(ShaderSource::Path(p)) => p.clone(),
    };
    Ok((v, f))
}

/// A sample count of 0 means none was given.
pub fn samples_from_proto(samples: u32) -> (r: Option<u32>)
    ensures
        r == (if samples == 0 {
            None
        } else {
            Some(samples)
        }),
{
    if samples == 0 {
        None
    } else {
        Some(samples)
    }
}

/// The window settings of a message, which must be present.
pub fn window_from_proto(w: Option<(u32, u32, bool)>) -> (r: Result<WindowCfg, ConvertError>)
    ensures
        match w {
            Some((width, height, vsync)) => r == Ok::<WindowCfg, ConvertError>(
                WindowCfg { width, height, vsync },
            ),
            None => r == Err::<WindowCfg, ConvertError>(ConvertError::MissingField("window")),
        },
{
    match w {
        Some((width, height, vsync)) => Ok(WindowCfg { width, height, vsync }),
        None => Err(ConvertError::MissingField("window")),
    }
}

/// A message's shader paths are required as a whole.
pub fn require_shaders<T>(shaders: Option<T>) -> (r: Result<T, ConvertError>)
    ensures
        match shaders {
            Some(s) => r == Ok::<T, ConvertError>(s),
            None => r == Err::<T, ConvertError>(ConvertError::MissingField("shaders")),
        },
{
    match shaders {
        Some(s) => Ok(s),
        None => Err(ConvertError::MissingField("shaders")),
    }
}

// ---------------------------------------------------------------------------
// Whole messages
// ---------------------------------------------------------------------------

/// A shader paths message: each shader by path or SPIR-V, or missing.
#[derive(Debug, Clone)]
pub struct ProtoShaderPaths {
    pub vs: Option<ShaderSource>,
    pub fs: Option<ShaderSource>,
}

/// A raster state message.
#[derive(Debug, Clone, Copy)]
pub struct ProtoRasterState {
    pub polygon: ProtoPolygonMode,
    pub cull: ProtoCullMode,
    pub front_face: ProtoFrontFace,
}

/// A pipeline message; a blend message carries its enable flag.
#[derive(Debug, Clone)]
pub struct ProtoPipelineDesc {
    pub name: String,
    pub shaders: Option<ProtoShaderPaths>,
    pub topology: ProtoTopology,
    pub depth: bool,
    pub raster: Option<ProtoRasterState>,
    pub blend: Option<bool>,
    pub samples: u32,
}

/// A window message.
#[derive(Debug, Clone, Copy)]
pub struct ProtoWindow {
    pub width: u32,
    pub height: u32,
    pub vsync: bool,
}

/// An engine configuration message.
#[derive(Debug, Clone)]
pub struct ProtoEngineConfig {
    pub app: String,
    pub window: Option<ProtoWindow>,
    pub pipelines: Vec<ProtoPipelineDesc>,
}

/// The pipeline a message describes, when its shaders are given by path: its name,
/// shaders, topology (triangle lists when unspecified), depth flag, raster state, blend
/// state and sample count (none when zero); everything else is left unset.
pub open spec fn pipeline_from_message(v: ProtoPipelineDesc, p: PipelineDesc) -> bool {
    match v.shaders {
        None => false,
        Some(sp) => match spec_shader_paths(sp.vs, sp.fs) {
            Err(_) => false,
            Ok((vs, fs)) => {
                &&& p.name@ == v.name@
                &&& p.shaders.vs@ == vs
                &&& p.shaders.fs@ == fs
                &&& p.topology == (match v.topology {
                    ProtoTopology::LineList => Topology::LineList,
                    ProtoTopology::PointList => Topology::PointList,
                    _ => Topology::TriangleList,
                })
                &&& p.depth == v.depth
                &&& (match v.raster {
                    None => p.raster is None,
                    Some(r) => p.raster matches Some(pr) && pr == (RasterState {
                        polygon: match r.polygon {
                            ProtoPolygonMode::Line => PolygonMode::Line,
                            _ => PolygonMode::Fill,
                        },
                        cull: match r.cull {
                            ProtoCullMode::NoCulling => CullMode::Disabled,
                            ProtoCullMode::Front => CullMode::Front,
                            _ => CullMode::Back,
                        },
                        front_face: match r.front_face {
                            ProtoFrontFace::Ccw => FrontFace::Ccw,
                            _ => FrontFace::Cw,
                        },
                    }),
                })
                &&& (match v.blend {
                    None => p.blend is None,
                    Some(e) => p.blend == Some(ColorBlendState { enable: e }),
                })
                &&& p.samples == (if v.samples == 0 {
                    None
                } else {
                    Some(v.samples)
                })
                &&& p.depth_stencil is None
                &&& p.dynamic is None
                &&& p.push_constants is None
                &&& p.color_targets is None
                &&& p.depth_target is None
            },
        },
    }
}

/// Why a pipeline message cannot be converted, if it cannot: missing shaders, or what
/// its shader paths lack.
pub open spec fn pipeline_message_error(v: ProtoPipelineDesc) -> Option<ConvertError> {
    match v.shaders {
        None => Some(ConvertError::MissingField("shaders")),
        Some(sp) => match spec_shader_paths(sp.vs, sp.fs) {
            Err(e) => Some(e),
            Ok(_) => None,
        },
    }
}

/// Converts a pipeline message.
pub fn pipeline_desc_from_proto(v: ProtoPipelineDesc) -> (r: Result<PipelineDesc, ConvertError>)
    ensures
        match pipeline_message_error(v) {
            Some(e) => r == Err::<PipelineDesc, ConvertError>(e),
            None => r matches Ok(p) && pipeline_from_message(v, p),
        },
{
    let sp = require_shaders(v.shaders)?;
    let (vs, fs) = shader_paths_from_proto(&sp.vs, &sp.fs)?;
    let shaders = ShaderPaths { vs: leak_text(vs), fs: leak_text(fs) };
    let raster = match v.raster {
        Some(r) => Some(raster_from_proto(r.polygon, r.cull, r.front_face)),
        None => None,
    };
    let blend = match v.blend {
        Some(e) => Some(ColorBlendState { enable: e }),
        None => None,
    };
    Ok(
        PipelineDesc {
            name: leak_text(v.name),
            shaders,
            topology: topology_from_proto(v.topology),
            depth: v.depth,
            raster,
            blend,
            samples: samples_from_proto(v.samples),
            depth_stencil: None,
            dynamic: None,
            push_constants: None,
            color_targets: None,
            depth_target: None,
        },
    )
}

/// The first of the first `k` pipeline messages that cannot be converted, and why.
pub open spec fn first_pipeline_error(ps: Seq<ProtoPipelineDesc>, k: int) -> Option<ConvertError>
    decreases k,
{
    if k <= 0 {
        None
    } else {
        match first_pipeline_error(ps, k - 1) {
            Some(e) => Some(e),
            None => pipeline_message_error(ps[k - 1]),
        }
    }
}

/// Converts an engine configuration message: the window must be present, then each
/// pipeline converts in order, the first failure giving the error; backend options are
/// left unset.
pub fn engine_config_from_proto(v: ProtoEngineConfig) -> (r: Result<EngineConfig, ConvertError>)
    ensures
        v.window is None ==> r == Err::<EngineConfig, ConvertError>(ConvertError::MissingField("window")),
        v.window is Some ==> match first_pipeline_error(v.pipelines@, v.pipelines@.len() as int) {
            Some(e) => r == Err::<EngineConfig, ConvertError>(e),
            None => r matches Ok(c) && {
                &&& c.app@ == v.app@
                &&& c.window == (WindowCfg {
                    width: v.window->Some_0.width,
                    height: v.window->Some_0.height,
                    vsync: v.window->Some_0.vsync,
                })
                &&& c.options == no_options()
                &&& c.pipelines@.len() == v.pipelines@.len()
                &&& forall|i: int|
                    0 <= i < v.pipelines@.len() ==> pipeline_from_message(
                        v.pipelines@[i],
                        #[trigger] c.pipelines@[i],
                    )
            },
        },
{
    let w = match v.window {
        Some(w) => w,
        None => {
            return Err(ConvertError::MissingField("window"));
        },
    };
    let window = WindowCfg { width: w.width, height: w.height, vsync: w.vsync };
    let ghost msgs = v.pipelines@;
    let total = v.pipelines.len();
    let mut rest = v.pipelines;
    let mut pipelines: Vec<PipelineDesc> = Vec::new();
    let mut i: usize = 0;
    while rest.len() > 0
        invariant
            v.window is Some,
            msgs == v.pipelines@,
            msgs.len() == total,
            i <= msgs.len(),
            rest@ == msgs.skip(i as int),
            first_pipeline_error(msgs, i as int) is None,
            pipelines@.len() == i,
            forall|k: int| 0 <= k < i ==> pipeline_from_message(msgs[k], #[trigger] pipelines@[k]),
        decreases rest@.len(),
    {
        let p = rest.remove(0);
        assert(p == msgs[i as int]);
        match pipeline_desc_from_proto(p) {
            Ok(d) => {
                pipelines.push(d);
            },
            Err(e) => {
                proof {
                    lemma_first_error_stays(msgs, i + 1, msgs.len() as int);
                }
                return Err(e);
            },
        }
        assert(rest@ =~= msgs.skip(i + 1));
        i = i + 1;
    }
    assert(i == msgs.len());
    Ok(EngineConfig { app: leak_text(v.app), window, pipelines, options: BackendOptions::default() })
}

proof fn lemma_first_error_stays(ps: Seq<ProtoPipelineDesc>, k: int, m: int)
    requires
        0 <= k <= m,
        first_pipeline_error(ps, k) is Some,
    ensures
        first_pipeline_error(ps, m) == first_pipeline_error(ps, k),
    decreases m - k,
{
    if m > k {
        lemma_first_error_stays(ps, k, m - 1);
    }
}

} // verus!
