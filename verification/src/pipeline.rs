//! Backend-agnostic pipeline descriptions, and the rules that turn the text of
//! `#[pipeline(..)]` / `#[color_target(..)]` attribute values into pipeline state.
use vstd::prelude::*;
use crate::text::{
    chars_of, eq_lit, has_word, has_word_exec, list_separators, list_seps, lower_eq_lit, lower_seq,
    normalized_pieces, trim, trim_seq,
};

verus! {

#[derive(Clone, Debug)]
pub enum Topology {
    TriangleList,
    LineList,
    PointList,
}

#[derive(Clone, Debug)]
pub struct ShaderPaths {
    pub vs: &'static str,
    pub fs: &'static str,
}

/// A render target description for flexible attachment configuration.
#[derive(Clone, Debug)]
pub struct ColorTargetDesc {
    pub format: &'static str,
    /// Optional per-target blend enable (falls back to pipeline-level blend if None).
    pub blend: Option<bool>,
}

#[derive(Clone, Debug)]
pub struct DepthTargetDesc {
    pub format: &'static str,
}

#[derive(Clone, Debug)]
pub struct PipelineDesc {
    pub name: &'static str,
    pub shaders: ShaderPaths,
    pub topology: Topology,
    pub depth: bool,
    pub raster: Option<RasterState>,
    pub blend: Option<ColorBlendState>,
    pub samples: Option<u32>,
    pub depth_stencil: Option<DepthState>,
    pub dynamic: Option<DynamicStateDesc>,
    pub push_constants: Option<PushConstantRange>,
    /// Optional list of color targets (MRT). If None or empty, a single swapchain target is used.
    pub color_targets: Option<&'static [ColorTargetDesc]>,
    /// Optional depth target format (the backend picks a default if None).
    pub depth_target: Option<DepthTargetDesc>,
}

/// Types that describe a graphics pipeline statically.
pub trait PipelineInfo {
    fn pipeline_desc() -> &'static PipelineDesc;
}

#[derive(Clone, Debug)]
pub enum PolygonMode {
    Fill,
    Line,
}

#[derive(Clone, Debug)]
pub enum CullMode {
    Disabled,
    Front,
    Back,
}

#[derive(Clone, Debug)]
pub enum FrontFace {
    Cw,
    Ccw,
}

#[derive(Clone, Debug)]
pub struct RasterState {
    pub polygon: PolygonMode,
    pub cull: CullMode,
    pub front_face: FrontFace,
}

#[derive(Clone, Debug)]
pub struct ColorBlendState {
    pub enable: bool,
}

#[derive(Clone, Debug)]
pub enum CompareOp {
    Never,
    Less,
    Equal,
    LessOrEqual,
    Greater,
    NotEqual,
    GreaterOrEqual,
    Always,
}

#[derive(Clone, Debug)]
pub struct DepthState {
    pub test: bool,
    pub write: bool,
    pub compare: CompareOp,
}

#[derive(Clone, Debug)]
pub struct DynamicStateDesc {
    pub viewport: bool,
    pub scissor: bool,
}

#[derive(Clone, Debug)]
pub struct StageMask {
    pub vs: bool,
    pub fs: bool,
    pub cs: bool,
}

#[derive(Clone, Debug)]
pub struct PushConstantRange {
    pub size: u32,
    pub stages: Option<StageMask>,
}

// ---------------------------------------------------------------------------
// Attribute values -> pipeline state
// ---------------------------------------------------------------------------

/// The topology named by a `topology = ".."` value (case-sensitive).
pub open spec fn spec_topology(s: Seq<char>) -> Option<Topology> {
    if s == "TriangleList"@ {
        Some(Topology::TriangleList)
    } else if s == "LineList"@ {
        Some(Topology::LineList)
    } else if s == "PointList"@ {
        Some(Topology::PointList)
    } else {
        None
    }
}

pub fn parse_topology(s: &[char]) -> (r: Option<Topology>)
    ensures
        r == spec_topology(s@),
{
    if eq_lit(s, "TriangleList") {
        Some(Topology::TriangleList)
    } else if eq_lit(s, "LineList") {
        Some(Topology::LineList)
    } else if eq_lit(s, "PointList") {
        Some(Topology::PointList)
    } else {
        None
    }
}

/// The polygon mode named by a `polygon = ".."` value.
pub open spec fn spec_polygon_mode(s: Seq<char>) -> Option<PolygonMode> {
    if s == "Fill"@ {
        Some(PolygonMode::Fill)
    } else if s == "Line"@ {
        Some(PolygonMode::Line)
    } else {
        None
    }
}

pub fn parse_polygon_mode(s: &[char]) -> (r: Option<PolygonMode>)
    ensures
        r == spec_polygon_mode(s@),
{
    if eq_lit(s, "Fill") {
        Some(PolygonMode::Fill)
    } else if eq_lit(s, "Line") {
        Some(PolygonMode::Line)
    } else {
        None
    }
}

/// The cull mode named by a `cull = ".."` value.
pub open spec fn spec_cull_mode(s: Seq<char>) -> Option<CullMode> {
    if s == "None"@ {
        Some(CullMode::Disabled)
    } else if s == "Front"@ {
        Some(CullMode::Front)
    } else if s == "Back"@ {
        Some(CullMode::Back)
    } else {
        None
    }
}

pub fn parse_cull_mode(s: &[char]) -> (r: Option<CullMode>)
    ensures
        r == spec_cull_mode(s@),
{
    if eq_lit(s, "None") {
        Some(CullMode::Disabled)
    } else if eq_lit(s, "Front") {
        Some(CullMode::Front)
    } else if eq_lit(s, "Back") {
        Some(CullMode::Back)
    } else {
        None
    }
}

/// The winding named by a `front_face = ".."` value.
pub open spec fn spec_front_face(s: Seq<char>) -> Option<FrontFace> {
    if s == "Cw"@ || s == "CW"@ {
        Some(FrontFace::Cw)
    } else if s == "Ccw"@ || s == "CCW"@ {
        Some(FrontFace::Ccw)
    } else {
        None
    }
}

pub fn parse_front_face(s: &[char]) -> (r: Option<FrontFace>)
    ensures
        r == spec_front_face(s@),
{
    if eq_lit(s, "Cw") || eq_lit(s, "CW") {
        Some(FrontFace::Cw)
    } else if eq_lit(s, "Ccw") || eq_lit(s, "CCW") {
        Some(FrontFace::Ccw)
    } else {
        None
    }
}

/// The comparison named by a `depth_compare = ".."` value.
pub open spec fn spec_compare_op(s: Seq<char>) -> Option<CompareOp> {
    if s == "Never"@ {
        Some(CompareOp::Never)
    } else if s == "Less"@ {
        Some(CompareOp::Less)
    } else if s == "Equal"@ {
        Some(CompareOp::Equal)
    } else if s == "LEqual"@ || s == "LessOrEqual"@ {
        Some(CompareOp::LessOrEqual)
    } else if s == "Greater"@ {
        Some(CompareOp::Greater)
    } else if s == "NotEqual"@ {
        Some(CompareOp::NotEqual)
    } else if s == "GEqual"@ || s == "GreaterOrEqual"@ {
        Some(CompareOp::GreaterOrEqual)
    } else if s == "Always"@ {
        Some(CompareOp::Always)
    } else {
        None
    }
}

pub fn parse_compare_op(s: &[char]) -> (r: Option<CompareOp>)
    ensures
        r == spec_compare_op(s@),
{
    if eq_lit(s, "Never") {
        Some(CompareOp::Never)
    } else if eq_lit(s, "Less") {
        Some(CompareOp::Less)
    } else if eq_lit(s, "Equal") {
        Some(CompareOp::Equal)
    } else if eq_lit(s, "LEqual") || eq_lit(s, "LessOrEqual") {
        Some(CompareOp::LessOrEqual)
    } else if eq_lit(s, "Greater") {
        Some(CompareOp::Greater)
    } else if eq_lit(s, "NotEqual") {
        Some(CompareOp::NotEqual)
    } else if eq_lit(s, "GEqual") || eq_lit(s, "GreaterOrEqual") {
        Some(CompareOp::GreaterOrEqual)
    } else if eq_lit(s, "Always") {
        Some(CompareOp::Always)
    } else {
        None
    }
}

/// The stage mask a stage list such as `"vs|fs"` names: pieces separated by `|`, `,` or
/// space, each trimmed and compared case-insensitively; unknown pieces are ignored.
pub open spec fn spec_stage_mask(s: Seq<char>) -> StageMask {
    let seps = list_seps();
    StageMask {
        vs: has_word(s, seps, "vs"@) || has_word(s, seps, "vert"@) || has_word(s, seps, "vertex"@),
        fs: has_word(s, seps, "fs"@) || has_word(s, seps, "frag"@) || has_word(s, seps, "fragment"@),
        cs: has_word(s, seps, "cs"@) || has_word(s, seps, "comp"@) || has_word(s, seps, "compute"@),
    }
}

pub fn parse_stage_mask(s: &[char]) -> (r: StageMask)
    ensures
        r == spec_stage_mask(s@),
{
    let seps = list_separators();
    let norm = normalized_pieces(s, seps.as_slice());
    let vs = has_word_exec(&norm, "vs", Ghost(s@), Ghost(seps@)) || has_word_exec(
        &norm,
        "vert",
        Ghost(s@),
        Ghost(seps@),
    ) || has_word_exec(&norm, "vertex", Ghost(s@), Ghost(seps@));
    let fs = has_word_exec(&norm, "fs", Ghost(s@), Ghost(seps@)) || has_word_exec(
        &norm,
        "frag",
        Ghost(s@),
        Ghost(seps@),
    ) || has_word_exec(&norm, "fragment", Ghost(s@), Ghost(seps@));
    let cs = has_word_exec(&norm, "cs", Ghost(s@), Ghost(seps@)) || has_word_exec(
        &norm,
        "comp",
        Ghost(s@),
        Ghost(seps@),
    ) || has_word_exec(&norm, "compute", Ghost(s@), Ghost(seps@));
    StageMask { vs, fs, cs }
}

/// The dynamic states a `dynamic = ".."` list names (`viewport`, `scissor`).
pub open spec fn spec_dynamic_states(s: Seq<char>) -> DynamicStateDesc {
    DynamicStateDesc {
        viewport: has_word(s, list_seps(), "viewport"@),
        scissor: has_word(s, list_seps(), "scissor"@),
    }
}

pub fn parse_dynamic_states(s: &[char]) -> (r: DynamicStateDesc)
    ensures
        r == spec_dynamic_states(s@),
{
    let seps = list_separators();
    let norm = normalized_pieces(s, seps.as_slice());
    let viewport = has_word_exec(&norm, "viewport", Ghost(s@), Ghost(seps@));
    let scissor = has_word_exec(&norm, "scissor", Ghost(s@), Ghost(seps@));
    DynamicStateDesc { viewport, scissor }
}

/// The boolean a flag word means after trimming and lower-casing:
/// `true|1|yes|on` and `false|0|no|off`; any other text means nothing.
pub open spec fn spec_bool_word(s: Seq<char>) -> Option<bool> {
    let w = lower_seq(trim_seq(s));
    if w == "true"@ || w == "1"@ || w == "yes"@ || w == "on"@ {
        Some(true)
    } else if w == "false"@ || w == "0"@ || w == "no"@ || w == "off"@ {
        Some(false)
    } else {
        None
    }
}

pub fn parse_bool_word(s: &[char]) -> (r: Option<bool>)
    ensures
        r == spec_bool_word(s@),
{
    let t = trim(s);
    let t = t.as_slice();
    if lower_eq_lit(t, "true") || lower_eq_lit(t, "1") || lower_eq_lit(t, "yes") || lower_eq_lit(
        t,
        "on",
    ) {
        Some(true)
    } else if lower_eq_lit(t, "false") || lower_eq_lit(t, "0") || lower_eq_lit(t, "no")
        || lower_eq_lit(t, "off") {
        Some(false)
    } else {
        None
    }
}

/// The values of a `#[pipeline(..)]` attribute, as the attribute parser read them.
#[derive(Clone, Debug)]
pub struct PipelineAttrs {
    pub topology: Option<String>,
    pub depth: Option<bool>,
    pub polygon: Option<String>,
    pub cull: Option<String>,
    pub front_face: Option<String>,
    pub blend: Option<bool>,
    pub samples: Option<i64>,
    pub depth_test: Option<bool>,
    pub depth_write: Option<bool>,
    pub depth_compare: Option<String>,
    pub dynamic: Option<String>,
    pub push_constants_size: Option<i64>,
    pub push_constants_stages: Option<String>,
}

/// The pipeline state that a `#[pipeline(..)]` attribute describes.
#[derive(Clone, Debug)]
pub struct PipelineState {
    pub topology: Topology,
    pub depth: bool,
    pub raster: Option<RasterState>,
    pub blend: Option<ColorBlendState>,
    pub samples: Option<u32>,
    pub depth_stencil: Option<DepthState>,
    pub dynamic: Option<DynamicStateDesc>,
    pub push_constants: Option<PushConstantRange>,
}

/// An attribute value that names no known setting; it carries the offending text.
#[derive(Clone, Debug)]
pub enum PipelineAttrError {
    UnknownTopology(String),
    UnknownPolygonMode(String),
    UnknownCullMode(String),
    UnknownFrontFace(String),
    UnknownDepthCompare(String),
}

/// The text of an optional value, or the default when it is absent.
pub open spec fn text_or(v: Option<String>, default: Seq<char>) -> Seq<char> {
    match v {
        Some(s) => s@,
        None => default,
    }
}

/// What a `#[pipeline(..)]` attribute describes: defaults are `TriangleList`, depth on,
/// `Fill`, `Back`, `Ccw`, blending off, compare `Less`; the first unknown value (in the
/// order topology, polygon, cull, front face, depth compare) is an error.
pub open spec fn spec_pipeline_state(a: PipelineAttrs) -> Result<PipelineState, PipelineAttrError> {
    let topo = spec_topology(text_or(a.topology, "TriangleList"@));
    let poly = spec_polygon_mode(text_or(a.polygon, "Fill"@));
    let cull = spec_cull_mode(text_or(a.cull, "Back"@));
    let front = spec_front_face(text_or(a.front_face, "Ccw"@));
    let compare_op = spec_compare_op(text_or(a.depth_compare, "Less"@));
    if topo is None {
        Err(PipelineAttrError::UnknownTopology(a.topology->0))
    } else if poly is None {
        Err(PipelineAttrError::UnknownPolygonMode(a.polygon->0))
    } else if cull is None {
        Err(PipelineAttrError::UnknownCullMode(a.cull->0))
    } else if front is None {
        Err(PipelineAttrError::UnknownFrontFace(a.front_face->0))
    } else if compare_op is None {
        Err(PipelineAttrError::UnknownDepthCompare(a.depth_compare->0))
    } else {
        let dt = match a.depth_test {
            Some(b) => b,
            None => false,
        };
        let dw = match a.depth_write {
            Some(b) => b,
            None => false,
        };
        Ok(
            PipelineState {
                topology: topo->0,
                depth: match a.depth {
                    Some(b) => b,
                    None => true,
                },
                raster: Some(
                    RasterState { polygon: poly->0, cull: cull->0, front_face: front->0 },
                ),
                blend: if a.blend == Some(true) {
                    Some(ColorBlendState { enable: true })
                } else {
                    None
                },
                samples: match a.samples {
                    Some(s) => Some(s as u32),
                    None => None,
                },
                depth_stencil: if dt || dw {
                    Some(DepthState { test: dt, write: dw, compare: compare_op->0 })
                } else {
                    None
                },
                dynamic: match a.dynamic {
                    Some(d) => Some(spec_dynamic_states(d@)),
                    None => None,
                },
                push_constants: match a.push_constants_size {
                    Some(sz) => Some(
                        PushConstantRange {
                            size: sz as u32,
                            stages: match a.push_constants_stages {
                                Some(st) => Some(spec_stage_mask(st@)),
                                None => None,
                            },
                        },
                    ),
                    None => None,
                },
            },
        )
    }
}

/// The depth state of a `#[pipeline(..)]` attribute follows its two flags, each on its
/// own: there is a depth state exactly when `depth_test` or `depth_write` is set to
/// `true`; its test flag is `depth_test` and its write flag is `depth_write` (each off
/// when absent), and with no `depth_compare` it compares with `Less`.
pub proof fn law_depth_state_follows_flags(a: PipelineAttrs)
    ensures
        spec_pipeline_state(a) matches Ok(st) ==> {
            &&& (st.depth_stencil is Some <==> (a.depth_test == Some(true) || a.depth_write == Some(true)))
            &&& (st.depth_stencil matches Some(ds) ==> {
                &&& ds.test == (a.depth_test == Some(true))
                &&& ds.write == (a.depth_write == Some(true))
                &&& (a.depth_compare is None ==> ds.compare == CompareOp::Less)
            })
        },
{
    if spec_pipeline_state(a) is Ok && a.depth_compare is None {
        reveal_strlit("Less");
        reveal_strlit("Never");
        assert("Less"@ != "Never"@) by {
            assert("Less"@.len() != "Never"@.len());
        }
        assert(spec_compare_op("Less"@) == Some(CompareOp::Less));
    }
}

fn text_or_default(v: &Option<String>, default: &str) -> (r: Vec<char>)
    ensures
        r@ == text_or(*v, default@),
{
    match v {
        Some(s) => chars_of(s.as_str()),
        None => chars_of(default),
    }
}

/// Turns the values of a `#[pipeline(..)]` attribute into pipeline state.
pub fn pipeline_state_from_attrs(a: &PipelineAttrs) -> (r: Result<PipelineState, PipelineAttrError>)
    ensures
        r == spec_pipeline_state(*a),
{
    let topo = parse_topology(text_or_default(&a.topology, "TriangleList").as_slice());
    let poly = parse_polygon_mode(text_or_default(&a.polygon, "Fill").as_slice());
    let cull = parse_cull_mode(text_or_default(&a.cull, "Back").as_slice());
    let front = parse_front_face(text_or_default(&a.front_face, "Ccw").as_slice());
    let compare_op = parse_compare_op(text_or_default(&a.depth_compare, "Less").as_slice());
    let topology = match topo {
        Some(t) => t,
        None => {
            return Err(PipelineAttrError::UnknownTopology(a.topology.clone().unwrap()));
        },
    };
    let polygon = match poly {
        Some(p) => p,
        None => {
            return Err(PipelineAttrError::UnknownPolygonMode(a.polygon.clone().unwrap()));
        },
    };
    let cull = match cull {
        Some(c) => c,
        None => {
            return Err(PipelineAttrError::UnknownCullMode(a.cull.clone().unwrap()));
        },
    };
    let front_face = match front {
        Some(f) => f,
        None => {
            return Err(PipelineAttrError::UnknownFrontFace(a.front_face.clone().unwrap()));
        },
    };
    let compare = match compare_op {
        Some(c) => c,
        None => {
            return Err(PipelineAttrError::UnknownDepthCompare(a.depth_compare.clone().unwrap()));
        },
    };
    let dt = match a.depth_test {
        Some(b) => b,
        None => false,
    };
    let dw = match a.depth_write {
        Some(b) => b,
        None => false,
    };
    let depth = match a.depth {
        Some(b) => b,
        None => true,
    };
    let blend = match a.blend {
        Some(true) => Some(ColorBlendState { enable: true }),
        _ => None,
    };
    let samples = match a.samples {
        Some(s) => Some(s as u32),
        None => None,
    };
    let depth_stencil = if dt || dw {
        Some(DepthState { test: dt, write: dw, compare })
    } else {
        None
    };
    let dynamic = match &a.dynamic {
        Some(d) => Some(parse_dynamic_states(chars_of(d.as_str()).as_slice())),
        None => None,
    };
    let push_constants = match a.push_constants_size {
        Some(sz) => {
            let stages = match &a.push_constants_stages {
                Some(st) => Some(parse_stage_mask(chars_of(st.as_str()).as_slice())),
                None => None,
            };
            Some(PushConstantRange { size: sz as u32, stages })
        },
        None => None,
    };
    Ok(
        PipelineState {
            topology,
            depth,
            raster: Some(RasterState { polygon, cull, front_face }),
            blend,
            samples,
            depth_stencil,
            dynamic,
            push_constants,
        },
    )
}

/// The value of a `#[color_target(format = .., blend = ..)]` attribute.
pub fn color_target_blend(value: &str) -> (r: Option<bool>)
    ensures
        r == spec_bool_word(value@),
{
    parse_bool_word(chars_of(value).as_slice())
}

} // verus!
