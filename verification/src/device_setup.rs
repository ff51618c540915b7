//! Decisions taken while a Vulkan device is brought up: how shader sources are loaded,
//! which attachments the render pass has, which depth format is used, how large the
//! descriptor pool is, and which descriptors get written. The device calls themselves
//! are made around these functions; they take plain values and give plain values back.
use vstd::prelude::*;
use crate::text::{chars_of, has_sub, lower_seq, to_lower, contains_str, text_between};
use crate::vulkan::{
    VkError, general_error, parse_color_format, parse_depth_format, spec_color_format, spec_depth_format,
    FORMAT_R16G16B16A16_SFLOAT, FORMAT_D32_SFLOAT, FORMAT_D32_SFLOAT_S8_UINT, FORMAT_D24_UNORM_S8_UINT,
};
use crate::pipeline::ColorTargetDesc;
use crate::resources::ResourceKind;
use crate::vulkan::{find_memory_type, first_memory_type, DYNAMIC_VIEWPORT, DYNAMIC_SCISSOR};
use crate::vulkan::{
    descriptor_type, spec_descriptor_type, DESCRIPTOR_SAMPLER, DESCRIPTOR_COMBINED_IMAGE_SAMPLER,
    DESCRIPTOR_SAMPLED_IMAGE, DESCRIPTOR_STORAGE_IMAGE, DESCRIPTOR_UNIFORM_BUFFER, DESCRIPTOR_STORAGE_BUFFER,
};
use crate::gpu_sync::{
    LAYOUT_COLOR_ATTACHMENT_OPTIMAL, LAYOUT_GENERAL, ACCESS_SHADER_WRITE, ACCESS_COLOR_ATTACHMENT_WRITE,
    STAGE_COMPUTE_SHADER, STAGE_COLOR_ATTACHMENT_OUTPUT,
};

verus! {

// ---------------------------------------------------------------------------
// Shader sources
// ---------------------------------------------------------------------------

/// The stage a GLSL source is compiled for.
#[derive(Clone, Copy, Debug, PartialEq, Eq, Structural)]
pub enum GlslStage {
    Vertex,
    Fragment,
    Compute,
}

/// `s` starts with `p`.
pub open spec fn starts_with(s: Seq<char>, p: Seq<char>) -> bool {
    p.len() <= s.len() && s.subrange(0, p.len() as int) == p
}

/// `s` ends with `p`.
pub open spec fn ends_with(s: Seq<char>, p: Seq<char>) -> bool {
    p.len() <= s.len() && s.subrange(s.len() - p.len(), s.len() as int) == p
}

fn has_prefix(s: &[char], p: &str) -> (r: bool)
    ensures
        r == starts_with(s@, p@),
{
    let pc = chars_of(p);
    if pc.len() > s.len() {
        return false;
    }
    let mut i: usize = 0;
    while i < pc.len()
        invariant
            i <= pc@.len(),
            pc@ == p@,
            pc@.len() <= s@.len(),
            forall|k: int| 0 <= k < i ==> s@[k] == pc@[k],
        decreases pc@.len() - i,
    {
        if s[i] != pc[i] {
            assert(s@.subrange(0, pc@.len() as int)[i as int] != pc@[i as int]);
            return false;
        }
        i = i + 1;
    }
    assert(s@.subrange(0, pc@.len() as int) =~= pc@);
    true
}

fn has_suffix(s: &[char], p: &str) -> (r: bool)
    ensures
        r == ends_with(s@, p@),
{
    let pc = chars_of(p);
    if pc.len() > s.len() {
        return false;
    }
    let n = s.len();
    let off = n - pc.len();
    let mut i: usize = 0;
    while i < pc.len()
        invariant
            i <= pc@.len(),
            pc@ == p@,
            n == s@.len(),
            off + pc@.len() == n,
            forall|k: int| 0 <= k < i ==> s@[off + k] == pc@[k],
        decreases pc@.len() - i,
    {
        if s[off + i] != pc[i] {
            assert(s@.subrange(off as int, s@.len() as int)[i as int] != pc@[i as int]);
            return false;
        }
        i = i + 1;
    }
    assert(s@.subrange(off as int, s@.len() as int) =~= pc@);
    true
}

/// The stage guessed for GLSL whose prefix names none: a source that writes
/// `gl_Position` is a vertex shader, any other a fragment shader.
pub open spec fn guessed_stage(src: Seq<char>) -> GlslStage {
    if has_sub(src, "gl_Position"@) {
        GlslStage::Vertex
    } else {
        GlslStage::Fragment
    }
}

/// Inline GLSL carried in a shader path: where the source starts after its prefix, and
/// the stage to compile it for.
#[derive(Clone, Copy, Debug, PartialEq, Eq, Structural)]
pub struct InlineGlsl {
    pub body_start: usize,
    pub stage: GlslStage,
}

/// The inline source a shader path carries, by a prefix matched case-insensitively:
/// `source:` and `inline:` leave the stage to be guessed, `source.vert:` and
/// `inline.vert:` give a vertex shader, `source.frag:` and `inline.frag:` a fragment one.
pub open spec fn spec_inline_glsl(s: Seq<char>) -> Option<InlineGlsl> {
    let l = lower_seq(s);
    if starts_with(l, "source:"@) {
        Some(InlineGlsl { body_start: 7, stage: guessed_stage(s.skip(7)) })
    } else if starts_with(l, "inline:"@) {
        Some(InlineGlsl { body_start: 7, stage: guessed_stage(s.skip(7)) })
    } else if starts_with(l, "source.vert:"@) {
        Some(InlineGlsl { body_start: 12, stage: GlslStage::Vertex })
    } else if starts_with(l, "source.frag:"@) {
        Some(InlineGlsl { body_start: 12, stage: GlslStage::Fragment })
    } else if starts_with(l, "inline.vert:"@) {
        Some(InlineGlsl { body_start: 12, stage: GlslStage::Vertex })
    } else if starts_with(l, "inline.frag:"@) {
        Some(InlineGlsl { body_start: 12, stage: GlslStage::Fragment })
    } else {
        None
    }
}

fn lowered(s: &[char]) -> (r: Vec<char>)
    ensures
        r@ == lower_seq(s@),
{
    let mut r: Vec<char> = Vec::new();
    let mut i: usize = 0;
    while i < s.len()
        invariant
            i <= s@.len(),
            r@ == lower_seq(s@.take(i as int)),
        decreases s@.len() - i,
    {
        r.push(to_lower(s[i]));
        assert(lower_seq(s@.take(i + 1)) =~= lower_seq(s@.take(i as int)).push(
            crate::text::lower_char(s@[i as int]),
        ));
        i = i + 1;
    }
    assert(s@.take(s@.len() as int) =~= s@);
    r
}

fn stage_of_body(s: &[char], start: usize) -> (r: GlslStage)
    requires
        start <= s@.len(),
    ensures
        r == guessed_stage(s@.skip(start as int)),
{
    let mut body: Vec<char> = Vec::new();
    let mut i: usize = start;
    while i < s.len()
        invariant
            start <= i <= s@.len(),
            body@ == s@.subrange(start as int, i as int),
        decreases s@.len() - i,
    {
        body.push(s[i]);
        assert(s@.subrange(start as int, i + 1) =~= s@.subrange(start as int, i as int).push(s@[i as int]));
        i = i + 1;
    }
    assert(body@ =~= s@.skip(start as int));
    let text = crate::text::string_of(body.as_slice());
    if contains_str(text.as_str(), "gl_Position") {
        GlslStage::Vertex
    } else {
        GlslStage::Fragment
    }
}

/// Finds inline GLSL in a shader path, as `spec_inline_glsl` describes.
pub fn inline_glsl(path: &str) -> (r: Option<InlineGlsl>)
    ensures
        r == spec_inline_glsl(path@),
{
    let s = chars_of(path);
    let l = lowered(s.as_slice());
    proof {
        reveal_strlit("source:");
        reveal_strlit("inline:");
    }
    if has_prefix(l.as_slice(), "source:") {
        Some(InlineGlsl { body_start: 7, stage: stage_of_body(s.as_slice(), 7) })
    } else if has_prefix(l.as_slice(), "inline:") {
        Some(InlineGlsl { body_start: 7, stage: stage_of_body(s.as_slice(), 7) })
    } else if has_prefix(l.as_slice(), "source.vert:") {
        Some(InlineGlsl { body_start: 12, stage: GlslStage::Vertex })
    } else if has_prefix(l.as_slice(), "source.frag:") {
        Some(InlineGlsl { body_start: 12, stage: GlslStage::Fragment })
    } else if has_prefix(l.as_slice(), "inline.vert:") {
        Some(InlineGlsl { body_start: 12, stage: GlslStage::Vertex })
    } else if has_prefix(l.as_slice(), "inline.frag:") {
        Some(InlineGlsl { body_start: 12, stage: GlslStage::Fragment })
    } else {
        None
    }
}

/// The stage a GLSL file's extension names: `.vert`, `.frag` or `.comp`.
pub open spec fn spec_stage_from_ext(path: Seq<char>) -> Option<GlslStage> {
    if ends_with(path, ".vert"@) {
        Some(GlslStage::Vertex)
    } else if ends_with(path, ".frag"@) {
        Some(GlslStage::Fragment)
    } else if ends_with(path, ".comp"@) {
        Some(GlslStage::Compute)
    } else {
        None
    }
}

/// The stage of a GLSL file, by its extension.
pub fn stage_from_ext(path: &str) -> (r: Option<GlslStage>)
    ensures
        r == spec_stage_from_ext(path@),
{
    let s = chars_of(path);
    if has_suffix(s.as_slice(), ".vert") {
        Some(GlslStage::Vertex)
    } else if has_suffix(s.as_slice(), ".frag") {
        Some(GlslStage::Fragment)
    } else if has_suffix(s.as_slice(), ".comp") {
        Some(GlslStage::Compute)
    } else {
        None
    }
}

/// How a shader path is turned into SPIR-V.
#[derive(Clone, Copy, Debug, PartialEq, Eq, Structural)]
pub enum ShaderLoad {
    /// GLSL carried in the path itself, compiled from `body_start` on.
    Inline(InlineGlsl),
    /// A SPIR-V file, read and split into words.
    SpirvFile,
    /// A GLSL file, read and compiled for the stage.
    GlslFile(GlslStage),
}

/// The message for a path that is neither inline GLSL, SPIR-V, nor GLSL of a known stage.
pub open spec fn unknown_stage_message(path: Seq<char>) -> Seq<char> {
    "unknown shader stage for '"@ + path + "': use .vert/.frag/.comp or .spv"@
}

/// Inline GLSL first, then a `.spv` file, then a GLSL file whose extension names its
/// stage; any other path is refused.
pub open spec fn spec_shader_load(path: Seq<char>) -> Result<ShaderLoad, Seq<char>> {
    match spec_inline_glsl(path) {
        Some(g) => Ok(ShaderLoad::Inline(g)),
        None => if ends_with(path, ".spv"@) {
            Ok(ShaderLoad::SpirvFile)
        } else {
            match spec_stage_from_ext(path) {
                Some(st) => Ok(ShaderLoad::GlslFile(st)),
                None => Err(unknown_stage_message(path)),
            }
        },
    }
}

/// Decides how to load the shader at `path`.
pub fn shader_load(path: &str) -> (r: Result<ShaderLoad, VkError>)
    ensures
        spec_shader_load(path@) matches Ok(l) ==> r == Ok::<ShaderLoad, VkError>(l),
        spec_shader_load(path@) matches Err(m) ==> r matches Err(VkError::General(x)) && x@ == m,
{
    if let Some(g) = inline_glsl(path) {
        return Ok(ShaderLoad::Inline(g));
    }
    let s = chars_of(path);
    if has_suffix(s.as_slice(), ".spv") {
        return Ok(ShaderLoad::SpirvFile);
    }
    match stage_from_ext(path) {
        Some(st) => Ok(ShaderLoad::GlslFile(st)),
        None => {
            let msg = text_between("unknown shader stage for '", s.as_slice(), "': use .vert/.frag/.comp or .spv");
            Err(VkError::General(msg))
        },
    }
}

/// The little-endian word at word index `i` of `b`.
pub open spec fn le_word(b: Seq<u8>, i: int) -> int {
    b[4 * i] + 256 * b[4 * i + 1] + 65536 * b[4 * i + 2] + 16777216 * b[4 * i + 3]
}

/// Splits SPIR-V bytes into little-endian words; the length must be a multiple of four.
pub fn spirv_words(bytes: &[u8]) -> (r: Result<Vec<u32>, VkError>)
    ensures
        bytes@.len() % 4 != 0 <==> r is Err,
        r matches Err(VkError::General(m)) ==> m@ == "SPIR-V length not multiple of 4"@,
        r matches Ok(w) ==> w@.len() * 4 == bytes@.len() && forall|i: int|
            0 <= i < w@.len() ==> #[trigger] w@[i] as int == le_word(bytes@, i),
{
    let n = bytes.len();
    if n % 4 != 0 {
        return Err(general_error("SPIR-V length not multiple of 4"));
    }
    let mut words: Vec<u32> = Vec::new();
    let mut i: usize = 0;
    while i < n
        invariant
            n == bytes@.len(),
            n % 4 == 0,
            i % 4 == 0,
            i <= n,
            words@.len() * 4 == i,
            forall|k: int| 0 <= k < words@.len() ==> #[trigger] words@[k] as int == le_word(bytes@, k),
        decreases n - i,
    {
        let w: u32 = bytes[i] as u32 + 256 * (bytes[i + 1] as u32) + 65536 * (bytes[i + 2] as u32) + 16777216
            * (bytes[i + 3] as u32);
        words.push(w);
        i = i + 4;
    }
    Ok(words)
}

// ---------------------------------------------------------------------------
// Render pass attachments
// ---------------------------------------------------------------------------

pub const LAYOUT_PRESENT_SRC: i32 = 1000001002;

pub const IMAGE_USAGE_TRANSFER_SRC: u32 = 0x1;
pub const IMAGE_USAGE_STORAGE: u32 = 0x8;
pub const IMAGE_USAGE_COLOR_ATTACHMENT: u32 = 0x10;

/// The sample count an MSAA option asks for: a power of two up to 64, else one.
pub open spec fn spec_samples_of(n: u32) -> u32 {
    if n == 1 || n == 2 || n == 4 || n == 8 || n == 16 || n == 32 || n == 64 {
        n
    } else {
        1
    }
}

/// A color attachment of the render pass: its format and the layout it ends in.
#[derive(Clone, Copy, Debug, PartialEq, Eq, Structural)]
pub struct AttachmentPlan {
    pub format: i32,
    pub final_layout: i32,
}

/// The attachments of the render pass and the offscreen color targets.
pub struct RenderPassPlan {
    /// Sample count of every attachment.
    pub samples: u32,
    /// Compute shaders write the image that is presented; no framebuffers are made.
    pub compute_only_present: bool,
    /// Offscreen color targets are rendered instead of the swapchain image.
    pub use_mrt: bool,
    /// The format of each offscreen color target.
    pub mrt_formats: Vec<i32>,
    /// How offscreen color targets are used.
    pub mrt_usage: u32,
    /// The color attachments; the depth attachment follows them.
    pub color_attachments: Vec<AttachmentPlan>,
}

/// The format of a color target: its named format, or 16-bit float RGBA.
pub open spec fn target_format(ct: ColorTargetDesc) -> i32 {
    match spec_color_format(lower_seq(ct.format@)) {
        Some(f) => f,
        None => FORMAT_R16G16B16A16_SFLOAT,
    }
}

pub open spec fn target_attachment(ct: ColorTargetDesc) -> AttachmentPlan {
    AttachmentPlan { format: target_format(ct), final_layout: LAYOUT_COLOR_ATTACHMENT_OPTIMAL }
}

/// The render pass for a pipeline's color targets: with targets listed, or when compute
/// presents, offscreen targets in the listed formats (one 16-bit float target when none
/// is listed), each a color attachment ending ready for further writes; otherwise the
/// single swapchain attachment, ending ready to present.
pub open spec fn render_pass_plan_ok(
    r: RenderPassPlan,
    targets: Option<Seq<ColorTargetDesc>>,
    surface_format: i32,
    msaa: Option<u32>,
    default_samples: u32,
    compute_present: Option<bool>,
    has_compute: bool,
) -> bool {
    let cop = compute_present == Some(true) && has_compute;
    &&& r.samples == match msaa {
        Some(n) => spec_samples_of(n),
        None => default_samples,
    }
    &&& r.compute_only_present == cop
    &&& r.use_mrt == ((targets matches Some(t) && t.len() > 0) || cop)
    &&& r.mrt_usage == if cop {
        IMAGE_USAGE_STORAGE + IMAGE_USAGE_TRANSFER_SRC
    } else {
        IMAGE_USAGE_COLOR_ATTACHMENT + IMAGE_USAGE_TRANSFER_SRC
    }
    &&& r.use_mrt ==> match targets {
        Some(t) => r.mrt_formats@ == t.map_values(|c: ColorTargetDesc| target_format(c))
            && r.color_attachments@ == t.map_values(|c: ColorTargetDesc| target_attachment(c)),
        None => r.mrt_formats@ == seq![FORMAT_R16G16B16A16_SFLOAT] && r.color_attachments@.len() == 0,
    }
    &&& !r.use_mrt ==> r.mrt_formats@.len() == 0 && r.color_attachments@ == seq![
        AttachmentPlan { format: surface_format, final_layout: LAYOUT_PRESENT_SRC },
    ]
}

fn samples_of(n: u32) -> (r: u32)
    ensures
        r == spec_samples_of(n),
{
    if n == 1 || n == 2 || n == 4 || n == 8 || n == 16 || n == 32 || n == 64 {
        n
    } else {
        1
    }
}

/// Plans the render pass attachments of the first pipeline.
pub fn render_pass_plan(
    targets: Option<&[ColorTargetDesc]>,
    surface_format: i32,
    msaa: Option<u32>,
    default_samples: u32,
    compute_present: Option<bool>,
    has_compute: bool,
) -> (r: RenderPassPlan)
    ensures
        render_pass_plan_ok(
            r,
            match targets {
                Some(t) => Some(t@),
                None => None,
            },
            surface_format,
            msaa,
            default_samples,
            compute_present,
            has_compute,
        ),
{
    let samples = match msaa {
        Some(n) => samples_of(n),
        None => default_samples,
    };
    let cop = match compute_present {
        Some(b) => b,
        None => false,
    } && has_compute;
    let use_mrt = match targets {
        Some(t) => t.len() > 0,
        None => false,
    } || cop;
    let mrt_usage = if cop {
        IMAGE_USAGE_STORAGE + IMAGE_USAGE_TRANSFER_SRC
    } else {
        IMAGE_USAGE_COLOR_ATTACHMENT + IMAGE_USAGE_TRANSFER_SRC
    };
    let mut mrt_formats: Vec<i32> = Vec::new();
    let mut color_attachments: Vec<AttachmentPlan> = Vec::new();
    if use_mrt {
        match targets {
            Some(t) => {
                let mut i: usize = 0;
                while i < t.len()
                    invariant
                        i <= t@.len(),
                        mrt_formats@ == t@.take(i as int).map_values(|c: ColorTargetDesc| target_format(c)),
                        color_attachments@ == t@.take(i as int).map_values(
                            |c: ColorTargetDesc| target_attachment(c),
                        ),
                    decreases t@.len() - i,
                {
                    let f = match parse_color_format(t[i].format) {
                        Some(f) => f,
                        None => FORMAT_R16G16B16A16_SFLOAT,
                    };
                    mrt_formats.push(f);
                    color_attachments.push(AttachmentPlan { format: f, final_layout: LAYOUT_COLOR_ATTACHMENT_OPTIMAL });
                    assert(t@.take(i + 1).drop_last() =~= t@.take(i as int));
                    assert(mrt_formats@ =~= t@.take(i + 1).map_values(|c: ColorTargetDesc| target_format(c)));
                    assert(color_attachments@ =~= t@.take(i + 1).map_values(
                        |c: ColorTargetDesc| target_attachment(c),
                    ));
                    i = i + 1;
                }
                assert(t@.take(t@.len() as int) =~= t@);
            },
            None => {
                mrt_formats.push(FORMAT_R16G16B16A16_SFLOAT);
                assert(mrt_formats@ =~= seq![FORMAT_R16G16B16A16_SFLOAT]);
            },
        }
    } else {
        color_attachments.push(AttachmentPlan { format: surface_format, final_layout: LAYOUT_PRESENT_SRC });
        assert(color_attachments@ =~= seq![
            AttachmentPlan { format: surface_format, final_layout: LAYOUT_PRESENT_SRC },
        ]);
    }
    RenderPassPlan { samples, compute_only_present: cop, use_mrt, mrt_formats, mrt_usage, color_attachments }
}

// ---------------------------------------------------------------------------
// Depth format
// ---------------------------------------------------------------------------

/// The depth formats to try, in order, and the one used when the device supports none.
pub struct DepthCandidates {
    pub candidates: Vec<i32>,
    pub fallback: i32,
}

/// A requested depth format that names one is tried alone and used regardless; otherwise
/// 32-bit float, 32-bit float with stencil and 24-bit with stencil are tried, in that
/// order, with 32-bit float as the fallback.
pub open spec fn spec_depth_candidates(requested: Option<Seq<char>>) -> (Seq<i32>, i32) {
    match requested {
        Some(s) => match spec_depth_format(s) {
            Some(df) => (seq![df], df),
            None => (seq![FORMAT_D32_SFLOAT, FORMAT_D32_SFLOAT_S8_UINT, FORMAT_D24_UNORM_S8_UINT], FORMAT_D32_SFLOAT),
        },
        None => (seq![FORMAT_D32_SFLOAT, FORMAT_D32_SFLOAT_S8_UINT, FORMAT_D24_UNORM_S8_UINT], FORMAT_D32_SFLOAT),
    }
}

/// The depth formats to query the device for.
pub fn depth_candidates(requested: Option<&str>) -> (r: DepthCandidates)
    ensures
        (r.candidates@, r.fallback) == spec_depth_candidates(
            match requested {
                Some(s) => Some(s@),
                None => None,
            },
        ),
{
    let parsed = match requested {
        Some(s) => parse_depth_format(s),
        None => None,
    };
    let mut candidates: Vec<i32> = Vec::new();
    match parsed {
        Some(df) => {
            candidates.push(df);
            assert(candidates@ =~= seq![df]);
            DepthCandidates { candidates, fallback: df }
        },
        None => {
            candidates.push(FORMAT_D32_SFLOAT);
            candidates.push(FORMAT_D32_SFLOAT_S8_UINT);
            candidates.push(FORMAT_D24_UNORM_S8_UINT);
            assert(candidates@ =~= seq![FORMAT_D32_SFLOAT, FORMAT_D32_SFLOAT_S8_UINT, FORMAT_D24_UNORM_S8_UINT]);
            DepthCandidates { candidates, fallback: FORMAT_D32_SFLOAT }
        },
    }
}

/// The first candidate the device supports as a depth attachment, else the fallback;
/// `supported[k]` is what the device reports for `candidates[k]`.
pub fn choose_depth_format(candidates: &[i32], supported: &[bool], fallback: i32) -> (r: i32)
    requires
        supported@.len() == candidates@.len(),
    ensures
        (exists|k: int|
            0 <= k < candidates@.len() && #[trigger] supported@[k] && r == candidates@[k] && forall|j: int|
                0 <= j < k ==> !supported@[j]) || ((forall|k: int| 0 <= k < candidates@.len() ==> !#[trigger] supported@[k])
            && r == fallback),
{
    let mut i: usize = 0;
    while i < candidates.len()
        invariant
            i <= candidates@.len(),
            supported@.len() == candidates@.len(),
            forall|j: int| 0 <= j < i ==> !supported@[j],
        decreases candidates@.len() - i,
    {
        if supported[i] {
            return candidates[i];
        }
        i = i + 1;
    }
    fallback
}

// ---------------------------------------------------------------------------
// Descriptor pool
// ---------------------------------------------------------------------------

/// How many bindings of `kinds` need descriptors of type `t`.
pub open spec fn type_count(kinds: Seq<ResourceKind>, t: i32) -> nat
    decreases kinds.len(),
{
    if kinds.len() == 0 {
        0
    } else {
        type_count(kinds.drop_last(), t) + if spec_descriptor_type(kinds.last()) == t {
            1nat
        } else {
            0nat
        }
    }
}

/// The descriptor types, ascending by their Vulkan code.
pub open spec fn descriptor_types() -> Seq<i32> {
    seq![
        DESCRIPTOR_SAMPLER,
        DESCRIPTOR_COMBINED_IMAGE_SAMPLER,
        DESCRIPTOR_SAMPLED_IMAGE,
        DESCRIPTOR_STORAGE_IMAGE,
        DESCRIPTOR_UNIFORM_BUFFER,
        DESCRIPTOR_STORAGE_BUFFER,
    ]
}

/// The multiplier a pool is oversized by: the option, at least one.
pub open spec fn pool_multiplier(m: Option<u32>) -> nat {
    match m {
        Some(x) => if x >= 1 {
            x as nat
        } else {
            1
        },
        None => 1,
    }
}

/// For each type among `types` that some binding needs, in order: the type and its
/// count times `scale`.
pub open spec fn pool_sizes_from(types: Seq<i32>, kinds: Seq<ResourceKind>, scale: nat) -> Seq<(i32, u32)>
    decreases types.len(),
{
    if types.len() == 0 {
        Seq::empty()
    } else {
        let t = types[0];
        (if type_count(kinds, t) > 0 {
            seq![(t, (type_count(kinds, t) * scale) as u32)]
        } else {
            Seq::empty()
        }) + pool_sizes_from(types.skip(1), kinds, scale)
    }
}

/// The descriptor pool: one size per descriptor type in use, ascending by type, each
/// the number of bindings of that type times the frames and the multiplier; and room for
/// every set of every frame, times the multiplier.
pub struct PoolPlan {
    pub sizes: Vec<(i32, u32)>,
    pub max_sets: u32,
}

fn count_type(kinds: &[ResourceKind], t: i32) -> (r: u32)
    requires
        kinds@.len() <= u32::MAX,
    ensures
        r == type_count(kinds@, t),
        r <= kinds@.len(),
{
    let mut c: u32 = 0;
    let mut i: usize = 0;
    while i < kinds.len()
        invariant
            i <= kinds@.len(),
            kinds@.len() <= u32::MAX,
            c == type_count(kinds@.take(i as int), t),
            c <= i,
        decreases kinds@.len() - i,
    {
        assert(kinds@.take(i + 1).drop_last() =~= kinds@.take(i as int));
        if descriptor_type(&kinds[i]) == t {
            c = c + 1;
        }
        i = i + 1;
    }
    assert(kinds@.take(kinds@.len() as int) =~= kinds@);
    c
}

proof fn lemma_count_scaled(c: nat, len: nat, scale: nat)
    requires
        c <= len,
        len * scale <= u32::MAX,
    ensures
        c * scale <= u32::MAX,
{
    assert(c * scale <= len * scale) by (nonlinear_arith)
        requires
            c <= len,
    ;
}

/// Sizes the descriptor pool for the bindings of every pipeline (`kinds`), `frames`
/// swapchain images and `set_count` descriptor sets per frame. No pool is made when no
/// binding needs a descriptor.
pub fn descriptor_pool_plan(kinds: &[ResourceKind], frames: u32, multiplier: Option<u32>, set_count: u32) -> (r:
    Option<PoolPlan>)
    requires
        kinds@.len() <= u32::MAX,
        kinds@.len() * frames * pool_multiplier(multiplier) <= u32::MAX,
        set_count * frames * pool_multiplier(multiplier) <= u32::MAX,
    ensures
        kinds@.len() == 0 <==> r is None,
        r matches Some(p) ==> p.sizes@ == pool_sizes_from(
            descriptor_types(),
            kinds@,
            frames as nat * pool_multiplier(multiplier),
        ) && p.max_sets == set_count * frames * pool_multiplier(multiplier),
{
    if kinds.len() == 0 {
        return None;
    }
    let mult: u32 = match multiplier {
        Some(m) => if m >= 1 {
            m
        } else {
            1
        },
        None => 1,
    };
    let ghost scale: nat = frames as nat * pool_multiplier(multiplier);
    proof {
        assert(kinds@.len() * scale <= u32::MAX) by (nonlinear_arith)
            requires
                scale == frames * pool_multiplier(multiplier),
                kinds@.len() * frames * pool_multiplier(multiplier) <= u32::MAX,
        ;
    }
    let mut types: Vec<i32> = Vec::new();
    types.push(DESCRIPTOR_SAMPLER);
    types.push(DESCRIPTOR_COMBINED_IMAGE_SAMPLER);
    types.push(DESCRIPTOR_SAMPLED_IMAGE);
    types.push(DESCRIPTOR_STORAGE_IMAGE);
    types.push(DESCRIPTOR_UNIFORM_BUFFER);
    types.push(DESCRIPTOR_STORAGE_BUFFER);
    assert(types@ =~= descriptor_types());
    assert(types@.skip(0) =~= types@);
    let mut sizes: Vec<(i32, u32)> = Vec::new();
    let mut i: usize = 0;
    while i < types.len()
        invariant
            i <= types@.len(),
            types@ == descriptor_types(),
            scale == frames * pool_multiplier(multiplier),
            mult == pool_multiplier(multiplier),
            kinds@.len() <= u32::MAX,
            kinds@.len() * scale <= u32::MAX,
            sizes@ + pool_sizes_from(types@.skip(i as int), kinds@, scale) == pool_sizes_from(
                descriptor_types(),
                kinds@,
                scale,
            ),
        decreases types@.len() - i,
    {
        let t = types[i];
        assert(types@.skip(i as int).skip(1) =~= types@.skip(i + 1));
        assert(types@.skip(i as int)[0] == t);
        let c = count_type(kinds, t);
        if c > 0 {
            proof {
                lemma_count_scaled(c as nat, kinds@.len(), scale);
                assert(c * frames * mult == c * scale) by (nonlinear_arith)
                    requires
                        scale == frames * mult,
                ;
                assert(c * frames <= c * frames * mult) by (nonlinear_arith)
                    requires
                        mult >= 1,
                ;
            }
            let n = c * frames * mult;
            sizes.push((t, n));
            assert(sizes@ + pool_sizes_from(types@.skip(i + 1), kinds@, scale) =~= pool_sizes_from(
                descriptor_types(),
                kinds@,
                scale,
            ));
        } else {
            assert(sizes@ + pool_sizes_from(types@.skip(i + 1), kinds@, scale) =~= pool_sizes_from(
                descriptor_types(),
                kinds@,
                scale,
            ));
        }
        i = i + 1;
    }
    assert(sizes@ + pool_sizes_from(types@.skip(6), kinds@, scale) == sizes@ + Seq::<(i32, u32)>::empty());
    assert(sizes@ =~= pool_sizes_from(descriptor_types(), kinds@, scale));
    proof {
        assert(set_count * frames <= set_count * frames * mult) by (nonlinear_arith)
            requires
                mult >= 1,
        ;
    }
    let max_sets = set_count * frames * mult;
    Some(PoolPlan { sizes, max_sets })
}

// ---------------------------------------------------------------------------
// Descriptor writes
// ---------------------------------------------------------------------------

/// The resources made to back descriptors: uniform buffers, a sampled image with its
/// sampler, storage buffers and storage images.
#[derive(Clone, Copy, Debug, PartialEq, Eq, Structural)]
pub struct DescriptorResources {
    pub uniform_buffers: bool,
    pub image_view: bool,
    pub sampler: bool,
    pub storage_buffers: bool,
    pub storage_images: bool,
}

pub open spec fn has_kind(kinds: Seq<ResourceKind>, k: ResourceKind) -> bool {
    exists|i: int| 0 <= i < kinds.len() && kinds[i] == k
}

/// Uniform buffers when a graphics binding is a uniform; an image and sampler when one
/// is a texture, a sampler or both; storage buffers and images when a compute binding
/// is one.
pub open spec fn spec_descriptor_resources(graphics: Seq<ResourceKind>, compute: Seq<ResourceKind>) -> DescriptorResources {
    let img = has_kind(graphics, ResourceKind::Texture) || has_kind(graphics, ResourceKind::CombinedImageSampler)
        || has_kind(graphics, ResourceKind::Sampler);
    DescriptorResources {
        uniform_buffers: has_kind(graphics, ResourceKind::Uniform),
        image_view: img,
        sampler: img,
        storage_buffers: has_kind(compute, ResourceKind::StorageBuffer),
        storage_images: has_kind(compute, ResourceKind::StorageImage),
    }
}

fn kind_present(kinds: &[ResourceKind], k: ResourceKind) -> (r: bool)
    ensures
        r == has_kind(kinds@, k),
{
    let mut i: usize = 0;
    while i < kinds.len()
        invariant
            i <= kinds@.len(),
            forall|j: int| 0 <= j < i ==> kinds@[j] != k,
        decreases kinds@.len() - i,
    {
        let same = match (&kinds[i], &k) {
            (ResourceKind::Uniform, ResourceKind::Uniform) => true,
            (ResourceKind::Texture, ResourceKind::Texture) => true,
            (ResourceKind::Sampler, ResourceKind::Sampler) => true,
            (ResourceKind::CombinedImageSampler, ResourceKind::CombinedImageSampler) => true,
            (ResourceKind::StorageBuffer, ResourceKind::StorageBuffer) => true,
            (ResourceKind::StorageImage, ResourceKind::StorageImage) => true,
            _ => false,
        };
        if same {
            return true;
        }
        i = i + 1;
    }
    false
}

/// Which resources to make for the graphics bindings and the compute bindings.
pub fn descriptor_resources(graphics: &[ResourceKind], compute: &[ResourceKind]) -> (r: DescriptorResources)
    ensures
        r == spec_descriptor_resources(graphics@, compute@),
{
    let img = kind_present(graphics, ResourceKind::Texture) || kind_present(graphics, ResourceKind::CombinedImageSampler)
        || kind_present(graphics, ResourceKind::Sampler);
    DescriptorResources {
        uniform_buffers: kind_present(graphics, ResourceKind::Uniform),
        image_view: img,
        sampler: img,
        storage_buffers: kind_present(compute, ResourceKind::StorageBuffer),
        storage_images: kind_present(compute, ResourceKind::StorageImage),
    }
}

/// A descriptor write: its type and, for a buffer, the range it covers.
#[derive(Clone, Copy, Debug, PartialEq, Eq, Structural)]
pub struct DescriptorWrite {
    pub descriptor_type: i32,
    pub buffer_range: u64,
}

/// The bytes of a storage buffer a descriptor covers.
pub const STORAGE_BUFFER_RANGE: u64 = 256;

/// The bytes of a uniform buffer that descriptors and per-frame updates cover: its size,
/// or 64 when that is zero.
pub open spec fn spec_uniform_range(size: u64) -> u64 {
    if size == 0 {
        64
    } else {
        size
    }
}

pub fn uniform_range(size: u64) -> (r: u64)
    ensures
        r == spec_uniform_range(size),
{
    if size == 0 {
        64
    } else {
        size
    }
}

/// The write for a binding of kind `k`, when the resource behind it exists: a uniform
/// buffer covering its range, the image with its
/// sampler, the image, the sampler; storage buffers (256 bytes) and storage images only
/// for compute passes.
pub open spec fn spec_descriptor_write(
    k: ResourceKind,
    res: DescriptorResources,
    compute: bool,
    uniform_size: u64,
) -> Option<DescriptorWrite> {
    match k {
        ResourceKind::Uniform => if res.uniform_buffers {
            Some(DescriptorWrite { descriptor_type: DESCRIPTOR_UNIFORM_BUFFER, buffer_range: spec_uniform_range(uniform_size) })
        } else {
            None
        },
        ResourceKind::CombinedImageSampler => if res.image_view && res.sampler {
            Some(DescriptorWrite { descriptor_type: DESCRIPTOR_COMBINED_IMAGE_SAMPLER, buffer_range: 0 })
        } else {
            None
        },
        ResourceKind::Texture => if res.image_view {
            Some(DescriptorWrite { descriptor_type: DESCRIPTOR_SAMPLED_IMAGE, buffer_range: 0 })
        } else {
            None
        },
        ResourceKind::Sampler => if res.sampler {
            Some(DescriptorWrite { descriptor_type: DESCRIPTOR_SAMPLER, buffer_range: 0 })
        } else {
            None
        },
        ResourceKind::StorageBuffer => if compute && res.storage_buffers {
            Some(DescriptorWrite { descriptor_type: DESCRIPTOR_STORAGE_BUFFER, buffer_range: STORAGE_BUFFER_RANGE })
        } else {
            None
        },
        ResourceKind::StorageImage => if compute && res.storage_images {
            Some(DescriptorWrite { descriptor_type: DESCRIPTOR_STORAGE_IMAGE, buffer_range: 0 })
        } else {
            None
        },
    }
}

/// Decides the descriptor write for one binding.
pub fn descriptor_write(k: &ResourceKind, res: &DescriptorResources, compute: bool, uniform_size: u64) -> (r:
    Option<DescriptorWrite>)
    ensures
        r == spec_descriptor_write(*k, *res, compute, uniform_size),
{
    match k {
        ResourceKind::Uniform => if res.uniform_buffers {
            Some(DescriptorWrite { descriptor_type: DESCRIPTOR_UNIFORM_BUFFER, buffer_range: uniform_range(uniform_size) })
        } else {
            None
        },
        ResourceKind::CombinedImageSampler => if res.image_view && res.sampler {
            Some(DescriptorWrite { descriptor_type: DESCRIPTOR_COMBINED_IMAGE_SAMPLER, buffer_range: 0 })
        } else {
            None
        },
        ResourceKind::Texture => if res.image_view {
            Some(DescriptorWrite { descriptor_type: DESCRIPTOR_SAMPLED_IMAGE, buffer_range: 0 })
        } else {
            None
        },
        ResourceKind::Sampler => if res.sampler {
            Some(DescriptorWrite { descriptor_type: DESCRIPTOR_SAMPLER, buffer_range: 0 })
        } else {
            None
        },
        ResourceKind::StorageBuffer => if compute && res.storage_buffers {
            Some(DescriptorWrite { descriptor_type: DESCRIPTOR_STORAGE_BUFFER, buffer_range: STORAGE_BUFFER_RANGE })
        } else {
            None
        },
        ResourceKind::StorageImage => if compute && res.storage_images {
            Some(DescriptorWrite { descriptor_type: DESCRIPTOR_STORAGE_IMAGE, buffer_range: 0 })
        } else {
            None
        },
    }
}

/// The per-frame resource a frame uses: its own, or the last one when there are fewer.
pub fn frame_slot(frame: usize, count: usize) -> (r: usize)
    requires
        count > 0,
    ensures
        r == if frame < count {
            frame
        } else {
            (count - 1) as usize
        },
{
    if frame < count {
        frame
    } else {
        count - 1
    }
}

// ---------------------------------------------------------------------------
// Pipelines and command recording
// ---------------------------------------------------------------------------

/// A graphics pipeline can be made unless either shader path names a compute shader.
pub open spec fn spec_graphics_possible(vs: Seq<char>, fs: Seq<char>) -> bool {
    !(ends_with(lower_seq(vs), ".comp"@) || ends_with(lower_seq(fs), ".comp"@))
}

pub fn graphics_possible(vs: &str, fs: &str) -> (r: bool)
    ensures
        r == spec_graphics_possible(vs@, fs@),
{
    let v = chars_of(vs);
    let f = chars_of(fs);
    let lv = lowered(v.as_slice());
    let lf = lowered(f.as_slice());
    !(has_suffix(lv.as_slice(), ".comp") || has_suffix(lf.as_slice(), ".comp"))
}

/// The work groups a compute pass dispatches: its own counts, each at least one, or one
/// group when it has none.
pub open spec fn spec_dispatch_groups(d: Option<(u32, u32, u32)>) -> (u32, u32, u32) {
    match d {
        Some((x, y, z)) => (
            if x == 0 {
                1
            } else {
                x
            },
            if y == 0 {
                1
            } else {
                y
            },
            if z == 0 {
                1
            } else {
                z
            },
        ),
        None => (1, 1, 1),
    }
}

pub fn dispatch_groups(d: Option<(u32, u32, u32)>) -> (r: (u32, u32, u32))
    ensures
        r == spec_dispatch_groups(d),
{
    match d {
        Some((x, y, z)) => (
            if x == 0 {
                1
            } else {
                x
            },
            if y == 0 {
                1
            } else {
                y
            },
            if z == 0 {
                1
            } else {
                z
            },
        ),
        None => (1, 1, 1),
    }
}

/// Whether the viewport and the scissor are set while recording: the options when
/// given, else whether the pipeline declares them dynamic.
pub open spec fn spec_dynamic_flags(viewport: Option<bool>, scissor: Option<bool>, states: Seq<i32>) -> (bool, bool) {
    (
        match viewport {
            Some(b) => b,
            None => states.contains(DYNAMIC_VIEWPORT),
        },
        match scissor {
            Some(b) => b,
            None => states.contains(DYNAMIC_SCISSOR),
        },
    )
}

fn has_state(states: &[i32], x: i32) -> (r: bool)
    ensures
        r == states@.contains(x),
{
    let mut i: usize = 0;
    while i < states.len()
        invariant
            i <= states@.len(),
            forall|j: int| 0 <= j < i ==> states@[j] != x,
        decreases states@.len() - i,
    {
        if states[i] == x {
            assert(states@[i as int] == x);
            return true;
        }
        i = i + 1;
    }
    false
}

pub fn dynamic_flags(viewport: Option<bool>, scissor: Option<bool>, states: &[i32]) -> (r: (bool, bool))
    ensures
        r == spec_dynamic_flags(viewport, scissor, states@),
{
    let v = match viewport {
        Some(b) => b,
        None => has_state(states, DYNAMIC_VIEWPORT),
    };
    let s = match scissor {
        Some(b) => b,
        None => has_state(states, DYNAMIC_SCISSOR),
    };
    (v, s)
}

/// The size of the placeholder vertex buffer: three vertices of the first buffer's
/// stride, or of 12 bytes when that is smaller or there is no buffer.
pub open spec fn spec_vertex_buffer_size(first_stride: Option<u32>) -> u64 {
    let s: u32 = match first_stride {
        Some(st) => st,
        None => 12,
    };
    ((if s < 12 {
        12
    } else {
        s
    }) * 3) as u64
}

pub fn vertex_buffer_size(first_stride: Option<u32>) -> (r: u64)
    ensures
        r == spec_vertex_buffer_size(first_stride),
{
    let s: u32 = match first_stride {
        Some(st) => st,
        None => 12,
    };
    let s = if s < 12 {
        12
    } else {
        s
    };
    s as u64 * 3
}

/// The clear values of a render pass: one color per offscreen target, or one for the
/// swapchain image, then the depth value.
pub fn clear_value_count(plan: &RenderPassPlan) -> (r: usize)
    requires
        plan.mrt_formats@.len() < usize::MAX,
    ensures
        r == if plan.use_mrt {
            plan.mrt_formats@.len() + 1
        } else {
            2
        },
{
    if plan.use_mrt {
        plan.mrt_formats.len() + 1
    } else {
        2
    }
}

/// The first memory type among `count` that `type_bits` allows and that has all of
/// `want`, else the first that has all of `fallback`.
pub fn memory_type_or(type_bits: u32, props: &Vec<u32>, count: u32, want: u32, fallback: u32) -> (r: Option<u32>)
    requires
        count <= 32,
        count <= props@.len(),
    ensures
        r == match first_memory_type(type_bits, props@, count as int, want) {
            Some(i) => Some(i),
            None => first_memory_type(type_bits, props@, count as int, fallback),
        },
{
    match find_memory_type(type_bits, props, count, want) {
        Some(i) => Some(i),
        None => find_memory_type(type_bits, props, count, fallback),
    }
}

/// How the first offscreen target was last written, before it is copied to the
/// swapchain image: its access mask, layout and pipeline stage. Compute shaders write
/// it in the general layout; otherwise it is a color attachment.
pub open spec fn spec_blit_source_sync(compute_only_present: bool) -> (u32, i32, u32) {
    if compute_only_present {
        (ACCESS_SHADER_WRITE, LAYOUT_GENERAL, STAGE_COMPUTE_SHADER)
    } else {
        (ACCESS_COLOR_ATTACHMENT_WRITE, LAYOUT_COLOR_ATTACHMENT_OPTIMAL, STAGE_COLOR_ATTACHMENT_OUTPUT)
    }
}

pub fn blit_source_sync(compute_only_present: bool) -> (r: (u32, i32, u32))
    ensures
        r == spec_blit_source_sync(compute_only_present),
{
    if compute_only_present {
        (ACCESS_SHADER_WRITE, LAYOUT_GENERAL, STAGE_COMPUTE_SHADER)
    } else {
        (ACCESS_COLOR_ATTACHMENT_WRITE, LAYOUT_COLOR_ATTACHMENT_OPTIMAL, STAGE_COLOR_ATTACHMENT_OUTPUT)
    }
}

} // verus!
