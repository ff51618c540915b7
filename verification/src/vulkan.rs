//! What the Vulkan backend decides from the engine's descriptions, as plain Vulkan codes:
//! format names, shader stage masks, raster, blend, depth and dynamic state, descriptor
//! layouts, and the swapchain and adapter choices made against what the driver reports.
//!
//! Codes are the raw values of the Vulkan enums and flag bits (`VkFormat`,
//! `VkShaderStageFlagBits`, `VkPresentModeKHR`, ...); the backend turns them into `ash`
//! values with `from_raw`.
use vstd::prelude::*;
use crate::pipeline::{
    ColorTargetDesc, CompareOp, CullMode, DepthState, DynamicStateDesc, FrontFace, PipelineDesc, PolygonMode,
    PushConstantRange, RasterState, Topology,
};
use crate::resources::{BindingDesc, BindingStages, ResourceKind, spec_size_from_format};
use crate::engine::BackendOptions;
use crate::text::{chars_of, eq_lit, lower_eq_lit, lower_seq, upper_seq, upper_eq};

verus! {

// ---------------------------------------------------------------------------
// Vulkan codes
// ---------------------------------------------------------------------------

pub const FORMAT_R8G8B8A8_UNORM: i32 = 37;
pub const FORMAT_R8G8B8A8_SRGB: i32 = 43;
pub const FORMAT_B8G8R8A8_UNORM: i32 = 44;
pub const FORMAT_B8G8R8A8_SRGB: i32 = 50;
pub const FORMAT_A2B10G10R10_UNORM_PACK32: i32 = 64;
pub const FORMAT_R16_SFLOAT: i32 = 76;
pub const FORMAT_R16G16_SFLOAT: i32 = 83;
pub const FORMAT_R16G16B16A16_UNORM: i32 = 91;
pub const FORMAT_R16G16B16A16_SFLOAT: i32 = 97;
pub const FORMAT_R32_UINT: i32 = 98;
pub const FORMAT_R32_SINT: i32 = 99;
pub const FORMAT_R32_SFLOAT: i32 = 100;
pub const FORMAT_R32G32_SFLOAT: i32 = 103;
pub const FORMAT_R32G32B32_SFLOAT: i32 = 106;
pub const FORMAT_R32G32B32A32_SFLOAT: i32 = 109;
pub const FORMAT_D16_UNORM: i32 = 124;
pub const FORMAT_D32_SFLOAT: i32 = 126;
pub const FORMAT_D24_UNORM_S8_UINT: i32 = 129;
pub const FORMAT_D32_SFLOAT_S8_UINT: i32 = 130;

pub const COLOR_SPACE_SRGB_NONLINEAR: i32 = 0;

pub const PRESENT_MODE_IMMEDIATE: i32 = 0;
pub const PRESENT_MODE_MAILBOX: i32 = 1;
pub const PRESENT_MODE_FIFO: i32 = 2;
pub const PRESENT_MODE_FIFO_RELAXED: i32 = 3;

pub const STAGE_VERTEX: u32 = 1;
pub const STAGE_FRAGMENT: u32 = 16;
pub const STAGE_COMPUTE: u32 = 32;

pub const POLYGON_FILL: i32 = 0;
pub const POLYGON_LINE: i32 = 1;
pub const CULL_NONE: u32 = 0;
pub const CULL_FRONT: u32 = 1;
pub const CULL_BACK: u32 = 2;
pub const FRONT_FACE_COUNTER_CLOCKWISE: i32 = 0;
pub const FRONT_FACE_CLOCKWISE: i32 = 1;

pub const DYNAMIC_VIEWPORT: i32 = 0;
pub const DYNAMIC_SCISSOR: i32 = 1;

pub const DESCRIPTOR_SAMPLER: i32 = 0;
pub const DESCRIPTOR_COMBINED_IMAGE_SAMPLER: i32 = 1;
pub const DESCRIPTOR_SAMPLED_IMAGE: i32 = 2;
pub const DESCRIPTOR_STORAGE_IMAGE: i32 = 3;
pub const DESCRIPTOR_UNIFORM_BUFFER: i32 = 6;
pub const DESCRIPTOR_STORAGE_BUFFER: i32 = 7;

// ---------------------------------------------------------------------------
// Format names
// ---------------------------------------------------------------------------

/// The color format a lower-cased name denotes.
pub open spec fn spec_color_format(l: Seq<char>) -> Option<i32> {
    if l == "rgba8_unorm"@ || l == "r8g8b8a8_unorm"@ {
        Some(FORMAT_R8G8B8A8_UNORM)
    } else if l == "rgba8_srgb"@ || l == "r8g8b8a8_srgb"@ {
        Some(FORMAT_R8G8B8A8_SRGB)
    } else if l == "bgra8_unorm"@ || l == "b8g8r8a8_unorm"@ {
        Some(FORMAT_B8G8R8A8_UNORM)
    } else if l == "bgra8_srgb"@ || l == "b8g8r8a8_srgb"@ {
        Some(FORMAT_B8G8R8A8_SRGB)
    } else if l == "rgb10a2_unorm"@ || l == "a2b10g10r10_unorm"@ {
        Some(FORMAT_A2B10G10R10_UNORM_PACK32)
    } else if l == "rgba16_unorm"@ || l == "r16g16b16a16_unorm"@ {
        Some(FORMAT_R16G16B16A16_UNORM)
    } else if l == "rgba16f"@ || l == "r16g16b16a16_sfloat"@ {
        Some(FORMAT_R16G16B16A16_SFLOAT)
    } else if l == "rg16f"@ || l == "r16g16_sfloat"@ {
        Some(FORMAT_R16G16_SFLOAT)
    } else if l == "r16f"@ || l == "r16_sfloat"@ {
        Some(FORMAT_R16_SFLOAT)
    } else if l == "r32f"@ || l == "r32_sfloat"@ {
        Some(FORMAT_R32_SFLOAT)
    } else if l == "rg32f"@ || l == "r32g32_sfloat"@ {
        Some(FORMAT_R32G32_SFLOAT)
    } else if l == "rgb32f"@ || l == "r32g32b32_sfloat"@ {
        Some(FORMAT_R32G32B32_SFLOAT)
    } else if l == "rgba32f"@ || l == "r32g32b32a32_sfloat"@ {
        Some(FORMAT_R32G32B32A32_SFLOAT)
    } else {
        None
    }
}

/// The Vulkan color format a name denotes, case-insensitively (`rgba8_unorm`,
/// `B8G8R8A8_SRGB`, `rgba16f`, ..).
pub fn parse_color_format(s: &str) -> (r: Option<i32>)
    ensures
        r == spec_color_format(lower_seq(s@)),
{
    let c = chars_of(s);
    let c = c.as_slice();
    if lower_eq_lit(c, "rgba8_unorm") || lower_eq_lit(c, "r8g8b8a8_unorm") {
        Some(FORMAT_R8G8B8A8_UNORM)
    } else if lower_eq_lit(c, "rgba8_srgb") || lower_eq_lit(c, "r8g8b8a8_srgb") {
        Some(FORMAT_R8G8B8A8_SRGB)
    } else if lower_eq_lit(c, "bgra8_unorm") || lower_eq_lit(c, "b8g8r8a8_unorm") {
        Some(FORMAT_B8G8R8A8_UNORM)
    } else if lower_eq_lit(c, "bgra8_srgb") || lower_eq_lit(c, "b8g8r8a8_srgb") {
        Some(FORMAT_B8G8R8A8_SRGB)
    } else if lower_eq_lit(c, "rgb10a2_unorm") || lower_eq_lit(c, "a2b10g10r10_unorm") {
        Some(FORMAT_A2B10G10R10_UNORM_PACK32)
    } else if lower_eq_lit(c, "rgba16_unorm") || lower_eq_lit(c, "r16g16b16a16_unorm") {
        Some(FORMAT_R16G16B16A16_UNORM)
    } else if lower_eq_lit(c, "rgba16f") || lower_eq_lit(c, "r16g16b16a16_sfloat") {
        Some(FORMAT_R16G16B16A16_SFLOAT)
    } else if lower_eq_lit(c, "rg16f") || lower_eq_lit(c, "r16g16_sfloat") {
        Some(FORMAT_R16G16_SFLOAT)
    } else if lower_eq_lit(c, "r16f") || lower_eq_lit(c, "r16_sfloat") {
        Some(FORMAT_R16_SFLOAT)
    } else if lower_eq_lit(c, "r32f") || lower_eq_lit(c, "r32_sfloat") {
        Some(FORMAT_R32_SFLOAT)
    } else if lower_eq_lit(c, "rg32f") || lower_eq_lit(c, "r32g32_sfloat") {
        Some(FORMAT_R32G32_SFLOAT)
    } else if lower_eq_lit(c, "rgb32f") || lower_eq_lit(c, "r32g32b32_sfloat") {
        Some(FORMAT_R32G32B32_SFLOAT)
    } else if lower_eq_lit(c, "rgba32f") || lower_eq_lit(c, "r32g32b32a32_sfloat") {
        Some(FORMAT_R32G32B32A32_SFLOAT)
    } else {
        None
    }
}

/// The depth format a name denotes (upper or lower case, exactly).
pub open spec fn spec_depth_format(s: Seq<char>) -> Option<i32> {
    if s == "D32_SFLOAT"@ || s == "d32_sfloat"@ {
        Some(FORMAT_D32_SFLOAT)
    } else if s == "D24_UNORM_S8_UINT"@ || s == "d24_unorm_s8_uint"@ {
        Some(FORMAT_D24_UNORM_S8_UINT)
    } else if s == "D32_SFLOAT_S8_UINT"@ || s == "d32_sfloat_s8_uint"@ {
        Some(FORMAT_D32_SFLOAT_S8_UINT)
    } else if s == "D16_UNORM"@ || s == "d16_unorm"@ {
        Some(FORMAT_D16_UNORM)
    } else {
        None
    }
}

/// The Vulkan depth format a name denotes.
pub fn parse_depth_format(s: &str) -> (r: Option<i32>)
    ensures
        r == spec_depth_format(s@),
{
    let c = chars_of(s);
    let c = c.as_slice();
    if eq_lit(c, "D32_SFLOAT") || eq_lit(c, "d32_sfloat") {
        Some(FORMAT_D32_SFLOAT)
    } else if eq_lit(c, "D24_UNORM_S8_UINT") || eq_lit(c, "d24_unorm_s8_uint") {
        Some(FORMAT_D24_UNORM_S8_UINT)
    } else if eq_lit(c, "D32_SFLOAT_S8_UINT") || eq_lit(c, "d32_sfloat_s8_uint") {
        Some(FORMAT_D32_SFLOAT_S8_UINT)
    } else if eq_lit(c, "D16_UNORM") || eq_lit(c, "d16_unorm") {
        Some(FORMAT_D16_UNORM)
    } else {
        None
    }
}

/// The Vulkan format of a vertex attribute format name; unknown names read as four
/// 32-bit floats.
pub open spec fn spec_vertex_format(s: Seq<char>) -> i32 {
    if s == "f32"@ {
        FORMAT_R32_SFLOAT
    } else if s == "i32"@ {
        FORMAT_R32_SINT
    } else if s == "u32"@ {
        FORMAT_R32_UINT
    } else if s == "vec2"@ {
        FORMAT_R32G32_SFLOAT
    } else if s == "vec3"@ {
        FORMAT_R32G32B32_SFLOAT
    } else if s == "vec4"@ {
        FORMAT_R32G32B32A32_SFLOAT
    } else if s == "rgba8_unorm"@ || s == "r8g8b8a8_unorm"@ || s == "u8x4_norm"@ {
        FORMAT_R8G8B8A8_UNORM
    } else if s == "rgba8_srgb"@ || s == "r8g8b8a8_srgb"@ {
        FORMAT_R8G8B8A8_SRGB
    } else if s == "bgra8_unorm"@ || s == "b8g8r8a8_unorm"@ {
        FORMAT_B8G8R8A8_UNORM
    } else if s == "bgra8_srgb"@ || s == "b8g8r8a8_srgb"@ {
        FORMAT_B8G8R8A8_SRGB
    } else if s == "rgba16_unorm"@ || s == "r16g16b16a16_unorm"@ {
        FORMAT_R16G16B16A16_UNORM
    } else if s == "rgba16f"@ || s == "r16g16b16a16_sfloat"@ {
        FORMAT_R16G16B16A16_SFLOAT
    } else if s == "r16f"@ || s == "r16_sfloat"@ {
        FORMAT_R16_SFLOAT
    } else if s == "rg16f"@ || s == "r16g16_sfloat"@ {
        FORMAT_R16G16_SFLOAT
    } else if s == "r32f"@ || s == "r32_sfloat"@ {
        FORMAT_R32_SFLOAT
    } else if s == "rg32f"@ || s == "r32g32_sfloat"@ {
        FORMAT_R32G32_SFLOAT
    } else if s == "rgb32f"@ || s == "r32g32b32_sfloat"@ {
        FORMAT_R32G32B32_SFLOAT
    } else if s == "rgba32f"@ || s == "r32g32b32a32_sfloat"@ {
        FORMAT_R32G32B32A32_SFLOAT
    } else if s == "rgb10a2_unorm"@ || s == "a2b10g10r10_unorm"@ {
        FORMAT_A2B10G10R10_UNORM_PACK32
    } else {
        FORMAT_R32G32B32A32_SFLOAT
    }
}

/// The size in bytes of one element of a Vulkan vertex format, from its components:
/// four 8-bit components, or one packed 32-bit word, take 4 bytes; 16-bit components 2
/// bytes each; 32-bit components 4 bytes each.
pub open spec fn vk_format_bytes(code: i32) -> nat {
    if code == FORMAT_R8G8B8A8_UNORM || code == FORMAT_R8G8B8A8_SRGB || code == FORMAT_B8G8R8A8_UNORM
        || code == FORMAT_B8G8R8A8_SRGB || code == FORMAT_A2B10G10R10_UNORM_PACK32 {
        4
    } else if code == FORMAT_R16_SFLOAT {
        2
    } else if code == FORMAT_R16G16_SFLOAT {
        2 * 2
    } else if code == FORMAT_R16G16B16A16_UNORM || code == FORMAT_R16G16B16A16_SFLOAT {
        4 * 2
    } else if code == FORMAT_R32_UINT || code == FORMAT_R32_SINT || code == FORMAT_R32_SFLOAT {
        4
    } else if code == FORMAT_R32G32_SFLOAT {
        2 * 4
    } else if code == FORMAT_R32G32B32_SFLOAT {
        3 * 4
    } else if code == FORMAT_R32G32B32A32_SFLOAT {
        4 * 4
    } else {
        0
    }
}

/// The size an attribute format is given is the size of the Vulkan vertex format it is
/// bound with; a `mat4` takes four `vec4` columns.
pub proof fn law_attr_size_is_vertex_format_size(fmt: Seq<char>)
    ensures
        spec_size_from_format(fmt) matches Some(n) ==> if fmt == "mat4"@ {
            n == 4 * vk_format_bytes(FORMAT_R32G32B32A32_SFLOAT)
        } else {
            n == vk_format_bytes(spec_vertex_format(fmt))
        },
{
    reveal_strlit("f32");
    reveal_strlit("i32");
    reveal_strlit("u32");
    reveal_strlit("vec2");
    reveal_strlit("vec3");
    reveal_strlit("vec4");
    reveal_strlit("rgba8_unorm");
    reveal_strlit("r8g8b8a8_unorm");
    reveal_strlit("u8x4_norm");
    reveal_strlit("mat4");
    assert(spec_vertex_format("f32"@) == FORMAT_R32_SFLOAT);
    assert("u32"@[0] != "f32"@[0] && "u32"@[0] != "i32"@[0] && "i32"@[0] != "f32"@[0]);
    assert("u32"@ != "f32"@ && "u32"@ != "i32"@ && "i32"@ != "f32"@);
    assert(spec_vertex_format("u32"@) == FORMAT_R32_UINT);
    assert(spec_vertex_format("i32"@) == FORMAT_R32_SINT);
    assert(spec_vertex_format("vec2"@) == FORMAT_R32G32_SFLOAT);
    assert("vec3"@[3] != "vec2"@[3] && "vec4"@[3] != "vec2"@[3] && "vec4"@[3] != "vec3"@[3]);
    assert("vec3"@ != "vec2"@ && "vec4"@ != "vec2"@ && "vec4"@ != "vec3"@);
    assert(spec_vertex_format("vec3"@) == FORMAT_R32G32B32_SFLOAT);
    assert(spec_vertex_format("vec4"@) == FORMAT_R32G32B32A32_SFLOAT);
    assert(spec_vertex_format("rgba8_unorm"@) == FORMAT_R8G8B8A8_UNORM);
    assert("u8x4_norm"@.len() == 9 && "rgba8_unorm"@.len() == 11 && "r8g8b8a8_unorm"@.len() == 14);
    assert("u8x4_norm"@ != "rgba8_unorm"@ && "u8x4_norm"@ != "r8g8b8a8_unorm"@);
    assert(spec_vertex_format("u8x4_norm"@) == FORMAT_R8G8B8A8_UNORM);
    assert("mat4"@[0] != "vec2"@[0]);
    assert("mat4"@ != "vec2"@ && "mat4"@ != "vec3"@ && "mat4"@ != "vec4"@);
    assert("mat4"@.len() != "f32"@.len() && "mat4"@.len() != "rgba8_unorm"@.len() && "mat4"@.len() != "u8x4_norm"@.len());
}

/// The Vulkan format of a vertex attribute.
pub fn vertex_format(s: &str) -> (r: i32)
    ensures
        r == spec_vertex_format(s@),
{
    let c = chars_of(s);
    let c = c.as_slice();
    if eq_lit(c, "f32") {
        FORMAT_R32_SFLOAT
    } else if eq_lit(c, "i32") {
        FORMAT_R32_SINT
    } else if eq_lit(c, "u32") {
        FORMAT_R32_UINT
    } else if eq_lit(c, "vec2") {
        FORMAT_R32G32_SFLOAT
    } else if eq_lit(c, "vec3") {
        FORMAT_R32G32B32_SFLOAT
    } else if eq_lit(c, "vec4") {
        FORMAT_R32G32B32A32_SFLOAT
    } else if eq_lit(c, "rgba8_unorm") || eq_lit(c, "r8g8b8a8_unorm") || eq_lit(c, "u8x4_norm") {
        FORMAT_R8G8B8A8_UNORM
    } else if eq_lit(c, "rgba8_srgb") || eq_lit(c, "r8g8b8a8_srgb") {
        FORMAT_R8G8B8A8_SRGB
    } else if eq_lit(c, "bgra8_unorm") || eq_lit(c, "b8g8r8a8_unorm") {
        FORMAT_B8G8R8A8_UNORM
    } else if eq_lit(c, "bgra8_srgb") || eq_lit(c, "b8g8r8a8_srgb") {
        FORMAT_B8G8R8A8_SRGB
    } else if eq_lit(c, "rgba16_unorm") || eq_lit(c, "r16g16b16a16_unorm") {
        FORMAT_R16G16B16A16_UNORM
    } else if eq_lit(c, "rgba16f") || eq_lit(c, "r16g16b16a16_sfloat") {
        FORMAT_R16G16B16A16_SFLOAT
    } else if eq_lit(c, "r16f") || eq_lit(c, "r16_sfloat") {
        FORMAT_R16_SFLOAT
    } else if eq_lit(c, "rg16f") || eq_lit(c, "r16g16_sfloat") {
        FORMAT_R16G16_SFLOAT
    } else if eq_lit(c, "r32f") || eq_lit(c, "r32_sfloat") {
        FORMAT_R32_SFLOAT
    } else if eq_lit(c, "rg32f") || eq_lit(c, "r32g32_sfloat") {
        FORMAT_R32G32_SFLOAT
    } else if eq_lit(c, "rgb32f") || eq_lit(c, "r32g32b32_sfloat") {
        FORMAT_R32G32B32_SFLOAT
    } else if eq_lit(c, "rgba32f") || eq_lit(c, "r32g32b32a32_sfloat") {
        FORMAT_R32G32B32A32_SFLOAT
    } else if eq_lit(c, "rgb10a2_unorm") || eq_lit(c, "a2b10g10r10_unorm") {
        FORMAT_A2B10G10R10_UNORM_PACK32
    } else {
        FORMAT_R32G32B32A32_SFLOAT
    }
}

// ---------------------------------------------------------------------------
// Stages, raster, blend, depth, dynamic state
// ---------------------------------------------------------------------------

/// The stage mask of the flags `vs`, `fs`, `cs`; no stage at all means vertex and
/// fragment.
pub open spec fn stage_bits(vs: bool, fs: bool, cs: bool) -> u32 {
    if !vs && !fs && !cs {
        (STAGE_VERTEX + STAGE_FRAGMENT) as u32
    } else {
        ((if vs { STAGE_VERTEX } else { 0 }) + (if fs { STAGE_FRAGMENT } else { 0 }) + (if cs {
            STAGE_COMPUTE
        } else {
            0
        })) as u32
    }
}

fn stage_bits_exec(vs: bool, fs: bool, cs: bool) -> (r: u32)
    ensures
        r == stage_bits(vs, fs, cs),
{
    let mut f: u32 = 0;
    if vs {
        f = f + STAGE_VERTEX;
    }
    if fs {
        f = f + STAGE_FRAGMENT;
    }
    if cs {
        f = f + STAGE_COMPUTE;
    }
    if f == 0 {
        STAGE_VERTEX + STAGE_FRAGMENT
    } else {
        f
    }
}

/// The shader stages a binding is visible in; none given means vertex and fragment.
pub fn binding_stage_flags(st: &Option<BindingStages>) -> (r: u32)
    ensures
        r == (match st {
            Some(s) => stage_bits(s.vs, s.fs, s.cs),
            None => (STAGE_VERTEX + STAGE_FRAGMENT) as u32,
        }),
{
    match st {
        Some(s) => stage_bits_exec(s.vs, s.fs, s.cs),
        None => STAGE_VERTEX + STAGE_FRAGMENT,
    }
}

/// The descriptor type of a resource kind.
pub open spec fn spec_descriptor_type(k: ResourceKind) -> i32 {
    match k {
        ResourceKind::Uniform => DESCRIPTOR_UNIFORM_BUFFER,
        ResourceKind::Texture => DESCRIPTOR_SAMPLED_IMAGE,
        ResourceKind::Sampler => DESCRIPTOR_SAMPLER,
        ResourceKind::CombinedImageSampler => DESCRIPTOR_COMBINED_IMAGE_SAMPLER,
        ResourceKind::StorageBuffer => DESCRIPTOR_STORAGE_BUFFER,
        ResourceKind::StorageImage => DESCRIPTOR_STORAGE_IMAGE,
    }
}

pub fn descriptor_type(k: &ResourceKind) -> (r: i32)
    ensures
        r == spec_descriptor_type(*k),
{
    match k {
        ResourceKind::Uniform => DESCRIPTOR_UNIFORM_BUFFER,
        ResourceKind::Texture => DESCRIPTOR_SAMPLED_IMAGE,
        ResourceKind::Sampler => DESCRIPTOR_SAMPLER,
        ResourceKind::CombinedImageSampler => DESCRIPTOR_COMBINED_IMAGE_SAMPLER,
        ResourceKind::StorageBuffer => DESCRIPTOR_STORAGE_BUFFER,
        ResourceKind::StorageImage => DESCRIPTOR_STORAGE_IMAGE,
    }
}

/// Polygon mode, cull mode and front face of a raster state; without one, filled,
/// back faces culled, clockwise.
pub open spec fn spec_raster_codes(r: Option<RasterState>) -> (i32, u32, i32) {
    match r {
        None => (POLYGON_FILL, CULL_BACK, FRONT_FACE_CLOCKWISE),
        Some(rs) => (
            match rs.polygon {
                PolygonMode::Fill => POLYGON_FILL,
                PolygonMode::Line => POLYGON_LINE,
            },
            match rs.cull {
                CullMode::Disabled => CULL_NONE,
                CullMode::Front => CULL_FRONT,
                CullMode::Back => CULL_BACK,
            },
            match rs.front_face {
                FrontFace::Cw => FRONT_FACE_CLOCKWISE,
                FrontFace::Ccw => FRONT_FACE_COUNTER_CLOCKWISE,
            },
        ),
    }
}

pub fn raster_codes(desc: &PipelineDesc) -> (r: (i32, u32, i32))
    ensures
        r == spec_raster_codes(desc.raster),
{
    match &desc.raster {
        None => (POLYGON_FILL, CULL_BACK, FRONT_FACE_CLOCKWISE),
        Some(rs) => {
            let p = match rs.polygon {
                PolygonMode::Fill => POLYGON_FILL,
                PolygonMode::Line => POLYGON_LINE,
            };
            let c = match rs.cull {
                CullMode::Disabled => CULL_NONE,
                CullMode::Front => CULL_FRONT,
                CullMode::Back => CULL_BACK,
            };
            let f = match rs.front_face {
                FrontFace::Cw => FRONT_FACE_CLOCKWISE,
                FrontFace::Ccw => FRONT_FACE_COUNTER_CLOCKWISE,
            };
            (p, c, f)
        },
    }
}

/// The sample count bit of a pipeline: 1, 2, 4 or 8 samples; anything else, or none
/// given, one sample.
pub open spec fn spec_sample_bits(samples: Option<u32>) -> u32 {
    match samples {
        Some(2) => 2,
        Some(4) => 4,
        Some(8) => 8,
        _ => 1,
    }
}

pub fn sample_bits(desc: &PipelineDesc) -> (r: u32)
    ensures
        r == spec_sample_bits(desc.samples),
{
    match desc.samples {
        Some(2) => 2,
        Some(4) => 4,
        Some(8) => 8,
        _ => 1,
    }
}

/// The Vulkan compare operation code.
pub open spec fn spec_compare_code(c: CompareOp) -> i32 {
    match c {
        CompareOp::Never => 0,
        CompareOp::Less => 1,
        CompareOp::Equal => 2,
        CompareOp::LessOrEqual => 3,
        CompareOp::Greater => 4,
        CompareOp::NotEqual => 5,
        CompareOp::GreaterOrEqual => 6,
        CompareOp::Always => 7,
    }
}

/// Whether a fragment whose depth is `new` passes a depth test with comparison `c`
/// against the stored depth `stored`, as each comparison's name says.
pub open spec fn compare_passes(c: CompareOp, new: int, stored: int) -> bool {
    match c {
        CompareOp::Never => false,
        CompareOp::Less => new < stored,
        CompareOp::Equal => new == stored,
        CompareOp::LessOrEqual => new <= stored,
        CompareOp::Greater => new > stored,
        CompareOp::NotEqual => new != stored,
        CompareOp::GreaterOrEqual => new >= stored,
        CompareOp::Always => true,
    }
}

/// How Vulkan reads a `VkCompareOp` value: its bit 0 passes fragments nearer than the
/// stored depth (`new < stored`), bit 1 those at equal depth, bit 2 those farther; no other
/// bit is set.
pub open spec fn vk_compare_passes(code: int, new: int, stored: int) -> bool {
    if new < stored {
        code % 2 == 1
    } else if new == stored {
        (code / 2) % 2 == 1
    } else {
        (code / 4) % 2 == 1
    }
}

/// The compare code of a pipeline's depth state is the `VkCompareOp` that passes
/// exactly the fragments the depth state's comparison passes, for every pair of depths.
pub proof fn law_depth_compare_code_is_vulkan(ds: DepthState, new: int, stored: int)
    ensures
        0 <= spec_depth_codes(Some(ds)).2 < 8,
        compare_passes(ds.compare, new, stored) <==> vk_compare_passes(
            spec_depth_codes(Some(ds)).2 as int,
            new,
            stored,
        ),
{
}

/// Depth test enable, depth write enable and compare operation of a pipeline; without
/// a depth state, neither test nor write (the compare operation is then `Never`).
pub open spec fn spec_depth_codes(d: Option<DepthState>) -> (bool, bool, i32) {
    match d {
        Some(ds) => (ds.test, ds.write, spec_compare_code(ds.compare)),
        None => (false, false, 0),
    }
}

pub fn depth_codes(desc: &PipelineDesc) -> (r: (bool, bool, i32))
    ensures
        r == spec_depth_codes(desc.depth_stencil),
{
    match &desc.depth_stencil {
        Some(ds) => {
            let c: i32 = match ds.compare {
                CompareOp::Never => 0,
                CompareOp::Less => 1,
                CompareOp::Equal => 2,
                CompareOp::LessOrEqual => 3,
                CompareOp::Greater => 4,
                CompareOp::NotEqual => 5,
                CompareOp::GreaterOrEqual => 6,
                CompareOp::Always => 7,
            };
            (ds.test, ds.write, c)
        },
        None => (false, false, 0),
    }
}

/// The dynamic states of a pipeline: viewport, then scissor, those enabled.
pub open spec fn spec_dynamic_codes(d: Option<DynamicStateDesc>) -> Seq<i32> {
    match d {
        Some(dy) => (if dy.viewport { seq![DYNAMIC_VIEWPORT] } else { Seq::empty() }) + (if dy.scissor {
            seq![DYNAMIC_SCISSOR]
        } else {
            Seq::empty()
        }),
        None => Seq::empty(),
    }
}

pub fn dynamic_codes(desc: &PipelineDesc) -> (r: Vec<i32>)
    ensures
        r@ == spec_dynamic_codes(desc.dynamic),
{
    let mut v: Vec<i32> = Vec::new();
    match &desc.dynamic {
        Some(d) => {
            if d.viewport {
                v.push(DYNAMIC_VIEWPORT);
            }
            if d.scissor {
                v.push(DYNAMIC_SCISSOR);
            }
            assert(v@ =~= spec_dynamic_codes(desc.dynamic));
        },
        None => {
            assert(v@ =~= spec_dynamic_codes(desc.dynamic));
        },
    }
    v
}

pub const TOPOLOGY_POINT_LIST: i32 = 0;
pub const TOPOLOGY_LINE_LIST: i32 = 1;
pub const TOPOLOGY_TRIANGLE_LIST: i32 = 3;

/// The Vulkan primitive topology of a pipeline's topology.
pub open spec fn spec_topology_code(t: Topology) -> i32 {
    match t {
        Topology::TriangleList => TOPOLOGY_TRIANGLE_LIST,
        Topology::LineList => TOPOLOGY_LINE_LIST,
        Topology::PointList => TOPOLOGY_POINT_LIST,
    }
}

pub fn topology_code(t: &Topology) -> (r: i32)
    ensures
        r == spec_topology_code(*t),
{
    match t {
        Topology::TriangleList => TOPOLOGY_TRIANGLE_LIST,
        Topology::LineList => TOPOLOGY_LINE_LIST,
        Topology::PointList => TOPOLOGY_POINT_LIST,
    }
}

/// The push constant range of a pipeline as (stage mask, size), at offset 0.
pub open spec fn spec_push_constant(p: Option<PushConstantRange>) -> Option<(u32, u32)> {
    match p {
        Some(pc) => Some(
            (
                match pc.stages {
                    Some(m) => stage_bits(m.vs, m.fs, m.cs),
                    None => (STAGE_VERTEX + STAGE_FRAGMENT) as u32,
                },
                pc.size,
            ),
        ),
        None => None,
    }
}

pub fn push_constant_range(desc: &PipelineDesc) -> (r: Option<(u32, u32)>)
    ensures
        r == spec_push_constant(desc.push_constants),
{
    match &desc.push_constants {
        Some(pc) => {
            let f = match &pc.stages {
                Some(m) => stage_bits_exec(m.vs, m.fs, m.cs),
                None => STAGE_VERTEX + STAGE_FRAGMENT,
            };
            Some((f, pc.size))
        },
        None => None,
    }
}

/// The push constant range of a compute pipeline as (stage mask, size), at offset 0:
/// the stages given, or the compute stage.
pub open spec fn spec_compute_push_constant(p: Option<PushConstantRange>) -> Option<(u32, u32)> {
    match p {
        Some(pc) => Some(
            (
                match pc.stages {
                    Some(m) => stage_bits(m.vs, m.fs, m.cs),
                    None => STAGE_COMPUTE,
                },
                pc.size,
            ),
        ),
        None => None,
    }
}

pub fn compute_push_constant_range(p: &Option<PushConstantRange>) -> (r: Option<(u32, u32)>)
    ensures
        r == spec_compute_push_constant(*p),
{
    match p {
        Some(pc) => {
            let f = match &pc.stages {
                Some(m) => stage_bits_exec(m.vs, m.fs, m.cs),
                None => STAGE_COMPUTE,
            };
            Some((f, pc.size))
        },
        None => None,
    }
}

/// Whether blending is on for the pipeline as a whole (off when not given).
pub open spec fn pipeline_blend(desc: PipelineDesc) -> bool {
    match desc.blend {
        Some(b) => b.enable,
        None => false,
    }
}

/// The blend enables of a pipeline's color attachments: one per color target, each its
/// own setting or else the pipeline's; with no color targets, one attachment with the
/// pipeline's setting.
pub open spec fn spec_blend_enables(desc: PipelineDesc, targets: Seq<ColorTargetDesc>) -> Seq<bool> {
    if targets.len() == 0 {
        seq![pipeline_blend(desc)]
    } else {
        targets.map_values(
            |c: ColorTargetDesc|
                match c.blend {
                    Some(b) => b,
                    None => pipeline_blend(desc),
                },
        )
    }
}

pub fn blend_enables(desc: &PipelineDesc) -> (r: Vec<bool>)
    ensures
        r@ == spec_blend_enables(
            *desc,
            match desc.color_targets {
                Some(t) => t@,
                None => Seq::empty(),
            },
        ),
{
    let whole = match &desc.blend {
        Some(b) => b.enable,
        None => false,
    };
    let mut v: Vec<bool> = Vec::new();
    match desc.color_targets {
        Some(t) => {
            if t.len() > 0 {
                let mut i: usize = 0;
                while i < t.len()
                    invariant
                        i <= t@.len(),
                        whole == pipeline_blend(*desc),
                        v@ =~= spec_blend_enables(*desc, t@).take(i as int),
                        t@.len() > 0,
                    decreases t@.len() - i,
                {
                    let e = match t[i].blend {
                        Some(b) => b,
                        None => whole,
                    };
                    v.push(e);
                    assert(spec_blend_enables(*desc, t@).take(i + 1) =~= spec_blend_enables(*desc, t@).take(
                        i as int,
                    ).push(e));
                    i = i + 1;
                }
                assert(spec_blend_enables(*desc, t@).take(t@.len() as int) =~= spec_blend_enables(*desc, t@));
                return v;
            }
        },
        None => {},
    }
    v.push(whole);
    assert(v@ =~= seq![whole]);
    v
}

// ---------------------------------------------------------------------------
// Errors
// ---------------------------------------------------------------------------

#[derive(Debug)]
pub enum VkError {
    General(String),
}

/// An error carrying `msg`.
pub fn general_error(msg: &str) -> (r: VkError)
    ensures
        r matches VkError::General(m) && m@ == msg@,
{
    let cs = chars_of(msg);
    VkError::General(crate::text::string_of(cs.as_slice()))
}

// ---------------------------------------------------------------------------
// Adapters and queue families
// ---------------------------------------------------------------------------

pub const DEVICE_TYPE_INTEGRATED_GPU: i32 = 1;
pub const DEVICE_TYPE_DISCRETE_GPU: i32 = 2;
pub const DEVICE_TYPE_VIRTUAL_GPU: i32 = 3;
pub const DEVICE_TYPE_CPU: i32 = 4;

/// The device type an adapter preference names, case-insensitively.
pub open spec fn spec_preferred_type(l: Seq<char>) -> Option<i32> {
    if l == "discrete"@ {
        Some(DEVICE_TYPE_DISCRETE_GPU)
    } else if l == "integrated"@ {
        Some(DEVICE_TYPE_INTEGRATED_GPU)
    } else if l == "virtual"@ {
        Some(DEVICE_TYPE_VIRTUAL_GPU)
    } else if l == "cpu"@ {
        Some(DEVICE_TYPE_CPU)
    } else {
        None
    }
}

pub fn preferred_type(pref: &str) -> (r: Option<i32>)
    ensures
        r == spec_preferred_type(lower_seq(pref@)),
{
    let c = chars_of(pref);
    let c = c.as_slice();
    if lower_eq_lit(c, "discrete") {
        Some(DEVICE_TYPE_DISCRETE_GPU)
    } else if lower_eq_lit(c, "integrated") {
        Some(DEVICE_TYPE_INTEGRATED_GPU)
    } else if lower_eq_lit(c, "virtual") {
        Some(DEVICE_TYPE_VIRTUAL_GPU)
    } else if lower_eq_lit(c, "cpu") {
        Some(DEVICE_TYPE_CPU)
    } else {
        None
    }
}

/// The positions among the first `m` adapters whose type is (`same`) or is not
/// (`!same`) `want`, ascending.
pub open spec fn indices_of_type(types: Seq<i32>, want: i32, same: bool, m: int) -> Seq<usize>
    decreases m,
{
    if m <= 0 {
        Seq::empty()
    } else if (types[m - 1] == want) == same {
        indices_of_type(types, want, same, m - 1).push((m - 1) as usize)
    } else {
        indices_of_type(types, want, same, m - 1)
    }
}

/// `0..n`.
pub open spec fn all_indices(n: int) -> Seq<usize> {
    Seq::new(n as nat, |i: int| i as usize)
}

/// The order in which adapters are tried: the one at `index` alone when it exists;
/// else, when the preference names a device type, the adapters of that type and then
/// the others, each in enumeration order; else all in enumeration order.
pub open spec fn spec_adapter_order(types: Seq<i32>, index: Option<usize>, pref: Option<Seq<char>>) -> Seq<usize> {
    if index matches Some(i) && i < types.len() {
        seq![index->Some_0]
    } else {
        match pref {
            Some(p) => match spec_preferred_type(lower_seq(p)) {
                Some(w) => indices_of_type(types, w, true, types.len() as int) + indices_of_type(
                    types,
                    w,
                    false,
                    types.len() as int,
                ),
                None => all_indices(types.len() as int),
            },
            None => all_indices(types.len() as int),
        }
    }
}

fn collect_of_type(types: &Vec<i32>, want: i32, same: bool, out: &mut Vec<usize>)
    ensures
        final(out)@ == old(out)@ + indices_of_type(types@, want, same, types@.len() as int),
{
    let ghost base = out@;
    let mut i: usize = 0;
    while i < types.len()
        invariant
            i <= types@.len(),
            out@ == base + indices_of_type(types@, want, same, i as int),
        decreases types@.len() - i,
    {
        if (types[i] == want) == same {
            out.push(i);
        }
        proof {
            assert(out@ =~= base + indices_of_type(types@, want, same, i + 1));
        }
        i = i + 1;
    }
}

/// Orders the adapters (given by their device types, in enumeration order) for trying.
pub fn adapter_order(types: &Vec<i32>, index: Option<usize>, pref: Option<&str>) -> (r: Vec<usize>)
    ensures
        r@ == spec_adapter_order(
            types@,
            index,
            match pref {
                Some(p) => Some(p@),
                None => None,
            },
        ),
{
    let n = types.len();
    let mut ordered: Vec<usize> = Vec::new();
    if let Some(idx) = index {
        if idx < n {
            ordered.push(idx);
            assert(ordered@ =~= seq![idx]);
            return ordered;
        }
    }
    if let Some(p) = pref {
        if let Some(want) = preferred_type(p) {
            collect_of_type(types, want, true, &mut ordered);
            collect_of_type(types, want, false, &mut ordered);
            assert(ordered@ =~= Seq::<usize>::empty() + indices_of_type(types@, want, true, n as int)
                + indices_of_type(types@, want, false, n as int));
            return ordered;
        }
    }
    let mut i: usize = 0;
    while i < n
        invariant
            i <= n,
            n == types@.len(),
            ordered@ == all_indices(i as int),
        decreases n - i,
    {
        ordered.push(i);
        assert(ordered@ =~= all_indices(i + 1));
        i = i + 1;
    }
    ordered
}

/// The first queue family that supports graphics and can present.
pub open spec fn first_usable_family(fams: Seq<(bool, bool)>, m: int) -> Option<int>
    decreases m,
{
    if m <= 0 {
        None
    } else {
        match first_usable_family(fams, m - 1) {
            Some(i) => Some(i),
            None => if fams[m - 1].0 && fams[m - 1].1 {
                Some(m - 1)
            } else {
                None
            },
        }
    }
}

/// The first adapter, in the order tried, with a usable queue family, and that family.
pub open spec fn spec_choose_queue(order: Seq<usize>, fams: Seq<Vec<(bool, bool)>>, k: int) -> Option<(usize, u32)>
    decreases k,
{
    if k <= 0 {
        None
    } else {
        match spec_choose_queue(order, fams, k - 1) {
            Some(c) => Some(c),
            None => {
                let d = order[k - 1];
                match first_usable_family(fams[d as int]@, fams[d as int]@.len() as int) {
                    Some(i) => Some((d, i as u32)),
                    None => None,
                }
            },
        }
    }
}

fn first_family(fams: &Vec<(bool, bool)>) -> (r: Option<usize>)
    ensures
        r matches Some(i) ==> first_usable_family(fams@, fams@.len() as int) == Some(i as int),
        r is None ==> first_usable_family(fams@, fams@.len() as int) is None,
{
    let mut i: usize = 0;
    while i < fams.len()
        invariant
            i <= fams@.len(),
            first_usable_family(fams@, i as int) is None,
        decreases fams@.len() - i,
    {
        if fams[i].0 && fams[i].1 {
            proof {
                lemma_first_family_stays(fams@, i + 1, fams@.len() as int);
            }
            return Some(i);
        }
        i = i + 1;
    }
    None
}

proof fn lemma_first_family_stays(fams: Seq<(bool, bool)>, k: int, m: int)
    requires
        0 <= k <= m,
        first_usable_family(fams, k) is Some,
    ensures
        first_usable_family(fams, m) == first_usable_family(fams, k),
    decreases m - k,
{
    if m > k {
        lemma_first_family_stays(fams, k, m - 1);
    }
}

proof fn lemma_choose_stays(order: Seq<usize>, fams: Seq<Vec<(bool, bool)>>, k: int, m: int)
    requires
        0 <= k <= m,
        spec_choose_queue(order, fams, k) is Some,
    ensures
        spec_choose_queue(order, fams, m) == spec_choose_queue(order, fams, k),
    decreases m - k,
{
    if m > k {
        lemma_choose_stays(order, fams, k, m - 1);
    }
}

/// Picks the adapter and queue family to use: the first adapter, in the order given,
/// with a queue family that supports graphics and presenting to the surface
/// (`fams[d][i]` says whether family `i` of adapter `d` does each).
pub fn choose_queue_family(order: &Vec<usize>, fams: &Vec<Vec<(bool, bool)>>) -> (r: Result<(usize, u32), VkError>)
    requires
        forall|k: int| 0 <= k < order@.len() ==> #[trigger] order@[k] < fams@.len(),
    ensures
        match spec_choose_queue(order@, fams@, order@.len() as int) {
            Some(c) => r matches Ok(x) && x == c,
            None => r matches Err(VkError::General(m)) && m@ == "no suitable queue family with graphics+present"@,
        },
{
    let mut k: usize = 0;
    while k < order.len()
        invariant
            k <= order@.len(),
            forall|k: int| 0 <= k < order@.len() ==> #[trigger] order@[k] < fams@.len(),
            spec_choose_queue(order@, fams@, k as int) is None,
        decreases order@.len() - k,
    {
        let d = order[k];
        match first_family(&fams[d]) {
            Some(i) => {
                proof {
                    assert(order@[k as int] == d);
                    assert(first_usable_family(fams@[d as int]@, fams@[d as int]@.len() as int) == Some(i as int));
                    assert(spec_choose_queue(order@, fams@, k + 1) == Some((d, (i as int) as u32)));
                    lemma_choose_stays(order@, fams@, k + 1, order@.len() as int);
                }
                return Ok((d, i as u32));
            },
            None => {},
        }
        k = k + 1;
    }
    Err(general_error("no suitable queue family with graphics+present"))
}

// ---------------------------------------------------------------------------
// Surface format
// ---------------------------------------------------------------------------

/// The format a `color_format` option requests.
pub open spec fn spec_requested_format(s: Seq<char>) -> Option<i32> {
    if s == "B8G8R8A8_SRGB"@ {
        Some(FORMAT_B8G8R8A8_SRGB)
    } else if s == "R8G8B8A8_UNORM"@ {
        Some(FORMAT_R8G8B8A8_UNORM)
    } else {
        None
    }
}

/// The color space a `color_space` option requests.
pub open spec fn spec_requested_space(s: Seq<char>) -> Option<i32> {
    if s == "SRGB_NONLINEAR"@ {
        Some(COLOR_SPACE_SRGB_NONLINEAR)
    } else {
        None
    }
}

pub open spec fn opt_text(s: Option<&'static str>) -> Option<Seq<char>> {
    match s {
        Some(t) => Some(t@),
        None => None,
    }
}

/// A surface format meets a request: the requested format and color space, where given.
pub open spec fn format_meets(f: (i32, i32), fmt: Option<i32>, cs: Option<i32>) -> bool {
    &&& (fmt matches Some(x) ==> f.0 == x)
    &&& (cs matches Some(y) ==> f.1 == y)
}

/// The first of the first `m` surface formats that meets a request.
pub open spec fn first_meeting(fs: Seq<(i32, i32)>, fmt: Option<i32>, cs: Option<i32>, m: int) -> Option<(i32, i32)>
    decreases m,
{
    if m <= 0 {
        None
    } else {
        match first_meeting(fs, fmt, cs, m - 1) {
            Some(f) => Some(f),
            None => if format_meets(fs[m - 1], fmt, cs) {
                Some(fs[m - 1])
            } else {
                None
            },
        }
    }
}

/// The surface format chosen: the first reported one that meets the requested format
/// and color space; else the first that is B8G8R8A8_SRGB in sRGB non-linear; else the
/// first reported; none when the surface reports no format.
pub open spec fn spec_surface_format(fs: Seq<(i32, i32)>, fmt: Option<Seq<char>>, cs: Option<Seq<char>>) -> Option<(i32, i32)> {
    let want_fmt = match fmt {
        Some(s) => spec_requested_format(s),
        None => None,
    };
    let want_cs = match cs {
        Some(s) => spec_requested_space(s),
        None => None,
    };
    match first_meeting(fs, want_fmt, want_cs, fs.len() as int) {
        Some(f) => Some(f),
        None => match first_meeting(fs, Some(FORMAT_B8G8R8A8_SRGB), Some(COLOR_SPACE_SRGB_NONLINEAR), fs.len() as int) {
            Some(f) => Some(f),
            None => if fs.len() > 0 {
                Some(fs[0])
            } else {
                None
            },
        },
    }
}

proof fn lemma_meeting_stays(fs: Seq<(i32, i32)>, fmt: Option<i32>, cs: Option<i32>, k: int, m: int)
    requires
        0 <= k <= m,
        first_meeting(fs, fmt, cs, k) is Some,
    ensures
        first_meeting(fs, fmt, cs, m) == first_meeting(fs, fmt, cs, k),
    decreases m - k,
{
    if m > k {
        lemma_meeting_stays(fs, fmt, cs, k, m - 1);
    }
}

fn find_meeting(fs: &Vec<(i32, i32)>, fmt: Option<i32>, cs: Option<i32>) -> (r: Option<(i32, i32)>)
    ensures
        r == first_meeting(fs@, fmt, cs, fs@.len() as int),
{
    let mut i: usize = 0;
    while i < fs.len()
        invariant
            i <= fs@.len(),
            first_meeting(fs@, fmt, cs, i as int) is None,
        decreases fs@.len() - i,
    {
        let f = fs[i];
        let fmt_ok = match fmt {
            Some(x) => f.0 == x,
            None => true,
        };
        let cs_ok = match cs {
            Some(y) => f.1 == y,
            None => true,
        };
        if fmt_ok && cs_ok {
            proof {
                lemma_meeting_stays(fs@, fmt, cs, i + 1, fs@.len() as int);
            }
            return Some(f);
        }
        i = i + 1;
    }
    None
}

/// Chooses the swapchain's (format, color space) among those the surface reports.
pub fn choose_surface_format(fs: &Vec<(i32, i32)>, options: &BackendOptions) -> (r: Result<(i32, i32), VkError>)
    ensures
        match spec_surface_format(fs@, opt_text(options.color_format), opt_text(options.color_space)) {
            Some(f) => r matches Ok(x) && x == f,
            None => r matches Err(VkError::General(m)) && m@ == "no surface formats"@,
        },
{
    let want_fmt = match options.color_format {
        Some(s) => {
            let c = chars_of(s);
            if eq_lit(c.as_slice(), "B8G8R8A8_SRGB") {
                Some(FORMAT_B8G8R8A8_SRGB)
            } else if eq_lit(c.as_slice(), "R8G8B8A8_UNORM") {
                Some(FORMAT_R8G8B8A8_UNORM)
            } else {
                None
            }
        },
        None => None,
    };
    let want_cs = match options.color_space {
        Some(s) => {
            let c = chars_of(s);
            if eq_lit(c.as_slice(), "SRGB_NONLINEAR") {
                Some(COLOR_SPACE_SRGB_NONLINEAR)
            } else {
                None
            }
        },
        None => None,
    };
    if let Some(f) = find_meeting(fs, want_fmt, want_cs) {
        return Ok(f);
    }
    if let Some(f) = find_meeting(fs, Some(FORMAT_B8G8R8A8_SRGB), Some(COLOR_SPACE_SRGB_NONLINEAR)) {
        return Ok(f);
    }
    if fs.len() > 0 {
        Ok(fs[0])
    } else {
        Err(general_error("no surface formats"))
    }
}

// ---------------------------------------------------------------------------
// Present mode
// ---------------------------------------------------------------------------

/// The present mode a name denotes, case-insensitively.
pub open spec fn spec_present_mode_name(u: Seq<char>) -> Option<i32> {
    if u == "MAILBOX"@ {
        Some(PRESENT_MODE_MAILBOX)
    } else if u == "FIFO"@ {
        Some(PRESENT_MODE_FIFO)
    } else if u == "IMMEDIATE"@ {
        Some(PRESENT_MODE_IMMEDIATE)
    } else if u == "FIFO_RELAXED"@ {
        Some(PRESENT_MODE_FIFO_RELAXED)
    } else {
        None
    }
}

pub fn present_mode_named(s: &str) -> (r: Option<i32>)
    ensures
        r == spec_present_mode_name(upper_seq(s@)),
{
    let c = chars_of(s);
    let c = c.as_slice();
    let m = chars_of("MAILBOX");
    let f = chars_of("FIFO");
    let im = chars_of("IMMEDIATE");
    let fr = chars_of("FIFO_RELAXED");
    if upper_eq(c, m.as_slice()) {
        Some(PRESENT_MODE_MAILBOX)
    } else if upper_eq(c, f.as_slice()) {
        Some(PRESENT_MODE_FIFO)
    } else if upper_eq(c, im.as_slice()) {
        Some(PRESENT_MODE_IMMEDIATE)
    } else if upper_eq(c, fr.as_slice()) {
        Some(PRESENT_MODE_FIFO_RELAXED)
    } else {
        None
    }
}

/// The first name among the first `m` of a priority list that denotes an available mode.
pub open spec fn first_available(names: Seq<&'static str>, avail: Seq<i32>, m: int) -> Option<i32>
    decreases m,
{
    if m <= 0 {
        None
    } else {
        match first_available(names, avail, m - 1) {
            Some(x) => Some(x),
            None => match spec_present_mode_name(upper_seq(names[m - 1]@)) {
                Some(pm) => if avail.contains(pm) {
                    Some(pm)
                } else {
                    None
                },
                None => None,
            },
        }
    }
}

/// The present mode chosen. With a priority list: its first available mode; when none
/// of its modes is available, MAILBOX if vsync is off and MAILBOX is available, else FIFO.
/// Without one: the requested mode (or FIFO with vsync, MAILBOX without) when available,
/// else MAILBOX when available, else FIFO.
pub open spec fn spec_present_mode(avail: Seq<i32>, options: BackendOptions, vsync: bool) -> i32 {
    match options.present_mode_priority {
        Some(list) => {
            match first_available(list@, avail, list@.len() as int) {
                Some(x) => x,
                None => if !vsync && avail.contains(PRESENT_MODE_MAILBOX) {
                    PRESENT_MODE_MAILBOX
                } else {
                    PRESENT_MODE_FIFO
                },
            }
        },
        None => {
            let desired = match options.present_mode {
                Some(s) => match spec_present_mode_name(upper_seq(s@)) {
                    Some(x) => x,
                    None => if vsync {
                        PRESENT_MODE_FIFO
                    } else {
                        PRESENT_MODE_MAILBOX
                    },
                },
                None => if vsync {
                    PRESENT_MODE_FIFO
                } else {
                    PRESENT_MODE_MAILBOX
                },
            };
            if avail.contains(desired) {
                desired
            } else if avail.contains(PRESENT_MODE_MAILBOX) {
                PRESENT_MODE_MAILBOX
            } else {
                PRESENT_MODE_FIFO
            }
        },
    }
}

fn contains_mode(avail: &Vec<i32>, m: i32) -> (r: bool)
    ensures
        r == avail@.contains(m),
{
    let mut i: usize = 0;
    while i < avail.len()
        invariant
            i <= avail@.len(),
            forall|j: int| 0 <= j < i ==> avail@[j] != m,
        decreases avail@.len() - i,
    {
        if avail[i] == m {
            assert(avail@[i as int] == m);
            return true;
        }
        i = i + 1;
    }
    false
}

proof fn lemma_available_stays(names: Seq<&'static str>, avail: Seq<i32>, k: int, m: int)
    requires
        0 <= k <= m,
        first_available(names, avail, k) is Some,
    ensures
        first_available(names, avail, m) == first_available(names, avail, k),
    decreases m - k,
{
    if m > k {
        lemma_available_stays(names, avail, k, m - 1);
    }
}

/// Chooses the present mode among those the surface reports.
pub fn choose_present_mode(avail: &Vec<i32>, options: &BackendOptions, vsync: bool) -> (r: i32)
    ensures
        r == spec_present_mode(avail@, *options, vsync),
{
    match &options.present_mode_priority {
        Some(list) => {
            let mut pm = PRESENT_MODE_FIFO;
            let mut i: usize = 0;
            let mut found = false;
            while i < list.len() && !found
                invariant
                    i <= list@.len(),
                    !found ==> first_available(list@, avail@, i as int) is None && pm == PRESENT_MODE_FIFO,
                    found ==> first_available(list@, avail@, list@.len() as int) == Some(pm),
                decreases list@.len() - i + (if found { 0int } else { 1int }),
            {
                match present_mode_named(list[i]) {
                    Some(m) => {
                        if contains_mode(avail, m) {
                            pm = m;
                            found = true;
                            proof {
                                lemma_available_stays(list@, avail@, i + 1, list@.len() as int);
                            }
                        } else {
                            i = i + 1;
                        }
                    },
                    None => {
                        i = i + 1;
                    },
                }
            }
            if !found && !vsync && contains_mode(avail, PRESENT_MODE_MAILBOX) {
                PRESENT_MODE_MAILBOX
            } else {
                pm
            }
        },
        None => {
            let fallback = if vsync {
                PRESENT_MODE_FIFO
            } else {
                PRESENT_MODE_MAILBOX
            };
            let desired = match options.present_mode {
                Some(s) => match present_mode_named(s) {
                    Some(x) => x,
                    None => fallback,
                },
                None => fallback,
            };
            if contains_mode(avail, desired) {
                desired
            } else if contains_mode(avail, PRESENT_MODE_MAILBOX) {
                PRESENT_MODE_MAILBOX
            } else {
                PRESENT_MODE_FIFO
            }
        },
    }
}

// ---------------------------------------------------------------------------
// Extent and image count
// ---------------------------------------------------------------------------

/// `v` clamped to `[lo, hi]`.
pub open spec fn clamp_u32(v: u32, lo: u32, hi: u32) -> u32 {
    if v < lo {
        lo
    } else if v > hi {
        hi
    } else {
        v
    }
}

/// `u32::clamp`: `v` held within `[lo, hi]`.
fn clamp_exec(v: u32, lo: u32, hi: u32) -> (r: u32)
    requires
        lo <= hi,
    ensures
        r == clamp_u32(v, lo, hi),
{
    if v < lo {
        lo
    } else if v > hi {
        hi
    } else {
        v
    }
}

/// The swapchain extent: the surface's current extent, unless it leaves the choice to
/// the application (width `u32::MAX`), then the window size clamped to the surface's
/// limits.
pub fn swap_extent(current: (u32, u32), min: (u32, u32), max: (u32, u32), window: (u32, u32)) -> (r: (u32, u32))
    requires
        current.0 == u32::MAX ==> min.0 <= max.0 && min.1 <= max.1,
    ensures
        current.0 != u32::MAX ==> r == current,
        current.0 == u32::MAX ==> r == (clamp_u32(window.0, min.0, max.0), clamp_u32(window.1, min.1, max.1)),
{
    if current.0 != u32::MAX {
        current
    } else {
        (clamp_exec(window.0, min.0, max.0), clamp_exec(window.1, min.1, max.1))
    }
}

/// The number of swapchain images to ask for: one more than the surface's minimum, or
/// the requested count raised to that minimum; then lowered to the surface's maximum
/// when it has one (a maximum of 0 means none).
pub open spec fn spec_image_count(min_count: u32, max_count: u32, requested: Option<u32>) -> u32 {
    let c: int = match requested {
        Some(r) => if r > min_count {
            r as int
        } else {
            min_count as int
        },
        None => min_count + 1,
    };
    (if max_count > 0 && c > max_count {
        max_count as int
    } else {
        c
    }) as u32
}

pub fn swapchain_image_count(min_count: u32, max_count: u32, requested: Option<u32>) -> (r: u32)
    requires
        min_count < u32::MAX,
    ensures
        r == spec_image_count(min_count, max_count, requested),
{
    let mut count = min_count + 1;
    if let Some(req) = requested {
        count = req.max(min_count);
    }
    if max_count > 0 {
        count = count.min(max_count);
    }
    count
}

// ---------------------------------------------------------------------------
// Demo resources supplied by the application
// ---------------------------------------------------------------------------

/// Optional resources an application supplies for its descriptors.
#[derive(Debug)]
pub struct AppResources {
    /// Initial data copied into each frame's uniform buffer.
    pub uniform_data: Option<Vec<u8>>,
    /// A solid color written to a 1x1 image.
    pub image_rgba: Option<[u8; 4]>,
    /// The size of `image_pixels`.
    pub image_size: Option<(u32, u32)>,
    /// RGBA8 pixels; `width * height * 4` bytes when `image_size` is given.
    pub image_pixels: Option<Vec<u8>>,
}

impl Default for AppResources {
    fn default() -> (r: Self)
        ensures
            r.uniform_data is None,
            r.image_rgba is None,
            r.image_size is None,
            r.image_pixels is None,
    {
        AppResources { uniform_data: None, image_rgba: None, image_size: None, image_pixels: None }
    }
}

/// The size of the uniform buffers: the supplied data's length, else 64 bytes.
pub open spec fn spec_uniform_size(res: Option<&AppResources>) -> u64 {
    match res {
        Some(r) => match r.uniform_data {
            Some(d) => d@.len() as u64,
            None => 64,
        },
        None => 64,
    }
}

pub fn uniform_size(res: Option<&AppResources>) -> (r: u64)
    ensures
        r == spec_uniform_size(res),
{
    match res {
        Some(r) => match &r.uniform_data {
            Some(d) => d.len() as u64,
            None => 64,
        },
        None => 64,
    }
}

/// The initial contents of a uniform buffer of `size` bytes: the supplied data as far as
/// it fits, zeros after it.
pub fn uniform_initial_bytes(res: Option<&AppResources>, size: usize) -> (r: Vec<u8>)
    ensures
        r@.len() == size,
        forall|i: int|
            0 <= i < size ==> #[trigger] r@[i] == match res {
                Some(a) => match a.uniform_data {
                    Some(d) => if i < d@.len() {
                        d@[i]
                    } else {
                        0u8
                    },
                    None => 0u8,
                },
                None => 0u8,
            },
{
    let mut data: Vec<u8> = Vec::new();
    let mut i: usize = 0;
    while i < size
        invariant
            i <= size,
            data@.len() == i,
            forall|k: int|
                0 <= k < i ==> #[trigger] data@[k] == match res {
                    Some(a) => match a.uniform_data {
                        Some(d) => if k < d@.len() {
                            d@[k]
                        } else {
                            0u8
                        },
                        None => 0u8,
                    },
                    None => 0u8,
                },
        decreases size - i,
    {
        let b: u8 = match res {
            Some(a) => match &a.uniform_data {
                Some(d) => if i < d.len() {
                    d[i]
                } else {
                    0u8
                },
                None => 0u8,
            },
            None => 0u8,
        };
        data.push(b);
        i = i + 1;
    }
    data
}

/// The image shown when no image is supplied: one magenta pixel.
pub open spec fn fallback_pixel() -> Seq<u8> {
    seq![255u8, 0u8, 255u8, 255u8]
}

/// The demo image: the supplied pixels when their size is given and they hold exactly
/// `width * height * 4` bytes; else a 1x1 image of the supplied color (the fallback
/// magenta when there is none, or when supplied pixels have the wrong length).
pub open spec fn spec_demo_image(res: Option<&AppResources>) -> (u32, u32, Seq<u8>) {
    match res {
        None => (1, 1, fallback_pixel()),
        Some(r) => if r.image_size is Some && r.image_pixels is Some {
            let (w, h) = r.image_size->Some_0;
            let px = r.image_pixels->Some_0@;
            if px.len() == w * h * 4 {
                (w, h, px)
            } else {
                (1, 1, fallback_pixel())
            }
        } else if r.image_rgba is Some {
            (1, 1, r.image_rgba->Some_0@)
        } else {
            (1, 1, fallback_pixel())
        },
    }
}

pub fn demo_image(res: Option<&AppResources>) -> (r: (u32, u32, Vec<u8>))
    requires
        res matches Some(a) ==> (a.image_size matches Some(wh) ==> wh.0 * wh.1 * 4 <= usize::MAX),
    ensures
        (r.0, r.1, r.2@) == spec_demo_image(res),
{
    let magenta = || -> (v: Vec<u8>)
        ensures
            v@ == fallback_pixel(),
        {
            let mut v: Vec<u8> = Vec::new();
            v.push(255u8);
            v.push(0u8);
            v.push(255u8);
            v.push(255u8);
            assert(v@ =~= fallback_pixel());
            v
        };
    match res {
        None => (1, 1, magenta()),
        Some(r) => {
            if let (Some((w, h)), Some(px)) = (r.image_size, &r.image_pixels) {
                let expected = (w as usize) * (h as usize) * 4;
                if px.len() == expected {
                    return (w, h, px.clone());
                } else {
                    return (1, 1, magenta());
                }
            }
            match r.image_rgba {
                Some(c) => {
                    let mut v: Vec<u8> = Vec::new();
                    v.push(c[0]);
                    v.push(c[1]);
                    v.push(c[2]);
                    v.push(c[3]);
                    assert(v@ =~= c@);
                    (1, 1, v)
                },
                None => (1, 1, magenta()),
            }
        },
    }
}

/// Memory type `i` is allowed by `type_bits` and has every property of `want`.
pub open spec fn memory_type_fits(type_bits: u32, props: Seq<u32>, i: int, want: u32) -> bool {
    &&& type_bits & (1u32 << (i as u32)) != 0
    &&& props[i] & want == want
}

/// The first of the first `m` memory types that fits.
pub open spec fn first_memory_type(type_bits: u32, props: Seq<u32>, m: int, want: u32) -> Option<u32>
    decreases m,
{
    if m <= 0 {
        None
    } else {
        match first_memory_type(type_bits, props, m - 1, want) {
            Some(i) => Some(i),
            None => if memory_type_fits(type_bits, props, m - 1, want) {
                Some((m - 1) as u32)
            } else {
                None
            },
        }
    }
}

proof fn lemma_memory_type_stays(type_bits: u32, props: Seq<u32>, k: int, m: int, want: u32)
    requires
        0 <= k <= m,
        first_memory_type(type_bits, props, k, want) is Some,
    ensures
        first_memory_type(type_bits, props, m, want) == first_memory_type(type_bits, props, k, want),
    decreases m - k,
{
    if m > k {
        lemma_memory_type_stays(type_bits, props, k, m - 1, want);
    }
}

/// The index of the first memory type (of `count`, each given by its property flags)
/// that `type_bits` allows and that has every property in `want`.
pub fn find_memory_type(type_bits: u32, props: &Vec<u32>, count: u32, want: u32) -> (r: Option<u32>)
    requires
        count <= 32,
        count <= props@.len(),
    ensures
        r == first_memory_type(type_bits, props@, count as int, want),
{
    let mut i: u32 = 0;
    while i < count
        invariant
            i <= count,
            count <= 32,
            count <= props@.len(),
            first_memory_type(type_bits, props@, i as int, want) is None,
        decreases count - i,
    {
        if (type_bits & (1u32 << i)) != 0 && (props[i as usize] & want) == want {
            proof {
                assert(memory_type_fits(type_bits, props@, i as int, want));
                lemma_memory_type_stays(type_bits, props@, i + 1, count as int, want);
            }
            return Some(i);
        }
        i = i + 1;
    }
    None
}

// ---------------------------------------------------------------------------
// Descriptor set layouts
// ---------------------------------------------------------------------------

/// Binding `i` is ordered before binding `j` within a set: by binding number, then by
/// declaration order.
pub open spec fn binding_before(bs: Seq<BindingDesc>, i: usize, j: usize) -> bool {
    bs[i as int].binding < bs[j as int].binding || (bs[i as int].binding == bs[j as int].binding && i < j)
}

/// `layout` groups the first `m` bindings by descriptor set: sets ascending, each listed
/// once, with the positions of exactly its bindings, ordered by binding number and then
/// declaration order (a stable sort by binding).
pub open spec fn is_set_layout(bs: Seq<BindingDesc>, m: int, layout: Seq<(u32, Seq<usize>)>) -> bool {
    &&& forall|a: int, b: int| 0 <= a < b < layout.len() ==> #[trigger] layout[a].0 < #[trigger] layout[b].0
    &&& forall|a: int| 0 <= a < layout.len() ==> (#[trigger] layout[a]).1.len() > 0
    &&& forall|a: int, x: int|
        0 <= a < layout.len() && 0 <= x < layout[a].1.len() ==> #[trigger] layout[a].1[x] < m && bs[layout[a].1[x] as int].set
            == layout[a].0
    &&& forall|a: int, x: int, y: int|
        0 <= a < layout.len() && 0 <= x < y < layout[a].1.len() ==> binding_before(
            bs,
            #[trigger] layout[a].1[x],
            #[trigger] layout[a].1[y],
        )
    &&& forall|i: int| 0 <= i < m ==> #[trigger] listed(layout, bs[i].set, i as usize)
}

/// Position `i` is listed under set `s`.
pub open spec fn listed(layout: Seq<(u32, Seq<usize>)>, s: u32, i: usize) -> bool {
    exists|a: int| 0 <= a < layout.len() && layout[a].0 == s && (#[trigger] layout[a].1).contains(i)
}

pub open spec fn layout_view(v: Seq<(u32, Vec<usize>)>) -> Seq<(u32, Seq<usize>)> {
    v.map_values(|e: (u32, Vec<usize>)| (e.0, e.1@))
}

/// Groups the bindings of a `ResourceBindings` type by descriptor set, each set's
/// bindings sorted by binding number (stably).
pub fn descriptor_set_layout(bs: &[BindingDesc]) -> (r: Vec<(u32, Vec<usize>)>)
    ensures
        is_set_layout(bs@, bs@.len() as int, layout_view(r@)),
{
    let mut layout: Vec<(u32, Vec<usize>)> = Vec::new();
    let mut i: usize = 0;
    let n = bs.len();
    while i < n
        invariant
            i <= n,
            n == bs@.len(),
            is_set_layout(bs@, i as int, layout_view(layout@)),
        decreases n - i,
    {
        let s = bs[i].set;
        let b = bs[i].binding;
        let ghost l0 = layout_view(layout@);
        // where the set is, or where it goes
        let mut a: usize = 0;
        while a < layout.len() && layout[a].0 < s
            invariant
                a <= layout@.len(),
                layout_view(layout@) == l0,
                forall|k: int| 0 <= k < a ==> (#[trigger] layout@[k]).0 < s,
            decreases layout@.len() - a,
        {
            a = a + 1;
        }
        if a < layout.len() && layout[a].0 == s {
            let mut entry = layout.remove(a);
            let ghost e0 = entry.1@;
            let mut p: usize = 0;
            while p < entry.1.len() && bs[entry.1[p]].binding <= b
                invariant
                    p <= entry.1@.len(),
                    entry.1@ == e0,
                    e0 == l0[a as int].1,
                    a < l0.len(),
                    n == bs@.len(),
                    i < n,
                    is_set_layout(bs@, i as int, l0),
                    forall|k: int| 0 <= k < p ==> bs@[(#[trigger] e0[k]) as int].binding <= b,
                decreases entry.1@.len() - p,
            {
                p = p + 1;
            }
            entry.1.insert(p, i);
            layout.insert(a, entry);
            proof {
                let l1 = layout_view(layout@);
                let e1 = e0.insert(p as int, i);
                assert(l1 =~= l0.update(a as int, (s, e1)));
                assert forall|x: int, y: int| 0 <= x < y < e1.len() implies binding_before(bs@, #[trigger] e1[x], #[trigger] e1[y]) by {
                    if y < p {
                        assert(e1[x] == e0[x] && e1[y] == e0[y]);
                    } else if y == p {
                        assert(e1[x] == e0[x]);
                        assert(e0[x] < i);
                    } else if x == p {
                        assert(e1[y] == e0[y - 1]);
                        assert(!(bs@[e0[p as int] as int].binding <= b) || p >= e0.len());
                        if p < y - 1 {
                            assert(binding_before(bs@, e0[p as int], e0[y - 1]));
                        }
                        assert(e0[y - 1] < i);
                    } else if x < p {
                        assert(e1[x] == e0[x] && e1[y] == e0[y - 1]);
                    } else {
                        assert(e1[x] == e0[x - 1] && e1[y] == e0[y - 1]);
                    }
                }
                assert forall|k: int| 0 <= k < i + 1 implies #[trigger] listed(l1, bs@[k].set, k as usize) by {
                    if k == i {
                        assert(e1[p as int] == i);
                        assert(l1[a as int].1.contains(i));
                    } else {
                        assert(listed(l0, bs@[k].set, k as usize));
                        let c = choose|c: int| 0 <= c < l0.len() && l0[c].0 == bs@[k].set && (#[trigger] l0[c].1).contains(k as usize);
                        if c == a {
                            let z = choose|z: int| 0 <= z < l0[c].1.len() && l0[c].1[z] == k as usize;
                            if z < p {
                                assert(e1[z] == k);
                            } else {
                                assert(e1[z + 1] == k);
                            }
                            assert(l1[c].1.contains(k as usize));
                        } else {
                            assert(l1[c] == l0[c]);
                        }
                    }
                }
                assert forall|c: int, x: int|
                    0 <= c < l1.len() && 0 <= x < l1[c].1.len() implies #[trigger] l1[c].1[x] < i + 1 && bs@[l1[c].1[x] as int].set
                        == l1[c].0 by {
                    if c == a {
                        if x < p {
                            assert(e1[x] == e0[x]);
                        } else if x > p {
                            assert(e1[x] == e0[x - 1]);
                        }
                    } else {
                        assert(l1[c] == l0[c]);
                    }
                }
                assert forall|c: int, x: int, y: int|
                    0 <= c < l1.len() && 0 <= x < y < l1[c].1.len() implies binding_before(
                        bs@,
                        #[trigger] l1[c].1[x],
                        #[trigger] l1[c].1[y],
                    ) by {
                    if c != a {
                        assert(l1[c] == l0[c]);
                    }
                }
                assert forall|c: int| 0 <= c < l1.len() implies (#[trigger] l1[c]).1.len() > 0 by {
                    if c != a {
                        assert(l1[c] == l0[c]);
                    }
                }
                assert forall|c: int, d: int| 0 <= c < d < l1.len() implies #[trigger] l1[c].0 < #[trigger] l1[d].0 by {
                    assert(l1[c].0 == l0[c].0 && l1[d].0 == l0[d].0);
                }
            }
        } else {
            let mut idxs: Vec<usize> = Vec::new();
            idxs.push(i);
            layout.insert(a, (s, idxs));
            proof {
                let l1 = layout_view(layout@);
                assert(l1 =~= l0.insert(a as int, (s, seq![i])));
                assert forall|c: int, d: int| 0 <= c < d < l1.len() implies #[trigger] l1[c].0 < #[trigger] l1[d].0 by {
                    if d < a {
                    } else if d == a {
                    } else if c == a {
                        assert(l1[d] == l0[d - 1]);
                        if a < l0.len() {
                            assert(l0[a as int].0 != s);
                            if d - 1 > a {
                                assert(l0[a as int].0 < l0[d - 1].0);
                            }
                        }
                    } else if c < a {
                        assert(l1[d] == l0[d - 1]);
                        assert(l1[c] == l0[c]);
                    } else {
                        assert(l1[c] == l0[c - 1] && l1[d] == l0[d - 1]);
                    }
                }
                assert forall|c: int| 0 <= c < l1.len() implies (#[trigger] l1[c]).1.len() > 0 by {
                    if c < a {
                        assert(l1[c] == l0[c]);
                    } else if c > a {
                        assert(l1[c] == l0[c - 1]);
                    }
                }
                assert forall|c: int, x: int|
                    0 <= c < l1.len() && 0 <= x < l1[c].1.len() implies #[trigger] l1[c].1[x] < i + 1 && bs@[l1[c].1[x] as int].set
                        == l1[c].0 by {
                    if c < a {
                        assert(l1[c] == l0[c]);
                    } else if c > a {
                        assert(l1[c] == l0[c - 1]);
                    }
                }
                assert forall|c: int, x: int, y: int|
                    0 <= c < l1.len() && 0 <= x < y < l1[c].1.len() implies binding_before(
                        bs@,
                        #[trigger] l1[c].1[x],
                        #[trigger] l1[c].1[y],
                    ) by {
                    if c < a {
                        assert(l1[c] == l0[c]);
                    } else if c > a {
                        assert(l1[c] == l0[c - 1]);
                    }
                }
                assert forall|k: int| 0 <= k < i + 1 implies #[trigger] listed(l1, bs@[k].set, k as usize) by {
                    if k == i {
                        assert(l1[a as int].1[0] == i);
                        assert(l1[a as int].1.contains(i));
                    } else {
                        assert(listed(l0, bs@[k].set, k as usize));
                        let c = choose|c: int| 0 <= c < l0.len() && l0[c].0 == bs@[k].set && (#[trigger] l0[c].1).contains(k as usize);
                        if c < a {
                            assert(l1[c] == l0[c]);
                        } else {
                            assert(l1[c + 1] == l0[c]);
                        }
                    }
                }
            }
        }
        i = i + 1;
    }
    layout
}

} // verus!
