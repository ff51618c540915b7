//! Synchronization hints for GPU resources, inferred from the name of the type a buffer
//! or image holds: the pipeline stages and access masks of reads and writes, and the
//! layout an image is used in. Values are Vulkan flag bits and layout codes.
use vstd::prelude::*;
use crate::text::{contains_str, has_sub};

verus! {

pub const STAGE_VERTEX_INPUT: u32 = 0x4;
pub const STAGE_VERTEX_SHADER: u32 = 0x8;
pub const STAGE_FRAGMENT_SHADER: u32 = 0x80;
pub const STAGE_EARLY_FRAGMENT_TESTS: u32 = 0x100;
pub const STAGE_LATE_FRAGMENT_TESTS: u32 = 0x200;
pub const STAGE_COLOR_ATTACHMENT_OUTPUT: u32 = 0x400;
pub const STAGE_COMPUTE_SHADER: u32 = 0x800;
pub const STAGE_TRANSFER: u32 = 0x1000;
pub const STAGE_ALL_COMMANDS: u32 = 0x10000;

pub const ACCESS_INDEX_READ: u32 = 0x2;
pub const ACCESS_VERTEX_ATTRIBUTE_READ: u32 = 0x4;
pub const ACCESS_UNIFORM_READ: u32 = 0x8;
pub const ACCESS_SHADER_READ: u32 = 0x20;
pub const ACCESS_SHADER_WRITE: u32 = 0x40;
pub const ACCESS_COLOR_ATTACHMENT_WRITE: u32 = 0x100;
pub const ACCESS_DEPTH_STENCIL_ATTACHMENT_WRITE: u32 = 0x400;
pub const ACCESS_TRANSFER_WRITE: u32 = 0x1000;

pub const LAYOUT_UNDEFINED: i32 = 0;
pub const LAYOUT_GENERAL: i32 = 1;
pub const LAYOUT_COLOR_ATTACHMENT_OPTIMAL: i32 = 2;
pub const LAYOUT_DEPTH_STENCIL_ATTACHMENT_OPTIMAL: i32 = 3;
pub const LAYOUT_SHADER_READ_ONLY_OPTIMAL: i32 = 5;

/// The type name mentions `a` or `b`.
pub open spec fn mentions(t: Seq<char>, a: Seq<char>, b: Seq<char>) -> bool {
    has_sub(t, a) || has_sub(t, b)
}

fn mentions_exec(t: &str, a: &str, b: &str) -> (r: bool)
    ensures
        r == mentions(t@, a@, b@),
{
    contains_str(t, a) || contains_str(t, b)
}

/// The stages that read a buffer: vertex input for vertex and index data, vertex and
/// fragment shaders for uniforms, the compute shader for storage, all commands otherwise.
pub open spec fn spec_buffer_read_stage(t: Seq<char>) -> u32 {
    if mentions(t, "Vertex"@, "Index"@) {
        STAGE_VERTEX_INPUT
    } else if mentions(t, "Uniform"@, "Ubo"@) {
        (STAGE_VERTEX_SHADER + STAGE_FRAGMENT_SHADER) as u32
    } else if has_sub(t, "Storage"@) {
        STAGE_COMPUTE_SHADER
    } else {
        STAGE_ALL_COMMANDS
    }
}

pub fn buffer_read_stage(held_type: &str) -> (r: u32)
    ensures
        r == spec_buffer_read_stage(held_type@),
{
    if mentions_exec(held_type, "Vertex", "Index") {
        STAGE_VERTEX_INPUT
    } else if mentions_exec(held_type, "Uniform", "Ubo") {
        STAGE_VERTEX_SHADER + STAGE_FRAGMENT_SHADER
    } else if contains_str(held_type, "Storage") {
        STAGE_COMPUTE_SHADER
    } else {
        STAGE_ALL_COMMANDS
    }
}

/// How a buffer is read: vertex attributes, indices, uniforms, shader reads and writes
/// for storage, shader reads otherwise.
pub open spec fn spec_buffer_read_access(t: Seq<char>) -> u32 {
    if has_sub(t, "Vertex"@) {
        ACCESS_VERTEX_ATTRIBUTE_READ
    } else if has_sub(t, "Index"@) {
        ACCESS_INDEX_READ
    } else if mentions(t, "Uniform"@, "Ubo"@) {
        ACCESS_UNIFORM_READ
    } else if has_sub(t, "Storage"@) {
        (ACCESS_SHADER_READ + ACCESS_SHADER_WRITE) as u32
    } else {
        ACCESS_SHADER_READ
    }
}

pub fn buffer_read_access(held_type: &str) -> (r: u32)
    ensures
        r == spec_buffer_read_access(held_type@),
{
    if contains_str(held_type, "Vertex") {
        ACCESS_VERTEX_ATTRIBUTE_READ
    } else if contains_str(held_type, "Index") {
        ACCESS_INDEX_READ
    } else if mentions_exec(held_type, "Uniform", "Ubo") {
        ACCESS_UNIFORM_READ
    } else if contains_str(held_type, "Storage") {
        ACCESS_SHADER_READ + ACCESS_SHADER_WRITE
    } else {
        ACCESS_SHADER_READ
    }
}

/// Buffers are written by transfers.
pub fn buffer_write_stage() -> (r: u32)
    ensures
        r == STAGE_TRANSFER,
{
    STAGE_TRANSFER
}

pub fn buffer_write_access() -> (r: u32)
    ensures
        r == ACCESS_TRANSFER_WRITE,
{
    ACCESS_TRANSFER_WRITE
}

/// The layout an image is used in: color attachment for render targets, depth-stencil
/// attachment for depth images, shader read-only for textures, general otherwise.
pub open spec fn spec_image_target_layout(t: Seq<char>) -> i32 {
    if mentions(t, "RenderTarget"@, "ColorAttachment"@) {
        LAYOUT_COLOR_ATTACHMENT_OPTIMAL
    } else if mentions(t, "DepthStencil"@, "Depth"@) {
        LAYOUT_DEPTH_STENCIL_ATTACHMENT_OPTIMAL
    } else if mentions(t, "Texture"@, "Sampled"@) {
        LAYOUT_SHADER_READ_ONLY_OPTIMAL
    } else {
        LAYOUT_GENERAL
    }
}

pub fn image_target_layout(held_type: &str) -> (r: i32)
    ensures
        r == spec_image_target_layout(held_type@),
{
    if mentions_exec(held_type, "RenderTarget", "ColorAttachment") {
        LAYOUT_COLOR_ATTACHMENT_OPTIMAL
    } else if mentions_exec(held_type, "DepthStencil", "Depth") {
        LAYOUT_DEPTH_STENCIL_ATTACHMENT_OPTIMAL
    } else if mentions_exec(held_type, "Texture", "Sampled") {
        LAYOUT_SHADER_READ_ONLY_OPTIMAL
    } else {
        LAYOUT_GENERAL
    }
}

/// The stage that reads an image: the compute shader for storage images (that are not
/// textures), the fragment shader otherwise.
pub open spec fn spec_image_read_stage(t: Seq<char>) -> u32 {
    if mentions(t, "Texture"@, "Sampled"@) {
        STAGE_FRAGMENT_SHADER
    } else if has_sub(t, "Storage"@) {
        STAGE_COMPUTE_SHADER
    } else {
        STAGE_FRAGMENT_SHADER
    }
}

pub fn image_read_stage(held_type: &str) -> (r: u32)
    ensures
        r == spec_image_read_stage(held_type@),
{
    if mentions_exec(held_type, "Texture", "Sampled") {
        STAGE_FRAGMENT_SHADER
    } else if contains_str(held_type, "Storage") {
        STAGE_COMPUTE_SHADER
    } else {
        STAGE_FRAGMENT_SHADER
    }
}

/// The stages that write an image: color attachment output, the fragment tests for
/// depth, the compute shader for storage, transfers otherwise.
pub open spec fn spec_image_write_stage(t: Seq<char>) -> u32 {
    if mentions(t, "RenderTarget"@, "ColorAttachment"@) {
        STAGE_COLOR_ATTACHMENT_OUTPUT
    } else if mentions(t, "DepthStencil"@, "Depth"@) {
        (STAGE_EARLY_FRAGMENT_TESTS + STAGE_LATE_FRAGMENT_TESTS) as u32
    } else if has_sub(t, "Storage"@) {
        STAGE_COMPUTE_SHADER
    } else {
        STAGE_TRANSFER
    }
}

pub fn image_write_stage(held_type: &str) -> (r: u32)
    ensures
        r == spec_image_write_stage(held_type@),
{
    if mentions_exec(held_type, "RenderTarget", "ColorAttachment") {
        STAGE_COLOR_ATTACHMENT_OUTPUT
    } else if mentions_exec(held_type, "DepthStencil", "Depth") {
        STAGE_EARLY_FRAGMENT_TESTS + STAGE_LATE_FRAGMENT_TESTS
    } else if contains_str(held_type, "Storage") {
        STAGE_COMPUTE_SHADER
    } else {
        STAGE_TRANSFER
    }
}

/// How an image is read: shader reads and writes for storage images (that are not
/// textures), shader reads otherwise.
pub open spec fn spec_image_read_access(t: Seq<char>) -> u32 {
    if mentions(t, "Texture"@, "Sampled"@) {
        ACCESS_SHADER_READ
    } else if has_sub(t, "Storage"@) {
        (ACCESS_SHADER_READ + ACCESS_SHADER_WRITE) as u32
    } else {
        ACCESS_SHADER_READ
    }
}

pub fn image_read_access(held_type: &str) -> (r: u32)
    ensures
        r == spec_image_read_access(held_type@),
{
    if mentions_exec(held_type, "Texture", "Sampled") {
        ACCESS_SHADER_READ
    } else if contains_str(held_type, "Storage") {
        ACCESS_SHADER_READ + ACCESS_SHADER_WRITE
    } else {
        ACCESS_SHADER_READ
    }
}

/// How an image is written: color attachment writes, depth-stencil attachment writes,
/// shader writes for storage, transfer writes otherwise.
pub open spec fn spec_image_write_access(t: Seq<char>) -> u32 {
    if mentions(t, "RenderTarget"@, "ColorAttachment"@) {
        ACCESS_COLOR_ATTACHMENT_WRITE
    } else if mentions(t, "DepthStencil"@, "Depth"@) {
        ACCESS_DEPTH_STENCIL_ATTACHMENT_WRITE
    } else if has_sub(t, "Storage"@) {
        ACCESS_SHADER_WRITE
    } else {
        ACCESS_TRANSFER_WRITE
    }
}

pub fn image_write_access(held_type: &str) -> (r: u32)
    ensures
        r == spec_image_write_access(held_type@),
{
    if mentions_exec(held_type, "RenderTarget", "ColorAttachment") {
        ACCESS_COLOR_ATTACHMENT_WRITE
    } else if mentions_exec(held_type, "DepthStencil", "Depth") {
        ACCESS_DEPTH_STENCIL_ATTACHMENT_WRITE
    } else if contains_str(held_type, "Storage") {
        ACCESS_SHADER_WRITE
    } else {
        ACCESS_TRANSFER_WRITE
    }
}

} // verus!
