use macrokid_graphics::barriers::{barrier_report, GpuResourceAccess, GpuResourceMeta};
use macrokid_graphics::gpu_sync::{
    buffer_read_access, buffer_read_stage, buffer_write_access, buffer_write_stage,
    image_write_access, image_write_stage,
};
use macrokid_graphics::resources::GpuResourceKind;
use std::any::TypeId;
use std::sync::OnceLock;

struct VertexData;
struct ColorAttachmentImage;

fn vertex_meta() -> GpuResourceMeta {
    GpuResourceMeta {
        type_id: TypeId::of::<VertexData>(),
        held_type: "VertexData",
        resource_kind: GpuResourceKind::Buffer,
        read_stage: buffer_read_stage("VertexData"),
        write_stage: buffer_write_stage(),
        read_access: buffer_read_access("VertexData"),
        write_access: buffer_write_access(),
    }
}

fn color_meta() -> GpuResourceMeta {
    GpuResourceMeta {
        type_id: TypeId::of::<ColorAttachmentImage>(),
        held_type: "ColorAttachmentImage",
        resource_kind: GpuResourceKind::Image,
        read_stage: 0x80,
        write_stage: image_write_stage("ColorAttachmentImage"),
        read_access: 0x20,
        write_access: image_write_access("ColorAttachmentImage"),
    }
}

#[test]
fn barrier_report_without_resources() {
    assert_eq!(
        barrier_report(&[], &[]),
        "GPU Barrier Requirements:\n\n  (no GPU resources accessed)\n"
    );
}

#[test]
fn barrier_report_for_a_read_buffer() {
    let report = barrier_report(&[vertex_meta()], &[]);
    assert_eq!(
        report,
        "GPU Barrier Requirements:\n\n  READ: VertexData\nResource: Buffer\n    Stage: TRANSFER \u{2192} VERTEX_INPUT\nAccess: TRANSFER_WRITE \u{2192} VERTEX_ATTRIBUTE_READ\nAction: Insert buffer/image barrier before read\n\n"
    );
}

#[test]
fn barrier_report_for_a_written_image() {
    let report = barrier_report(&[], &[color_meta()]);
    assert_eq!(
        report,
        "GPU Barrier Requirements:\n\n  WRITE: ColorAttachmentImage\nResource: Image\n    Stage: COLOR_ATTACHMENT_OUTPUT\nAccess: COLOR_ATTACHMENT_WRITE\n    Layout transition may be required\n\n"
    );
}

#[test]
fn barrier_report_lists_reads_before_writes() {
    let mut uniform = vertex_meta();
    uniform.held_type = "CameraUniform";
    uniform.read_stage = buffer_read_stage("CameraUniform");
    uniform.read_access = buffer_read_access("CameraUniform");
    let report = barrier_report(&[uniform], &[vertex_meta()]);
    assert_eq!(
        report,
        "GPU Barrier Requirements:\n\n  READ: CameraUniform\nResource: Buffer\n    Stage: TRANSFER \u{2192} VERTEX_SHADER | FRAGMENT_SHADER\nAccess: TRANSFER_WRITE \u{2192} UNIFORM_READ\nAction: Insert buffer/image barrier before read\n\n  WRITE: VertexData\nResource: Buffer\n    Stage: TRANSFER\nAccess: TRANSFER_WRITE\n\n"
    );
}

struct UploadSystem;

impl GpuResourceAccess for UploadSystem {
    fn gpu_writes() -> &'static [GpuResourceMeta] {
        static WRITES: OnceLock<Vec<GpuResourceMeta>> = OnceLock::new();
        WRITES.get_or_init(|| vec![vertex_meta()]).as_slice()
    }
}

struct IdleSystem;

impl GpuResourceAccess for IdleSystem {}

#[test]
fn barrier_requirements_use_the_declared_resources() {
    assert!(IdleSystem::gpu_reads().is_empty());
    assert_eq!(
        IdleSystem::barrier_requirements(),
        "GPU Barrier Requirements:\n\n  (no GPU resources accessed)\n"
    );
    assert_eq!(
        UploadSystem::barrier_requirements(),
        "GPU Barrier Requirements:\n\n  WRITE: VertexData\nResource: Buffer\n    Stage: TRANSFER\nAccess: TRANSFER_WRITE\n\n"
    );
}
