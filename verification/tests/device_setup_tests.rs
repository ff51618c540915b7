use macrokid_graphics::device_setup::{
    clear_value_count, dispatch_groups, dynamic_flags, graphics_possible, memory_type_or, vertex_buffer_size,
    choose_depth_format, depth_candidates, descriptor_pool_plan, descriptor_resources, descriptor_write,
    frame_slot, inline_glsl, render_pass_plan, shader_load, spirv_words, stage_from_ext, AttachmentPlan,
    DescriptorResources, DescriptorWrite, GlslStage, InlineGlsl, ShaderLoad, LAYOUT_PRESENT_SRC,
};
use macrokid_graphics::pipeline::{ColorTargetDesc, PushConstantRange, StageMask};
use macrokid_graphics::vulkan::compute_push_constant_range;
use macrokid_graphics::resources::ResourceKind;
use macrokid_graphics::vulkan::VkError;

#[test]
fn inline_sources_are_recognized_by_prefix() {
    assert_eq!(
        inline_glsl("source:void main() { gl_Position = vec4(0.0); }"),
        Some(InlineGlsl { body_start: 7, stage: GlslStage::Vertex })
    );
    assert_eq!(inline_glsl("INLINE:void main() {}"), Some(InlineGlsl { body_start: 7, stage: GlslStage::Fragment }));
    assert_eq!(inline_glsl("Source.Frag:x"), Some(InlineGlsl { body_start: 12, stage: GlslStage::Fragment }));
    assert_eq!(inline_glsl("inline.vert:x"), Some(InlineGlsl { body_start: 12, stage: GlslStage::Vertex }));
    assert_eq!(inline_glsl("shaders/tri.vert"), None);
}

#[test]
fn shader_paths_pick_a_loader() {
    assert_eq!(stage_from_ext("a/b.comp"), Some(GlslStage::Compute));
    assert_eq!(stage_from_ext("a/b.glsl"), None);
    assert!(matches!(shader_load("tri.spv"), Ok(ShaderLoad::SpirvFile)));
    assert!(matches!(shader_load("tri.frag"), Ok(ShaderLoad::GlslFile(GlslStage::Fragment))));
    assert!(matches!(shader_load("inline.frag:x"), Ok(ShaderLoad::Inline(_))));
    match shader_load("tri.glsl") {
        Err(VkError::General(m)) => {
            assert_eq!(m, "unknown shader stage for 'tri.glsl': use .vert/.frag/.comp or .spv")
        },
        _ => panic!("expected an error"),
    }
}

#[test]
fn spirv_bytes_become_little_endian_words() {
    let words = spirv_words(&[0x03, 0x02, 0x23, 0x07, 0xff, 0x00, 0x00, 0x01]).unwrap();
    assert_eq!(words, vec![0x0723_0203, 0x0100_00ff]);
    match spirv_words(&[1, 2, 3]) {
        Err(VkError::General(m)) => assert_eq!(m, "SPIR-V length not multiple of 4"),
        _ => panic!("expected an error"),
    }
    assert_eq!(spirv_words(&[]).unwrap(), Vec::<u32>::new());
}

static TARGETS: [ColorTargetDesc; 2] = [
    ColorTargetDesc { format: "rgba8_unorm", blend: None },
    ColorTargetDesc { format: "mystery", blend: Some(true) },
];

#[test]
fn render_pass_uses_the_swapchain_without_targets() {
    let p = render_pass_plan(None, 50, None, 4, None, false);
    assert_eq!(p.samples, 4);
    assert!(!p.use_mrt && !p.compute_only_present);
    assert!(p.mrt_formats.is_empty());
    assert_eq!(p.color_attachments, vec![AttachmentPlan { format: 50, final_layout: LAYOUT_PRESENT_SRC }]);
    assert_eq!(p.mrt_usage, 0x11);
}

#[test]
fn render_pass_uses_offscreen_targets_when_listed() {
    let p = render_pass_plan(Some(&TARGETS[..]), 50, Some(3), 1, Some(true), false);
    assert_eq!(p.samples, 1);
    assert!(p.use_mrt && !p.compute_only_present);
    assert_eq!(p.mrt_formats, vec![37, 97]);
    assert_eq!(
        p.color_attachments,
        vec![AttachmentPlan { format: 37, final_layout: 2 }, AttachmentPlan { format: 97, final_layout: 2 }]
    );
}

#[test]
fn compute_presenting_renders_offscreen() {
    let p = render_pass_plan(None, 50, Some(8), 1, Some(true), true);
    assert_eq!(p.samples, 8);
    assert!(p.use_mrt && p.compute_only_present);
    assert_eq!(p.mrt_formats, vec![97]);
    assert!(p.color_attachments.is_empty());
    assert_eq!(p.mrt_usage, 0x9);
}

#[test]
fn depth_format_is_the_first_supported_candidate() {
    let c = depth_candidates(None);
    assert_eq!(c.candidates, vec![126, 130, 129]);
    assert_eq!(c.fallback, 126);
    assert_eq!(choose_depth_format(&c.candidates, &[false, false, true], c.fallback), 129);
    assert_eq!(choose_depth_format(&c.candidates, &[false, false, false], c.fallback), 126);
    let r = depth_candidates(Some("D16_UNORM"));
    assert_eq!(r.candidates, vec![124]);
    assert_eq!(choose_depth_format(&r.candidates, &[false], r.fallback), 124);
    assert_eq!(depth_candidates(Some("bogus")).candidates, vec![126, 130, 129]);
}

#[test]
fn descriptor_pool_counts_types_in_order() {
    let kinds = [ResourceKind::Uniform, ResourceKind::CombinedImageSampler, ResourceKind::Uniform];
    let p = descriptor_pool_plan(&kinds, 3, Some(0), 2).unwrap();
    assert_eq!(p.sizes, vec![(1, 3), (6, 6)]);
    assert_eq!(p.max_sets, 6);
    let q = descriptor_pool_plan(&kinds, 3, Some(2), 2).unwrap();
    assert_eq!(q.sizes, vec![(1, 6), (6, 12)]);
    assert_eq!(q.max_sets, 12);
    assert!(descriptor_pool_plan(&[], 3, None, 1).is_none());
}

#[test]
fn descriptors_are_written_when_their_resources_exist() {
    let res = descriptor_resources(&[ResourceKind::Uniform, ResourceKind::Sampler], &[ResourceKind::StorageBuffer]);
    assert_eq!(
        res,
        DescriptorResources {
            uniform_buffers: true,
            image_view: true,
            sampler: true,
            storage_buffers: true,
            storage_images: false
        }
    );
    assert_eq!(
        descriptor_write(&ResourceKind::Uniform, &res, false, 0),
        Some(DescriptorWrite { descriptor_type: 6, buffer_range: 64 })
    );
    assert_eq!(
        descriptor_write(&ResourceKind::Uniform, &res, false, 128),
        Some(DescriptorWrite { descriptor_type: 6, buffer_range: 128 })
    );
    assert_eq!(descriptor_write(&ResourceKind::StorageBuffer, &res, false, 0), None);
    assert_eq!(
        descriptor_write(&ResourceKind::StorageBuffer, &res, true, 0),
        Some(DescriptorWrite { descriptor_type: 7, buffer_range: 256 })
    );
    assert_eq!(descriptor_write(&ResourceKind::StorageImage, &res, true, 0), None);
    assert_eq!(frame_slot(1, 3), 1);
    assert_eq!(frame_slot(5, 3), 2);
}

#[test]
fn recording_decisions() {
    assert!(graphics_possible("tri.vert", "tri.frag"));
    assert!(!graphics_possible("tri.vert", "Blur.COMP"));
    assert_eq!(dispatch_groups(Some((0, 4, 0))), (1, 4, 1));
    assert_eq!(dispatch_groups(None), (1, 1, 1));
    assert_eq!(dynamic_flags(None, Some(false), &[0, 1]), (true, false));
    assert_eq!(dynamic_flags(None, None, &[1]), (false, true));
    assert_eq!(vertex_buffer_size(Some(32)), 96);
    assert_eq!(vertex_buffer_size(Some(8)), 36);
    assert_eq!(vertex_buffer_size(None), 36);
    let offscreen = render_pass_plan(Some(&TARGETS[..]), 50, None, 1, None, false);
    assert_eq!(clear_value_count(&offscreen), 3);
    let swapchain = render_pass_plan(None, 50, None, 1, None, false);
    assert_eq!(clear_value_count(&swapchain), 2);
}

#[test]
fn memory_types_fall_back() {
    let props = vec![0x1, 0x6, 0x7];
    assert_eq!(memory_type_or(0b111, &props, 3, 0x1, 0x0), Some(0));
    assert_eq!(memory_type_or(0b110, &props, 3, 0x6, 0x2), Some(1));
    assert_eq!(memory_type_or(0b010, &props, 3, 0x1, 0x2), Some(1));
    assert_eq!(memory_type_or(0b001, &props, 3, 0x2, 0x4), None);
}

#[test]
fn compute_push_constants_default_to_the_compute_stage() {
    assert_eq!(compute_push_constant_range(&Some(PushConstantRange { size: 16, stages: None })), Some((32, 16)));
    let both = Some(PushConstantRange { size: 8, stages: Some(StageMask { vs: true, fs: false, cs: true }) });
    assert_eq!(compute_push_constant_range(&both), Some((33, 8)));
    assert_eq!(compute_push_constant_range(&None), None);
}
