use macrokid_graphics::engine::BackendOptions;
use macrokid_graphics::pipeline::{
    ColorBlendState, ColorTargetDesc, CompareOp, CullMode, DepthState, DynamicStateDesc, FrontFace, PipelineDesc,
    PolygonMode, PushConstantRange, RasterState, ShaderPaths, StageMask, Topology,
};
use macrokid_graphics::resources::{BindingStages, ResourceKind};
use macrokid_graphics::vulkan::{
    adapter_order, binding_stage_flags, blend_enables, choose_present_mode, choose_queue_family,
    choose_surface_format, depth_codes, descriptor_type, dynamic_codes, parse_color_format, parse_depth_format,
    preferred_type, present_mode_named, push_constant_range, raster_codes, sample_bits, swap_extent,
    swapchain_image_count, vertex_format, VkError,
};

fn desc() -> PipelineDesc {
    PipelineDesc {
        name: "p",
        shaders: ShaderPaths { vs: "vs", fs: "fs" },
        topology: Topology::TriangleList,
        depth: false,
        raster: None,
        blend: None,
        samples: None,
        depth_stencil: None,
        dynamic: None,
        push_constants: None,
        color_targets: None,
        depth_target: None,
    }
}

fn msg(e: VkError) -> String {
    match e {
        VkError::General(m) => m,
    }
}

#[test]
fn color_formats_parse_case_insensitively() {
    assert_eq!(parse_color_format("rgba8_unorm"), Some(37));
    assert_eq!(parse_color_format("B8G8R8A8_SRGB"), Some(50));
    assert_eq!(parse_color_format("RGBA16F"), Some(97));
    assert_eq!(parse_color_format("rgb10a2_unorm"), Some(64));
    assert_eq!(parse_color_format("rgba32f"), Some(109));
    assert_eq!(parse_color_format("d32_sfloat"), None);
}

#[test]
fn depth_formats_parse_in_upper_or_lower_case_only() {
    assert_eq!(parse_depth_format("D32_SFLOAT"), Some(126));
    assert_eq!(parse_depth_format("d24_unorm_s8_uint"), Some(129));
    assert_eq!(parse_depth_format("D32_SFLOAT_S8_UINT"), Some(130));
    assert_eq!(parse_depth_format("d16_unorm"), Some(124));
    assert_eq!(parse_depth_format("D32_sfloat"), None);
}

#[test]
fn vertex_formats_default_to_vec4() {
    assert_eq!(vertex_format("vec3"), 106);
    assert_eq!(vertex_format("u8x4_norm"), 37);
    assert_eq!(vertex_format("i32"), 99);
    assert_eq!(vertex_format("mystery"), 109);
}

#[test]
fn stage_flags_default_to_vertex_and_fragment() {
    assert_eq!(binding_stage_flags(&None), 17);
    assert_eq!(binding_stage_flags(&Some(BindingStages { vs: false, fs: false, cs: false })), 17);
    assert_eq!(binding_stage_flags(&Some(BindingStages { vs: false, fs: true, cs: true })), 48);
    assert_eq!(descriptor_type(&ResourceKind::Uniform), 6);
    assert_eq!(descriptor_type(&ResourceKind::CombinedImageSampler), 1);
    assert_eq!(descriptor_type(&ResourceKind::Texture), 2);
}

#[test]
fn pipeline_state_codes() {
    let mut d = desc();
    assert_eq!(raster_codes(&d), (0, 2, 1));
    assert_eq!(sample_bits(&d), 1);
    assert_eq!(depth_codes(&d), (false, false, 0));
    assert!(dynamic_codes(&d).is_empty());
    assert_eq!(push_constant_range(&d), None);
    assert_eq!(blend_enables(&d), vec![false]);
    d.raster = Some(RasterState { polygon: PolygonMode::Line, cull: CullMode::Disabled, front_face: FrontFace::Ccw });
    d.samples = Some(4);
    d.depth_stencil = Some(DepthState { test: true, write: false, compare: CompareOp::LessOrEqual });
    d.dynamic = Some(DynamicStateDesc { viewport: true, scissor: true });
    d.push_constants = Some(PushConstantRange { size: 64, stages: Some(StageMask { vs: true, fs: false, cs: false }) });
    d.blend = Some(ColorBlendState { enable: true });
    static TARGETS: [ColorTargetDesc; 2] =
        [ColorTargetDesc { format: "rgba8_unorm", blend: Some(false) }, ColorTargetDesc { format: "rgba16f", blend: None }];
    d.color_targets = Some(&TARGETS);
    assert_eq!(raster_codes(&d), (1, 0, 0));
    assert_eq!(sample_bits(&d), 4);
    assert_eq!(depth_codes(&d), (true, false, 3));
    assert_eq!(dynamic_codes(&d), vec![0, 1]);
    assert_eq!(push_constant_range(&d), Some((1, 64)));
    assert_eq!(blend_enables(&d), vec![false, true]);
    d.samples = Some(3);
    assert_eq!(sample_bits(&d), 1);
}

#[test]
fn adapters_are_ordered_by_index_or_preference() {
    let types = vec![1, 2, 4, 2];
    assert_eq!(adapter_order(&types, Some(2), Some("discrete")), vec![2]);
    assert_eq!(adapter_order(&types, Some(9), Some("Discrete")), vec![1, 3, 0, 2]);
    assert_eq!(adapter_order(&types, None, Some("gpu")), vec![0, 1, 2, 3]);
    assert_eq!(adapter_order(&types, None, None), vec![0, 1, 2, 3]);
    assert_eq!(preferred_type("CPU"), Some(4));
}

#[test]
fn queue_family_is_first_with_graphics_and_present() {
    let fams = vec![vec![(true, false), (false, true)], vec![(false, false), (true, true), (true, true)]];
    assert_eq!(choose_queue_family(&vec![0, 1], &fams).unwrap(), (1, 1));
    let none = vec![vec![(true, false)]];
    assert_eq!(msg(choose_queue_family(&vec![0], &none).unwrap_err()), "no suitable queue family with graphics+present");
}

#[test]
fn surface_format_prefers_request_then_srgb_then_first() {
    let fs = vec![(44, 0), (37, 0), (50, 0)];
    let mut o = BackendOptions::default();
    assert_eq!(choose_surface_format(&fs, &o).unwrap(), (44, 0));
    o.color_format = Some("R8G8B8A8_UNORM");
    assert_eq!(choose_surface_format(&fs, &o).unwrap(), (37, 0));
    o.color_space = Some("SRGB_NONLINEAR");
    assert_eq!(choose_surface_format(&vec![(37, 5), (50, 0)], &o).unwrap(), (50, 0));
    assert_eq!(choose_surface_format(&vec![(37, 5), (44, 7)], &o).unwrap(), (37, 5));
    assert_eq!(msg(choose_surface_format(&vec![], &o).unwrap_err()), "no surface formats");
}

#[test]
fn present_mode_choice() {
    let mut o = BackendOptions::default();
    let all = vec![0, 1, 2];
    assert_eq!(choose_present_mode(&all, &o, true), 2);
    assert_eq!(choose_present_mode(&all, &o, false), 1);
    assert_eq!(choose_present_mode(&vec![2], &o, false), 2);
    o.present_mode = Some("immediate");
    assert_eq!(choose_present_mode(&all, &o, true), 0);
    assert_eq!(choose_present_mode(&vec![1, 2], &o, true), 1);
    o.present_mode_priority = Some(vec!["fifo_relaxed", "Immediate", "MAILBOX"]);
    assert_eq!(choose_present_mode(&all, &o, true), 0);
    o.present_mode_priority = Some(vec!["FIFO"]);
    assert_eq!(choose_present_mode(&all, &o, false), 2);
    assert_eq!(choose_present_mode(&all, &o, true), 2);
    o.present_mode_priority = Some(vec!["FIFO_RELAXED", "bogus"]);
    assert_eq!(choose_present_mode(&all, &o, false), 1);
    assert_eq!(choose_present_mode(&all, &o, true), 2);
    assert_eq!(choose_present_mode(&vec![0, 2], &o, false), 2);
    assert_eq!(present_mode_named("Fifo_Relaxed"), Some(3));
    assert_eq!(present_mode_named("vsync"), None);
}

#[test]
fn extent_and_image_count() {
    assert_eq!(swap_extent((800, 600), (1, 1), (4096, 4096), (1024, 768)), (800, 600));
    assert_eq!(swap_extent((u32::MAX, u32::MAX), (100, 100), (1000, 500), (2000, 50)), (1000, 100));
    assert_eq!(swapchain_image_count(2, 0, None), 3);
    assert_eq!(swapchain_image_count(2, 3, Some(8)), 3);
    assert_eq!(swapchain_image_count(2, 0, Some(1)), 2);
    assert_eq!(swapchain_image_count(3, 3, None), 3);
}
