use macrokid_graphics::asset_specs::{
    collect_bundle_refs, mesh_plan, texture_plan, AssetKind, BundleField, PrimitiveKind, TextureKind,
};
use macrokid_graphics::engine::window_from_attrs;
use macrokid_graphics::gpu_sync::{
    buffer_read_access, buffer_read_stage, image_read_access, image_read_stage, image_target_layout,
    image_write_access, image_write_stage,
};
use macrokid_graphics::proto::{
    raster_from_proto, samples_from_proto, shader_paths_from_proto, topology_from_proto, window_from_proto,
    ConvertError, ProtoCullMode, ProtoFrontFace, ProtoPolygonMode, ProtoTopology, ShaderSource,
};
use macrokid_graphics::pipeline::{CullMode, Topology};
use macrokid_graphics::render_graph::{pass_outputs, OutputDecl};
use macrokid_graphics::resources::{BindingDesc, ResourceKind};
use macrokid_graphics::schedule::{job_method, stage_decl_from_entries};
use macrokid_graphics::text::contains_str;
use macrokid_graphics::vulkan::{
    demo_image, descriptor_set_layout, find_memory_type, uniform_initial_bytes, uniform_size, AppResources,
};

fn entry(k: &str, v: &str) -> (String, String) {
    (k.to_string(), v.to_string())
}

#[test]
fn mesh_and_texture_plans() {
    let s = mesh_plan("sphere", None, Some(8), None).unwrap();
    assert_eq!((s.kind, s.sectors, s.rings), (PrimitiveKind::Sphere, 8, 16));
    assert_eq!(mesh_plan("plane", None, None, None).unwrap().segments, 1);
    assert_eq!(mesh_plan("cylinder", None, None, Some(-1)).unwrap().segments, u32::MAX);
    assert_eq!(mesh_plan("cube", None, None, None).unwrap().kind, PrimitiveKind::Cube);
    assert_eq!(mesh_plan("torus", None, None, None).unwrap_err(), "unknown primitive type 'torus': expected sphere|cube|plane|cylinder");
    let t = texture_plan("checkerboard", Some(256), None, None).unwrap();
    assert_eq!((t.kind, t.width, t.height, t.checker_size), (TextureKind::Checkerboard, 256, 512, 32));
    assert_eq!(texture_plan("noise", None, None, None).unwrap().octaves, 3);
    assert_eq!(texture_plan("wood", None, None, None).unwrap_err(), "unknown texture type 'wood': expected solid|checkerboard|gradient|noise");
}

#[test]
fn bundle_refs_and_accessors() {
    let fields = vec![
        BundleField { name: "hull".to_string(), mesh_ref: true, texture_ref: true },
        BundleField { name: "note".to_string(), mesh_ref: false, texture_ref: false },
        BundleField { name: "paint".to_string(), mesh_ref: false, texture_ref: true },
    ];
    let r = collect_bundle_refs(&fields);
    assert_eq!(r.len(), 2);
    assert_eq!((r[0].field.as_str(), r[0].kind, r[0].accessor.as_str()), ("hull", AssetKind::Mesh, "get_hull"));
    assert_eq!((r[1].field.as_str(), r[1].kind, r[1].accessor.as_str()), ("paint", AssetKind::Texture, "get_paint"));
}

#[test]
fn engine_window_defaults() {
    let w = window_from_attrs(None, Some(480), None);
    assert_eq!((w.width, w.height, w.vsync), (1280, 480, true));
}

#[test]
fn gpu_hints_from_type_names() {
    assert_eq!(buffer_read_stage("app::VertexData"), 0x4);
    assert_eq!(buffer_read_stage("CameraUbo"), 0x88);
    assert_eq!(buffer_read_stage("Particles"), 0x10000);
    assert_eq!(buffer_read_access("IndexList"), 0x2);
    assert_eq!(buffer_read_access("StorageBlock"), 0x60);
    assert_eq!(image_target_layout("ShadowDepth"), 3);
    assert_eq!(image_target_layout("AlbedoTexture"), 5);
    assert_eq!(image_target_layout("Scratch"), 1);
    assert_eq!(image_read_stage("StorageImg"), 0x800);
    assert_eq!(image_write_stage("DepthStencilBuf"), 0x300);
    assert_eq!(image_read_access("SampledStorage"), 0x20);
    assert_eq!(image_write_access("MainRenderTarget"), 0x100);
    assert!(contains_str("abcabd", "abd"));
    assert!(!contains_str("ab", "abc"));
    assert!(contains_str("x", ""));
}

#[test]
fn proto_rules() {
    assert!(matches!(topology_from_proto(ProtoTopology::Unspecified), Topology::TriangleList));
    assert!(matches!(topology_from_proto(ProtoTopology::PointList), Topology::PointList));
    let r = raster_from_proto(ProtoPolygonMode::Unspecified, ProtoCullMode::NoCulling, ProtoFrontFace::Ccw);
    assert!(matches!(r.cull, CullMode::Disabled));
    assert_eq!(samples_from_proto(0), None);
    assert_eq!(samples_from_proto(4), Some(4));
    assert_eq!(shader_paths_from_proto(&None, &None).unwrap_err(), ConvertError::MissingField("vs"));
    assert_eq!(
        shader_paths_from_proto(&Some(ShaderSource::Path("a.vert".into())), &Some(ShaderSource::Spirv(vec![1]))).unwrap_err(),
        ConvertError::Invalid("fs_spirv not supported yet")
    );
    let (v, f) = shader_paths_from_proto(&Some(ShaderSource::Path("a.vert".into())), &Some(ShaderSource::Path("a.frag".into()))).unwrap();
    assert_eq!((v.as_str(), f.as_str()), ("a.vert", "a.frag"));
    assert_eq!(window_from_proto(None).unwrap_err(), ConvertError::MissingField("window"));
    assert_eq!(window_from_proto(Some((1, 2, false))).unwrap().height, 2);
}

#[test]
fn pass_outputs_fill_defaults_and_synthesize_depth() {
    let decls = vec![OutputDecl { name: "hdr".into(), format: "rgba16f".into(), size: None, usage: None, samples: None }];
    let o = pass_outputs(&decls, true);
    assert_eq!(o.len(), 2);
    assert_eq!((o[0].size.as_str(), o[0].usage.as_str(), o[0].samples, o[0].is_depth), ("rel(1.0,1.0)", "color", 1, false));
    assert_eq!((o[1].name.as_str(), o[1].format.as_str(), o[1].is_depth), ("depth", "D32_SFLOAT", true));
    let with_depth = vec![OutputDecl { name: "d".into(), format: "D16_UNORM".into(), size: Some("swapchain".into()), usage: Some("DEPTH|sampled".into()), samples: Some(4) }];
    let o2 = pass_outputs(&with_depth, true);
    assert_eq!(o2.len(), 1);
    assert!(o2[0].is_depth);
    assert_eq!(o2[0].samples, 4);
    assert_eq!(pass_outputs(&decls, false).len(), 1);
}

#[test]
fn stage_and_job_attributes() {
    let d = stage_decl_from_entries(&vec![entry("after", "a, b"), entry("before", "z"), entry("after", "c")], Some("physics"), 3).unwrap();
    assert_eq!(d.name, "physics");
    assert_eq!(d.after, vec!["a".to_string(), "b".to_string(), "c".to_string()]);
    assert_eq!(d.before, vec!["z".to_string()]);
    let t = stage_decl_from_entries(&vec![], None, 12).unwrap();
    assert_eq!(t.name, "stage12");
    let n = stage_decl_from_entries(&vec![entry("name", "x"), entry("name", "y")], Some("f"), 0).unwrap();
    assert_eq!(n.name, "y");
    assert_eq!(stage_decl_from_entries(&vec![entry("when", "now")], None, 0).unwrap_err(), "unknown key in #[stage(...)]");
    assert_eq!(job_method(&vec![]).unwrap(), "run");
    assert_eq!(job_method(&vec![entry("method", "go")]).unwrap(), "go");
    assert_eq!(job_method(&vec![entry("threads", "2")]).unwrap_err(), "unknown key in #[job(...)]");
}

fn binding(set: u32, binding: u32) -> BindingDesc {
    BindingDesc { field: "f", set, binding, kind: ResourceKind::Uniform, stages: None }
}

#[test]
fn descriptor_sets_group_and_sort() {
    let bs = vec![binding(1, 2), binding(0, 5), binding(1, 0), binding(0, 5), binding(0, 1)];
    let l = descriptor_set_layout(&bs);
    assert_eq!(l, vec![(0, vec![4, 1, 3]), (1, vec![2, 0])]);
}

#[test]
fn memory_types_and_demo_resources() {
    let props = vec![0x1, 0x6, 0x7];
    assert_eq!(find_memory_type(0b110, &props, 3, 0x6), Some(1));
    assert_eq!(find_memory_type(0b100, &props, 3, 0x1), Some(2));
    assert_eq!(find_memory_type(0b001, &props, 3, 0x2), None);
    assert_eq!(uniform_size(None), 64);
    let mut r = AppResources::default();
    r.uniform_data = Some(vec![1, 2, 3]);
    assert_eq!(uniform_size(Some(&r)), 3);
    assert_eq!(uniform_initial_bytes(Some(&r), 5), vec![1, 2, 3, 0, 0]);
    assert_eq!(demo_image(None), (1, 1, vec![255, 0, 255, 255]));
    r.image_rgba = Some([9, 8, 7, 6]);
    assert_eq!(demo_image(Some(&r)), (1, 1, vec![9, 8, 7, 6]));
    r.image_size = Some((2, 1));
    r.image_pixels = Some(vec![0; 8]);
    assert_eq!(demo_image(Some(&r)), (2, 1, vec![0; 8]));
    r.image_pixels = Some(vec![0; 7]);
    assert_eq!(demo_image(Some(&r)), (1, 1, vec![255, 0, 255, 255]));
}
