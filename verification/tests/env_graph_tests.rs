use macrokid_graphics::assets::{Texture2D, TextureFormat};
use macrokid_graphics::engine::{
    options_from_env, options_summary, BackendOptions, EngineConfig, EnvVars, WindowCfg,
};
use macrokid_graphics::pipeline::{ColorTargetDesc, DepthTargetDesc, PipelineDesc, ShaderPaths, Topology};
use macrokid_graphics::render_graph::{graph_pass_config, GraphConfigError, PassPlan};
use macrokid_graphics::resources::{attr_size, AttrSizeError, TypeShape};

fn no_vars() -> EnvVars {
    EnvVars {
        present_mode: None,
        present_mode_priority: None,
        swapchain_images: None,
        color_format: None,
        color_space: None,
        depth_format: None,
        msaa_samples: None,
        dynamic_viewport: None,
        dynamic_scissor: None,
        adapter_index: None,
        adapter_preference: None,
    }
}

fn s(v: &str) -> Option<String> {
    Some(v.to_string())
}

#[test]
fn environment_values_become_options() {
    let mut v = no_vars();
    v.present_mode = s("MAILBOX");
    v.present_mode_priority = s(" mailbox , fifo");
    v.swapchain_images = s("3");
    v.color_format = s("");
    v.msaa_samples = s("four");
    v.dynamic_viewport = s(" Yes ");
    v.dynamic_scissor = s("maybe");
    v.adapter_index = s("1");
    v.adapter_preference = s("discrete");
    let o = options_from_env(v);
    assert_eq!(o.present_mode, Some("MAILBOX"));
    assert_eq!(o.present_mode_priority, Some(vec!["mailbox", "fifo"]));
    assert_eq!(o.swapchain_images, Some(3));
    assert_eq!(o.color_format, None);
    assert_eq!(o.color_space, None);
    assert_eq!(o.msaa_samples, None);
    assert_eq!(o.dynamic_viewport, Some(true));
    assert_eq!(o.dynamic_scissor, None);
    assert_eq!(o.adapter_index, Some(1));
    assert_eq!(o.adapter_preference, Some("discrete"));
    let none = options_from_env(no_vars());
    assert!(none.present_mode.is_none() && none.present_mode_priority.is_none() && none.adapter_index.is_none());
}

#[test]
fn summary_names_each_option_or_its_default() {
    let w = WindowCfg { width: 1, height: 1, vsync: true };
    let d = options_summary(&BackendOptions::default(), &w);
    assert_eq!(
        d,
        "[gfx] BackendOptions: present_mode=(default: FIFO via vsync) | swapchain_images=(default: min+1, clamped) | color_format=(default: prefer B8G8R8A8_SRGB) | color_space=(default: SRGB_NONLINEAR if available) | depth_format=(default: prefer D32_SFLOAT) | msaa=(default: 1x) | dynamic_viewport=(pipeline-driven) | dynamic_scissor=(pipeline-driven) | adapter_index=(any) | adapter_preference=(none)"
    );
    let mut o = BackendOptions::default();
    o.present_mode = Some("FIFO");
    o.present_mode_priority = Some(vec!["MAILBOX", "FIFO"]);
    o.swapchain_images = Some(3);
    o.msaa_samples = Some(4);
    o.dynamic_viewport = Some(false);
    o.adapter_index = Some(12);
    o.color_format = Some("B8G8R8A8_UNORM");
    let t = options_summary(&o, &WindowCfg { width: 1, height: 1, vsync: false });
    assert!(t.starts_with("[gfx] BackendOptions: present_mode=priority=[MAILBOX,FIFO] | swapchain_images=3 | color_format=B8G8R8A8_UNORM"));
    assert!(t.contains("| msaa=4 | dynamic_viewport=false | dynamic_scissor=(pipeline-driven) | adapter_index=12 |"));
    o.present_mode_priority = Some(vec![]);
    assert!(options_summary(&o, &w).contains("present_mode=FIFO |"));
    o.present_mode = None;
    let nv = WindowCfg { width: 1, height: 1, vsync: false };
    assert!(options_summary(&o, &nv).contains("present_mode=(default: MAILBOX via vsync=false)"));
}

fn base() -> PipelineDesc {
    PipelineDesc {
        name: "base",
        shaders: ShaderPaths { vs: "b.vert", fs: "b.frag" },
        topology: Topology::LineList,
        depth: true,
        raster: None,
        blend: None,
        samples: Some(4),
        depth_stencil: None,
        dynamic: None,
        push_constants: None,
        color_targets: None,
        depth_target: None,
    }
}

fn config(pipelines: Vec<PipelineDesc>) -> EngineConfig {
    EngineConfig {
        app: "graph",
        window: WindowCfg { width: 640, height: 480, vsync: true },
        pipelines,
        options: BackendOptions::default(),
    }
}

static OWN_COLORS: [ColorTargetDesc; 1] = [ColorTargetDesc { format: "own", blend: Some(true) }];

#[test]
fn graph_pass_takes_planned_targets() {
    let plan = PassPlan {
        name: "main".to_string(),
        colors: vec!["hdr".to_string(), "missing".to_string(), "albedo".to_string()],
        depth: Some("depth".to_string()),
    };
    let formats = vec![
        ("albedo".to_string(), "rgba8"),
        ("depth".to_string(), "d32"),
        ("hdr".to_string(), "rgba16f"),
        ("hdr".to_string(), "later"),
    ];
    let c = graph_pass_config(config(vec![base()]), Some(&OWN_COLORS), None, &plan, &formats).unwrap();
    assert_eq!((c.app, c.window.width, c.pipelines.len()), ("graph", 640, 1));
    let p = &c.pipelines[0];
    assert_eq!(p.name, "graph_pass_0");
    assert_eq!((p.shaders.vs, p.shaders.fs, p.samples), ("b.vert", "b.frag", Some(4)));
    assert!(matches!(p.topology, Topology::LineList));
    let t = p.color_targets.unwrap();
    assert_eq!(t.len(), 2);
    assert_eq!((t[0].format, t[1].format), ("rgba16f", "rgba8"));
    assert!(t[0].blend.is_none());
    assert_eq!(p.depth_target.as_ref().unwrap().format, "d32");
}

#[test]
fn graph_pass_falls_back_to_the_pass_and_needs_a_base() {
    let plan = PassPlan { name: "main".to_string(), colors: vec!["none".to_string()], depth: Some("none".to_string()) };
    let c = graph_pass_config(
        config(vec![base()]),
        Some(&OWN_COLORS),
        Some(DepthTargetDesc { format: "own_depth" }),
        &plan,
        &vec![],
    )
    .unwrap();
    assert_eq!(c.pipelines[0].color_targets.unwrap()[0].format, "own");
    assert_eq!(c.pipelines[0].depth_target.as_ref().unwrap().format, "own_depth");
    let e = graph_pass_config(config(vec![]), None, None, &plan, &vec![]).unwrap_err();
    assert_eq!(e, GraphConfigError::NoBasePipeline);
    assert_eq!(e.message(), "no base pipeline in EngineConfig");
}

#[test]
fn attribute_size_prefers_the_format() {
    let u = TypeShape::Path("u32".to_string());
    assert_eq!(attr_size(Some("vec3"), &u), Ok(12));
    assert_eq!(attr_size(Some("quat"), &u), Err(AttrSizeError::UnknownFormat));
    assert_eq!(attr_size(None, &u), Ok(4));
    assert_eq!(attr_size(None, &TypeShape::Other), Err(AttrSizeError::CannotInfer));
    assert_eq!(attr_size(Some("f32"), &TypeShape::Other), Ok(4));
}

#[test]
fn pixel_access_is_checked() {
    let t = Texture2D::new(2, 2, TextureFormat::RGBA8);
    assert!(t.can_access_pixel(1, 1));
    assert!(t.can_access_pixel(5, 0));
    let mut short = Texture2D::new(2, 2, TextureFormat::RGBA8);
    short.data.truncate(10);
    assert!(short.can_access_pixel(1, 0));
    assert!(!short.can_access_pixel(1, 1));
}
