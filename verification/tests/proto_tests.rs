use macrokid_graphics::pipeline::{CullMode, FrontFace, PolygonMode, Topology};
use macrokid_graphics::proto::{
    engine_config_from_proto, pipeline_desc_from_proto, ConvertError, ProtoCullMode, ProtoEngineConfig,
    ProtoFrontFace, ProtoPipelineDesc, ProtoPolygonMode, ProtoRasterState, ProtoShaderPaths, ProtoTopology,
    ProtoWindow, ShaderSource,
};

fn message(name: &str, shaders: Option<ProtoShaderPaths>) -> ProtoPipelineDesc {
    ProtoPipelineDesc {
        name: name.to_string(),
        shaders,
        topology: ProtoTopology::LineList,
        depth: true,
        raster: Some(ProtoRasterState {
            polygon: ProtoPolygonMode::Line,
            cull: ProtoCullMode::Unspecified,
            front_face: ProtoFrontFace::Ccw,
        }),
        blend: Some(true),
        samples: 4,
    }
}

fn paths(vs: &str, fs: &str) -> Option<ProtoShaderPaths> {
    Some(ProtoShaderPaths {
        vs: Some(ShaderSource::Path(vs.to_string())),
        fs: Some(ShaderSource::Path(fs.to_string())),
    })
}

#[test]
fn pipeline_message_converts_field_by_field() {
    let p = pipeline_desc_from_proto(message("lines", paths("l.vert", "l.frag"))).unwrap();
    assert_eq!(p.name, "lines");
    assert_eq!((p.shaders.vs, p.shaders.fs), ("l.vert", "l.frag"));
    assert!(matches!(p.topology, Topology::LineList));
    assert!(p.depth);
    let r = p.raster.unwrap();
    assert!(matches!(r.polygon, PolygonMode::Line));
    assert!(matches!(r.cull, CullMode::Back));
    assert!(matches!(r.front_face, FrontFace::Ccw));
    assert!(p.blend.unwrap().enable);
    assert_eq!(p.samples, Some(4));
    assert!(p.depth_stencil.is_none() && p.dynamic.is_none() && p.push_constants.is_none());
    assert!(p.color_targets.is_none() && p.depth_target.is_none());
}

#[test]
fn pipeline_message_without_shaders_is_refused() {
    let e = pipeline_desc_from_proto(message("x", None)).unwrap_err();
    assert_eq!(e, ConvertError::MissingField("shaders"));
    let half = Some(ProtoShaderPaths { vs: Some(ShaderSource::Path("a.vert".into())), fs: None });
    assert_eq!(pipeline_desc_from_proto(message("x", half)).unwrap_err(), ConvertError::MissingField("fs"));
}

#[test]
fn engine_message_needs_a_window_and_valid_pipelines() {
    let no_window = ProtoEngineConfig { app: "demo".into(), window: None, pipelines: vec![] };
    assert_eq!(engine_config_from_proto(no_window).unwrap_err(), ConvertError::MissingField("window"));

    let window = Some(ProtoWindow { width: 640, height: 480, vsync: true });
    let bad = ProtoEngineConfig {
        app: "demo".into(),
        window,
        pipelines: vec![message("a", paths("a.vert", "a.frag")), message("b", None)],
    };
    assert_eq!(engine_config_from_proto(bad).unwrap_err(), ConvertError::MissingField("shaders"));

    let good = ProtoEngineConfig {
        app: "demo".into(),
        window,
        pipelines: vec![message("a", paths("a.vert", "a.frag")), message("b", paths("b.vert", "b.frag"))],
    };
    let c = engine_config_from_proto(good).unwrap();
    assert_eq!(c.app, "demo");
    assert_eq!((c.window.width, c.window.height, c.window.vsync), (640, 480, true));
    assert_eq!(c.pipelines.len(), 2);
    assert_eq!((c.pipelines[0].name, c.pipelines[1].name), ("a", "b"));
    assert_eq!(c.pipelines[1].shaders.fs, "b.frag");
}
