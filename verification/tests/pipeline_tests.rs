use macrokid_graphics::pipeline::{
    color_target_blend, parse_bool_word, parse_compare_op, parse_cull_mode, parse_dynamic_states, parse_stage_mask,
    parse_topology, pipeline_state_from_attrs, CompareOp, CullMode, PipelineAttrError, PipelineAttrs, Topology,
};

fn chars(s: &str) -> Vec<char> {
    s.chars().collect()
}

fn no_attrs() -> PipelineAttrs {
    PipelineAttrs {
        topology: None,
        depth: None,
        polygon: None,
        cull: None,
        front_face: None,
        blend: None,
        samples: None,
        depth_test: None,
        depth_write: None,
        depth_compare: None,
        dynamic: None,
        push_constants_size: None,
        push_constants_stages: None,
    }
}

#[test]
fn attribute_words() {
    assert!(matches!(parse_topology(&chars("LineList")), Some(Topology::LineList)));
    assert!(parse_topology(&chars("linelist")).is_none());
    assert!(matches!(parse_cull_mode(&chars("None")), Some(CullMode::Disabled)));
    assert!(matches!(parse_compare_op(&chars("LessOrEqual")), Some(CompareOp::LessOrEqual)));
    let m = parse_stage_mask(&chars("vs|cs"));
    assert!(m.vs && !m.fs && m.cs);
    let d = parse_dynamic_states(&chars("viewport"));
    assert!(d.viewport && !d.scissor);
    assert_eq!(parse_bool_word(&chars("On")), Some(true));
    assert_eq!(color_target_blend("no"), Some(false));
    assert_eq!(color_target_blend("maybe"), None);
}

#[test]
fn default_pipeline_state() {
    let s = pipeline_state_from_attrs(&no_attrs()).unwrap();
    assert!(matches!(s.topology, Topology::TriangleList));
}

#[test]
fn unknown_topology_is_refused_with_its_text() {
    let mut a = no_attrs();
    a.topology = Some("Strip".to_string());
    match pipeline_state_from_attrs(&a) {
        Err(PipelineAttrError::UnknownTopology(t)) => assert_eq!(t, "Strip"),
        other => panic!("unexpected {:?}", other.is_ok()),
    }
}
