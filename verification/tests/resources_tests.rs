use macrokid_graphics::resources::{
    binding_stages_from_str, compute_offsets, compute_strides, first_duplicate_binding, resource_kind_for_attr,
    size_from_format, size_from_type, sort_vertex_attrs, step_mode_from_attr, ResourceKind, StepMode, TypeShape,
    VertexAttrRec,
};

fn rec(field: &str, binding: u32, location: u32, size: u32) -> VertexAttrRec {
    VertexAttrRec { field: field.to_string(), binding, location, format: None, offset: 0, size }
}

#[test]
fn binding_kinds_and_stages() {
    assert!(matches!(resource_kind_for_attr("uniform"), ResourceKind::Uniform));
    assert!(matches!(resource_kind_for_attr("combined"), ResourceKind::CombinedImageSampler));
    let s = binding_stages_from_str("Vertex|frag");
    assert!(s.vs && s.fs && !s.cs);
    assert_eq!(first_duplicate_binding(&[(0, 0), (0, 1), (0, 0)]), Some(2));
    assert_eq!(first_duplicate_binding(&[(0, 0), (1, 0)]), None);
}

#[test]
fn attribute_sizes() {
    assert_eq!(size_from_format("vec3"), Some(12));
    assert_eq!(size_from_format("mat4"), Some(64));
    assert_eq!(size_from_format("quat"), None);
    let arr = TypeShape::Array(Box::new(TypeShape::Path("f32".to_string())), Some("3".to_string()));
    assert_eq!(size_from_type(&arr), Some(12));
    assert_eq!(size_from_type(&TypeShape::Path("u32".to_string())), Some(4));
    assert_eq!(size_from_type(&TypeShape::Other), None);
}

#[test]
fn step_modes() {
    assert!(matches!(step_mode_from_attr(None), Some(StepMode::Vertex)));
    assert!(matches!(step_mode_from_attr(Some("instance")), Some(StepMode::Instance)));
    assert!(step_mode_from_attr(Some("per_frame")).is_none());
}

#[test]
fn attributes_sort_and_get_offsets_and_strides() {
    let recs = vec![rec("uv", 0, 2, 8), rec("pos", 0, 0, 12), rec("inst", 1, 0, 16), rec("nrm", 0, 1, 12)];
    let mut sorted = sort_vertex_attrs(recs).unwrap();
    let order: Vec<&str> = sorted.iter().map(|r| r.field.as_str()).collect();
    assert_eq!(order, vec!["pos", "nrm", "uv", "inst"]);
    compute_offsets(&mut sorted);
    let offs: Vec<u32> = sorted.iter().map(|r| r.offset).collect();
    assert_eq!(offs, vec![0, 12, 24, 0]);
    assert_eq!(compute_strides(&sorted, None), vec![(0, 32), (1, 16)]);
    assert_eq!(compute_strides(&sorted, Some(48)), vec![(0, 48), (1, 48)]);
}

#[test]
fn duplicate_slot_is_reported() {
    let recs = vec![rec("a", 0, 1, 4), rec("b", 0, 0, 4), rec("c", 0, 1, 4)];
    assert_eq!(sort_vertex_attrs(recs).unwrap_err(), 2);
}

#[test]
fn offsets_of_one_binding_do_not_overlap() {
    let mut recs = vec![rec("c", 0, 2, 4), rec("a", 0, 0, 12), rec("x", 1, 0, 16), rec("b", 0, 1, 8)];
    compute_offsets(&mut recs);
    let offs: Vec<u32> = recs.iter().map(|r| r.offset).collect();
    assert_eq!(offs, vec![20, 0, 0, 12]);
    for a in &recs {
        for b in &recs {
            if a.binding == b.binding && a.location < b.location {
                assert!(a.offset + a.size <= b.offset);
            }
        }
    }
}
