use macrokid_graphics::render_graph::{
    decimal_chars, name_less, parse_pass_kind, parse_usage, plan_resources, size_form, usage_is_depth, OutputRef,
    PassKind, PassShape, ResourceSource, SizeForm, UsageMask, USAGE_COLOR, USAGE_DEPTH, USAGE_SAMPLED,
    USAGE_TRANSFER_DST,
};

fn chars(s: &str) -> Vec<char> {
    s.chars().collect()
}

#[test]
fn pass_kinds() {
    assert_eq!(parse_pass_kind("Graphics"), Some(PassKind::Graphics));
    assert_eq!(parse_pass_kind("compute"), Some(PassKind::Compute));
    assert_eq!(parse_pass_kind("raytrace"), None);
}

#[test]
fn usage_words() {
    assert_eq!(parse_usage("color|sampled").bits, USAGE_COLOR | USAGE_SAMPLED);
    assert_eq!(parse_usage(" Depth , xfer_dst bogus").bits, USAGE_DEPTH | USAGE_TRANSFER_DST);
    assert_eq!(parse_usage("").bits, 0);
    assert!(usage_is_depth("COLOR|depth"));
    assert!(!usage_is_depth("depthish"));
    let m = UsageMask::empty().union(UsageMask { bits: USAGE_DEPTH });
    assert!(m.contains(UsageMask { bits: USAGE_DEPTH }));
    assert!(!m.contains(UsageMask { bits: USAGE_COLOR }));
    assert!(UsageMask::empty().is_empty());
}

#[test]
fn size_forms() {
    assert!(matches!(size_form(" SwapChain "), SizeForm::Swapchain));
    match size_form("rel(0.5, 1.0)") {
        SizeForm::Rel { sx, sy } => {
            assert_eq!(sx, chars("0.5"));
            assert_eq!(sy, chars("1.0"));
        }
        other => panic!("unexpected {:?}", other),
    }
    assert!(matches!(size_form("ABS(640, 480)"), SizeForm::Abs { width: 640, height: 480 }));
    assert!(matches!(size_form("abs(640)"), SizeForm::Unknown));
    assert!(matches!(size_form("abs(a,b)"), SizeForm::Unknown));
    assert!(matches!(size_form("full"), SizeForm::Unknown));
}

#[test]
fn names_sort_by_code_point_prefix_first() {
    assert!(name_less(&chars("abc"), &chars("abd")));
    assert!(name_less(&chars("ab"), &chars("abc")));
    assert!(!name_less(&chars("b"), &chars("abc")));
    assert!(!name_less(&chars("x"), &chars("x")));
    assert!(name_less(&chars("Z"), &chars("a")));
    assert_eq!(decimal_chars(0), chars("0"));
    assert_eq!(decimal_chars(1207), chars("1207"));
}

fn out(name: &str, is_depth: bool) -> OutputRef {
    OutputRef { name: name.to_string(), is_depth }
}

#[test]
fn planner_dedupes_sorts_and_names_legacy_targets() {
    let passes = vec![
        PassShape {
            name: "gbuf".to_string(),
            outputs: Some(vec![out("gbuf.albedo", false), out("depth", true), out("gbuf.normal", false)]),
            legacy_colors: 0,
            legacy_depth: false,
        },
        PassShape { name: "lit".to_string(), outputs: None, legacy_colors: 2, legacy_depth: true },
        PassShape {
            name: "post".to_string(),
            outputs: Some(vec![out("gbuf.albedo", false), out("d1", true), out("d2", true)]),
            legacy_colors: 0,
            legacy_depth: false,
        },
    ];
    let (res, plans) = plan_resources(&passes);
    let names: Vec<&str> = res.iter().map(|r| r.name.as_str()).collect();
    assert_eq!(names, vec!["d1", "d2", "depth", "gbuf.albedo", "gbuf.normal", "lit_col0", "lit_col1", "lit_depth"]);
    let albedo = res.iter().find(|r| r.name == "gbuf.albedo").unwrap();
    assert_eq!(albedo.source, ResourceSource::Output { pass: 0, index: 0 });
    let ld = res.iter().find(|r| r.name == "lit_depth").unwrap();
    assert_eq!(ld.source, ResourceSource::LegacyDepth { pass: 1 });
    assert_eq!(plans.len(), 3);
    assert_eq!(plans[0].colors, vec!["gbuf.albedo".to_string(), "gbuf.normal".to_string()]);
    assert_eq!(plans[0].depth, Some("depth".to_string()));
    assert_eq!(plans[1].colors, vec!["lit_col0".to_string(), "lit_col1".to_string()]);
    assert_eq!(plans[1].depth, Some("lit_depth".to_string()));
    assert_eq!(plans[2].name, "post");
    assert_eq!(plans[2].depth, Some("d2".to_string()));
}
