use macrokid_graphics::schedule::{
    batch_systems, group_names, is_gpu_resource, schedule_order, split_resources, stage_edges, stage_groups,
    stage_list, systems_conflict, topo_groups, topo_order, ScheduleError, StageDecl,
};

fn stage(name: &str, after: &[&str], before: &[&str]) -> StageDecl {
    StageDecl {
        name: name.to_string(),
        after: after.iter().map(|s| s.to_string()).collect(),
        before: before.iter().map(|s| s.to_string()).collect(),
    }
}

fn position(o: &[usize], v: usize) -> usize {
    o.iter().position(|&x| x == v).unwrap()
}

#[test]
fn stage_list_splits_trims_and_drops_empty() {
    assert_eq!(stage_list("a, b ,c"), vec!["a".to_string(), "b".to_string(), "c".to_string()]);
    assert_eq!(stage_list(" , x,,"), vec!["x".to_string()]);
    assert!(stage_list("").is_empty());
}

#[test]
fn edges_follow_after_then_before() {
    let stages = vec![stage("input", &[], &["render"]), stage("physics", &["input"], &[]), stage("render", &[], &[])];
    let es = stage_edges(&stages).unwrap();
    assert_eq!(es, vec![(0, 2), (0, 1)]);
}

#[test]
fn unknown_after_is_reported_with_its_name() {
    let stages = vec![stage("a", &["missing"], &[])];
    match stage_edges(&stages) {
        Err(ScheduleError::UnknownAfter(n)) => assert_eq!(n, "missing"),
        other => panic!("unexpected {:?}", other),
    }
}

#[test]
fn unknown_before_is_reported_with_its_name() {
    let stages = vec![stage("a", &[], &["nope"])];
    match schedule_order(&stages) {
        Err(ScheduleError::UnknownBefore(n)) => assert_eq!(n, "nope"),
        other => panic!("unexpected {:?}", other),
    }
}

#[test]
fn duplicate_stage_names_resolve_to_the_last() {
    let stages = vec![stage("a", &[], &[]), stage("a", &[], &[]), stage("b", &["a"], &[])];
    assert_eq!(stage_edges(&stages).unwrap(), vec![(1, 2)]);
}

#[test]
fn schedule_respects_constraints() {
    let stages = vec![
        stage("render", &["physics"], &[]),
        stage("physics", &["input"], &[]),
        stage("input", &[], &[]),
        stage("audio", &[], &["render"]),
    ];
    let o = schedule_order(&stages).unwrap();
    assert_eq!(o.len(), 4);
    assert!(position(&o, 2) < position(&o, 1));
    assert!(position(&o, 1) < position(&o, 0));
    assert!(position(&o, 3) < position(&o, 0));
}

#[test]
fn independent_stages_keep_declaration_order() {
    let stages = vec![stage("a", &[], &[]), stage("b", &[], &[]), stage("c", &[], &[])];
    assert_eq!(schedule_order(&stages).unwrap(), vec![0, 1, 2]);
}

#[test]
fn kahn_order_is_breadth_first_in_declaration_order() {
    // 0 -> 2, 1 -> 3, 2 -> 3
    let o = topo_order(4, &vec![(0, 2), (1, 3), (2, 3)]).unwrap();
    assert_eq!(o, vec![0, 1, 2, 3]);
}

#[test]
fn cycle_is_detected() {
    let stages = vec![stage("a", &["b"], &[]), stage("b", &["a"], &[])];
    assert!(matches!(schedule_order(&stages), Err(ScheduleError::Cycle)));
    assert!(matches!(topo_order(3, &vec![(0, 1), (1, 2), (2, 1)]), Err(ScheduleError::Cycle)));
}

#[test]
fn self_loop_is_a_cycle() {
    assert!(matches!(topo_order(1, &vec![(0, 0)]), Err(ScheduleError::Cycle)));
}

#[test]
fn topo_groups_layer_by_longest_path() {
    // 0 -> 1 -> 3, 0 -> 2, 2 -> 3, 4 alone
    let g = topo_groups(5, &vec![(0, 1), (1, 3), (0, 2), (2, 3)]);
    assert_eq!(g, vec![vec![0, 4], vec![1, 2], vec![3]]);
}

#[test]
fn topo_groups_leave_out_cycles() {
    let g = topo_groups(4, &vec![(0, 1), (1, 2), (2, 1), (2, 3)]);
    assert_eq!(g, vec![vec![0]]);
}

#[test]
fn stage_groups_use_names() {
    let stages = vec![stage("input", &[], &[]), stage("physics", &["input"], &[]), stage("ui", &[], &[])];
    let g = stage_groups(&stages).unwrap();
    assert_eq!(g, vec![vec!["input".to_string(), "ui".to_string()], vec!["physics".to_string()]]);
}

#[test]
fn group_names_maps_indices() {
    let names = vec!["x".to_string(), "y".to_string()];
    assert_eq!(group_names(&names, &vec![vec![1], vec![0]]), vec![vec!["y".to_string()], vec!["x".to_string()]]);
}

#[test]
fn conflicts_need_a_writer() {
    let reads = vec![vec![1u64], vec![1u64], vec![]];
    let writes = vec![vec![], vec![], vec![1u64]];
    assert!(!systems_conflict(&reads, &writes, 0, 1));
    assert!(systems_conflict(&reads, &writes, 0, 2));
    assert!(systems_conflict(&reads, &writes, 2, 1));
}

#[test]
fn greedy_batches_split_conflicting_systems() {
    // 0 writes A, 1 reads A, 2 reads B, 3 writes B and A
    let reads = vec![vec![], vec![10u64], vec![20u64], vec![]];
    let writes = vec![vec![10u64], vec![], vec![], vec![20u64, 10u64]];
    let b = batch_systems(&reads, &writes);
    assert_eq!(b, vec![vec![0, 2], vec![1], vec![3]]);
}

#[test]
fn readers_share_a_batch() {
    let reads = vec![vec![1u64], vec![1u64], vec![1u64]];
    let writes = vec![vec![], vec![], vec![]];
    assert_eq!(batch_systems(&reads, &writes), vec![vec![0, 1, 2]]);
    assert!(batch_systems(&vec![], &vec![]).is_empty());
}

#[test]
fn gpu_resources_are_recognized_by_name() {
    assert!(is_gpu_resource("GpuBuffer"));
    assert!(is_gpu_resource("GpuImage"));
    assert!(!is_gpu_resource("Transform"));
    let segs = vec!["Transform".to_string(), "GpuImage".to_string(), "Velocity".to_string()];
    let (cpu, gpu) = split_resources(&segs);
    assert_eq!(cpu, vec![0, 2]);
    assert_eq!(gpu, vec![1]);
}

#[test]
fn released_nodes_follow_edge_order() {
    let edges = vec![(0, 3), (0, 1), (0, 2), (1, 4), (3, 4)];
    assert_eq!(topo_order(5, &edges).unwrap(), vec![0, 3, 1, 2, 4]);
    assert_eq!(topo_groups(5, &edges), vec![vec![0], vec![3, 1, 2], vec![4]]);
}

#[test]
fn groups_flatten_to_the_order() {
    let edges = vec![(4, 0), (2, 0), (4, 1), (1, 3), (2, 3), (0, 5)];
    let order = topo_order(6, &edges).unwrap();
    let flat: Vec<usize> = topo_groups(6, &edges).into_iter().flatten().collect();
    assert_eq!(flat, order);
    assert_eq!(order, vec![2, 4, 0, 1, 5, 3]);
}

#[test]
fn schedule_errors_carry_their_messages() {
    let unknown_after = vec![stage("a", &["ghost"], &[])];
    let e = schedule_order(&unknown_after).unwrap_err();
    assert_eq!(e.message(), "unknown stage in 'after': 'ghost'");
    let unknown_before = vec![stage("a", &[], &["later"])];
    let e = schedule_order(&unknown_before).unwrap_err();
    assert_eq!(e.message(), "unknown stage in 'before': 'later'");
    let cycle = vec![stage("a", &["b"], &[]), stage("b", &["a"], &[])];
    let e = schedule_order(&cycle).unwrap_err();
    assert_eq!(e.message(), "cycle detected in #[stage(after = ...)] graph");
}
