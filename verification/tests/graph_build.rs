use sem::graph::{
    get_or_build_direct_dependency_graph_with_timings, get_or_build_graph,
    get_or_build_graph_topology_with_timings,
    get_or_build_graph_topology_with_topology_save_on_miss_with_timings,
    get_or_build_graph_with_test_data_and_topology_save_on_miss_with_timings,
    get_or_build_graph_with_timings, get_or_build_graph_with_topology_save_on_miss_with_timings,
    graph_command, graph_summary, graph_summary_line, normalize_exts, CacheStage, CommandOp, CommandStage, DirectStage, GraphOp,
    GraphOptions, GraphSource, GraphStep, Outcome, Phase, TestDataStage, TopologyStage,
};

/// Runs a machine from its start with the given outcomes until it returns,
/// collecting the operations and the recorded phase names.
fn run<S: Copy>(
    start: S,
    mut step: impl FnMut(S, bool) -> GraphStep<S>,
    outcomes: &[bool],
) -> (Vec<GraphOp>, Vec<&'static str>) {
    let mut stage = start;
    let mut ops = Vec::new();
    let mut marks = Vec::new();
    let mut i = 0;
    loop {
        let ok = if i < outcomes.len() { outcomes[i] } else { true };
        i += 1;
        let s = step(stage, ok);
        if let Some(p) = s.mark {
            marks.push(p.name());
        }
        ops.push(s.op);
        stage = s.stage;
        if let GraphOp::Return(_) = s.op {
            return (ops, marks);
        }
        assert!(i < 50, "machine did not finish");
    }
}

#[test]
fn normalize_exts_adds_missing_dots() {
    let exts = vec!["ts".to_string(), ".py".to_string(), "".to_string(), "..x".to_string()];
    assert_eq!(normalize_exts(&exts), vec![".ts", ".py", ".", "..x"]);
}

#[test]
fn impact_deps_no_cache_uses_direct_dependency_graph() {
    let (ops, marks) = run(
        DirectStage::Start,
        |s, ok| get_or_build_direct_dependency_graph_with_timings(true, s, ok),
        &[],
    );
    assert_eq!(ops, vec![GraphOp::BuildDirect, GraphOp::Return(GraphSource::DirectBuild)]);
    assert!(marks.iter().any(|m| *m == "direct_dependency_graph_build"));
    assert!(!marks.iter().any(|m| *m == "full_graph_build"));
}

#[test]
fn direct_build_uses_cached_topology_when_present() {
    let (ops, marks) = run(
        DirectStage::Start,
        |s, ok| get_or_build_direct_dependency_graph_with_timings(false, s, ok),
        &[true, true, true],
    );
    assert_eq!(
        ops,
        vec![GraphOp::OpenCache, GraphOp::LoadTopology, GraphOp::Return(GraphSource::TopologyCache)]
    );
    assert_eq!(marks, vec!["cache_open", "cache_topology_load"]);
}

#[test]
fn full_cache_hit() {
    let (ops, marks) = run(CacheStage::Start, |s, ok| get_or_build_graph_with_timings(false, s, ok), &[
        true, true, true,
    ]);
    assert_eq!(ops, vec![GraphOp::OpenCache, GraphOp::LoadFull, GraphOp::Return(GraphSource::FullCache)]);
    assert_eq!(marks, vec!["cache_open", "cache_full_load"]);
}

#[test]
fn partial_cache_hit_rebuilds_incrementally() {
    let (ops, marks) = run(CacheStage::Start, |s, ok| get_or_build_graph(false, s, ok), &[
        true, true, false, true, true, true,
    ]);
    assert_eq!(
        ops,
        vec![
            GraphOp::OpenCache,
            GraphOp::LoadFull,
            GraphOp::LoadPartial,
            GraphOp::BuildIncremental,
            GraphOp::SaveIncremental,
            GraphOp::Return(GraphSource::Incremental),
        ]
    );
    assert_eq!(
        marks,
        vec!["cache_open", "cache_partial_load", "incremental_graph_rebuild", "cache_incremental_save"]
    );
}

#[test]
fn cache_miss_builds_and_saves_per_policy() {
    let outs = [true, true, false, false, true, true, true];
    let (ops, marks) = run(CacheStage::Start, |s, ok| get_or_build_graph_with_timings(false, s, ok), &outs);
    assert_eq!(
        ops,
        vec![
            GraphOp::OpenCache,
            GraphOp::LoadFull,
            GraphOp::LoadPartial,
            GraphOp::BuildFull,
            GraphOp::OpenCache,
            GraphOp::SaveFull,
            GraphOp::Return(GraphSource::FullBuild),
        ]
    );
    assert_eq!(marks, vec!["cache_open", "full_graph_build", "cache_full_save"]);
    let (ops, marks) = run(
        CacheStage::Start,
        |s, ok| get_or_build_graph_with_topology_save_on_miss_with_timings(false, s, ok),
        &outs,
    );
    assert_eq!(ops[5], GraphOp::SaveTopology);
    assert_eq!(marks, vec!["cache_open", "full_graph_build", "cache_topology_save"]);
}

#[test]
fn unopenable_cache_builds_without_saving() {
    let (ops, marks) = run(CacheStage::Start, |s, ok| get_or_build_graph_with_timings(false, s, ok), &[
        true, false, true, false,
    ]);
    assert_eq!(
        ops,
        vec![
            GraphOp::OpenCache,
            GraphOp::BuildFull,
            GraphOp::OpenCache,
            GraphOp::Return(GraphSource::FullBuild),
        ]
    );
    assert_eq!(marks, vec!["full_graph_build"]);
}

#[test]
fn no_cache_builds_without_touching_the_cache() {
    let (ops, marks) = run(CacheStage::Start, |s, ok| get_or_build_graph_with_timings(true, s, ok), &[]);
    assert_eq!(ops, vec![GraphOp::BuildFull, GraphOp::Return(GraphSource::FullBuild)]);
    assert_eq!(marks, vec!["full_graph_build"]);
}

#[test]
fn topology_first_hit_and_fallback() {
    let (ops, _) = run(
        TopologyStage::Start,
        |s, ok| get_or_build_graph_topology_with_timings(false, s, ok),
        &[true, true, true],
    );
    assert_eq!(
        ops,
        vec![GraphOp::OpenCache, GraphOp::LoadTopology, GraphOp::Return(GraphSource::TopologyCache)]
    );
    let (ops, marks) = run(
        TopologyStage::Start,
        |s, ok| get_or_build_graph_topology_with_topology_save_on_miss_with_timings(false, s, ok),
        &[true, true, false, true, false, false, true, true, true],
    );
    assert_eq!(
        ops,
        vec![
            GraphOp::OpenCache,
            GraphOp::LoadTopology,
            GraphOp::OpenCache,
            GraphOp::LoadFull,
            GraphOp::LoadPartial,
            GraphOp::BuildFull,
            GraphOp::OpenCache,
            GraphOp::SaveTopology,
            GraphOp::Return(GraphSource::FullBuild),
        ]
    );
    assert_eq!(
        marks,
        vec!["cache_open", "cache_open", "full_graph_build", "cache_topology_save"]
    );
}

#[test]
fn test_data_uses_topology_with_test_ids() {
    let (ops, marks) = run(
        TestDataStage::Start,
        |s, ok| get_or_build_graph_with_test_data_and_topology_save_on_miss_with_timings(false, s, ok),
        &[true, true, false, true],
    );
    assert_eq!(
        ops,
        vec![
            GraphOp::OpenCache,
            GraphOp::LoadFull,
            GraphOp::LoadTopologyWithTestIds,
            GraphOp::Return(GraphSource::TopologyWithTestIds),
        ]
    );
    assert_eq!(marks, vec!["cache_open", "cache_topology_load"]);
}

#[test]
fn phase_names() {
    assert_eq!(Phase::CacheOpen.name(), "cache_open");
    assert_eq!(Phase::DirectDependencyGraphBuild.name(), "direct_dependency_graph_build");
    assert_eq!(Phase::CacheTopologySave.name(), "cache_topology_save");
}

fn options(json: bool, no_cache: bool) -> GraphOptions {
    GraphOptions {
        cwd: ".".to_string(),
        json,
        file_exts: vec![],
        no_cache,
        no_default_excludes: false,
    }
}

/// Runs the graph command machine with the given outcomes.
fn run_command(opts: &GraphOptions, outcomes: &[Outcome]) -> (Vec<CommandOp>, Vec<&'static str>) {
    let mut stage = CommandStage::Start;
    let mut ops = Vec::new();
    let mut marks = Vec::new();
    let mut i = 0;
    loop {
        let out = if i < outcomes.len() { outcomes[i] } else { Outcome::Success };
        i += 1;
        let s = graph_command(opts, stage, out);
        if let Some(p) = s.mark {
            marks.push(p.name());
        }
        ops.push(s.op);
        stage = s.stage;
        if matches!(s.op, CommandOp::Finish | CommandOp::Exit(_)) {
            return (ops, marks);
        }
    }
}

#[test]
fn graph_command_json_streams_cached_topology() {
    let (ops, marks) = run_command(&options(true, false), &[Outcome::Success, Outcome::Success, Outcome::Success]);
    assert_eq!(ops, vec![CommandOp::OpenCache, CommandOp::StreamCachedJson, CommandOp::Finish]);
    assert_eq!(marks, vec!["file_discovery", "cache_open", "cache_topology_json_stream"]);
}

#[test]
fn graph_command_json_falls_back_to_build_on_miss() {
    let (ops, marks) = run_command(&options(true, false), &[Outcome::Success, Outcome::Success, Outcome::Miss]);
    assert_eq!(
        ops,
        vec![
            CommandOp::OpenCache,
            CommandOp::StreamCachedJson,
            CommandOp::BuildTopology,
            CommandOp::WriteJson,
            CommandOp::Finish,
        ]
    );
    assert_eq!(marks, vec!["file_discovery", "cache_open", "cli_output_serialization"]);
    let (ops, _) = run_command(&options(true, false), &[Outcome::Success, Outcome::Miss]);
    assert_eq!(ops, vec![CommandOp::OpenCache, CommandOp::BuildTopology, CommandOp::WriteJson, CommandOp::Finish]);
}

#[test]
fn graph_command_stream_error_exits_with_status_one() {
    let (ops, _) = run_command(&options(true, false), &[Outcome::Success, Outcome::Success, Outcome::Error]);
    assert_eq!(ops, vec![CommandOp::OpenCache, CommandOp::StreamCachedJson, CommandOp::Exit(1)]);
}

#[test]
fn graph_command_summary_and_no_cache_build_directly() {
    let (ops, marks) = run_command(&options(false, false), &[]);
    assert_eq!(ops, vec![CommandOp::BuildTopology, CommandOp::PrintSummary, CommandOp::Finish]);
    assert_eq!(marks, vec!["file_discovery", "cli_output_serialization"]);
    let (ops, _) = run_command(&options(true, true), &[]);
    assert_eq!(ops, vec![CommandOp::BuildTopology, CommandOp::WriteJson, CommandOp::Finish]);
}

#[test]
fn graph_summary_line_counts_entities_and_edges() {
    assert_eq!(graph_summary_line(1240, 86), "⊕ 1240 entities, 86 edges");
    assert_eq!(graph_summary_line(0, 0), "⊕ 0 entities, 0 edges");
    let p = graph_summary(7, 10);
    assert_eq!(format!("{} {} entities, {} edges", p.mark, p.entities, p.edges), graph_summary_line(7, 10));
}
