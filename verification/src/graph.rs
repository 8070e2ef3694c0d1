//! Options of the `graph` command, extension filters, and the decisions of
//! building an entity graph through the disk cache.
//!
//! Building a graph alternates work on the disk cache and the parser with
//! decisions: open the cache, try a full load, fall back to an incremental
//! rebuild of stale files, else build everything and save it.  The
//! decisions are the step functions below.  A caller starts a machine at its
//! `Start` stage, performs the operation that each step names, and feeds the
//! outcome back (`true` where the cache opened or a load found data; the
//! outcome of a build or a save is not looked at).  Each step also names the
//! timing phase, if any, to record for the operation just finished.
use std::collections::HashSet;
use vstd::prelude::*;
use crate::text::{chars_of, decimal, push_decimal, push_text, string_from_chars};

verus! {

/// Options of the `graph` command.
pub struct GraphOptions {
    pub cwd: String,
    pub json: bool,
    pub file_exts: Vec<String>,
    pub no_cache: bool,
    pub no_default_excludes: bool,
}

/// A graph together with what the caller asked for beside it: all of its
/// entities, or only the ids of the test entities where the cache held the
/// topology alone.
pub enum GraphWithTestData<G, E> {
    Full(G, Vec<E>),
    Topology { graph: G, test_entity_ids: HashSet<String> },
}

/// The extension `e` with a leading `.`.
pub open spec fn dotted_ext(e: Seq<char>) -> Seq<char> {
    if e.len() > 0 && e[0] == '.' {
        e
    } else {
        seq!['.'] + e
    }
}

/// Normalizes extension strings: each gets a leading `.` where it has none.
pub fn normalize_exts(exts: &[String]) -> (r: Vec<String>)
    ensures
        r@.len() == exts@.len(),
        forall|i: int| 0 <= i < exts@.len() ==> #[trigger] r@[i]@ == dotted_ext(exts@[i]@),
{
    let mut out: Vec<String> = Vec::new();
    let n = exts.len();
    for i in 0..n
        invariant
            n == exts@.len(),
            out@.len() == i,
            forall|j: int| 0 <= j < i ==> #[trigger] out@[j]@ == dotted_ext(exts@[j]@),
    {
        let e = &exts[i];
        let cs = chars_of(e.as_str());
        if cs.len() > 0 && cs[0] == '.' {
            out.push(e.clone());
        } else {
            let mut d: Vec<char> = Vec::new();
            d.push('.');
            let m = cs.len();
            for k in 0..m
                invariant
                    m == cs@.len(),
                    d@ == seq!['.'] + cs@.take(k as int),
            {
                d.push(cs[k]);
                assert(cs@.take(k + 1) == cs@.take(k as int).push(cs@[k as int]));
                assert(seq!['.'] + cs@.take(k + 1) =~= (seq!['.'] + cs@.take(k as int)).push(cs@[k as int]));
            }
            assert(cs@.take(m as int) == cs@);
            out.push(string_from_chars(d.as_slice()));
        }
    }
    out
}

/// A normalized extension starts with `.`, and normalizing it again
/// leaves it as it is.
pub proof fn law_normalized_ext_is_dotted_and_stable(e: Seq<char>)
    ensures
        dotted_ext(e).len() > 0,
        dotted_ext(e)[0] == '.',
        dotted_ext(dotted_ext(e)) == dotted_ext(e),
{
    if !(e.len() > 0 && e[0] == '.') {
        assert((seq!['.'] + e)[0] == '.');
    }
}

// ------------------------------------------------------------------
// Operations, phases, results
// ------------------------------------------------------------------

/// Where the graph that a build hands back came from.
#[derive(Clone, Copy, Debug, PartialEq, Eq, Structural)]
pub enum GraphSource {
    /// A full load of graph and entities from the cache.
    FullCache,
    /// A load of the graph topology alone from the cache.
    TopologyCache,
    /// A load of the topology with the ids of test entities from the cache.
    TopologyWithTestIds,
    /// An incremental rebuild of the stale files over cached data.
    Incremental,
    /// A full build from the sources.
    FullBuild,
    /// A build of the direct dependencies that the caller asks to resolve.
    DirectBuild,
}

/// An operation that the caller performs for a graph build.
#[derive(Clone, Copy, Debug, PartialEq, Eq, Structural)]
pub enum GraphOp {
    /// Open the disk cache of the repository; the outcome is whether it opened.
    OpenCache,
    /// Load graph and entities; the outcome is whether they were there.
    LoadFull,
    /// Load the graph topology; the outcome is whether it was there.
    LoadTopology,
    /// Load the topology with the test entity ids; the outcome is whether they were there.
    LoadTopologyWithTestIds,
    /// Load the clean part of the cache with the list of stale files; the
    /// outcome is whether it was there.
    LoadPartial,
    /// Rebuild the stale files over the partial load.
    BuildIncremental,
    /// Save the incremental rebuild with its repair metadata.
    SaveIncremental,
    /// Build graph and entities from all files.
    BuildFull,
    /// Build the graph of direct dependencies.
    BuildDirect,
    /// Save graph and entities.
    SaveFull,
    /// Save the graph topology.
    SaveTopology,
    /// Hand back the graph that came from the given source.
    Return(GraphSource),
}

/// A timing phase recorded after an operation.
#[derive(Clone, Copy, Debug, PartialEq, Eq, Structural)]
pub enum Phase {
    CacheOpen,
    CacheFullLoad,
    CacheTopologyLoad,
    CachePartialLoad,
    IncrementalGraphRebuild,
    CacheIncrementalSave,
    FullGraphBuild,
    CacheFullSave,
    CacheTopologySave,
    DirectDependencyGraphBuild,
    FileDiscovery,
    CacheTopologyJsonStream,
    CliOutputSerialization,
}

/// The name under which a phase is recorded.
pub open spec fn phase_label(p: Phase) -> Seq<char> {
    match p {
        Phase::CacheOpen => "cache_open"@,
        Phase::CacheFullLoad => "cache_full_load"@,
        Phase::CacheTopologyLoad => "cache_topology_load"@,
        Phase::CachePartialLoad => "cache_partial_load"@,
        Phase::IncrementalGraphRebuild => "incremental_graph_rebuild"@,
        Phase::CacheIncrementalSave => "cache_incremental_save"@,
        Phase::FullGraphBuild => "full_graph_build"@,
        Phase::CacheFullSave => "cache_full_save"@,
        Phase::CacheTopologySave => "cache_topology_save"@,
        Phase::DirectDependencyGraphBuild => "direct_dependency_graph_build"@,
        Phase::FileDiscovery => "file_discovery"@,
        Phase::CacheTopologyJsonStream => "cache_topology_json_stream"@,
        Phase::CliOutputSerialization => "cli_output_serialization"@,
    }
}

impl Phase {
    /// The name under which the phase is recorded.
    pub fn name(&self) -> (r: &'static str)
        ensures
            r@ == phase_label(*self),
    {
        match self {
            Phase::CacheOpen => "cache_open",
            Phase::CacheFullLoad => "cache_full_load",
            Phase::CacheTopologyLoad => "cache_topology_load",
            Phase::CachePartialLoad => "cache_partial_load",
            Phase::IncrementalGraphRebuild => "incremental_graph_rebuild",
            Phase::CacheIncrementalSave => "cache_incremental_save",
            Phase::FullGraphBuild => "full_graph_build",
            Phase::CacheFullSave => "cache_full_save",
            Phase::CacheTopologySave => "cache_topology_save",
            Phase::DirectDependencyGraphBuild => "direct_dependency_graph_build",
            Phase::FileDiscovery => "file_discovery",
            Phase::CacheTopologyJsonStream => "cache_topology_json_stream",
            Phase::CliOutputSerialization => "cli_output_serialization",
        }
    }
}

/// What one step decides: the next stage, the phase to record for the
/// operation just finished, and the operation to perform next.
#[derive(Clone, Copy, Debug, PartialEq, Eq)]
pub struct GraphStep<S> {
    pub stage: S,
    pub mark: Option<Phase>,
    pub op: GraphOp,
}

/// What is saved after a full build on a cache miss.
#[derive(Clone, Copy, Debug, PartialEq, Eq, Structural)]
pub enum CacheMissSavePolicy {
    /// Graph and entities.
    Full,
    /// The graph topology only.
    Topology,
}

// ------------------------------------------------------------------
// Full load, incremental rebuild, or full build
// ------------------------------------------------------------------

/// Stages of a build that tries a full cache load, then an incremental
/// rebuild, then a full build.
#[derive(Clone, Copy, Debug, PartialEq, Eq, Structural)]
pub enum CacheStage {
    Start,
    Opening,
    FullLoading,
    PartialLoading,
    Rebuilding,
    IncrementalSaving,
    Building,
    SaveOpening,
    Saving,
    Done(GraphSource),
}

pub open spec fn mk<S>(stage: S, mark: Option<Phase>, op: GraphOp) -> GraphStep<S> {
    GraphStep { stage, mark, op }
}

/// The transitions of a build through the cache with the given save policy.
pub open spec fn cache_policy_step(
    no_cache: bool,
    policy: CacheMissSavePolicy,
    stage: CacheStage,
    ok: bool,
) -> GraphStep<CacheStage> {
    match stage {
        CacheStage::Start => if no_cache {
            mk(CacheStage::Building, None, GraphOp::BuildFull)
        } else {
            mk(CacheStage::Opening, None, GraphOp::OpenCache)
        },
        CacheStage::Opening => if ok {
            mk(CacheStage::FullLoading, Some(Phase::CacheOpen), GraphOp::LoadFull)
        } else {
            mk(CacheStage::Building, None, GraphOp::BuildFull)
        },
        CacheStage::FullLoading => if ok {
            mk(
                CacheStage::Done(GraphSource::FullCache),
                Some(Phase::CacheFullLoad),
                GraphOp::Return(GraphSource::FullCache),
            )
        } else {
            mk(CacheStage::PartialLoading, None, GraphOp::LoadPartial)
        },
        CacheStage::PartialLoading => if ok {
            mk(CacheStage::Rebuilding, Some(Phase::CachePartialLoad), GraphOp::BuildIncremental)
        } else {
            mk(CacheStage::Building, None, GraphOp::BuildFull)
        },
        CacheStage::Rebuilding => mk(
            CacheStage::IncrementalSaving,
            Some(Phase::IncrementalGraphRebuild),
            GraphOp::SaveIncremental,
        ),
        CacheStage::IncrementalSaving => mk(
            CacheStage::Done(GraphSource::Incremental),
            Some(Phase::CacheIncrementalSave),
            GraphOp::Return(GraphSource::Incremental),
        ),
        CacheStage::Building => if no_cache {
            mk(
                CacheStage::Done(GraphSource::FullBuild),
                Some(Phase::FullGraphBuild),
                GraphOp::Return(GraphSource::FullBuild),
            )
        } else {
            mk(CacheStage::SaveOpening, Some(Phase::FullGraphBuild), GraphOp::OpenCache)
        },
        CacheStage::SaveOpening => if ok {
            mk(
                CacheStage::Saving,
                None,
                match policy {
                    CacheMissSavePolicy::Full => GraphOp::SaveFull,
                    CacheMissSavePolicy::Topology => GraphOp::SaveTopology,
                },
            )
        } else {
            mk(
                CacheStage::Done(GraphSource::FullBuild),
                None,
                GraphOp::Return(GraphSource::FullBuild),
            )
        },
        CacheStage::Saving => mk(
            CacheStage::Done(GraphSource::FullBuild),
            Some(
                match policy {
                    CacheMissSavePolicy::Full => Phase::CacheFullSave,
                    CacheMissSavePolicy::Topology => Phase::CacheTopologySave,
                },
            ),
            GraphOp::Return(GraphSource::FullBuild),
        ),
        CacheStage::Done(s) => mk(CacheStage::Done(s), None, GraphOp::Return(s)),
    }
}

/// One step of a build through the cache that saves per `save_policy` on a miss.
fn get_or_build_graph_with_cache_policy(
    no_cache: bool,
    save_policy: CacheMissSavePolicy,
    stage: CacheStage,
    ok: bool,
) -> (r: GraphStep<CacheStage>)
    ensures
        r == cache_policy_step(no_cache, save_policy, stage, ok),
{
    match stage {
        CacheStage::Start => if no_cache {
            GraphStep { stage: CacheStage::Building, mark: None, op: GraphOp::BuildFull }
        } else {
            GraphStep { stage: CacheStage::Opening, mark: None, op: GraphOp::OpenCache }
        },
        CacheStage::Opening => if ok {
            GraphStep {
                stage: CacheStage::FullLoading,
                mark: Some(Phase::CacheOpen),
                op: GraphOp::LoadFull,
            }
        } else {
            GraphStep { stage: CacheStage::Building, mark: None, op: GraphOp::BuildFull }
        },
        CacheStage::FullLoading => if ok {
            GraphStep {
                stage: CacheStage::Done(GraphSource::FullCache),
                mark: Some(Phase::CacheFullLoad),
                op: GraphOp::Return(GraphSource::FullCache),
            }
        } else {
            GraphStep { stage: CacheStage::PartialLoading, mark: None, op: GraphOp::LoadPartial }
        },
        CacheStage::PartialLoading => if ok {
            GraphStep {
                stage: CacheStage::Rebuilding,
                mark: Some(Phase::CachePartialLoad),
                op: GraphOp::BuildIncremental,
            }
        } else {
            GraphStep { stage: CacheStage::Building, mark: None, op: GraphOp::BuildFull }
        },
        CacheStage::Rebuilding => GraphStep {
            stage: CacheStage::IncrementalSaving,
            mark: Some(Phase::IncrementalGraphRebuild),
            op: GraphOp::SaveIncremental,
        },
        CacheStage::IncrementalSaving => GraphStep {
            stage: CacheStage::Done(GraphSource::Incremental),
            mark: Some(Phase::CacheIncrementalSave),
            op: GraphOp::Return(GraphSource::Incremental),
        },
        CacheStage::Building => if no_cache {
            GraphStep {
                stage: CacheStage::Done(GraphSource::FullBuild),
                mark: Some(Phase::FullGraphBuild),
                op: GraphOp::Return(GraphSource::FullBuild),
            }
        } else {
            GraphStep {
                stage: CacheStage::SaveOpening,
                mark: Some(Phase::FullGraphBuild),
                op: GraphOp::OpenCache,
            }
        },
        CacheStage::SaveOpening => if ok {
            let op = match save_policy {
                CacheMissSavePolicy::Full => GraphOp::SaveFull,
                CacheMissSavePolicy::Topology => GraphOp::SaveTopology,
            };
            GraphStep { stage: CacheStage::Saving, mark: None, op }
        } else {
            GraphStep {
                stage: CacheStage::Done(GraphSource::FullBuild),
                mark: None,
                op: GraphOp::Return(GraphSource::FullBuild),
            }
        },
        CacheStage::Saving => {
            let phase = match save_policy {
                CacheMissSavePolicy::Full => Phase::CacheFullSave,
                CacheMissSavePolicy::Topology => Phase::CacheTopologySave,
            };
            GraphStep {
                stage: CacheStage::Done(GraphSource::FullBuild),
                mark: Some(phase),
                op: GraphOp::Return(GraphSource::FullBuild),
            }
        },
        CacheStage::Done(s) => GraphStep { stage: CacheStage::Done(s), mark: None, op: GraphOp::Return(s) },
    }
}

/// One step of building graph and entities, using the disk cache when
/// possible: full cache hit, else incremental rebuild of stale files, else
/// full rebuild (whose graph and entities are then saved).  No timing is
/// recorded by this form: the caller ignores the marks.
pub fn get_or_build_graph(no_cache: bool, stage: CacheStage, ok: bool) -> (r: GraphStep<CacheStage>)
    ensures
        r == cache_policy_step(no_cache, CacheMissSavePolicy::Full, stage, ok),
{
    get_or_build_graph_with_timings(no_cache, stage, ok)
}

/// One step of building graph and entities, using the disk cache when
/// possible, and saving graph and entities after a full rebuild.
pub fn get_or_build_graph_with_timings(no_cache: bool, stage: CacheStage, ok: bool) -> (r: GraphStep<
    CacheStage,
>)
    ensures
        r == cache_policy_step(no_cache, CacheMissSavePolicy::Full, stage, ok),
{
    get_or_build_graph_with_cache_policy(no_cache, CacheMissSavePolicy::Full, stage, ok)
}

/// One step of building graph and entities, using the disk cache when
/// possible, and saving only the topology after a full rebuild.
pub fn get_or_build_graph_with_topology_save_on_miss_with_timings(
    no_cache: bool,
    stage: CacheStage,
    ok: bool,
) -> (r: GraphStep<CacheStage>)
    ensures
        r == cache_policy_step(no_cache, CacheMissSavePolicy::Topology, stage, ok),
{
    get_or_build_graph_with_cache_policy(no_cache, CacheMissSavePolicy::Topology, stage, ok)
}

// ------------------------------------------------------------------
// With test data
// ------------------------------------------------------------------

/// Stages of a build that also accepts a cached topology with test ids.
#[derive(Clone, Copy, Debug, PartialEq, Eq, Structural)]
pub enum TestDataStage {
    Start,
    Opening,
    FullLoading,
    TestIdsLoading,
    PartialLoading,
    Rebuilding,
    IncrementalSaving,
    Building,
    SaveOpening,
    Saving,
    Done(GraphSource),
}

/// The transitions of a build that also accepts a cached topology with
/// test ids, and saves the topology after a full build.
pub open spec fn test_data_step(no_cache: bool, stage: TestDataStage, ok: bool) -> GraphStep<
    TestDataStage,
> {
    match stage {
        TestDataStage::Start => if no_cache {
            mk(TestDataStage::Building, None, GraphOp::BuildFull)
        } else {
            mk(TestDataStage::Opening, None, GraphOp::OpenCache)
        },
        TestDataStage::Opening => if ok {
            mk(TestDataStage::FullLoading, Some(Phase::CacheOpen), GraphOp::LoadFull)
        } else {
            mk(TestDataStage::Building, None, GraphOp::BuildFull)
        },
        TestDataStage::FullLoading => if ok {
            mk(
                TestDataStage::Done(GraphSource::FullCache),
                Some(Phase::CacheFullLoad),
                GraphOp::Return(GraphSource::FullCache),
            )
        } else {
            mk(TestDataStage::TestIdsLoading, None, GraphOp::LoadTopologyWithTestIds)
        },
        TestDataStage::TestIdsLoading => if ok {
            mk(
                TestDataStage::Done(GraphSource::TopologyWithTestIds),
                Some(Phase::CacheTopologyLoad),
                GraphOp::Return(GraphSource::TopologyWithTestIds),
            )
        } else {
            mk(TestDataStage::PartialLoading, None, GraphOp::LoadPartial)
        },
        TestDataStage::PartialLoading => if ok {
            mk(TestDataStage::Rebuilding, Some(Phase::CachePartialLoad), GraphOp::BuildIncremental)
        } else {
            mk(TestDataStage::Building, None, GraphOp::BuildFull)
        },
        TestDataStage::Rebuilding => mk(
            TestDataStage::IncrementalSaving,
            Some(Phase::IncrementalGraphRebuild),
            GraphOp::SaveIncremental,
        ),
        TestDataStage::IncrementalSaving => mk(
            TestDataStage::Done(GraphSource::Incremental),
            Some(Phase::CacheIncrementalSave),
            GraphOp::Return(GraphSource::Incremental),
        ),
        TestDataStage::Building => if no_cache {
            mk(
                TestDataStage::Done(GraphSource::FullBuild),
                Some(Phase::FullGraphBuild),
                GraphOp::Return(GraphSource::FullBuild),
            )
        } else {
            mk(TestDataStage::SaveOpening, Some(Phase::FullGraphBuild), GraphOp::OpenCache)
        },
        TestDataStage::SaveOpening => if ok {
            mk(TestDataStage::Saving, None, GraphOp::SaveTopology)
        } else {
            mk(
                TestDataStage::Done(GraphSource::FullBuild),
                None,
                GraphOp::Return(GraphSource::FullBuild),
            )
        },
        TestDataStage::Saving => mk(
            TestDataStage::Done(GraphSource::FullBuild),
            Some(Phase::CacheTopologySave),
            GraphOp::Return(GraphSource::FullBuild),
        ),
        TestDataStage::Done(s) => mk(TestDataStage::Done(s), None, GraphOp::Return(s)),
    }
}

/// One step of building a graph with its test data: a full cache load, a
/// cached topology with test ids, an incremental rebuild, or a full build
/// whose topology is then saved.  A return from `TopologyWithTestIds`
/// stands for `GraphWithTestData::Topology`, every other return for
/// `GraphWithTestData::Full`.
pub fn get_or_build_graph_with_test_data_and_topology_save_on_miss_with_timings(
    no_cache: bool,
    stage: TestDataStage,
    ok: bool,
) -> (r: GraphStep<TestDataStage>)
    ensures
        r == test_data_step(no_cache, stage, ok),
{
    match stage {
        TestDataStage::Start => if no_cache {
            GraphStep { stage: TestDataStage::Building, mark: None, op: GraphOp::BuildFull }
        } else {
            GraphStep { stage: TestDataStage::Opening, mark: None, op: GraphOp::OpenCache }
        },
        TestDataStage::Opening => if ok {
            GraphStep {
                stage: TestDataStage::FullLoading,
                mark: Some(Phase::CacheOpen),
                op: GraphOp::LoadFull,
            }
        } else {
            GraphStep { stage: TestDataStage::Building, mark: None, op: GraphOp::BuildFull }
        },
        TestDataStage::FullLoading => if ok {
            GraphStep {
                stage: TestDataStage::Done(GraphSource::FullCache),
                mark: Some(Phase::CacheFullLoad),
                op: GraphOp::Return(GraphSource::FullCache),
            }
        } else {
            GraphStep {
                stage: TestDataStage::TestIdsLoading,
                mark: None,
                op: GraphOp::LoadTopologyWithTestIds,
            }
        },
        TestDataStage::TestIdsLoading => if ok {
            GraphStep {
                stage: TestDataStage::Done(GraphSource::TopologyWithTestIds),
                mark: Some(Phase::CacheTopologyLoad),
                op: GraphOp::Return(GraphSource::TopologyWithTestIds),
            }
        } else {
            GraphStep { stage: TestDataStage::PartialLoading, mark: None, op: GraphOp::LoadPartial }
        },
        TestDataStage::PartialLoading => if ok {
            GraphStep {
                stage: TestDataStage::Rebuilding,
                mark: Some(Phase::CachePartialLoad),
                op: GraphOp::BuildIncremental,
            }
        } else {
            GraphStep { stage: TestDataStage::Building, mark: None, op: GraphOp::BuildFull }
        },
        TestDataStage::Rebuilding => GraphStep {
            stage: TestDataStage::IncrementalSaving,
            mark: Some(Phase::IncrementalGraphRebuild),
            op: GraphOp::SaveIncremental,
        },
        TestDataStage::IncrementalSaving => GraphStep {
            stage: TestDataStage::Done(GraphSource::Incremental),
            mark: Some(Phase::CacheIncrementalSave),
            op: GraphOp::Return(GraphSource::Incremental),
        },
        TestDataStage::Building => if no_cache {
            GraphStep {
                stage: TestDataStage::Done(GraphSource::FullBuild),
                mark: Some(Phase::FullGraphBuild),
                op: GraphOp::Return(GraphSource::FullBuild),
            }
        } else {
            GraphStep {
                stage: TestDataStage::SaveOpening,
                mark: Some(Phase::FullGraphBuild),
                op: GraphOp::OpenCache,
            }
        },
        TestDataStage::SaveOpening => if ok {
            GraphStep { stage: TestDataStage::Saving, mark: None, op: GraphOp::SaveTopology }
        } else {
            GraphStep {
                stage: TestDataStage::Done(GraphSource::FullBuild),
                mark: None,
                op: GraphOp::Return(GraphSource::FullBuild),
            }
        },
        TestDataStage::Saving => GraphStep {
            stage: TestDataStage::Done(GraphSource::FullBuild),
            mark: Some(Phase::CacheTopologySave),
            op: GraphOp::Return(GraphSource::FullBuild),
        },
        TestDataStage::Done(s) => GraphStep {
            stage: TestDataStage::Done(s),
            mark: None,
            op: GraphOp::Return(s),
        },
    }
}

// ------------------------------------------------------------------
// Topology first
// ------------------------------------------------------------------

/// Stages of a build that first tries the cached topology, then falls back
/// to a build through the cache.
#[derive(Clone, Copy, Debug, PartialEq, Eq, Structural)]
pub enum TopologyStage {
    Start,
    Opening,
    Loading,
    Fallback(CacheStage),
}

/// The transitions of a build that first tries the cached topology, and on
/// a miss runs the build through the cache with `policy`.
pub open spec fn topology_step(
    no_cache: bool,
    policy: CacheMissSavePolicy,
    stage: TopologyStage,
    ok: bool,
) -> GraphStep<TopologyStage> {
    let fallback = |s: GraphStep<CacheStage>| mk(TopologyStage::Fallback(s.stage), s.mark, s.op);
    match stage {
        TopologyStage::Start => if no_cache {
            fallback(cache_policy_step(no_cache, policy, CacheStage::Start, ok))
        } else {
            mk(TopologyStage::Opening, None, GraphOp::OpenCache)
        },
        TopologyStage::Opening => if ok {
            mk(TopologyStage::Loading, Some(Phase::CacheOpen), GraphOp::LoadTopology)
        } else {
            fallback(cache_policy_step(no_cache, policy, CacheStage::Start, ok))
        },
        TopologyStage::Loading => if ok {
            mk(
                TopologyStage::Fallback(CacheStage::Done(GraphSource::TopologyCache)),
                Some(Phase::CacheTopologyLoad),
                GraphOp::Return(GraphSource::TopologyCache),
            )
        } else {
            fallback(cache_policy_step(no_cache, policy, CacheStage::Start, ok))
        },
        TopologyStage::Fallback(s) => fallback(cache_policy_step(no_cache, policy, s, ok)),
    }
}

/// One step of a topology-first build.
fn topology_first(
    no_cache: bool,
    save_policy: CacheMissSavePolicy,
    stage: TopologyStage,
    ok: bool,
) -> (r: GraphStep<TopologyStage>)
    ensures
        r == topology_step(no_cache, save_policy, stage, ok),
{
    let inner = match stage {
        TopologyStage::Start => {
            if !no_cache {
                return GraphStep { stage: TopologyStage::Opening, mark: None, op: GraphOp::OpenCache };
            }
            CacheStage::Start
        },
        TopologyStage::Opening => {
            if ok {
                return GraphStep {
                    stage: TopologyStage::Loading,
                    mark: Some(Phase::CacheOpen),
                    op: GraphOp::LoadTopology,
                };
            }
            CacheStage::Start
        },
        TopologyStage::Loading => {
            if ok {
                return GraphStep {
                    stage: TopologyStage::Fallback(CacheStage::Done(GraphSource::TopologyCache)),
                    mark: Some(Phase::CacheTopologyLoad),
                    op: GraphOp::Return(GraphSource::TopologyCache),
                };
            }
            CacheStage::Start
        },
        TopologyStage::Fallback(s) => s,
    };
    let s = get_or_build_graph_with_cache_policy(no_cache, save_policy, inner, ok);
    GraphStep { stage: TopologyStage::Fallback(s.stage), mark: s.mark, op: s.op }
}

/// One step of building the graph topology: the cached topology where it
/// is there, else a build through the cache that saves graph and entities.
pub fn get_or_build_graph_topology_with_timings(no_cache: bool, stage: TopologyStage, ok: bool) -> (r:
    GraphStep<TopologyStage>)
    ensures
        r == topology_step(no_cache, CacheMissSavePolicy::Full, stage, ok),
{
    topology_first(no_cache, CacheMissSavePolicy::Full, stage, ok)
}

/// One step of building the graph topology: the cached topology where it
/// is there, else a build through the cache that saves only the topology.
pub fn get_or_build_graph_topology_with_topology_save_on_miss_with_timings(
    no_cache: bool,
    stage: TopologyStage,
    ok: bool,
) -> (r: GraphStep<TopologyStage>)
    ensures
        r == topology_step(no_cache, CacheMissSavePolicy::Topology, stage, ok),
{
    topology_first(no_cache, CacheMissSavePolicy::Topology, stage, ok)
}

// ------------------------------------------------------------------
// Direct dependencies
// ------------------------------------------------------------------

/// Stages of a build of direct dependencies.
#[derive(Clone, Copy, Debug, PartialEq, Eq, Structural)]
pub enum DirectStage {
    Start,
    Opening,
    Loading,
    Building,
    Done(GraphSource),
}

/// The transitions of a build of direct dependencies: the cached topology
/// where it is there, else a direct build, which is not saved.
pub open spec fn direct_step(no_cache: bool, stage: DirectStage, ok: bool) -> GraphStep<DirectStage> {
    match stage {
        DirectStage::Start => if no_cache {
            mk(DirectStage::Building, None, GraphOp::BuildDirect)
        } else {
            mk(DirectStage::Opening, None, GraphOp::OpenCache)
        },
        DirectStage::Opening => if ok {
            mk(DirectStage::Loading, Some(Phase::CacheOpen), GraphOp::LoadTopology)
        } else {
            mk(DirectStage::Building, None, GraphOp::BuildDirect)
        },
        DirectStage::Loading => if ok {
            mk(
                DirectStage::Done(GraphSource::TopologyCache),
                Some(Phase::CacheTopologyLoad),
                GraphOp::Return(GraphSource::TopologyCache),
            )
        } else {
            mk(DirectStage::Building, None, GraphOp::BuildDirect)
        },
        DirectStage::Building => mk(
            DirectStage::Done(GraphSource::DirectBuild),
            Some(Phase::DirectDependencyGraphBuild),
            GraphOp::Return(GraphSource::DirectBuild),
        ),
        DirectStage::Done(s) => mk(DirectStage::Done(s), None, GraphOp::Return(s)),
    }
}

/// One step of building the graph of direct dependencies (the caller's
/// predicate chooses which entities are resolved when it builds).
pub fn get_or_build_direct_dependency_graph_with_timings(no_cache: bool, stage: DirectStage, ok: bool) -> (r:
    GraphStep<DirectStage>)
    ensures
        r == direct_step(no_cache, stage, ok),
{
    match stage {
        DirectStage::Start => if no_cache {
            GraphStep { stage: DirectStage::Building, mark: None, op: GraphOp::BuildDirect }
        } else {
            GraphStep { stage: DirectStage::Opening, mark: None, op: GraphOp::OpenCache }
        },
        DirectStage::Opening => if ok {
            GraphStep {
                stage: DirectStage::Loading,
                mark: Some(Phase::CacheOpen),
                op: GraphOp::LoadTopology,
            }
        } else {
            GraphStep { stage: DirectStage::Building, mark: None, op: GraphOp::BuildDirect }
        },
        DirectStage::Loading => if ok {
            GraphStep {
                stage: DirectStage::Done(GraphSource::TopologyCache),
                mark: Some(Phase::CacheTopologyLoad),
                op: GraphOp::Return(GraphSource::TopologyCache),
            }
        } else {
            GraphStep { stage: DirectStage::Building, mark: None, op: GraphOp::BuildDirect }
        },
        DirectStage::Building => GraphStep {
            stage: DirectStage::Done(GraphSource::DirectBuild),
            mark: Some(Phase::DirectDependencyGraphBuild),
            op: GraphOp::Return(GraphSource::DirectBuild),
        },
        DirectStage::Done(s) => GraphStep { stage: DirectStage::Done(s), mark: None, op: GraphOp::Return(s) },
    }
}

// ------------------------------------------------------------------
// The graph command
// ------------------------------------------------------------------

/// The outcome of an operation of the graph command.
#[derive(Clone, Copy, Debug, PartialEq, Eq, Structural)]
pub enum Outcome {
    /// The operation did what it was asked (the cache opened, the cached
    /// JSON was streamed).
    Success,
    /// There was nothing to use (the cache did not open, or it holds no
    /// graph for these files).
    Miss,
    /// The operation failed.
    Error,
}

/// An operation of the graph command.
#[derive(Clone, Copy, Debug, PartialEq, Eq, Structural)]
pub enum CommandOp {
    /// Open the disk cache.
    OpenCache,
    /// Stream the cached graph topology as JSON to standard output.
    StreamCachedJson,
    /// Get or build the graph topology (see `get_or_build_graph_topology_with_timings`).
    BuildTopology,
    /// Write the graph as JSON to standard output.
    WriteJson,
    /// Print the counts of entities and edges (see `graph_summary_line`).
    PrintSummary,
    /// Finish the timings and return.
    Finish,
    /// Report the error and exit with the given status.
    Exit(u8),
}

/// Stages of the graph command, after the supported files were found.
#[derive(Clone, Copy, Debug, PartialEq, Eq, Structural)]
pub enum CommandStage {
    Start,
    Opening,
    Streaming,
    Building,
    Writing,
    Printing,
    Done,
    Failed,
}

/// The transitions of the graph command: JSON output with the cache on is
/// first streamed from the cached topology where it is there; otherwise
/// the topology is got or built and written as JSON or summarized.
pub open spec fn graph_command_step(
    json: bool,
    no_cache: bool,
    stage: CommandStage,
    outcome: Outcome,
) -> CommandStep {
    match stage {
        CommandStage::Start => if json && !no_cache {
            cmd(CommandStage::Opening, Some(Phase::FileDiscovery), CommandOp::OpenCache)
        } else {
            cmd(CommandStage::Building, Some(Phase::FileDiscovery), CommandOp::BuildTopology)
        },
        CommandStage::Opening => if outcome == Outcome::Success {
            cmd(CommandStage::Streaming, Some(Phase::CacheOpen), CommandOp::StreamCachedJson)
        } else {
            cmd(CommandStage::Building, None, CommandOp::BuildTopology)
        },
        CommandStage::Streaming => match outcome {
            Outcome::Success => cmd(
                CommandStage::Done,
                Some(Phase::CacheTopologyJsonStream),
                CommandOp::Finish,
            ),
            Outcome::Miss => cmd(CommandStage::Building, None, CommandOp::BuildTopology),
            Outcome::Error => cmd(CommandStage::Failed, None, CommandOp::Exit(1)),
        },
        CommandStage::Building => if json {
            cmd(CommandStage::Writing, None, CommandOp::WriteJson)
        } else {
            cmd(CommandStage::Printing, Some(Phase::CliOutputSerialization), CommandOp::PrintSummary)
        },
        CommandStage::Writing => cmd(CommandStage::Done, Some(Phase::CliOutputSerialization), CommandOp::Finish),
        CommandStage::Printing => cmd(CommandStage::Done, None, CommandOp::Finish),
        CommandStage::Done => cmd(CommandStage::Done, None, CommandOp::Finish),
        CommandStage::Failed => cmd(CommandStage::Failed, None, CommandOp::Exit(1)),
    }
}

/// One step of the graph command: the stage it moves to, the phase it
/// marks in the timings (if any), and the operation to perform next.
#[derive(Clone, Copy, Debug, PartialEq, Eq, Structural)]
pub struct CommandStep {
    pub stage: CommandStage,
    pub mark: Option<Phase>,
    pub op: CommandOp,
}

/// A command step from its parts.
pub open spec fn cmd(stage: CommandStage, mark: Option<Phase>, op: CommandOp) -> CommandStep {
    CommandStep { stage, mark, op }
}

/// One step of the graph command with the options `opts`: from `stage`,
/// given the outcome of the operation last performed.
pub fn graph_command(opts: &GraphOptions, stage: CommandStage, outcome: Outcome) -> (r: CommandStep)
    ensures
        r == graph_command_step(opts.json, opts.no_cache, stage, outcome),
{
    let json = opts.json;
    match stage {
        CommandStage::Start => if json && !opts.no_cache {
            CommandStep {
                stage: CommandStage::Opening,
                mark: Some(Phase::FileDiscovery),
                op: CommandOp::OpenCache,
            }
        } else {
            CommandStep {
                stage: CommandStage::Building,
                mark: Some(Phase::FileDiscovery),
                op: CommandOp::BuildTopology,
            }
        },
        CommandStage::Opening => match outcome {
            Outcome::Success => CommandStep {
                stage: CommandStage::Streaming,
                mark: Some(Phase::CacheOpen),
                op: CommandOp::StreamCachedJson,
            },
            _ => CommandStep { stage: CommandStage::Building, mark: None, op: CommandOp::BuildTopology },
        },
        CommandStage::Streaming => match outcome {
            Outcome::Success => CommandStep {
                stage: CommandStage::Done,
                mark: Some(Phase::CacheTopologyJsonStream),
                op: CommandOp::Finish,
            },
            Outcome::Miss => CommandStep {
                stage: CommandStage::Building,
                mark: None,
                op: CommandOp::BuildTopology,
            },
            Outcome::Error => CommandStep { stage: CommandStage::Failed, mark: None, op: CommandOp::Exit(1) },
        },
        CommandStage::Building => if json {
            CommandStep { stage: CommandStage::Writing, mark: None, op: CommandOp::WriteJson }
        } else {
            CommandStep {
                stage: CommandStage::Printing,
                mark: Some(Phase::CliOutputSerialization),
                op: CommandOp::PrintSummary,
            }
        },
        CommandStage::Writing => CommandStep {
            stage: CommandStage::Done,
            mark: Some(Phase::CliOutputSerialization),
            op: CommandOp::Finish,
        },
        CommandStage::Printing => CommandStep { stage: CommandStage::Done, mark: None, op: CommandOp::Finish },
        CommandStage::Done => CommandStep { stage: CommandStage::Done, mark: None, op: CommandOp::Finish },
        CommandStage::Failed => CommandStep { stage: CommandStage::Failed, mark: None, op: CommandOp::Exit(1) },
    }
}

/// The summary line that the graph command prints, colours aside: the
/// mark `⊕`, then the numbers of entities and of edges.
pub open spec fn graph_summary_text(entity_count: nat, edge_count: nat) -> Seq<char> {
    "⊕ "@ + decimal(entity_count) + " entities, "@ + decimal(edge_count) + " edges"@
}

/// The parts of the summary line that are coloured apart.
pub struct GraphSummary {
    pub mark: String,
    /// The number of entities, in decimal.
    pub entities: String,
    /// The number of edges, in decimal.
    pub edges: String,
}

/// The parts of the summary line for a graph of `entity_count` entities
/// and `edge_count` edges: they make `graph_summary_text` when written as
/// `{mark} {entities} entities, {edges} edges`.
pub fn graph_summary(entity_count: usize, edge_count: usize) -> (r: GraphSummary)
    ensures
        r.mark@ == "⊕"@,
        r.entities@ == decimal(entity_count as nat),
        r.edges@ == decimal(edge_count as nat),
        graph_summary_text(entity_count as nat, edge_count as nat) == r.mark@ + " "@ + r.entities@
            + " entities, "@ + r.edges@ + " edges"@,
{
    let mut mark = String::new();
    push_text(&mut mark, "⊕");
    assert(mark@ =~= "⊕"@);
    let mut entities = String::new();
    push_decimal(&mut entities, entity_count);
    assert(entities@ =~= decimal(entity_count as nat));
    let mut edges = String::new();
    push_decimal(&mut edges, edge_count);
    assert(edges@ =~= decimal(edge_count as nat));
    proof {
        reveal_strlit("⊕ ");
        reveal_strlit("⊕");
        reveal_strlit(" ");
        assert("⊕ "@ =~= "⊕"@ + " "@);
    }
    GraphSummary { mark, entities, edges }
}

/// The summary line that the graph command prints, colours aside.
pub fn graph_summary_line(entity_count: usize, edge_count: usize) -> (r: String)
    ensures
        r@ == graph_summary_text(entity_count as nat, edge_count as nat),
{
    let mut out = String::new();
    push_text(&mut out, "⊕ ");
    push_decimal(&mut out, entity_count);
    push_text(&mut out, " entities, ");
    push_decimal(&mut out, edge_count);
    push_text(&mut out, " edges");
    out
}

/// The steps the graph command takes from `stage` when the operations have
/// the outcomes `outs`, one outcome per step.
pub open spec fn command_trace(json: bool, no_cache: bool, stage: CommandStage, outs: Seq<Outcome>) -> Seq<
    CommandStep,
>
    decreases outs.len(),
{
    if outs.len() == 0 {
        Seq::empty()
    } else {
        let s = graph_command_step(json, no_cache, stage, outs[0]);
        seq![s] + command_trace(json, no_cache, s.stage, outs.drop_first())
    }
}

/// Whether an operation of the graph command reads the disk cache directly.
pub open spec fn reads_cache(op: CommandOp) -> bool {
    op is OpenCache || op is StreamCachedJson
}

/// Summary output, or the cache switched off, never opens the cache nor
/// streams from it: the command goes straight to building the topology.
pub proof fn law_graph_command_streams_only_json_with_cache(
    json: bool,
    no_cache: bool,
    stage: CommandStage,
    outs: Seq<Outcome>,
)
    requires
        !json || no_cache,
        !(stage is Opening || stage is Streaming),
    ensures
        forall|i: int|
            0 <= i < command_trace(json, no_cache, stage, outs).len() ==> !reads_cache(
                #[trigger] command_trace(json, no_cache, stage, outs)[i].op,
            ),
    decreases outs.len(),
{
    if outs.len() > 0 {
        let s = graph_command_step(json, no_cache, stage, outs[0]);
        law_graph_command_streams_only_json_with_cache(json, no_cache, s.stage, outs.drop_first());
        let t = command_trace(json, no_cache, stage, outs);
        assert forall|i: int| 0 <= i < t.len() implies !reads_cache(#[trigger] t[i].op) by {
            if i > 0 {
                assert(t[i] == command_trace(json, no_cache, s.stage, outs.drop_first())[i - 1]);
            }
        }
    }
}

/// A failure while streaming the cached JSON is final: the command exits
/// with status 1 and stays failed.
pub proof fn law_graph_command_stream_error_exits(json: bool, no_cache: bool, outcome: Outcome)
    ensures
        graph_command_step(json, no_cache, CommandStage::Streaming, Outcome::Error).op
            == CommandOp::Exit(1),
        graph_command_step(json, no_cache, CommandStage::Failed, outcome) == cmd(
            CommandStage::Failed,
            None,
            CommandOp::Exit(1),
        ),
{
}

/// The steps a build through the cache takes from `stage` when the
/// operations have the outcomes `outs`, one outcome per step.
pub open spec fn cache_trace(
    no_cache: bool,
    policy: CacheMissSavePolicy,
    stage: CacheStage,
    outs: Seq<bool>,
) -> Seq<GraphStep<CacheStage>>
    decreases outs.len(),
{
    if outs.len() == 0 {
        Seq::empty()
    } else {
        let s = cache_policy_step(no_cache, policy, stage, outs[0]);
        seq![s] + cache_trace(no_cache, policy, s.stage, outs.drop_first())
    }
}

/// The steps of a build with test data.
pub open spec fn test_data_trace(no_cache: bool, stage: TestDataStage, outs: Seq<bool>) -> Seq<
    GraphStep<TestDataStage>,
>
    decreases outs.len(),
{
    if outs.len() == 0 {
        Seq::empty()
    } else {
        let s = test_data_step(no_cache, stage, outs[0]);
        seq![s] + test_data_trace(no_cache, s.stage, outs.drop_first())
    }
}

/// The steps of a topology-first build.
pub open spec fn topology_trace(
    no_cache: bool,
    policy: CacheMissSavePolicy,
    stage: TopologyStage,
    outs: Seq<bool>,
) -> Seq<GraphStep<TopologyStage>>
    decreases outs.len(),
{
    if outs.len() == 0 {
        Seq::empty()
    } else {
        let s = topology_step(no_cache, policy, stage, outs[0]);
        seq![s] + topology_trace(no_cache, policy, s.stage, outs.drop_first())
    }
}

/// The steps of a build of direct dependencies.
pub open spec fn direct_trace(no_cache: bool, stage: DirectStage, outs: Seq<bool>) -> Seq<
    GraphStep<DirectStage>,
>
    decreases outs.len(),
{
    if outs.len() == 0 {
        Seq::empty()
    } else {
        let s = direct_step(no_cache, stage, outs[0]);
        seq![s] + direct_trace(no_cache, s.stage, outs.drop_first())
    }
}

/// The operation reads or writes the disk cache.
pub open spec fn touches_cache(op: GraphOp) -> bool {
    ||| op is OpenCache
    ||| op is LoadFull
    ||| op is LoadTopology
    ||| op is LoadTopologyWithTestIds
    ||| op is LoadPartial
    ||| op is SaveIncremental
    ||| op is SaveFull
    ||| op is SaveTopology
}

/// The operation builds a graph from the sources.
pub open spec fn builds(op: GraphOp) -> bool {
    op is BuildFull || op is BuildIncremental || op is BuildDirect
}

proof fn lemma_cache_trace_no_cache(policy: CacheMissSavePolicy, stage: CacheStage, outs: Seq<bool>)
    requires
        stage is Start || stage is Building || stage is Done,
    ensures
        forall|i: int|
            0 <= i < cache_trace(true, policy, stage, outs).len() ==> !touches_cache(
                #[trigger] cache_trace(true, policy, stage, outs)[i].op,
            ),
    decreases outs.len(),
{
    if outs.len() > 0 {
        let s = cache_policy_step(true, policy, stage, outs[0]);
        lemma_cache_trace_no_cache(policy, s.stage, outs.drop_first());
        let t = cache_trace(true, policy, stage, outs);
        assert forall|i: int| 0 <= i < t.len() implies !touches_cache(#[trigger] t[i].op) by {
            if i > 0 {
                assert(t[i] == cache_trace(true, policy, s.stage, outs.drop_first())[i - 1]);
            }
        }
    }
}

/// With the cache switched off, a build through the cache never opens,
/// reads or writes the cache, whatever the outcomes.
pub proof fn law_no_cache_never_touches_cache(policy: CacheMissSavePolicy, outs: Seq<bool>)
    ensures
        forall|i: int|
            0 <= i < cache_trace(true, policy, CacheStage::Start, outs).len() ==> !touches_cache(
                #[trigger] cache_trace(true, policy, CacheStage::Start, outs)[i].op,
            ),
{
    lemma_cache_trace_no_cache(policy, CacheStage::Start, outs);
}

proof fn lemma_direct_trace_no_cache(stage: DirectStage, outs: Seq<bool>)
    requires
        stage is Start || stage is Building || stage is Done,
    ensures
        forall|i: int|
            0 <= i < direct_trace(true, stage, outs).len() ==> !touches_cache(
                #[trigger] direct_trace(true, stage, outs)[i].op,
            ) && direct_trace(true, stage, outs)[i].mark != Some(Phase::FullGraphBuild),
    decreases outs.len(),
{
    if outs.len() > 0 {
        let s = direct_step(true, stage, outs[0]);
        lemma_direct_trace_no_cache(s.stage, outs.drop_first());
        let t = direct_trace(true, stage, outs);
        assert forall|i: int| 0 <= i < t.len() implies !touches_cache(#[trigger] t[i].op) && t[i].mark
            != Some(Phase::FullGraphBuild) by {
            if i > 0 {
                assert(t[i] == direct_trace(true, s.stage, outs.drop_first())[i - 1]);
            }
        }
    }
}

/// With the cache switched off, a build of direct dependencies builds the
/// direct graph at once, records `direct_dependency_graph_build`, hands
/// that graph back, never touches the cache and never records a full build.
pub proof fn law_direct_no_cache_builds_directly(outs: Seq<bool>)
    requires
        outs.len() >= 2,
    ensures
        direct_trace(true, DirectStage::Start, outs)[0] == mk(
            DirectStage::Building,
            None,
            GraphOp::BuildDirect,
        ),
        direct_trace(true, DirectStage::Start, outs)[1] == mk(
            DirectStage::Done(GraphSource::DirectBuild),
            Some(Phase::DirectDependencyGraphBuild),
            GraphOp::Return(GraphSource::DirectBuild),
        ),
        forall|i: int|
            0 <= i < direct_trace(true, DirectStage::Start, outs).len() ==> !touches_cache(
                #[trigger] direct_trace(true, DirectStage::Start, outs)[i].op,
            ) && direct_trace(true, DirectStage::Start, outs)[i].mark != Some(Phase::FullGraphBuild),
{
    lemma_direct_trace_no_cache(DirectStage::Start, outs);
    let t = direct_trace(true, DirectStage::Start, outs);
    let t1 = direct_trace(true, DirectStage::Building, outs.drop_first());
    assert(t[1] == t1[0]);
}

proof fn lemma_cache_trace_done(
    no_cache: bool,
    policy: CacheMissSavePolicy,
    src: GraphSource,
    outs: Seq<bool>,
)
    ensures
        forall|i: int|
            0 <= i < cache_trace(no_cache, policy, CacheStage::Done(src), outs).len() ==> #[trigger] cache_trace(
                no_cache,
                policy,
                CacheStage::Done(src),
                outs,
            )[i] == mk(CacheStage::Done(src), None, GraphOp::Return(src)),
    decreases outs.len(),
{
    if outs.len() > 0 {
        lemma_cache_trace_done(no_cache, policy, src, outs.drop_first());
        let t = cache_trace(no_cache, policy, CacheStage::Done(src), outs);
        assert forall|i: int| 0 <= i < t.len() implies #[trigger] t[i] == mk(
            CacheStage::Done(src),
            None,
            GraphOp::Return(src),
        ) by {
            if i > 0 {
                assert(t[i] == cache_trace(no_cache, policy, CacheStage::Done(src), outs.drop_first())[i
                    - 1]);
            }
        }
    }
}

/// A full cache hit hands back the cached graph after opening the cache
/// and loading, and nothing is built or saved, whatever follows.
pub proof fn law_full_cache_hit_builds_nothing(policy: CacheMissSavePolicy, outs: Seq<bool>)
    requires
        outs.len() >= 3,
        outs[1],
        outs[2],
    ensures
        cache_trace(false, policy, CacheStage::Start, outs)[0].op == GraphOp::OpenCache,
        cache_trace(false, policy, CacheStage::Start, outs)[1] == mk(
            CacheStage::FullLoading,
            Some(Phase::CacheOpen),
            GraphOp::LoadFull,
        ),
        cache_trace(false, policy, CacheStage::Start, outs)[2] == mk(
            CacheStage::Done(GraphSource::FullCache),
            Some(Phase::CacheFullLoad),
            GraphOp::Return(GraphSource::FullCache),
        ),
        forall|i: int|
            2 <= i < cache_trace(false, policy, CacheStage::Start, outs).len() ==> (#[trigger] cache_trace(
                false,
                policy,
                CacheStage::Start,
                outs,
            )[i]).op == GraphOp::Return(GraphSource::FullCache),
{
    let t = cache_trace(false, policy, CacheStage::Start, outs);
    let o1 = outs.drop_first();
    let o2 = o1.drop_first();
    let o3 = o2.drop_first();
    let t1 = cache_trace(false, policy, CacheStage::Opening, o1);
    let t2 = cache_trace(false, policy, CacheStage::FullLoading, o2);
    let t3 = cache_trace(false, policy, CacheStage::Done(GraphSource::FullCache), o3);
    assert(o1[0] == outs[1]);
    assert(o2[0] == outs[2]);
    assert(t1 == seq![t[1]] + t2) by {
        assert(t =~= seq![t[0]] + t1);
    }
    assert(t2[0] == t[2]);
    lemma_cache_trace_done(false, policy, GraphSource::FullCache, o3);
    assert forall|i: int| 2 <= i < t.len() implies (#[trigger] t[i]).op == GraphOp::Return(
        GraphSource::FullCache,
    ) by {
        if i > 2 {
            assert(t[i] == t1[i - 1]);
            assert(t1[i - 1] == t2[i - 2]);
            assert(t2[i - 2] == t3[i - 3]);
        }
    }
}

/// Once the cache opens, a build tries a full load first, then a partial
/// load with an incremental rebuild of the stale files, and builds
/// everything only where both miss.
pub proof fn law_cache_tries_in_order(no_cache: bool, policy: CacheMissSavePolicy, outs: Seq<bool>)
    requires
        !no_cache,
        outs.len() >= 4,
        outs[1],
    ensures
        cache_trace(no_cache, policy, CacheStage::Start, outs)[0].op == GraphOp::OpenCache,
        cache_trace(no_cache, policy, CacheStage::Start, outs)[1].op == GraphOp::LoadFull,
        !outs[2] ==> cache_trace(no_cache, policy, CacheStage::Start, outs)[2].op == GraphOp::LoadPartial,
        !outs[2] && outs[3] ==> cache_trace(no_cache, policy, CacheStage::Start, outs)[3].op
            == GraphOp::BuildIncremental,
        !outs[2] && !outs[3] ==> cache_trace(no_cache, policy, CacheStage::Start, outs)[3].op
            == GraphOp::BuildFull,
{
    reveal_with_fuel(cache_trace, 5);
    let o1 = outs.drop_first();
    let o2 = o1.drop_first();
    let o3 = o2.drop_first();
    assert(o1[0] == outs[1]);
    assert(o2[0] == outs[2]);
    assert(o3[0] == outs[3]);
}

/// A build through the cache hands back a graph within seven operations,
/// whatever the outcomes of the cache and the builds.
pub proof fn law_cache_build_finishes(no_cache: bool, policy: CacheMissSavePolicy, outs: Seq<bool>)
    requires
        outs.len() >= 7,
    ensures
        cache_trace(no_cache, policy, CacheStage::Start, outs)[6].op is Return,
{
    reveal_with_fuel(cache_trace, 8);
    let o1 = outs.drop_first();
    let o2 = o1.drop_first();
    let o3 = o2.drop_first();
    let o4 = o3.drop_first();
    let o5 = o4.drop_first();
    let o6 = o5.drop_first();
    assert(o1[0] == outs[1]);
    assert(o2[0] == outs[2]);
    assert(o3[0] == outs[3]);
    assert(o4[0] == outs[4]);
    assert(o5[0] == outs[5]);
    assert(o6[0] == outs[6]);
}

/// What a build saves after a miss follows its policy: graph and entities
/// for `Full`, the topology for `Topology`.
pub proof fn law_save_follows_policy(
    no_cache: bool,
    policy: CacheMissSavePolicy,
    stage: CacheStage,
    outs: Seq<bool>,
)
    ensures
        forall|i: int|
            0 <= i < cache_trace(no_cache, policy, stage, outs).len() ==> {
                &&& (#[trigger] cache_trace(no_cache, policy, stage, outs)[i]).op is SaveFull ==> policy
                    == CacheMissSavePolicy::Full
                &&& cache_trace(no_cache, policy, stage, outs)[i].op is SaveTopology ==> policy
                    == CacheMissSavePolicy::Topology
            },
    decreases outs.len(),
{
    if outs.len() > 0 {
        let s = cache_policy_step(no_cache, policy, stage, outs[0]);
        law_save_follows_policy(no_cache, policy, s.stage, outs.drop_first());
        let t = cache_trace(no_cache, policy, stage, outs);
        assert forall|i: int| 0 <= i < t.len() implies {
            &&& (#[trigger] t[i]).op is SaveFull ==> policy == CacheMissSavePolicy::Full
            &&& t[i].op is SaveTopology ==> policy == CacheMissSavePolicy::Topology
        } by {
            if i > 0 {
                assert(t[i] == cache_trace(no_cache, policy, s.stage, outs.drop_first())[i - 1]);
            }
        }
    }
}

/// Once the cached topology is missing, a topology-first build takes the
/// very steps of the build through the cache.
pub proof fn law_topology_fallback_is_cache_build(
    no_cache: bool,
    policy: CacheMissSavePolicy,
    stage: CacheStage,
    outs: Seq<bool>,
)
    ensures
        topology_trace(no_cache, policy, TopologyStage::Fallback(stage), outs).len() == outs.len(),
        cache_trace(no_cache, policy, stage, outs).len() == outs.len(),
        forall|i: int|
            0 <= i < outs.len() ==> {
                let a = #[trigger] topology_trace(no_cache, policy, TopologyStage::Fallback(stage), outs)[i];
                let b = cache_trace(no_cache, policy, stage, outs)[i];
                a.stage == TopologyStage::Fallback(b.stage) && a.mark == b.mark && a.op == b.op
            },
    decreases outs.len(),
{
    if outs.len() > 0 {
        let s = cache_policy_step(no_cache, policy, stage, outs[0]);
        law_topology_fallback_is_cache_build(no_cache, policy, s.stage, outs.drop_first());
        let a = topology_trace(no_cache, policy, TopologyStage::Fallback(stage), outs);
        let b = cache_trace(no_cache, policy, stage, outs);
        let a1 = topology_trace(no_cache, policy, TopologyStage::Fallback(s.stage), outs.drop_first());
        let b1 = cache_trace(no_cache, policy, s.stage, outs.drop_first());
        assert forall|i: int| 0 <= i < outs.len() implies {
            let x = #[trigger] a[i];
            let y = b[i];
            x.stage == TopologyStage::Fallback(y.stage) && x.mark == y.mark && x.op == y.op
        } by {
            if i > 0 {
                assert(a[i] == a1[i - 1]);
                assert(b[i] == b1[i - 1]);
            }
        }
    }
}

/// With the cache switched off, a build with test data never opens, reads
/// or writes the cache either, whatever the outcomes.
pub proof fn law_test_data_no_cache_never_touches_cache(outs: Seq<bool>, stage: TestDataStage)
    requires
        stage is Start || stage is Building || stage is Done,
    ensures
        forall|i: int|
            0 <= i < test_data_trace(true, stage, outs).len() ==> !touches_cache(
                #[trigger] test_data_trace(true, stage, outs)[i].op,
            ),
    decreases outs.len(),
{
    if outs.len() > 0 {
        let s = test_data_step(true, stage, outs[0]);
        law_test_data_no_cache_never_touches_cache(outs.drop_first(), s.stage);
        let t = test_data_trace(true, stage, outs);
        assert forall|i: int| 0 <= i < t.len() implies !touches_cache(#[trigger] t[i].op) by {
            if i > 0 {
                assert(t[i] == test_data_trace(true, s.stage, outs.drop_first())[i - 1]);
            }
        }
    }
}


// ------------------------------------------------------------------
// Returns follow their loads
// ------------------------------------------------------------------

/// Step `i` of a trace is its first return.
pub open spec fn first_return<S>(t: Seq<GraphStep<S>>, i: int) -> bool {
    t[i].op is Return && (i == 0 || !(t[i - 1].op is Return))
}

proof fn lemma_direct_trace_steps(no_cache: bool, stage: DirectStage, outs: Seq<bool>)
    ensures
        direct_trace(no_cache, stage, outs).len() == outs.len(),
        outs.len() > 0 ==> direct_trace(no_cache, stage, outs)[0] == direct_step(no_cache, stage, outs[0]),
    decreases outs.len(),
{
    if outs.len() > 0 {
        let s = direct_step(no_cache, stage, outs[0]);
        lemma_direct_trace_steps(no_cache, s.stage, outs.drop_first());
    }
}

proof fn lemma_direct_trace_steps_at(no_cache: bool, stage: DirectStage, outs: Seq<bool>, i: int)
    requires
        0 < i < outs.len(),
    ensures
        direct_trace(no_cache, stage, outs)[i] == direct_step(
            no_cache,
            direct_trace(no_cache, stage, outs)[i - 1].stage,
            outs[i],
        ),
    decreases outs.len(),
{
    let s = direct_step(no_cache, stage, outs[0]);
    let rest = outs.drop_first();
    let t = direct_trace(no_cache, stage, outs);
    let u = direct_trace(no_cache, s.stage, rest);
    lemma_direct_trace_steps(no_cache, s.stage, rest);
    assert(t[i] == u[i - 1]);
    assert(rest[i - 1] == outs[i]);
    if i == 1 {
        assert(t[0] == s);
    } else {
        lemma_direct_trace_steps_at(no_cache, s.stage, rest, i - 1);
        assert(t[i - 1] == u[i - 2]);
    }
}

/// What a step of a build of direct dependencies shows of the stage it
/// moves to: the loading stage is entered by loading the topology, and a
/// finished stage by returning its source.
proof fn lemma_direct_step_shape(no_cache: bool, stage: DirectStage, ok: bool)
    ensures
        (direct_step(no_cache, stage, ok).stage is Loading) ==> direct_step(no_cache, stage, ok).op
            == GraphOp::LoadTopology,
        direct_step(no_cache, stage, ok).stage matches DirectStage::Done(src) ==> direct_step(
            no_cache,
            stage,
            ok,
        ).op == GraphOp::Return(src),
        direct_step(no_cache, stage, ok).op == GraphOp::LoadTopology ==> direct_step(no_cache, stage, ok).stage
            is Loading,
{
}

proof fn lemma_direct_return_at(no_cache: bool, outs: Seq<bool>, i: int)
    requires
        0 <= i < outs.len(),
        first_return(direct_trace(no_cache, DirectStage::Start, outs), i),
        direct_trace(no_cache, DirectStage::Start, outs)[i].op == GraphOp::Return(GraphSource::TopologyCache),
    ensures
        i > 0,
        direct_trace(no_cache, DirectStage::Start, outs)[i - 1].op == GraphOp::LoadTopology,
        outs[i],
{
    let t = direct_trace(no_cache, DirectStage::Start, outs);
    lemma_direct_trace_steps(no_cache, DirectStage::Start, outs);
    if i == 0 {
        assert(t[0] == direct_step(no_cache, DirectStage::Start, outs[0]));
    } else {
        if i == 1 {
            lemma_direct_step_shape(no_cache, DirectStage::Start, outs[0]);
        } else {
            lemma_direct_trace_steps_at(no_cache, DirectStage::Start, outs, i - 1);
            lemma_direct_step_shape(no_cache, t[i - 2].stage, outs[i - 1]);
        }
        lemma_direct_trace_steps_at(no_cache, DirectStage::Start, outs, i);
    }
}

proof fn lemma_direct_miss_at(no_cache: bool, outs: Seq<bool>, i: int)
    requires
        0 < i < outs.len(),
        direct_trace(no_cache, DirectStage::Start, outs)[i - 1].op == GraphOp::LoadTopology,
        !outs[i],
    ensures
        direct_trace(no_cache, DirectStage::Start, outs)[i].op == GraphOp::BuildDirect,
{
    let t = direct_trace(no_cache, DirectStage::Start, outs);
    lemma_direct_trace_steps(no_cache, DirectStage::Start, outs);
    if i == 1 {
        lemma_direct_step_shape(no_cache, DirectStage::Start, outs[0]);
    } else {
        lemma_direct_trace_steps_at(no_cache, DirectStage::Start, outs, i - 1);
        lemma_direct_step_shape(no_cache, t[i - 2].stage, outs[i - 1]);
    }
    lemma_direct_trace_steps_at(no_cache, DirectStage::Start, outs, i);
}

/// A build of direct dependencies hands back the cached topology only
/// right after loading it succeeded; where that load misses, it builds the
/// direct graph next.  (`outs[i]` is the outcome of operation `i - 1`.)
pub proof fn law_direct_returns_cached_topology_only_after_its_load(no_cache: bool, outs: Seq<bool>)
    ensures
        forall|i: int|
            0 <= i < direct_trace(no_cache, DirectStage::Start, outs).len() && first_return(
                direct_trace(no_cache, DirectStage::Start, outs),
                i,
            ) && #[trigger] direct_trace(no_cache, DirectStage::Start, outs)[i].op == GraphOp::Return(
                GraphSource::TopologyCache,
            ) ==> i > 0 && direct_trace(no_cache, DirectStage::Start, outs)[i - 1].op == GraphOp::LoadTopology
                && outs[i],
        forall|i: int|
            0 < i < direct_trace(no_cache, DirectStage::Start, outs).len() && direct_trace(
                no_cache,
                DirectStage::Start,
                outs,
            )[i - 1].op == GraphOp::LoadTopology && !outs[i] ==> #[trigger] direct_trace(
                no_cache,
                DirectStage::Start,
                outs,
            )[i].op == GraphOp::BuildDirect,
{
    let t = direct_trace(no_cache, DirectStage::Start, outs);
    lemma_direct_trace_steps(no_cache, DirectStage::Start, outs);
    assert forall|i: int|
        0 <= i < t.len() && first_return(t, i) && #[trigger] t[i].op == GraphOp::Return(
            GraphSource::TopologyCache,
        ) implies i > 0 && t[i - 1].op == GraphOp::LoadTopology && outs[i] by {
        lemma_direct_return_at(no_cache, outs, i);
    }
    assert forall|i: int|
        0 < i < t.len() && t[i - 1].op == GraphOp::LoadTopology && !outs[i] implies #[trigger] t[i].op
        == GraphOp::BuildDirect by {
        lemma_direct_miss_at(no_cache, outs, i);
    }
}

proof fn lemma_test_data_trace_steps(no_cache: bool, stage: TestDataStage, outs: Seq<bool>)
    ensures
        test_data_trace(no_cache, stage, outs).len() == outs.len(),
        outs.len() > 0 ==> test_data_trace(no_cache, stage, outs)[0] == test_data_step(no_cache, stage, outs[0]),
    decreases outs.len(),
{
    if outs.len() > 0 {
        let s = test_data_step(no_cache, stage, outs[0]);
        lemma_test_data_trace_steps(no_cache, s.stage, outs.drop_first());
    }
}

proof fn lemma_test_data_trace_steps_at(no_cache: bool, stage: TestDataStage, outs: Seq<bool>, i: int)
    requires
        0 < i < outs.len(),
    ensures
        test_data_trace(no_cache, stage, outs)[i] == test_data_step(
            no_cache,
            test_data_trace(no_cache, stage, outs)[i - 1].stage,
            outs[i],
        ),
    decreases outs.len(),
{
    let s = test_data_step(no_cache, stage, outs[0]);
    let rest = outs.drop_first();
    let t = test_data_trace(no_cache, stage, outs);
    let u = test_data_trace(no_cache, s.stage, rest);
    lemma_test_data_trace_steps(no_cache, s.stage, rest);
    assert(t[i] == u[i - 1]);
    assert(rest[i - 1] == outs[i]);
    if i == 1 {
        assert(t[0] == s);
    } else {
        lemma_test_data_trace_steps_at(no_cache, s.stage, rest, i - 1);
        assert(t[i - 1] == u[i - 2]);
    }
}

/// What a step of a build with test data shows of the stage it moves to.
proof fn lemma_test_data_step_shape(no_cache: bool, stage: TestDataStage, ok: bool)
    ensures
        (test_data_step(no_cache, stage, ok).stage is TestIdsLoading) <==> test_data_step(no_cache, stage, ok).op
            == GraphOp::LoadTopologyWithTestIds,
        (test_data_step(no_cache, stage, ok).stage is FullLoading) <==> test_data_step(no_cache, stage, ok).op
            == GraphOp::LoadFull,
        test_data_step(no_cache, stage, ok).stage matches TestDataStage::Done(src) ==> test_data_step(
            no_cache,
            stage,
            ok,
        ).op == GraphOp::Return(src),
{
}

/// Step `i` of a build with test data, next to the step before it.
proof fn lemma_test_data_at(no_cache: bool, outs: Seq<bool>, i: int)
    requires
        0 < i < outs.len(),
    ensures
        ({
            let t = test_data_trace(no_cache, TestDataStage::Start, outs);
            &&& t[i] == test_data_step(no_cache, t[i - 1].stage, outs[i])
            &&& (t[i - 1].stage is TestIdsLoading <==> t[i - 1].op == GraphOp::LoadTopologyWithTestIds)
            &&& (t[i - 1].stage is FullLoading <==> t[i - 1].op == GraphOp::LoadFull)
            &&& (t[i - 1].stage matches TestDataStage::Done(src) ==> t[i - 1].op == GraphOp::Return(src))
        }),
{
    let t = test_data_trace(no_cache, TestDataStage::Start, outs);
    lemma_test_data_trace_steps(no_cache, TestDataStage::Start, outs);
    lemma_test_data_trace_steps_at(no_cache, TestDataStage::Start, outs, i);
    if i == 1 {
        lemma_test_data_step_shape(no_cache, TestDataStage::Start, outs[0]);
    } else {
        lemma_test_data_trace_steps_at(no_cache, TestDataStage::Start, outs, i - 1);
        lemma_test_data_step_shape(no_cache, t[i - 2].stage, outs[i - 1]);
    }
}

proof fn lemma_test_data_first(no_cache: bool, outs: Seq<bool>)
    requires
        outs.len() > 0,
    ensures
        !(test_data_trace(no_cache, TestDataStage::Start, outs)[0].op is Return),
{
    lemma_test_data_trace_steps(no_cache, TestDataStage::Start, outs);
}

proof fn lemma_test_data_return_at(no_cache: bool, outs: Seq<bool>, i: int)
    requires
        0 <= i < outs.len(),
        first_return(test_data_trace(no_cache, TestDataStage::Start, outs), i),
    ensures
        test_data_trace(no_cache, TestDataStage::Start, outs)[i].op == GraphOp::Return(
            GraphSource::TopologyWithTestIds,
        ) ==> i > 0 && test_data_trace(no_cache, TestDataStage::Start, outs)[i - 1].op
            == GraphOp::LoadTopologyWithTestIds && outs[i],
        test_data_trace(no_cache, TestDataStage::Start, outs)[i].op == GraphOp::Return(GraphSource::FullCache)
            ==> i > 0 && test_data_trace(no_cache, TestDataStage::Start, outs)[i - 1].op == GraphOp::LoadFull
            && outs[i],
{
    if i == 0 {
        lemma_test_data_first(no_cache, outs);
    } else {
        lemma_test_data_at(no_cache, outs, i);
    }
}

proof fn lemma_test_data_miss_at(no_cache: bool, outs: Seq<bool>, i: int)
    requires
        0 < i < outs.len(),
        !outs[i],
    ensures
        test_data_trace(no_cache, TestDataStage::Start, outs)[i - 1].op == GraphOp::LoadTopologyWithTestIds
            ==> test_data_trace(no_cache, TestDataStage::Start, outs)[i].op == GraphOp::LoadPartial,
        test_data_trace(no_cache, TestDataStage::Start, outs)[i - 1].op == GraphOp::LoadFull
            ==> test_data_trace(no_cache, TestDataStage::Start, outs)[i].op == GraphOp::LoadTopologyWithTestIds,
{
    lemma_test_data_at(no_cache, outs, i);
}

/// A build with test data hands back the cached topology with test ids
/// only right after that load succeeded, and the full cache only right
/// after the full load succeeded; where the test-id load misses, the
/// partial load comes next, and where the full load misses, the test-id
/// load.  (`outs[i]` is the outcome of operation `i - 1`.)
#[verifier::rlimit(60)]
pub proof fn law_test_data_returns_cache_only_after_its_load(no_cache: bool, outs: Seq<bool>)
    ensures
        forall|i: int|
            0 <= i < test_data_trace(no_cache, TestDataStage::Start, outs).len() && first_return(
                test_data_trace(no_cache, TestDataStage::Start, outs),
                i,
            ) && #[trigger] test_data_trace(no_cache, TestDataStage::Start, outs)[i].op == GraphOp::Return(
                GraphSource::TopologyWithTestIds,
            ) ==> i > 0 && test_data_trace(no_cache, TestDataStage::Start, outs)[i - 1].op
                == GraphOp::LoadTopologyWithTestIds && outs[i],
        forall|i: int|
            0 <= i < test_data_trace(no_cache, TestDataStage::Start, outs).len() && first_return(
                test_data_trace(no_cache, TestDataStage::Start, outs),
                i,
            ) && #[trigger] test_data_trace(no_cache, TestDataStage::Start, outs)[i].op == GraphOp::Return(
                GraphSource::FullCache,
            ) ==> i > 0 && test_data_trace(no_cache, TestDataStage::Start, outs)[i - 1].op == GraphOp::LoadFull
                && outs[i],
        forall|i: int|
            0 < i < test_data_trace(no_cache, TestDataStage::Start, outs).len() && test_data_trace(
                no_cache,
                TestDataStage::Start,
                outs,
            )[i - 1].op == GraphOp::LoadTopologyWithTestIds && !outs[i] ==> #[trigger] test_data_trace(
                no_cache,
                TestDataStage::Start,
                outs,
            )[i].op == GraphOp::LoadPartial,
        forall|i: int|
            0 < i < test_data_trace(no_cache, TestDataStage::Start, outs).len() && test_data_trace(
                no_cache,
                TestDataStage::Start,
                outs,
            )[i - 1].op == GraphOp::LoadFull && !outs[i] ==> #[trigger] test_data_trace(
                no_cache,
                TestDataStage::Start,
                outs,
            )[i].op == GraphOp::LoadTopologyWithTestIds,
{
    let t = test_data_trace(no_cache, TestDataStage::Start, outs);
    lemma_test_data_trace_steps(no_cache, TestDataStage::Start, outs);
    assert forall|i: int| 0 <= i < t.len() && first_return(t, i) && #[trigger] t[i].op == GraphOp::Return(
        GraphSource::TopologyWithTestIds,
    ) implies i > 0 && t[i - 1].op == GraphOp::LoadTopologyWithTestIds && outs[i] by {
        lemma_test_data_return_at(no_cache, outs, i);
    }
    assert forall|i: int| 0 <= i < t.len() && first_return(t, i) && #[trigger] t[i].op == GraphOp::Return(
        GraphSource::FullCache,
    ) implies i > 0 && t[i - 1].op == GraphOp::LoadFull && outs[i] by {
        lemma_test_data_return_at(no_cache, outs, i);
    }
    assert forall|i: int|
        0 < i < t.len() && t[i - 1].op == GraphOp::LoadTopologyWithTestIds && !outs[i] implies #[trigger] t[i].op
        == GraphOp::LoadPartial by {
        lemma_test_data_miss_at(no_cache, outs, i);
    }
    assert forall|i: int| 0 < i < t.len() && t[i - 1].op == GraphOp::LoadFull && !outs[i] implies #[trigger] t[i].op
        == GraphOp::LoadTopologyWithTestIds by {
        lemma_test_data_miss_at(no_cache, outs, i);
    }
}

proof fn lemma_cache_trace_steps(
    no_cache: bool,
    policy: CacheMissSavePolicy,
    stage: CacheStage,
    outs: Seq<bool>,
)
    ensures
        cache_trace(no_cache, policy, stage, outs).len() == outs.len(),
        outs.len() > 0 ==> cache_trace(no_cache, policy, stage, outs)[0] == cache_policy_step(
            no_cache,
            policy,
            stage,
            outs[0],
        ),
    decreases outs.len(),
{
    if outs.len() > 0 {
        let s = cache_policy_step(no_cache, policy, stage, outs[0]);
        lemma_cache_trace_steps(no_cache, policy, s.stage, outs.drop_first());
    }
}

proof fn lemma_cache_trace_steps_at(
    no_cache: bool,
    policy: CacheMissSavePolicy,
    stage: CacheStage,
    outs: Seq<bool>,
    i: int,
)
    requires
        0 < i < outs.len(),
    ensures
        cache_trace(no_cache, policy, stage, outs)[i] == cache_policy_step(
            no_cache,
            policy,
            cache_trace(no_cache, policy, stage, outs)[i - 1].stage,
            outs[i],
        ),
    decreases outs.len(),
{
    let s = cache_policy_step(no_cache, policy, stage, outs[0]);
    let rest = outs.drop_first();
    let t = cache_trace(no_cache, policy, stage, outs);
    let u = cache_trace(no_cache, policy, s.stage, rest);
    lemma_cache_trace_steps(no_cache, policy, s.stage, rest);
    assert(t[i] == u[i - 1]);
    assert(rest[i - 1] == outs[i]);
    if i == 1 {
        assert(t[0] == s);
    } else {
        lemma_cache_trace_steps_at(no_cache, policy, s.stage, rest, i - 1);
        assert(t[i - 1] == u[i - 2]);
    }
}

/// What a step of a build through the cache shows of the stage it moves to.
proof fn lemma_cache_step_shape(no_cache: bool, policy: CacheMissSavePolicy, stage: CacheStage, ok: bool)
    ensures
        (cache_policy_step(no_cache, policy, stage, ok).stage is FullLoading) <==> cache_policy_step(
            no_cache,
            policy,
            stage,
            ok,
        ).op == GraphOp::LoadFull,
        (cache_policy_step(no_cache, policy, stage, ok).stage is PartialLoading) <==> cache_policy_step(
            no_cache,
            policy,
            stage,
            ok,
        ).op == GraphOp::LoadPartial,
        (cache_policy_step(no_cache, policy, stage, ok).stage is IncrementalSaving) <==> cache_policy_step(
            no_cache,
            policy,
            stage,
            ok,
        ).op == GraphOp::SaveIncremental,
        cache_policy_step(no_cache, policy, stage, ok).stage matches CacheStage::Done(src)
            ==> cache_policy_step(no_cache, policy, stage, ok).op == GraphOp::Return(src),
{
}

/// Step `i` of a build through the cache, next to the step before it.
proof fn lemma_cache_at(no_cache: bool, policy: CacheMissSavePolicy, outs: Seq<bool>, i: int)
    requires
        0 < i < outs.len(),
    ensures
        ({
            let t = cache_trace(no_cache, policy, CacheStage::Start, outs);
            &&& t[i] == cache_policy_step(no_cache, policy, t[i - 1].stage, outs[i])
            &&& (t[i - 1].stage is FullLoading <==> t[i - 1].op == GraphOp::LoadFull)
            &&& (t[i - 1].stage is PartialLoading <==> t[i - 1].op == GraphOp::LoadPartial)
            &&& (t[i - 1].stage is IncrementalSaving <==> t[i - 1].op == GraphOp::SaveIncremental)
            &&& (t[i - 1].stage matches CacheStage::Done(src) ==> t[i - 1].op == GraphOp::Return(src))
        }),
{
    let t = cache_trace(no_cache, policy, CacheStage::Start, outs);
    lemma_cache_trace_steps(no_cache, policy, CacheStage::Start, outs);
    lemma_cache_trace_steps_at(no_cache, policy, CacheStage::Start, outs, i);
    if i == 1 {
        lemma_cache_step_shape(no_cache, policy, CacheStage::Start, outs[0]);
    } else {
        lemma_cache_trace_steps_at(no_cache, policy, CacheStage::Start, outs, i - 1);
        lemma_cache_step_shape(no_cache, policy, t[i - 2].stage, outs[i - 1]);
    }
}

proof fn lemma_cache_return_at(no_cache: bool, policy: CacheMissSavePolicy, outs: Seq<bool>, i: int)
    requires
        0 <= i < outs.len(),
        first_return(cache_trace(no_cache, policy, CacheStage::Start, outs), i),
    ensures
        cache_trace(no_cache, policy, CacheStage::Start, outs)[i].op == GraphOp::Return(GraphSource::FullCache)
            ==> i > 0 && cache_trace(no_cache, policy, CacheStage::Start, outs)[i - 1].op == GraphOp::LoadFull
            && outs[i],
        cache_trace(no_cache, policy, CacheStage::Start, outs)[i].op == GraphOp::Return(
            GraphSource::Incremental,
        ) ==> i > 0 && cache_trace(no_cache, policy, CacheStage::Start, outs)[i - 1].op
            == GraphOp::SaveIncremental,
{
    lemma_cache_trace_steps(no_cache, policy, CacheStage::Start, outs);
    if i > 0 {
        lemma_cache_at(no_cache, policy, outs, i);
    }
}

proof fn lemma_cache_load_at(no_cache: bool, policy: CacheMissSavePolicy, outs: Seq<bool>, i: int)
    requires
        0 < i < outs.len(),
    ensures
        cache_trace(no_cache, policy, CacheStage::Start, outs)[i - 1].op == GraphOp::LoadFull && !outs[i]
            ==> cache_trace(no_cache, policy, CacheStage::Start, outs)[i].op == GraphOp::LoadPartial,
        cache_trace(no_cache, policy, CacheStage::Start, outs)[i - 1].op == GraphOp::LoadPartial ==> cache_trace(
            no_cache,
            policy,
            CacheStage::Start,
            outs,
        )[i].op == (if outs[i] {
            GraphOp::BuildIncremental
        } else {
            GraphOp::BuildFull
        }),
{
    lemma_cache_at(no_cache, policy, outs, i);
}

/// A build through the cache hands back the full cache only right after
/// the full load succeeded, and an incremental rebuild only right after it
/// was saved; a missed full load is followed by the partial load, and the
/// partial load by the incremental rebuild where it hit and by a full build
/// where it missed.  (`outs[i]` is the outcome of operation `i - 1`.)
#[verifier::rlimit(60)]
pub proof fn law_cache_returns_only_after_their_work(no_cache: bool, policy: CacheMissSavePolicy, outs: Seq<bool>)
    ensures
        forall|i: int|
            0 <= i < cache_trace(no_cache, policy, CacheStage::Start, outs).len() && first_return(
                cache_trace(no_cache, policy, CacheStage::Start, outs),
                i,
            ) && #[trigger] cache_trace(no_cache, policy, CacheStage::Start, outs)[i].op == GraphOp::Return(
                GraphSource::FullCache,
            ) ==> i > 0 && cache_trace(no_cache, policy, CacheStage::Start, outs)[i - 1].op == GraphOp::LoadFull
                && outs[i],
        forall|i: int|
            0 <= i < cache_trace(no_cache, policy, CacheStage::Start, outs).len() && first_return(
                cache_trace(no_cache, policy, CacheStage::Start, outs),
                i,
            ) && #[trigger] cache_trace(no_cache, policy, CacheStage::Start, outs)[i].op == GraphOp::Return(
                GraphSource::Incremental,
            ) ==> i > 0 && cache_trace(no_cache, policy, CacheStage::Start, outs)[i - 1].op
                == GraphOp::SaveIncremental,
        forall|i: int|
            0 < i < cache_trace(no_cache, policy, CacheStage::Start, outs).len() && cache_trace(
                no_cache,
                policy,
                CacheStage::Start,
                outs,
            )[i - 1].op == GraphOp::LoadFull && !outs[i] ==> #[trigger] cache_trace(
                no_cache,
                policy,
                CacheStage::Start,
                outs,
            )[i].op == GraphOp::LoadPartial,
        forall|i: int|
            0 < i < cache_trace(no_cache, policy, CacheStage::Start, outs).len() && cache_trace(
                no_cache,
                policy,
                CacheStage::Start,
                outs,
            )[i - 1].op == GraphOp::LoadPartial ==> #[trigger] cache_trace(
                no_cache,
                policy,
                CacheStage::Start,
                outs,
            )[i].op == (if outs[i] {
                GraphOp::BuildIncremental
            } else {
                GraphOp::BuildFull
            }),
{
    let t = cache_trace(no_cache, policy, CacheStage::Start, outs);
    lemma_cache_trace_steps(no_cache, policy, CacheStage::Start, outs);
    assert forall|i: int| 0 <= i < t.len() && first_return(t, i) && #[trigger] t[i].op == GraphOp::Return(
        GraphSource::FullCache,
    ) implies i > 0 && t[i - 1].op == GraphOp::LoadFull && outs[i] by {
        lemma_cache_return_at(no_cache, policy, outs, i);
    }
    assert forall|i: int| 0 <= i < t.len() && first_return(t, i) && #[trigger] t[i].op == GraphOp::Return(
        GraphSource::Incremental,
    ) implies i > 0 && t[i - 1].op == GraphOp::SaveIncremental by {
        lemma_cache_return_at(no_cache, policy, outs, i);
    }
    assert forall|i: int| 0 < i < t.len() && t[i - 1].op == GraphOp::LoadFull && !outs[i] implies #[trigger] t[i].op
        == GraphOp::LoadPartial by {
        lemma_cache_load_at(no_cache, policy, outs, i);
    }
    assert forall|i: int| 0 < i < t.len() && t[i - 1].op == GraphOp::LoadPartial implies #[trigger] t[i].op == (
    if outs[i] {
        GraphOp::BuildIncremental
    } else {
        GraphOp::BuildFull
    }) by {
        lemma_cache_load_at(no_cache, policy, outs, i);
    }
}

proof fn lemma_topology_trace_steps(
    no_cache: bool,
    policy: CacheMissSavePolicy,
    stage: TopologyStage,
    outs: Seq<bool>,
)
    ensures
        topology_trace(no_cache, policy, stage, outs).len() == outs.len(),
        outs.len() > 0 ==> topology_trace(no_cache, policy, stage, outs)[0] == topology_step(
            no_cache,
            policy,
            stage,
            outs[0],
        ),
    decreases outs.len(),
{
    if outs.len() > 0 {
        let s = topology_step(no_cache, policy, stage, outs[0]);
        lemma_topology_trace_steps(no_cache, policy, s.stage, outs.drop_first());
    }
}

proof fn lemma_topology_trace_steps_at(
    no_cache: bool,
    policy: CacheMissSavePolicy,
    stage: TopologyStage,
    outs: Seq<bool>,
    i: int,
)
    requires
        0 < i < outs.len(),
    ensures
        topology_trace(no_cache, policy, stage, outs)[i] == topology_step(
            no_cache,
            policy,
            topology_trace(no_cache, policy, stage, outs)[i - 1].stage,
            outs[i],
        ),
    decreases outs.len(),
{
    let s = topology_step(no_cache, policy, stage, outs[0]);
    let rest = outs.drop_first();
    let t = topology_trace(no_cache, policy, stage, outs);
    let u = topology_trace(no_cache, policy, s.stage, rest);
    lemma_topology_trace_steps(no_cache, policy, s.stage, rest);
    assert(t[i] == u[i - 1]);
    assert(rest[i - 1] == outs[i]);
    if i == 1 {
        assert(t[0] == s);
    } else {
        lemma_topology_trace_steps_at(no_cache, policy, s.stage, rest, i - 1);
        assert(t[i - 1] == u[i - 2]);
    }
}

/// What a step of a topology-first build shows of the stage it moves to.
proof fn lemma_topology_step_shape(
    no_cache: bool,
    policy: CacheMissSavePolicy,
    stage: TopologyStage,
    ok: bool,
)
    ensures
        (topology_step(no_cache, policy, stage, ok).stage is Loading) <==> topology_step(
            no_cache,
            policy,
            stage,
            ok,
        ).op == GraphOp::LoadTopology,
        topology_step(no_cache, policy, stage, ok).stage matches TopologyStage::Fallback(CacheStage::Done(src))
            ==> topology_step(no_cache, policy, stage, ok).op == GraphOp::Return(src),
        topology_step(no_cache, policy, stage, ok).op == GraphOp::Return(GraphSource::TopologyCache) ==> (
        stage is Loading && ok) || stage == TopologyStage::Fallback(CacheStage::Done(GraphSource::TopologyCache)),
{
}

proof fn lemma_topology_at(no_cache: bool, policy: CacheMissSavePolicy, outs: Seq<bool>, i: int)
    requires
        0 <= i < outs.len(),
    ensures
        ({
            let t = topology_trace(no_cache, policy, TopologyStage::Start, outs);
            &&& first_return(t, i) && t[i].op == GraphOp::Return(GraphSource::TopologyCache) ==> i > 0
                && t[i - 1].op == GraphOp::LoadTopology && outs[i]
            &&& i > 0 && t[i - 1].op == GraphOp::LoadTopology && !outs[i] ==> !(t[i].op is Return)
        }),
{
    let t = topology_trace(no_cache, policy, TopologyStage::Start, outs);
    lemma_topology_trace_steps(no_cache, policy, TopologyStage::Start, outs);
    if i == 0 {
        lemma_topology_step_shape(no_cache, policy, TopologyStage::Start, outs[0]);
    } else {
        lemma_topology_trace_steps_at(no_cache, policy, TopologyStage::Start, outs, i);
        if i == 1 {
            lemma_topology_step_shape(no_cache, policy, TopologyStage::Start, outs[0]);
        } else {
            lemma_topology_trace_steps_at(no_cache, policy, TopologyStage::Start, outs, i - 1);
            lemma_topology_step_shape(no_cache, policy, t[i - 2].stage, outs[i - 1]);
        }
        lemma_topology_step_shape(no_cache, policy, t[i - 1].stage, outs[i]);
    }
}

/// A topology-first build hands back the cached topology only right after
/// loading it succeeded; where that load misses, it goes on to the build
/// through the cache instead of returning.  (`outs[i]` is the outcome of
/// operation `i - 1`.)
#[verifier::rlimit(60)]
pub proof fn law_topology_returned_only_after_its_load(
    no_cache: bool,
    policy: CacheMissSavePolicy,
    outs: Seq<bool>,
)
    ensures
        forall|i: int|
            0 <= i < topology_trace(no_cache, policy, TopologyStage::Start, outs).len() && first_return(
                topology_trace(no_cache, policy, TopologyStage::Start, outs),
                i,
            ) && #[trigger] topology_trace(no_cache, policy, TopologyStage::Start, outs)[i].op
                == GraphOp::Return(GraphSource::TopologyCache) ==> i > 0 && topology_trace(
                no_cache,
                policy,
                TopologyStage::Start,
                outs,
            )[i - 1].op == GraphOp::LoadTopology && outs[i],
        forall|i: int|
            0 < i < topology_trace(no_cache, policy, TopologyStage::Start, outs).len() && topology_trace(
                no_cache,
                policy,
                TopologyStage::Start,
                outs,
            )[i - 1].op == GraphOp::LoadTopology && !outs[i] ==> !(#[trigger] topology_trace(
                no_cache,
                policy,
                TopologyStage::Start,
                outs,
            )[i].op is Return),
{
    let t = topology_trace(no_cache, policy, TopologyStage::Start, outs);
    lemma_topology_trace_steps(no_cache, policy, TopologyStage::Start, outs);
    assert forall|i: int|
        0 <= i < t.len() && first_return(t, i) && #[trigger] t[i].op == GraphOp::Return(
            GraphSource::TopologyCache,
        ) implies i > 0 && t[i - 1].op == GraphOp::LoadTopology && outs[i] by {
        lemma_topology_at(no_cache, policy, outs, i);
    }
    assert forall|i: int| 0 < i < t.len() && t[i - 1].op == GraphOp::LoadTopology && !outs[i] implies !(
    #[trigger] t[i].op is Return) by {
        lemma_topology_at(no_cache, policy, outs, i);
    }
}
} // verus!
