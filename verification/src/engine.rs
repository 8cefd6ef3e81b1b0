//! The execution engine: runs a validated graph in dependency order,
//! gathering each node's inputs from upstream outputs, consulting the
//! result cache, and reporting progress with cooperative cancellation.

use crate::cache::{CacheKey, CacheStats, ResultCache};
use crate::errors::{AmbaraError, ExecutionError, NodeId};
use crate::graph::{GraphNode, ProcessingGraph};
use crate::progress::{now_millis, ProgressSink, ProgressTracker, ProgressUpdate, SilentProgress, SkipReason};
use crate::contexts::ExecutionContext;
use crate::topology::TopologyAnalyzer;
use crate::values::{lookup, ValueMap};
use vstd::prelude::*;

verus! {

/// Options for one run.
pub struct ExecutionOptions {
    /// Whether independent nodes may run concurrently.
    pub parallel: bool,
    /// Maximum number of worker threads; zero means all available.
    pub max_threads: usize,
    /// Whether to consult and fill the result cache.
    pub use_cache: bool,
    /// Whether the first error ends the run.
    pub stop_on_error: bool,
    /// Reserved per-node time budget, in milliseconds; not enforced by the
    /// synchronous engine.
    pub node_timeout_ms: Option<u64>,
    /// Whether disabled nodes are skipped.
    pub skip_disabled: bool,
    /// Memory limit in bytes for tiled processing.
    pub memory_limit: usize,
    /// Whether large images are tiled automatically.
    pub auto_chunk: bool,
    /// Preferred tile size for tiled processing.
    pub tile_size: (u32, u32),
}

impl Default for ExecutionOptions {
    /// Parallel dispatch allowed, cache on, stop on the first error, skip
    /// disabled nodes, 500 MB budget, automatic tiling at 512 by 512.
    fn default() -> (r: Self)
        ensures
            r.parallel,
            r.use_cache,
            r.stop_on_error,
            r.skip_disabled,
            r.memory_limit == 500 * 1024 * 1024,
            r.auto_chunk,
    {
        ExecutionOptions {
            parallel: true,
            max_threads: 0,
            use_cache: true,
            stop_on_error: true,
            node_timeout_ms: None,
            skip_disabled: true,
            memory_limit: 500 * 1024 * 1024,
            auto_chunk: true,
            tile_size: (512, 512),
        }
    }
}

impl ExecutionOptions {
    /// The defaults.
    pub fn new() -> (r: Self)
        ensures
            r.parallel,
            r.use_cache,
            r.stop_on_error,
            r.skip_disabled,
    {
        ExecutionOptions::default()
    }

    /// Allow or forbid concurrent dispatch.
    pub fn with_parallel(self, parallel: bool) -> (r: Self)
        ensures
            r == (ExecutionOptions { parallel, ..self }),
    {
        ExecutionOptions { parallel, ..self }
    }

    /// Bound the worker threads.
    pub fn with_max_threads(self, max_threads: usize) -> (r: Self)
        ensures
            r == (ExecutionOptions { max_threads, ..self }),
    {
        ExecutionOptions { max_threads, ..self }
    }

    /// Turn the result cache on or off.
    pub fn with_cache(self, use_cache: bool) -> (r: Self)
        ensures
            r == (ExecutionOptions { use_cache, ..self }),
    {
        ExecutionOptions { use_cache, ..self }
    }

    /// Stop at the first error, or collect errors and continue.
    pub fn with_stop_on_error(self, stop_on_error: bool) -> (r: Self)
        ensures
            r == (ExecutionOptions { stop_on_error, ..self }),
    {
        ExecutionOptions { stop_on_error, ..self }
    }

    /// Reserve a per-node time budget.
    pub fn with_timeout(self, timeout_ms: u64) -> (r: Self)
        ensures
            r == (ExecutionOptions { node_timeout_ms: Some(timeout_ms), ..self }),
    {
        ExecutionOptions { node_timeout_ms: Some(timeout_ms), ..self }
    }

    /// Set the memory limit in bytes.
    pub fn with_memory_limit(self, memory_limit: usize) -> (r: Self)
        ensures
            r == (ExecutionOptions { memory_limit, ..self }),
    {
        ExecutionOptions { memory_limit, ..self }
    }

    /// Set the memory limit in whole megabytes.
    pub fn with_memory_limit_mb(self, mb: usize) -> (r: Self)
        requires
            mb * 1024 * 1024 <= usize::MAX,
        ensures
            r.memory_limit == mb * 1024 * 1024,
            r.parallel == self.parallel,
            r.use_cache == self.use_cache,
            r.stop_on_error == self.stop_on_error,
            r.skip_disabled == self.skip_disabled,
    {
        ExecutionOptions { memory_limit: mb * 1024 * 1024, ..self }
    }

    /// Turn automatic tiling on or off.
    pub fn with_auto_chunk(self, auto_chunk: bool) -> (r: Self)
        ensures
            r == (ExecutionOptions { auto_chunk, ..self }),
    {
        ExecutionOptions { auto_chunk, ..self }
    }

    /// Set the preferred tile size.
    pub fn with_tile_size(self, width: u32, height: u32) -> (r: Self)
        ensures
            r == (ExecutionOptions { tile_size: (width, height), ..self }),
    {
        ExecutionOptions { tile_size: (width, height), ..self }
    }
}

/// Statistics for one run.
#[derive(Debug, Clone, Copy, PartialEq, Eq, Structural)]
pub struct ExecutionStats {
    /// Total wall time, in milliseconds.
    pub total_duration_ms: u64,
    /// Nodes whose filters actually ran.
    pub nodes_executed: usize,
    /// Nodes skipped because they were disabled.
    pub nodes_skipped: usize,
    /// Nodes answered from the cache.
    pub cache_hits: usize,
    /// Original computation time the cache saved overall, in milliseconds.
    pub time_saved_ms: u64,
}

/// The outcome of a run.
pub struct ExecutionResult {
    /// Outputs of the terminal nodes: those with no outgoing connections.
    pub outputs: Vec<(NodeId, ValueMap)>,
    /// Outputs of every node that produced any.
    pub all_outputs: Vec<(NodeId, ValueMap)>,
    /// Statistics for the run.
    pub stats: ExecutionStats,
    /// Errors collected when the run does not stop at the first one.
    pub errors: Vec<(NodeId, ExecutionError)>,
}

/// Whether any connection leaves the node: a node without one is a sink.
pub open spec fn has_out_edge(conns: Seq<crate::graph::Connection>, id: NodeId) -> bool {
    exists|ci: int| 0 <= ci < conns.len() && (#[trigger] conns[ci]).from.node_id == id
}

/// A value was delivered to an input port of the node by a connection: the
/// upstream node has stored outputs holding a value under the source port.
pub open spec fn conn_delivers(
    conns: Seq<crate::graph::Connection>,
    all_outputs: Seq<(NodeId, ValueMap)>,
    node_id: NodeId,
    ci: int,
) -> bool {
    &&& 0 <= ci < conns.len()
    &&& conns[ci].to.node_id == node_id
    &&& outputs_lookup(all_outputs, conns[ci].from.node_id) matches Some(m) && crate::values::lookup(
        m@,
        conns[ci].from.port_name@,
    ) is Some
}

/// The value a delivering connection carries.
pub open spec fn delivered_value(
    conns: Seq<crate::graph::Connection>,
    all_outputs: Seq<(NodeId, ValueMap)>,
    ci: int,
) -> crate::values::ValueView {
    crate::values::lookup(
        outputs_lookup(all_outputs, conns[ci].from.node_id)->Some_0@,
        conns[ci].from.port_name@,
    )->Some_0
}

/// A gathered map holds the value this connection delivers, under its
/// target port name.
pub open spec fn delivered_pinned(
    m: Seq<(Seq<char>, crate::values::ValueView)>,
    conns: Seq<crate::graph::Connection>,
    all_outputs: Seq<(NodeId, ValueMap)>,
    ci: int,
) -> bool {
    lookup(m, conns[ci].to.port_name@) == Some(delivered_value(conns, all_outputs, ci))
}

/// A gathered map holds this input's declared default under its name.
pub open spec fn default_pinned(
    m: Seq<(Seq<char>, crate::values::ValueView)>,
    inputs: Seq<crate::ports::PortDefinition>,
    pi: int,
) -> bool {
    lookup(m, inputs[pi].name@) == Some(inputs[pi].default_value->Some_0@)
}

/// No later declared input before the bound reuses this input's name.
pub open spec fn last_named_before(
    inputs: Seq<crate::ports::PortDefinition>,
    pi: int,
    bound: int,
) -> bool {
    forall|pj: int| pi < pj < bound ==> (#[trigger] inputs[pj]).name@ != inputs[pi].name@
}

/// No later declared input reuses this input's name.
pub open spec fn last_named(inputs: Seq<crate::ports::PortDefinition>, pi: int) -> bool {
    last_named_before(inputs, pi, inputs.len() as int)
}

/// No connection delivers a value to this port name of the node.
pub open spec fn port_undelivered(
    conns: Seq<crate::graph::Connection>,
    all_outputs: Seq<(NodeId, ValueMap)>,
    node_id: NodeId,
    name: Seq<char>,
) -> bool {
    !(exists|ci: int|
        conn_delivers(conns, all_outputs, node_id, ci) && (#[trigger] conns[ci].to.port_name@)
            == name)
}

/// The most recently stored outputs for a node.
pub open spec fn outputs_lookup(s: Seq<(NodeId, ValueMap)>, id: NodeId) -> Option<ValueMap>
    decreases s.len(),
{
    if s.len() == 0 {
        None
    } else if s.last().0 == id {
        Some(s.last().1)
    } else {
        outputs_lookup(s.drop_last(), id)
    }
}

/// Find a node's outputs in a store.
fn outputs_get<'a>(s: &'a Vec<(NodeId, ValueMap)>, id: NodeId) -> (r: Option<&'a ValueMap>)
    ensures
        match r {
            Some(m) => outputs_lookup(s@, id) == Some(*m),
            None => outputs_lookup(s@, id) is None,
        },
{
    let n = s.len();
    let mut i = n;
    while i > 0
        invariant
            i <= n,
            n == s@.len(),
            forall|j: int| i <= j < n ==> (#[trigger] s@[j]).0 != id,
        decreases i,
    {
        i = i - 1;
        if s[i].0.0 == id.0 {
            proof {
                assert(s@[i as int].0 == id);
                lemma_outputs_found(s@, i as int, id);
            }
            return Some(&s[i].1);
        }
    }
    proof {
        lemma_outputs_absent(s@, id);
    }
    None
}

/// A store never holding the node answers no lookup for it.
proof fn lemma_outputs_absent(s: Seq<(NodeId, ValueMap)>, id: NodeId)
    requires
        forall|j: int| 0 <= j < s.len() ==> (#[trigger] s[j]).0 != id,
    ensures
        outputs_lookup(s, id) is None,
    decreases s.len(),
{
    if s.len() > 0 {
        lemma_outputs_absent(s.drop_last(), id);
    }
}

/// The last occurrence of a node answers its lookup.
proof fn lemma_outputs_found(s: Seq<(NodeId, ValueMap)>, i: int, id: NodeId)
    requires
        0 <= i < s.len(),
        s[i].0 == id,
        forall|j: int| i < j < s.len() ==> (#[trigger] s[j]).0 != id,
    ensures
        outputs_lookup(s, id) == Some(s[i].1),
    decreases s.len(),
{
    if i == s.len() - 1 {
    } else {
        let t = s.drop_last();
        assert(forall|j: int| i < j < t.len() ==> (#[trigger] t[j]).0 != id);
        lemma_outputs_found(t, i, id);
    }
}

/// The execution engine, holding the result cache and the default options.
pub struct ExecutionEngine {
    cache: ResultCache,
    default_options: ExecutionOptions,
}

impl ExecutionEngine {
    /// The cache, for contracts.
    pub closed spec fn cache_spec(&self) -> &ResultCache {
        &self.cache
    }

    /// Create an engine with a fresh, default-sized cache.
    pub fn new() -> (r: Self)
        ensures
            r.cache_spec().wf(),
            r.cache_spec().stats_spec().hits == 0,
            r.cache_spec().stats_spec().misses == 0,
    {
        ExecutionEngine { cache: ResultCache::new(100), default_options: ExecutionOptions::default() }
    }

    /// Create an engine around an existing cache.
    pub fn with_cache(cache: ResultCache) -> (r: Self)
        ensures
            r.cache_spec() == cache,
    {
        ExecutionEngine { cache, default_options: ExecutionOptions::default() }
    }

    /// Replace the default options.
    pub fn with_default_options(self, options: ExecutionOptions) -> (r: Self)
        ensures
            r.cache_spec() == self.cache_spec(),
    {
        ExecutionEngine { default_options: options, ..self }
    }

    /// Forget every cached result.
    pub fn clear_cache(&mut self)
        requires
            old(self).cache_spec().wf(),
        ensures
            final(self).cache_spec().wf(),
            final(self).cache_spec().entries_view().len() == 0,
    {
        self.cache.clear();
    }

    /// Drop every cached result for one node.
    pub fn invalidate_node(&mut self, node_id: NodeId)
        requires
            old(self).cache_spec().wf(),
        ensures
            final(self).cache_spec().wf(),
    {
        self.cache.invalidate_node(node_id);
    }

    /// The cache statistics.
    pub fn cache_stats(&self) -> (r: CacheStats)
        ensures
            r == self.cache_spec().stats_spec(),
    {
        self.cache.stats()
    }

    /// Run a graph with the default or given options, reporting nothing.
    pub fn execute(&mut self, graph: &ProcessingGraph, options: Option<ExecutionOptions>) -> (r:
        Result<ExecutionResult, AmbaraError>)
        requires
            graph.wf(),
            old(self).cache_spec().wf(),
        ensures
            final(self).cache_spec().wf(),
            match r {
                Ok(res) => {
                    &&& res.stats.nodes_executed + res.stats.nodes_skipped + res.stats.cache_hits
                        + res.errors@.len() == graph.nodes@.len()
                    &&& forall|i: int|
                        0 <= i < res.all_outputs@.len() ==> crate::graph::has_node_id(
                            graph.nodes@,
                            (#[trigger] res.all_outputs@[i]).0,
                        )
                    &&& forall|k: int|
                        0 <= k < res.outputs@.len() ==> crate::graph::has_node_id(
                            graph.nodes@,
                            (#[trigger] res.outputs@[k]).0,
                        ) && !has_out_edge(graph.connections@, res.outputs@[k].0) && (
                        outputs_lookup(res.all_outputs@, res.outputs@[k].0) matches Some(m) && m@
                            == res.outputs@[k].1@)
                },
                Err(e) => e is Execution,
            },
            graph.nodes@.len() == 0 ==> (r matches Ok(res) && res.outputs@.len() == 0
                && res.all_outputs@.len() == 0 && res.errors@.len() == 0
                && res.stats.nodes_executed == 0),
            (options matches Some(o) && !o.stop_on_error) ==> (r is Ok || (r matches Err(
                AmbaraError::Execution(e2),
            ) && e2 is Cancelled)),
    {
        let mut sink = SilentProgress;
        self.execute_with_sink(graph, options, &mut sink)
    }

    /// Run a graph, reporting every lifecycle event to the sink and
    /// honouring its cancellation requests at each suspension point: before
    /// each node starts, a pending request ends the run with `Cancelled`.
    /// On success every node is accounted for exactly once: executed,
    /// skipped, answered from the cache, or failed.
    pub fn execute_with_sink<S: ProgressSink>(
        &mut self,
        graph: &ProcessingGraph,
        options: Option<ExecutionOptions>,
        sink: &mut S,
    ) -> (r: Result<ExecutionResult, AmbaraError>)
        requires
            graph.wf(),
            old(self).cache_spec().wf(),
        ensures
            final(self).cache_spec().wf(),
            match r {
                Ok(res) => {
                    // every node is accounted for exactly once
                    &&& res.stats.nodes_executed + res.stats.nodes_skipped + res.stats.cache_hits
                        + res.errors@.len() == graph.nodes@.len()
                    // the stored outputs all belong to graph nodes
                    &&& forall|i: int|
                        0 <= i < res.all_outputs@.len() ==> crate::graph::has_node_id(
                            graph.nodes@,
                            (#[trigger] res.all_outputs@[i]).0,
                        )
                    // the exposed outputs are the stored outputs of exactly
                    // the sink nodes that produced any
                    &&& forall|k: int|
                        0 <= k < res.outputs@.len() ==> crate::graph::has_node_id(
                            graph.nodes@,
                            (#[trigger] res.outputs@[k]).0,
                        ) && !has_out_edge(graph.connections@, res.outputs@[k].0) && (
                        outputs_lookup(res.all_outputs@, res.outputs@[k].0) matches Some(m) && m@
                            == res.outputs@[k].1@)
                    &&& forall|id: NodeId|
                        crate::graph::has_node_id(graph.nodes@, id) && !has_out_edge(
                            graph.connections@,
                            id,
                        ) && outputs_lookup(res.all_outputs@, id) is Some ==> exists|k: int|
                            0 <= k < res.outputs@.len() && (#[trigger] res.outputs@[k]).0 == id
                },
                Err(e) => e is Execution,
            },
            // an empty graph always succeeds, with nothing to report
            graph.nodes@.len() == 0 ==> (r matches Ok(res) && res.outputs@.len() == 0
                && res.all_outputs@.len() == 0 && res.errors@.len() == 0
                && res.stats.nodes_executed == 0),
            // when errors are collected rather than fatal, only a
            // cancellation request ends the run early
            (options matches Some(o) && !o.stop_on_error) ==> (r is Ok || (r matches Err(
                AmbaraError::Execution(e2),
            ) && e2 is Cancelled)),
    {
        let opts = match options {
            Some(o) => o,
            None => self.default_options_copy(),
        };
        let start_ms = now_millis();

        let analyzer = TopologyAnalyzer::new(graph);
        let order = match analyzer.topological_sort() {
            Ok(o) => o,
            Err(_) => {
                // a well-formed graph always sorts
                proof {
                    assert(false);
                }
                return Err(AmbaraError::Execution(ExecutionError::Other("unreachable".to_owned())));
            }
        };

        let total = order.len();
        let mut tracker = ProgressTracker::new(total);
        sink.on_event(&ProgressUpdate::Started { total_nodes: total });

        let mut all_outputs: Vec<(NodeId, ValueMap)> = Vec::new();
        let mut errors: Vec<(NodeId, ExecutionError)> = Vec::new();
        let mut nodes_executed: usize = 0;
        let mut nodes_skipped: usize = 0;
        let mut cache_hits: usize = 0;

        let n = order.len();
        let mut i: usize = 0;
        while i < n
            invariant
                graph.wf(),
                self.cache.wf(),
                n == order@.len(),
                n == graph.nodes@.len(),
                i <= n,
                nodes_executed + nodes_skipped + cache_hits + errors@.len() == i,
                tracker.completed_nodes == nodes_executed,
                tracker.skipped_nodes == nodes_skipped + cache_hits,
                tracker.total_nodes == n,
                all_outputs@.len() <= i,
                errors@.len() <= i,
                (options matches Some(o) && !o.stop_on_error) ==> !opts.stop_on_error,
                forall|q: int|
                    0 <= q < all_outputs@.len() ==> crate::graph::has_node_id(
                        graph.nodes@,
                        (#[trigger] all_outputs@[q]).0,
                    ),
                crate::topology::is_permutation_of(order@, graph.nodes@),
            decreases n - i,
        {
            // suspension point: honour cancellation before starting a node
            if tracker.is_cancelled() || sink.cancel_requested() {
                sink.on_event(&ProgressUpdate::Cancelled);
                return Err(AmbaraError::Execution(ExecutionError::Cancelled));
            }
            let node_id = order[i];
            proof {
                assert(crate::graph::has_node_id(graph.nodes@, order@[i as int]));
            }
            let node = match graph.get_node(node_id) {
                Ok(nd) => nd,
                Err(_) => {
                    proof {
                        assert(false);
                    }
                    return Err(
                        AmbaraError::Execution(ExecutionError::Other("unreachable".to_owned())),
                    );
                }
            };

            if opts.skip_disabled && node.disabled {
                sink.on_event(
                    &ProgressUpdate::NodeSkipped { node_id, reason: SkipReason::Disabled },
                );
                tracker.node_skipped();
                nodes_skipped = nodes_skipped + 1;
                all_outputs.push((node_id, ValueMap::new()));
                i = i + 1;
                continue;
            }

            sink.on_event(
                &ProgressUpdate::NodeStarted {
                    node_id,
                    node_name: node.display_name(),
                    index: tracker.completed_nodes,
                    total,
                },
            );

            // gather this node's inputs from upstream outputs and defaults
            let inputs = gather_inputs(graph, node, &all_outputs);

            // cache probe
            if opts.use_cache {
                let key = CacheKey::new(node_id, &inputs);
                let now = now_millis();
                match self.cache.get(&key, now) {
                    Some(cached) => {
                        sink.on_event(
                            &ProgressUpdate::NodeSkipped { node_id, reason: SkipReason::Cached },
                        );
                        tracker.node_skipped();
                        cache_hits = cache_hits + 1;
                        all_outputs.push((node_id, cached));
                        i = i + 1;
                        continue;
                    }
                    None => {},
                }
            }

            // build the execution context
            let mut ctx = ExecutionContext::with_memory_settings(
                node_id,
                opts.memory_limit,
                opts.auto_chunk,
                opts.tile_size,
            );
            let mut in_iter: usize = 0;
            let in_n = inputs.entries.len();
            while in_iter < in_n
                invariant
                    in_n == inputs.entries@.len(),
                    in_iter <= in_n,
                decreases in_n - in_iter,
            {
                let name = inputs.entries[in_iter].0.clone();
                let value = inputs.entries[in_iter].1.duplicate();
                ctx.add_input(name, value);
                in_iter = in_iter + 1;
            }
            let pn = node.metadata.parameters.len();
            let mut pi: usize = 0;
            while pi < pn
                invariant
                    pn == node.metadata.parameters@.len(),
                    pi <= pn,
                decreases pn - pi,
            {
                let pname = node.metadata.parameters[pi].name.clone();
                let value = match node.parameters.get(node.metadata.parameters[pi].name.as_str()) {
                    Some(v) => v.duplicate(),
                    None => node.metadata.parameters[pi].default_value.duplicate(),
                };
                ctx.add_parameter(pname, value);
                pi = pi + 1;
            }

            // run the filter and time it
            let exec_start = now_millis();
            let outcome = node.filter.execute(&mut ctx);
            let exec_end = now_millis();
            let duration = if exec_end >= exec_start {
                exec_end - exec_start
            } else {
                0
            };

            match outcome {
                Ok(()) => {
                    let outputs = ctx.take_outputs();
                    if opts.use_cache {
                        let key = CacheKey::new(node_id, &inputs);
                        let now = now_millis();
                        self.cache.put(key, outputs.duplicate(), duration, now);
                    }
                    tracker.node_completed(duration);
                    sink.on_event(
                        &ProgressUpdate::NodeCompleted {
                            node_id,
                            duration_ms: duration,
                            index: tracker.completed_nodes,
                            total,
                        },
                    );
                    let now_ms = now_millis();
                    sink.on_event(
                        &ProgressUpdate::Progress {
                            percent: tracker.progress_percent(),
                            elapsed_ms: if now_ms >= start_ms {
                                now_ms - start_ms
                            } else {
                                0
                            },
                            estimated_remaining_ms: tracker.estimated_remaining_ms(),
                        },
                    );
                    nodes_executed = nodes_executed + 1;
                    all_outputs.push((node_id, outputs));
                }
                Err(error) => {
                    sink.on_event(
                        &ProgressUpdate::Error {
                            node_id: Some(node_id),
                            message: "node execution failed".to_owned(),
                        },
                    );
                    if opts.stop_on_error {
                        return Err(AmbaraError::Execution(error));
                    }
                    errors.push((node_id, error));
                }
            }
            i = i + 1;
        }

        // expose the outputs of the terminal nodes
        let sinks = graph.get_sink_nodes();
        let mut outputs: Vec<(NodeId, ValueMap)> = Vec::new();
        let sn = sinks.len();
        let mut si: usize = 0;
        while si < sn
            invariant
                sn == sinks@.len(),
                si <= sn,
                forall|j: int|
                    0 <= j < sinks@.len() ==> crate::graph::has_node_id(
                        graph.nodes@,
                        #[trigger] sinks@[j],
                    ) && !has_out_edge(graph.connections@, sinks@[j]),
                forall|q: int|
                    0 <= q < all_outputs@.len() ==> crate::graph::has_node_id(
                        graph.nodes@,
                        (#[trigger] all_outputs@[q]).0,
                    ),
                forall|k: int|
                    0 <= k < outputs@.len() ==> crate::graph::has_node_id(
                        graph.nodes@,
                        (#[trigger] outputs@[k]).0,
                    ) && !has_out_edge(graph.connections@, outputs@[k].0) && (outputs_lookup(
                        all_outputs@,
                        outputs@[k].0,
                    ) matches Some(m) && m@ == outputs@[k].1@),
                forall|j: int|
                    0 <= j < si && outputs_lookup(all_outputs@, #[trigger] sinks@[j]) is Some
                        ==> exists|k: int| 0 <= k < outputs@.len() && (#[trigger] outputs@[k]).0
                        == sinks@[j],
            decreases sn - si,
        {
            let ghost pre_out = outputs@;
            match outputs_get(&all_outputs, sinks[si]) {
                Some(m) => {
                    outputs.push((sinks[si], m.duplicate()));
                    proof {
                        assert(forall|k: int|
                            0 <= k < pre_out.len() ==> outputs@[k] == pre_out[k]);
                        assert forall|j: int|
                            0 <= j < si + 1 && outputs_lookup(
                                all_outputs@,
                                #[trigger] sinks@[j],
                            ) is Some implies exists|k: int|
                            0 <= k < outputs@.len() && (#[trigger] outputs@[k]).0 == sinks@[j] by {
                            if j < si {
                                let k = choose|k: int|
                                    0 <= k < pre_out.len() && (#[trigger] pre_out[k]).0
                                        == sinks@[j];
                                assert(outputs@[k].0 == sinks@[j]);
                            } else {
                                assert(outputs@.last().0 == sinks@[j]);
                            }
                        }
                    }
                }
                None => {
                    proof {
                        assert forall|j: int|
                            0 <= j < si + 1 && outputs_lookup(
                                all_outputs@,
                                #[trigger] sinks@[j],
                            ) is Some implies exists|k: int|
                            0 <= k < outputs@.len() && (#[trigger] outputs@[k]).0 == sinks@[j] by {
                            if j < si {
                            } else {
                                assert(outputs_lookup(all_outputs@, sinks@[j]) is None);
                            }
                        }
                    }
                },
            }
            si = si + 1;
        }
        proof {
            // a sink with stored outputs always appears: the sink list is
            // complete for the graph
            assert forall|id: NodeId|
                crate::graph::has_node_id(graph.nodes@, id) && !has_out_edge(
                    graph.connections@,
                    id,
                ) && outputs_lookup(all_outputs@, id) is Some implies exists|k: int|
                0 <= k < outputs@.len() && (#[trigger] outputs@[k]).0 == id by {
                let w = choose|w: int|
                    0 <= w < graph.nodes@.len() && (#[trigger] graph.nodes@[w]).id == id;
                assert(sinks@.contains(graph.nodes@[w].id));
                let j = choose|j: int| 0 <= j < sinks@.len() && sinks@[j] == id;
                assert(outputs_lookup(all_outputs@, sinks@[j]) is Some);
            }
        }

        proof {
            if graph.nodes@.len() == 0 {
                assert(all_outputs@.len() == 0);
                assert(errors@.len() == 0);
                if outputs@.len() > 0 {
                    assert(outputs_lookup(all_outputs@, outputs@[0].0) is Some);
                }
            }
        }
        let end_ms = now_millis();
        let total_duration_ms = if end_ms >= start_ms {
            end_ms - start_ms
        } else {
            0
        };
        let cache_stats = self.cache.stats();
        let stats = ExecutionStats {
            total_duration_ms,
            nodes_executed,
            nodes_skipped,
            cache_hits,
            time_saved_ms: cache_stats.time_saved_ms,
        };
        sink.on_event(
            &ProgressUpdate::Completed {
                total_duration_ms,
                nodes_processed: nodes_executed,
                nodes_skipped,
            },
        );
        Ok(ExecutionResult { outputs, all_outputs, stats, errors })
    }

    /// A copy of the default options.
    fn default_options_copy(&self) -> (r: ExecutionOptions) {
        ExecutionOptions {
            parallel: self.default_options.parallel,
            max_threads: self.default_options.max_threads,
            use_cache: self.default_options.use_cache,
            stop_on_error: self.default_options.stop_on_error,
            node_timeout_ms: self.default_options.node_timeout_ms,
            skip_disabled: self.default_options.skip_disabled,
            memory_limit: self.default_options.memory_limit,
            auto_chunk: self.default_options.auto_chunk,
            tile_size: self.default_options.tile_size,
        }
    }
}

/// Gather a node's inputs: each declared input starts from its declared
/// default, and each incoming connection that delivers a value places that
/// value under the connection's target port name, replacing the default.
/// Each input port has at most one incoming connection, so no delivered
/// value is overwritten.
#[verifier::rlimit(100)]
#[verifier::spinoff_prover]
fn gather_inputs(
    graph: &ProcessingGraph,
    node: &GraphNode,
    all_outputs: &Vec<(NodeId, ValueMap)>,
) -> (r: ValueMap)
    requires
        crate::graph::single_input(graph.connections@),
    ensures
        forall|ci: int|
            #[trigger] conn_delivers(graph.connections@, all_outputs@, node.id, ci)
                ==> delivered_pinned(r@, graph.connections@, all_outputs@, ci),
        forall|pi: int|
            0 <= pi < node.metadata.inputs@.len() && (
            #[trigger] node.metadata.inputs@[pi]).default_value is Some && port_undelivered(
                graph.connections@,
                all_outputs@,
                node.id,
                node.metadata.inputs@[pi].name@,
            ) && last_named(node.metadata.inputs@, pi) ==> default_pinned(
                r@,
                node.metadata.inputs@,
                pi,
            ),
{
    let ghost conns = graph.connections@;
    let ghost outs = all_outputs@;
    let ghost decls = node.metadata.inputs@;
    let mut inputs = ValueMap::new();

    // the declared defaults first; delivered values then replace them
    let dn = node.metadata.inputs.len();
    let mut di: usize = 0;
    while di < dn
        invariant
            decls == node.metadata.inputs@,
            dn == decls.len(),
            di <= dn,
            forall|pj: int|
                0 <= pj < di && (#[trigger] decls[pj]).default_value is Some && last_named_before(
                    decls,
                    pj,
                    di as int,
                ) ==> default_pinned(inputs@, decls, pj),
        decreases dn - di,
    {
        let ghost pre = inputs@;
        match &node.metadata.inputs[di].default_value {
            Some(default) => {
                inputs.insert(node.metadata.inputs[di].name.clone(), default.duplicate());
            }
            None => {},
        }
        proof {
            assert forall|pj: int|
                0 <= pj < di + 1 && (#[trigger] decls[pj]).default_value is Some
                    && last_named_before(decls, pj, di + 1) implies default_pinned(
                inputs@,
                decls,
                pj,
            ) by {
                if pj < di {
                    assert(last_named_before(decls, pj, di as int));
                    assert(default_pinned(pre, decls, pj));
                    assert(decls[di as int].name@ != decls[pj].name@);
                    assert(lookup(inputs@, decls[pj].name@) == lookup(pre, decls[pj].name@));
                } else {
                    assert(lookup(inputs@, decls[pj].name@) == Some(
                        decls[pj].default_value->Some_0@,
                    ));
                }
            }
        }
        di = di + 1;
    }

    // the delivered values, one per input port
    let cn = graph.connections.len();
    let mut ci: usize = 0;
    while ci < cn
        invariant
            conns == graph.connections@,
            outs == all_outputs@,
            decls == node.metadata.inputs@,
            crate::graph::single_input(conns),
            dn == decls.len(),
            cn == conns.len(),
            ci <= cn,
            forall|cj: int|
                0 <= cj < ci && #[trigger] conn_delivers(conns, outs, node.id, cj)
                    ==> delivered_pinned(inputs@, conns, outs, cj),
            forall|pj: int|
                0 <= pj < dn && (#[trigger] decls[pj]).default_value is Some && port_undelivered(
                    conns,
                    outs,
                    node.id,
                    decls[pj].name@,
                ) && last_named_before(decls, pj, dn as int) ==> default_pinned(
                    inputs@,
                    decls,
                    pj,
                ),
        decreases cn - ci,
    {
        let ghost pre = inputs@;
        if graph.connections[ci].to.node_id.0 == node.id.0 {
            match outputs_get(all_outputs, graph.connections[ci].from.node_id) {
                Some(upstream) => {
                    match upstream.get(graph.connections[ci].from.port_name.as_str()) {
                        Some(value) => {
                            proof {
                                assert(conn_delivers(conns, outs, node.id, ci as int));
                                assert(delivered_value(conns, outs, ci as int) == value@);
                            }
                            inputs.insert(
                                graph.connections[ci].to.port_name.clone(),
                                value.duplicate(),
                            );
                            proof {
                                let newname = conns[ci as int].to.port_name@;
                                assert forall|cj: int|
                                    0 <= cj < ci + 1 && #[trigger] conn_delivers(
                                        conns,
                                        outs,
                                        node.id,
                                        cj,
                                    ) implies delivered_pinned(inputs@, conns, outs, cj) by {
                                    if cj < ci {
                                        // one incoming connection per port:
                                        // the new name differs
                                        if conns[cj].to.port_name@ == newname {
                                            assert(!(conns[cj].to.node_id
                                                == conns[ci as int].to.node_id
                                                && conns[cj].to.port_name@
                                                == conns[ci as int].to.port_name@));
                                        }
                                        assert(delivered_pinned(pre, conns, outs, cj));
                                        assert(lookup(inputs@, conns[cj].to.port_name@) == lookup(
                                            pre,
                                            conns[cj].to.port_name@,
                                        ));
                                    } else {
                                        assert(lookup(inputs@, newname) == Some(value@));
                                    }
                                }
                                assert forall|pj: int|
                                    0 <= pj < dn && (#[trigger] decls[pj]).default_value
                                        is Some && port_undelivered(
                                        conns,
                                        outs,
                                        node.id,
                                        decls[pj].name@,
                                    ) && last_named_before(decls, pj, dn as int) implies
                                    default_pinned(inputs@, decls, pj) by {
                                    assert(default_pinned(pre, decls, pj));
                                    // an undelivered name cannot be the one
                                    // just written
                                    assert(decls[pj].name@ != newname);
                                    assert(lookup(inputs@, decls[pj].name@) == lookup(
                                        pre,
                                        decls[pj].name@,
                                    ));
                                }
                            }
                        }
                        None => {},
                    }
                }
                None => {},
            }
        }
        ci = ci + 1;
    }
    inputs
}

} // verus!
