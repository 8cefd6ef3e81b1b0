//! Progress tracking: per-node lifecycle events, counters, cancellation,
//! and the estimate of time remaining.

use crate::errors::NodeId;
use vstd::prelude::*;

verus! {

/// Reason a node was skipped.
#[derive(Debug, Clone, Copy, PartialEq, Eq, Structural)]
pub enum SkipReason {
    /// The node is disabled.
    Disabled,
    /// The result came from the cache.
    Cached,
    /// An upstream node failed.
    UpstreamFailed,
}

/// A progress event.
pub enum ProgressUpdate {
    /// Execution has started.
    Started { total_nodes: usize },
    /// A node has started processing.
    NodeStarted { node_id: NodeId, node_name: String, index: usize, total: usize },
    /// A node has completed processing.
    NodeCompleted { node_id: NodeId, duration_ms: u64, index: usize, total: usize },
    /// A node was skipped.
    NodeSkipped { node_id: NodeId, reason: SkipReason },
    /// Overall progress so far.
    Progress { percent: u64, elapsed_ms: u64, estimated_remaining_ms: Option<u64> },
    /// Execution has completed.
    Completed { total_duration_ms: u64, nodes_processed: usize, nodes_skipped: usize },
    /// Execution was cancelled.
    Cancelled,
    /// An error occurred.
    Error { node_id: Option<NodeId>, message: String },
}

/// An event sink the engine reports progress to.  Implementations may ask
/// for cancellation; the engine polls at every suspension point.
pub trait ProgressSink {
    /// Receive one progress event.
    fn on_event(&mut self, event: &ProgressUpdate)
        ensures
            true,
    ;

    /// Whether the run should stop at the next suspension point.
    fn cancel_requested(&self) -> (r: bool)
        ensures
            true,
    ;
}

/// A sink that ignores everything.
pub struct SilentProgress;

impl ProgressSink for SilentProgress {
    fn on_event(&mut self, _event: &ProgressUpdate) {
    }

    fn cancel_requested(&self) -> (r: bool) {
        false
    }
}

/// Counters for a run: completed and skipped nodes, a cancellation flag,
/// and the duration samples the time estimate is made from.
pub struct ProgressTracker {
    /// Total number of nodes in the run.
    pub total_nodes: usize,
    /// Nodes completed so far.
    pub completed_nodes: usize,
    /// Nodes skipped so far.
    pub skipped_nodes: usize,
    /// Whether cancellation was requested.
    pub cancelled: bool,
    /// Sum of completed node durations, in milliseconds, saturating.
    pub time_total_ms: u64,
    /// Number of duration samples.
    pub time_samples: u64,
}

impl ProgressTracker {
    /// Create a tracker for a run over this many nodes.
    pub fn new(total_nodes: usize) -> (r: Self)
        ensures
            r.total_nodes == total_nodes,
            r.completed_nodes == 0,
            r.skipped_nodes == 0,
            !r.cancelled,
            r.time_total_ms == 0,
            r.time_samples == 0,
    {
        ProgressTracker {
            total_nodes,
            completed_nodes: 0,
            skipped_nodes: 0,
            cancelled: false,
            time_total_ms: 0,
            time_samples: 0,
        }
    }

    /// Record a completed node and its duration.
    pub fn node_completed(&mut self, duration_ms: u64)
        requires
            old(self).completed_nodes < usize::MAX,
        ensures
            final(self).completed_nodes == old(self).completed_nodes + 1,
            final(self).skipped_nodes == old(self).skipped_nodes,
            final(self).total_nodes == old(self).total_nodes,
            final(self).cancelled == old(self).cancelled,
            final(self).time_samples == vstd::math::min(
                old(self).time_samples + 1,
                u64::MAX as int,
            ),
    {
        self.completed_nodes = self.completed_nodes + 1;
        self.time_total_ms = if self.time_total_ms > u64::MAX - duration_ms {
            u64::MAX
        } else {
            self.time_total_ms + duration_ms
        };
        if self.time_samples < u64::MAX {
            self.time_samples = self.time_samples + 1;
        }
    }

    /// Record a skipped node.
    pub fn node_skipped(&mut self)
        requires
            old(self).skipped_nodes < usize::MAX,
        ensures
            final(self).skipped_nodes == old(self).skipped_nodes + 1,
            final(self).completed_nodes == old(self).completed_nodes,
            final(self).total_nodes == old(self).total_nodes,
            final(self).cancelled == old(self).cancelled,
    {
        self.skipped_nodes = self.skipped_nodes + 1;
    }

    /// Ask the run to stop at the next suspension point.
    pub fn cancel(&mut self)
        ensures
            final(self).cancelled,
            final(self).completed_nodes == old(self).completed_nodes,
            final(self).skipped_nodes == old(self).skipped_nodes,
            final(self).total_nodes == old(self).total_nodes,
    {
        self.cancelled = true;
    }

    /// Whether cancellation was requested.
    pub fn is_cancelled(&self) -> (r: bool)
        ensures
            r == self.cancelled,
    {
        self.cancelled
    }

    /// Overall progress: completed and skipped nodes over the total, as a
    /// whole percentage; an empty run counts as done.
    pub fn progress_percent(&self) -> (r: u64)
        requires
            self.completed_nodes + self.skipped_nodes <= self.total_nodes,
        ensures
            self.total_nodes == 0 ==> r == 100,
            self.total_nodes > 0 ==> r == (self.completed_nodes + self.skipped_nodes) * 100
                / (self.total_nodes as int),
    {
        if self.total_nodes == 0 {
            return 100;
        }
        let done = self.completed_nodes as u128 + self.skipped_nodes as u128;
        let total = self.total_nodes as u128;
        proof {
            assert((done as int) * 100 / (total as int) <= 100) by (nonlinear_arith)
                requires
                    0 < total,
                    done <= total,
            ;
        }
        ((done * 100) / total) as u64
    }

    /// Estimated remaining time: the mean completed-node duration times the
    /// nodes still to run, or nothing before the first sample.
    pub fn estimated_remaining_ms(&self) -> (r: Option<u64>)
        requires
            self.completed_nodes <= self.total_nodes,
        ensures
            (self.time_samples == 0) == (r is None),
            self.time_samples > 0 ==> (r matches Some(ms) && ms == vstd::math::min(
                (self.time_total_ms as int / self.time_samples as int) * (self.total_nodes
                    - self.completed_nodes),
                u64::MAX as int,
            )),
    {
        if self.time_samples == 0 {
            return None;
        }
        let avg = self.time_total_ms / self.time_samples;
        let remaining = (self.total_nodes - self.completed_nodes) as u64;
        proof {
            assert((avg as int) * (remaining as int) < (u128::MAX as int)) by (nonlinear_arith)
                requires
                    avg <= u64::MAX,
                    remaining <= u64::MAX,
            ;
        }
        let wide = avg as u128 * remaining as u128;
        if wide > u64::MAX as u128 {
            Some(u64::MAX)
        } else {
            Some(wide as u64)
        }
    }
}

/// Relies on std's system clock: the milliseconds since the Unix epoch.
/// Nothing is promised of the value.
#[verifier::external_body]
pub fn now_millis() -> u64 {
    match std::time::SystemTime::now().duration_since(std::time::UNIX_EPOCH) {
        Ok(d) => {
            let ms = d.as_millis();
            if ms > u64::MAX as u128 {
                u64::MAX
            } else {
                ms as u64
            }
        }
        Err(_) => 0,
    }
}

} // verus!
