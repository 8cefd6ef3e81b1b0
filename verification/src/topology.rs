//! Topological analysis: execution order, parallel batches, and dependency
//! queries.

use crate::errors::{GraphError, NodeId};
use crate::graph::{
    has_edge, has_node_id, is_path_between, reaches, well_founded, Connection, ProcessingGraph,
    live_set, has_local_source,
};
use vstd::prelude::*;

verus! {

/// Analyzer for graph topology.
pub struct TopologyAnalyzer<'a> {
    /// The graph under analysis.
    pub graph: &'a ProcessingGraph,
}

/// The order is a duplicate-free arrangement of exactly the graph's nodes.
pub open spec fn is_permutation_of(order: Seq<NodeId>, nodes: Seq<crate::graph::GraphNode>) -> bool {
    &&& order.no_duplicates()
    &&& order.len() == nodes.len()
    &&& forall|i: int| 0 <= i < order.len() ==> has_node_id(nodes, #[trigger] order[i])
}

/// No node comes before one of its parents: every edge's source is emitted
/// strictly before its target.
pub open spec fn respects_edges(order: Seq<NodeId>, conns: Seq<Connection>) -> bool {
    forall|ci: int, i: int|
        0 <= ci < conns.len() && 0 <= i < order.len() && (#[trigger] conns[ci]).to.node_id == (
        #[trigger] order[i]) ==> exists|j: int| 0 <= j < i && order[j] == conns[ci].from.node_id
}

impl<'a> TopologyAnalyzer<'a> {
    /// Create an analyzer for the given graph.
    pub fn new(graph: &'a ProcessingGraph) -> (r: Self)
        ensures
            r.graph == graph,
    {
        TopologyAnalyzer { graph }
    }

    /// The topological execution order: every node exactly once, and no
    /// node before a parent.  On a well-formed graph this always succeeds;
    /// a failure means some non-empty set of nodes has no member without an
    /// incoming edge from the set (with valid endpoints, a directed cycle),
    /// and it names the nodes left unemitted.
    pub fn topological_sort(&self) -> (r: Result<Vec<NodeId>, GraphError>)
        requires
            crate::graph::node_ids_unique(self.graph.nodes@),
        ensures
            match r {
                Ok(order) => is_permutation_of(order@, self.graph.nodes@) && respects_edges(
                    order@,
                    self.graph.connections@,
                ),
                Err(e) => {
                    &&& !(crate::graph::conns_ok(self.graph.nodes@, self.graph.connections@)
                        && well_founded(self.graph.nodes@, self.graph.connections@))
                    &&& e matches GraphError::CycleDetected { nodes } && nodes@.len() > 0 && (
                    forall|i: int|
                        0 <= i < nodes@.len() ==> has_node_id(
                            self.graph.nodes@,
                            #[trigger] nodes@[i],
                        ))
                },
            },
    {
        let nodes = &self.graph.nodes;
        let conns = &self.graph.connections;
        let n = nodes.len();
        let mut done: Vec<bool> = Vec::new();
        let mut order: Vec<NodeId> = Vec::new();
        let mut di: usize = 0;
        while di < n
            invariant
                di <= n,
                done@.len() == di,
                forall|k: int| 0 <= k < di ==> !(#[trigger] done@[k]),
            decreases n - di,
        {
            done.push(false);
            di = di + 1;
        }
        while order.len() < n
            invariant
                n == self.graph.nodes@.len(),
                nodes@ == self.graph.nodes@,
                conns@ == self.graph.connections@,
                crate::graph::node_ids_unique(nodes@),
                done@.len() == n,
                order@.no_duplicates(),
                order@.len() <= n,
                forall|k: int|
                    0 <= k < n ==> #[trigger] done@[k] == order@.contains(nodes@[k].id),
                forall|i: int| 0 <= i < order@.len() ==> has_node_id(nodes@, #[trigger] order@[i]),
                respects_edges(order@, conns@),
            decreases n - order@.len(),
        {
            let mut found = false;
            let mut k: usize = 0;
            let ghost pre_order = order@;
            while k < n && !found
                invariant
                    n == self.graph.nodes@.len(),
                    nodes@ == self.graph.nodes@,
                    conns@ == self.graph.connections@,
                    crate::graph::node_ids_unique(nodes@),
                    done@.len() == n,
                    k <= n,
                    order@.no_duplicates(),
                    order@.len() <= n,
                    forall|kk: int|
                        0 <= kk < n ==> #[trigger] done@[kk] == order@.contains(nodes@[kk].id),
                    forall|i: int|
                        0 <= i < order@.len() ==> has_node_id(nodes@, #[trigger] order@[i]),
                    respects_edges(order@, conns@),
                    !found ==> order@ == pre_order,
                    !found ==> forall|kk: int|
                        0 <= kk < k ==> done@[kk] || exists|ci: int|
                            0 <= ci < conns@.len() && (#[trigger] conns@[ci]).to.node_id
                                == nodes@[kk].id && !order@.contains(conns@[ci].from.node_id),
                    found ==> order@.len() == pre_order.len() + 1,
                decreases n - k,
            {
                if !done[k] {
                    let id = nodes[k].id;
                    // is every parent of this node already emitted?
                    let cn = conns.len();
                    let mut ready = true;
                    let mut ci: usize = 0;
                    while ci < cn && ready
                        invariant
                            cn == conns@.len(),
                            conns@ == self.graph.connections@,
                            ci <= cn,
                            id == nodes@[k as int].id,
                            ready ==> forall|cj: int|
                                0 <= cj < ci && (#[trigger] conns@[cj]).to.node_id == id
                                    ==> order@.contains(conns@[cj].from.node_id),
                            !ready ==> exists|cj: int|
                                0 <= cj < conns@.len() && (#[trigger] conns@[cj]).to.node_id == id
                                    && !order@.contains(conns@[cj].from.node_id),
                        decreases cn - ci,
                    {
                        if conns[ci].to.node_id.0 == id.0 {
                            proof {
                                assert(conns@[ci as int].to.node_id == id);
                            }
                            let from = conns[ci].from.node_id;
                            let on = order.len();
                            let mut oi: usize = 0;
                            let mut in_order = false;
                            while oi < on
                                invariant
                                    on == order@.len(),
                                    oi <= on,
                                    in_order == exists|w: int|
                                        0 <= w < oi && #[trigger] order@[w] == from,
                                decreases on - oi,
                            {
                                if order[oi].0 == from.0 {
                                    proof {
                                        assert(order@[oi as int] == from);
                                    }
                                    in_order = true;
                                    oi = on;
                                } else {
                                    oi = oi + 1;
                                }
                            }
                            proof {
                                assert(in_order == order@.contains(from));
                            }
                            if !in_order {
                                ready = false;
                            }
                        }
                        ci = ci + 1;
                    }
                    if ready {
                        proof {
                            assert(!order@.contains(id));
                        }
                        let ghost pre_done = done@;
                        order.push(nodes[k].id);
                        done.set(k, true);
                        found = true;
                        proof {
                            assert(order@.drop_last() =~= pre_order);
                            assert(order@.last() == id);
                            assert(order@.no_duplicates());
                            assert(done@.len() == pre_done.len());
                            assert(done@[k as int]);
                            assert(forall|kk: int|
                                0 <= kk < n && kk != k ==> #[trigger] done@[kk] == pre_done[kk]);
                            assert forall|kk: int| 0 <= kk < n implies #[trigger] done@[kk]
                                == order@.contains(nodes@[kk].id) by {
                                if kk == k {
                                    assert(order@[order@.len() - 1] == nodes@[kk].id);
                                } else {
                                    assert(nodes@[kk].id != nodes@[k as int].id);
                                    if pre_order.contains(nodes@[kk].id) {
                                        let w = choose|w: int|
                                            0 <= w < pre_order.len() && pre_order[w]
                                                == nodes@[kk].id;
                                        assert(order@[w] == nodes@[kk].id);
                                    } else {
                                        if order@.contains(nodes@[kk].id) {
                                            let w = choose|w: int|
                                                0 <= w < order@.len() && order@[w]
                                                    == nodes@[kk].id;
                                            if w < pre_order.len() {
                                                assert(pre_order[w] == nodes@[kk].id);
                                            } else {
                                                assert(order@[w] == id);
                                                assert(nodes@[kk].id == nodes@[k as int].id);
                                            }
                                        }
                                    }
                                }
                            }
                            assert forall|i: int| 0 <= i < order@.len() implies has_node_id(
                                nodes@,
                                #[trigger] order@[i],
                            ) by {
                                if i < pre_order.len() {
                                    assert(order@[i] == pre_order[i]);
                                } else {
                                    assert(order@[i] == nodes@[k as int].id);
                                }
                            }
                            assert(respects_edges(order@, conns@)) by {
                                assert forall|ci2: int, i: int|
                                    0 <= ci2 < conns@.len() && 0 <= i < order@.len() && (
                                #[trigger] conns@[ci2]).to.node_id == (#[trigger] order@[i])
                                    implies exists|j: int|
                                    0 <= j < i && order@[j] == conns@[ci2].from.node_id by {
                                    if i < pre_order.len() {
                                        assert(pre_order[i] == order@[i]);
                                        let j = choose|j: int|
                                            0 <= j < i && pre_order[j]
                                                == conns@[ci2].from.node_id;
                                        assert(order@[j] == conns@[ci2].from.node_id);
                                    } else {
                                        assert(order@[i] == id);
                                        assert(order@.drop_last().contains(
                                            conns@[ci2].from.node_id,
                                        ) == pre_order.contains(conns@[ci2].from.node_id));
                                        let w = choose|w: int|
                                            0 <= w < pre_order.len() && pre_order[w]
                                                == conns@[ci2].from.node_id;
                                        assert(order@[w] == conns@[ci2].from.node_id);
                                    }
                                }
                            }
                            assert(order@.len() <= n) by {
                                order@.unique_seq_to_set();
                                let ids = nodes@.map_values(|nd: crate::graph::GraphNode| nd.id);
                                assert forall|x: NodeId| order@.to_set().contains(x) implies
                                    ids.to_set().contains(x) by {
                                    assert(order@.contains(x));
                                    let w = choose|w: int|
                                        0 <= w < order@.len() && order@[w] == x;
                                    assert(has_node_id(nodes@, x));
                                    let m = choose|m: int|
                                        0 <= m < nodes@.len() && (#[trigger] nodes@[m]).id == x;
                                    assert(ids[m] == x);
                                    assert(ids.contains(x));
                                }
                                vstd::set_lib::lemma_len_subset(
                                    order@.to_set(),
                                    ids.to_set(),
                                );
                                ids.lemma_cardinality_of_set();
                            }
                        }
                        k = k + 1;
                    } else {
                        k = k + 1;
                    }
                } else {
                    k = k + 1;
                }
            }
            if !found {
                proof {
                    // some node is unemitted, so the leftover set is
                    // non-empty whether or not the graph is sound
                    let ids = nodes@.map_values(|nd: crate::graph::GraphNode| nd.id);
                    assert(exists|k: int|
                        0 <= k < nodes@.len() && !order@.contains(
                            (#[trigger] nodes@[k]).id,
                        )) by {
                        order@.unique_seq_to_set();
                        assert(ids.no_duplicates()) by {
                            assert forall|a: int, b: int| 0 <= a < b < ids.len() implies ids[a]
                                != ids[b] by {
                                assert(nodes@[a].id != nodes@[b].id);
                            }
                        }
                        ids.unique_seq_to_set();
                        if forall|k: int|
                            0 <= k < nodes@.len() ==> order@.contains((#[trigger] nodes@[k]).id) {
                            assert forall|x: NodeId| ids.to_set().contains(x) implies
                                order@.to_set().contains(x) by {
                                assert(ids.contains(x));
                                let m = choose|m: int| 0 <= m < ids.len() && ids[m] == x;
                                assert(nodes@[m].id == x);
                                assert(order@.contains(x));
                            }
                            vstd::set_lib::lemma_len_subset(ids.to_set(), order@.to_set());
                            assert(false);
                        }
                    }
                    if crate::graph::conns_ok(nodes@, conns@) && well_founded(nodes@, conns@) {
                        let s = Set::new(
                            |x: NodeId| has_node_id(nodes@, x) && !order@.contains(x),
                        );
                        assert forall|x: NodeId| s.contains(x) implies ids.to_set().contains(
                            x,
                        ) by {
                            let m = choose|m: int|
                                0 <= m < nodes@.len() && (#[trigger] nodes@[m]).id == x;
                            assert(ids[m] == x);
                            assert(ids.contains(x));
                        }
                        vstd::set_lib::lemma_len_subset(s, ids.to_set());
                        vstd::seq_lib::seq_to_set_is_finite::<NodeId>(ids);
                        assert(s.finite());
                        assert(live_set(nodes@, s));
                        assert(s.len() > 0) by {
                            let k = choose|k: int|
                                0 <= k < nodes@.len() && !order@.contains(
                                    (#[trigger] nodes@[k]).id,
                                );
                            assert(s.contains(nodes@[k].id));
                            if s.len() == 0 {
                                vstd::set_lib::lemma_set_empty_equivalency_len(s);
                            }
                        }
                        assert(has_local_source(conns@, s));
                        let src = choose|m: NodeId|
                            #[trigger] s.contains(m) && forall|w: NodeId|
                                s.contains(w) ==> !has_edge(conns@, w, m);
                        let mk = choose|mk: int|
                            0 <= mk < nodes@.len() && (#[trigger] nodes@[mk]).id == src;
                        assert(!done@[mk]);
                        let ci = choose|ci: int|
                            0 <= ci < conns@.len() && (#[trigger] conns@[ci]).to.node_id
                                == nodes@[mk].id && !order@.contains(conns@[ci].from.node_id);
                        let from = conns@[ci].from.node_id;
                        assert(crate::graph::conn_endpoints_ok(nodes@, conns@[ci]));
                        assert(has_node_id(nodes@, from));
                        assert(s.contains(from));
                        assert(has_edge(conns@, from, src)) by {
                            assert(conns@[ci].from.node_id == from && conns@[ci].to.node_id
                                == src);
                        }
                        assert(false);
                    }
                }
                let remaining = self.unemitted(&order);
                return Err(GraphError::CycleDetected { nodes: remaining });
            }
        }
        Ok(order)
    }

    /// The node identifiers not yet emitted, in insertion order.
    fn unemitted(&self, order: &Vec<NodeId>) -> (r: Vec<NodeId>)
        ensures
            forall|i: int|
                0 <= i < r@.len() ==> has_node_id(self.graph.nodes@, #[trigger] r@[i])
                    && !order@.contains(r@[i]),
            forall|k: int|
                0 <= k < self.graph.nodes@.len() && !order@.contains(
                    (#[trigger] self.graph.nodes@[k]).id,
                ) ==> r@.contains(self.graph.nodes@[k].id),
    {
        let mut out: Vec<NodeId> = Vec::new();
        let n = self.graph.nodes.len();
        let mut k: usize = 0;
        while k < n
            invariant
                k <= n,
                n == self.graph.nodes@.len(),
                forall|i: int|
                    0 <= i < out@.len() ==> has_node_id(self.graph.nodes@, #[trigger] out@[i])
                        && !order@.contains(out@[i]),
                forall|kk: int|
                    0 <= kk < k && !order@.contains((#[trigger] self.graph.nodes@[kk]).id)
                        ==> out@.contains(self.graph.nodes@[kk].id),
            decreases n - k,
        {
            let ghost pre_out = out@;
            let id = self.graph.nodes[k].id;
            let on = order.len();
            let mut oi: usize = 0;
            let mut found = false;
            while oi < on
                invariant
                    oi <= on,
                    on == order@.len(),
                    found == exists|w: int| 0 <= w < oi && #[trigger] order@[w] == id,
                decreases on - oi,
            {
                if order[oi].0 == id.0 {
                    proof {
                        assert(order@[oi as int] == id);
                    }
                    found = true;
                    oi = on;
                } else {
                    oi = oi + 1;
                }
            }
            proof {
                assert(found == order@.contains(id));
            }
            if !found {
                out.push(id);
                proof {
                    assert(has_node_id(self.graph.nodes@, id)) by {
                        assert(self.graph.nodes@[k as int].id == id);
                    }
                }
            }
            proof {
                assert forall|kk: int|
                    0 <= kk < k + 1 && !order@.contains((#[trigger] self.graph.nodes@[kk]).id)
                    implies out@.contains(self.graph.nodes@[kk].id) by {
                    if kk < k {
                        assert(pre_out.contains(self.graph.nodes@[kk].id));
                        let w = choose|w: int|
                            0 <= w < pre_out.len() && pre_out[w] == self.graph.nodes@[kk].id;
                        assert(out@[w] == self.graph.nodes@[kk].id);
                    } else {
                        assert(out@.last() == self.graph.nodes@[kk].id);
                    }
                }
            }
            k = k + 1;
        }
        out
    }

    /// Whether the graph has a cycle: exactly when the sort fails.
    pub fn has_cycle(&self) -> (r: bool)
        requires
            crate::graph::node_ids_unique(self.graph.nodes@),
        ensures
            self.graph.wf() ==> !r,
    {
        match self.topological_sort() {
            Ok(_) => false,
            Err(_) => true,
        }
    }
}

} // verus!

verus! {

impl<'a> TopologyAnalyzer<'a> {
    /// All nodes that can be executed given the already-executed set: not
    /// yet executed, with every parent executed.
    pub fn ready_to_execute(&self, executed: &Vec<NodeId>) -> (r: Vec<NodeId>)
        ensures
            forall|i: int|
                0 <= i < r@.len() ==> has_node_id(self.graph.nodes@, #[trigger] r@[i])
                    && !executed@.contains(r@[i]) && forall|ci: int|
                    0 <= ci < self.graph.connections@.len() && (
                    #[trigger] self.graph.connections@[ci]).to.node_id == r@[i]
                        ==> executed@.contains(self.graph.connections@[ci].from.node_id),
            forall|k: int|
                0 <= k < self.graph.nodes@.len() && !executed@.contains(
                    (#[trigger] self.graph.nodes@[k]).id,
                ) && (forall|ci: int|
                    0 <= ci < self.graph.connections@.len() && (
                    #[trigger] self.graph.connections@[ci]).to.node_id == self.graph.nodes@[k].id
                        ==> executed@.contains(self.graph.connections@[ci].from.node_id))
                    ==> r@.contains(self.graph.nodes@[k].id),
    {
        let nodes = &self.graph.nodes;
        let conns = &self.graph.connections;
        let n = nodes.len();
        let mut out: Vec<NodeId> = Vec::new();
        let mut k: usize = 0;
        while k < n
            invariant
                k <= n,
                n == self.graph.nodes@.len(),
                nodes@ == self.graph.nodes@,
                conns@ == self.graph.connections@,
                forall|i: int|
                    0 <= i < out@.len() ==> has_node_id(self.graph.nodes@, #[trigger] out@[i])
                        && !executed@.contains(out@[i]) && forall|ci: int|
                        0 <= ci < conns@.len() && (#[trigger] conns@[ci]).to.node_id == out@[i]
                            ==> executed@.contains(conns@[ci].from.node_id),
                forall|kk: int|
                    0 <= kk < k && !executed@.contains((#[trigger] nodes@[kk]).id) && (forall|
                        ci: int,
                    |
                        0 <= ci < conns@.len() && (#[trigger] conns@[ci]).to.node_id
                            == nodes@[kk].id ==> executed@.contains(conns@[ci].from.node_id))
                        ==> out@.contains(nodes@[kk].id),
            decreases n - k,
        {
            let ghost pre_out = out@;
            let id = nodes[k].id;
            let mut is_executed = false;
            let en = executed.len();
            let mut ei: usize = 0;
            while ei < en
                invariant
                    ei <= en,
                    en == executed@.len(),
                    is_executed == exists|w: int| 0 <= w < ei && #[trigger] executed@[w] == id,
                decreases en - ei,
            {
                if executed[ei].0 == id.0 {
                    proof {
                        assert(executed@[ei as int] == id);
                    }
                    is_executed = true;
                    ei = en;
                } else {
                    ei = ei + 1;
                }
            }
            proof {
                assert(is_executed == executed@.contains(id));
            }
            if !is_executed {
                let cn = conns.len();
                let mut ready = true;
                let mut ci: usize = 0;
                while ci < cn
                    invariant
                        ci <= cn,
                        cn == conns@.len(),
                        en == executed@.len(),
                        conns@ == self.graph.connections@,
                        id == nodes@[k as int].id,
                        ready ==> forall|cj: int|
                            0 <= cj < ci && (#[trigger] conns@[cj]).to.node_id == id
                                ==> executed@.contains(conns@[cj].from.node_id),
                        !ready ==> exists|cj: int|
                            0 <= cj < conns@.len() && (#[trigger] conns@[cj]).to.node_id == id
                                && !executed@.contains(conns@[cj].from.node_id),
                    decreases cn - ci,
                {
                    if conns[ci].to.node_id.0 == id.0 {
                        proof {
                            assert(conns@[ci as int].to.node_id == id);
                        }
                        let from = conns[ci].from.node_id;
                        let mut in_executed = false;
                        let mut ei2: usize = 0;
                        while ei2 < en
                            invariant
                                ei2 <= en,
                                en == executed@.len(),
                                in_executed == exists|w: int|
                                    0 <= w < ei2 && #[trigger] executed@[w] == from,
                            decreases en - ei2,
                        {
                            if executed[ei2].0 == from.0 {
                                proof {
                                    assert(executed@[ei2 as int] == from);
                                }
                                in_executed = true;
                                ei2 = en;
                            } else {
                                ei2 = ei2 + 1;
                            }
                        }
                        proof {
                            assert(in_executed == executed@.contains(from));
                        }
                        if !in_executed {
                            ready = false;
                            ci = cn;
                        } else {
                            ci = ci + 1;
                        }
                    } else {
                        ci = ci + 1;
                    }
                }
                if ready {
                    out.push(id);
                    proof {
                        assert(has_node_id(nodes@, id)) by {
                            assert(nodes@[k as int].id == id);
                        }
                        assert(forall|w: int| 0 <= w < pre_out.len() ==> out@[w] == pre_out[w]);
                        assert forall|kk: int|
                            0 <= kk < k + 1 && !executed@.contains((#[trigger] nodes@[kk]).id) && (
                            forall|ci2: int|
                                0 <= ci2 < conns@.len() && (#[trigger] conns@[ci2]).to.node_id
                                    == nodes@[kk].id ==> executed@.contains(
                                    conns@[ci2].from.node_id,
                                )) implies out@.contains(nodes@[kk].id) by {
                            if kk < k {
                                assert(pre_out.contains(nodes@[kk].id));
                                let w = choose|w: int|
                                    0 <= w < pre_out.len() && pre_out[w] == nodes@[kk].id;
                                assert(out@[w] == nodes@[kk].id);
                            } else {
                                assert(out@.last() == nodes@[kk].id);
                            }
                        }
                    }
                } else {
                    proof {
                        assert forall|kk: int|
                            0 <= kk < k + 1 && !executed@.contains((#[trigger] nodes@[kk]).id) && (
                            forall|ci2: int|
                                0 <= ci2 < conns@.len() && (#[trigger] conns@[ci2]).to.node_id
                                    == nodes@[kk].id ==> executed@.contains(
                                    conns@[ci2].from.node_id,
                                )) implies out@.contains(nodes@[kk].id) by {
                            if kk < k {
                                assert(pre_out.contains(nodes@[kk].id));
                            }
                        }
                    }
                }
            }
            k = k + 1;
        }
        out
    }
}

impl ProcessingGraph {
    /// All nodes reachable downstream of the given node, in insertion order.
    pub fn get_downstream(&self, node_id: NodeId) -> (r: Vec<NodeId>)
        ensures
            forall|i: int|
                0 <= i < r@.len() ==> reaches(self.connections@, node_id, #[trigger] r@[i])
                    && r@[i] != node_id && has_node_id(self.nodes@, r@[i]),
            forall|k: int|
                0 <= k < self.nodes@.len() && (#[trigger] self.nodes@[k]).id != node_id && reaches(
                    self.connections@,
                    node_id,
                    self.nodes@[k].id,
                ) ==> r@.contains(self.nodes@[k].id),
    {
        let n = self.nodes.len();
        let mut out: Vec<NodeId> = Vec::new();
        let mut k: usize = 0;
        while k < n
            invariant
                k <= n,
                n == self.nodes@.len(),
                forall|i: int|
                    0 <= i < out@.len() ==> reaches(self.connections@, node_id, #[trigger] out@[i])
                        && out@[i] != node_id && has_node_id(self.nodes@, out@[i]),
                forall|kk: int|
                    0 <= kk < k && (#[trigger] self.nodes@[kk]).id != node_id && reaches(
                        self.connections@,
                        node_id,
                        self.nodes@[kk].id,
                    ) ==> out@.contains(self.nodes@[kk].id),
            decreases n - k,
        {
            let ghost pre_out = out@;
            let id = self.nodes[k].id;
            if id.0 != node_id.0 && self.is_reachable(node_id, id) {
                out.push(id);
                proof {
                    assert(has_node_id(self.nodes@, id)) by {
                        assert(self.nodes@[k as int].id == id);
                    }
                }
            }
            proof {
                assert forall|kk: int|
                    0 <= kk < k + 1 && (#[trigger] self.nodes@[kk]).id != node_id && reaches(
                        self.connections@,
                        node_id,
                        self.nodes@[kk].id,
                    ) implies out@.contains(self.nodes@[kk].id) by {
                    if kk < k {
                        assert(pre_out.contains(self.nodes@[kk].id));
                        let w = choose|w: int|
                            0 <= w < pre_out.len() && pre_out[w] == self.nodes@[kk].id;
                        assert(out@[w] == self.nodes@[kk].id);
                    } else {
                        assert(out@.last() == self.nodes@[kk].id);
                    }
                }
            }
            k = k + 1;
        }
        out
    }

    /// All nodes upstream of the given node, in insertion order.
    pub fn get_upstream(&self, node_id: NodeId) -> (r: Vec<NodeId>)
        ensures
            forall|i: int|
                0 <= i < r@.len() ==> reaches(self.connections@, #[trigger] r@[i], node_id)
                    && r@[i] != node_id && has_node_id(self.nodes@, r@[i]),
            forall|k: int|
                0 <= k < self.nodes@.len() && (#[trigger] self.nodes@[k]).id != node_id && reaches(
                    self.connections@,
                    self.nodes@[k].id,
                    node_id,
                ) ==> r@.contains(self.nodes@[k].id),
    {
        let n = self.nodes.len();
        let mut out: Vec<NodeId> = Vec::new();
        let mut k: usize = 0;
        while k < n
            invariant
                k <= n,
                n == self.nodes@.len(),
                forall|i: int|
                    0 <= i < out@.len() ==> reaches(self.connections@, #[trigger] out@[i], node_id)
                        && out@[i] != node_id && has_node_id(self.nodes@, out@[i]),
                forall|kk: int|
                    0 <= kk < k && (#[trigger] self.nodes@[kk]).id != node_id && reaches(
                        self.connections@,
                        self.nodes@[kk].id,
                        node_id,
                    ) ==> out@.contains(self.nodes@[kk].id),
            decreases n - k,
        {
            let ghost pre_out = out@;
            let id = self.nodes[k].id;
            if id.0 != node_id.0 && self.is_reachable(id, node_id) {
                out.push(id);
                proof {
                    assert(has_node_id(self.nodes@, id)) by {
                        assert(self.nodes@[k as int].id == id);
                    }
                }
            }
            proof {
                assert forall|kk: int|
                    0 <= kk < k + 1 && (#[trigger] self.nodes@[kk]).id != node_id && reaches(
                        self.connections@,
                        self.nodes@[kk].id,
                        node_id,
                    ) implies out@.contains(self.nodes@[kk].id) by {
                    if kk < k {
                        assert(pre_out.contains(self.nodes@[kk].id));
                        let w = choose|w: int|
                            0 <= w < pre_out.len() && pre_out[w] == self.nodes@[kk].id;
                        assert(out@[w] == self.nodes@[kk].id);
                    } else {
                        assert(out@.last() == self.nodes@[kk].id);
                    }
                }
            }
            k = k + 1;
        }
        out
    }

    /// Nodes with no incoming connections, in insertion order.
    pub fn get_source_nodes(&self) -> (r: Vec<NodeId>)
        ensures
            forall|i: int|
                0 <= i < r@.len() ==> has_node_id(self.nodes@, #[trigger] r@[i]) && !(exists|
                    ci: int,
                |
                    0 <= ci < self.connections@.len() && (
                    #[trigger] self.connections@[ci]).to.node_id == r@[i]),
            forall|k: int|
                0 <= k < self.nodes@.len() && !(exists|ci: int|
                    0 <= ci < self.connections@.len() && (
                    #[trigger] self.connections@[ci]).to.node_id == (
                    #[trigger] self.nodes@[k]).id) ==> r@.contains(self.nodes@[k].id),
    {
        let n = self.nodes.len();
        let cn = self.connections.len();
        let mut out: Vec<NodeId> = Vec::new();
        let mut k: usize = 0;
        while k < n
            invariant
                k <= n,
                n == self.nodes@.len(),
                cn == self.connections@.len(),
                forall|i: int|
                    0 <= i < out@.len() ==> has_node_id(self.nodes@, #[trigger] out@[i]) && !(
                    exists|ci: int|
                        0 <= ci < self.connections@.len() && (
                        #[trigger] self.connections@[ci]).to.node_id == out@[i]),
                forall|kk: int|
                    0 <= kk < k && !(exists|ci: int|
                        0 <= ci < self.connections@.len() && (
                        #[trigger] self.connections@[ci]).to.node_id == (
                        #[trigger] self.nodes@[kk]).id) ==> out@.contains(self.nodes@[kk].id),
            decreases n - k,
        {
            let ghost pre_out = out@;
            let id = self.nodes[k].id;
            let mut has_in = false;
            let mut ci: usize = 0;
            while ci < cn
                invariant
                    ci <= cn,
                    cn == self.connections@.len(),
                    has_in == exists|cj: int|
                        0 <= cj < ci && (#[trigger] self.connections@[cj]).to.node_id == id,
                decreases cn - ci,
            {
                if self.connections[ci].to.node_id.0 == id.0 {
                    proof {
                        assert(self.connections@[ci as int].to.node_id == id);
                    }
                    has_in = true;
                    ci = cn;
                } else {
                    ci = ci + 1;
                }
            }
            if !has_in {
                out.push(id);
                proof {
                    assert(has_node_id(self.nodes@, id)) by {
                        assert(self.nodes@[k as int].id == id);
                    }
                }
            }
            proof {
                assert forall|kk: int|
                    0 <= kk < k + 1 && !(exists|ci2: int|
                        0 <= ci2 < self.connections@.len() && (
                        #[trigger] self.connections@[ci2]).to.node_id == (
                        #[trigger] self.nodes@[kk]).id) implies out@.contains(self.nodes@[kk].id)
                    by {
                    if kk < k {
                        assert(pre_out.contains(self.nodes@[kk].id));
                        let w = choose|w: int|
                            0 <= w < pre_out.len() && pre_out[w] == self.nodes@[kk].id;
                        assert(out@[w] == self.nodes@[kk].id);
                    } else {
                        assert(out@.last() == self.nodes@[kk].id);
                    }
                }
            }
            k = k + 1;
        }
        out
    }

    /// Nodes with no outgoing connections, in insertion order.
    pub fn get_sink_nodes(&self) -> (r: Vec<NodeId>)
        ensures
            forall|i: int|
                0 <= i < r@.len() ==> has_node_id(self.nodes@, #[trigger] r@[i]) && !(exists|
                    ci: int,
                |
                    0 <= ci < self.connections@.len() && (
                    #[trigger] self.connections@[ci]).from.node_id == r@[i]),
            forall|k: int|
                0 <= k < self.nodes@.len() && !(exists|ci: int|
                    0 <= ci < self.connections@.len() && (
                    #[trigger] self.connections@[ci]).from.node_id == (
                    #[trigger] self.nodes@[k]).id) ==> r@.contains(self.nodes@[k].id),
    {
        let n = self.nodes.len();
        let cn = self.connections.len();
        let mut out: Vec<NodeId> = Vec::new();
        let mut k: usize = 0;
        while k < n
            invariant
                k <= n,
                n == self.nodes@.len(),
                cn == self.connections@.len(),
                forall|i: int|
                    0 <= i < out@.len() ==> has_node_id(self.nodes@, #[trigger] out@[i]) && !(
                    exists|ci: int|
                        0 <= ci < self.connections@.len() && (
                        #[trigger] self.connections@[ci]).from.node_id == out@[i]),
                forall|kk: int|
                    0 <= kk < k && !(exists|ci: int|
                        0 <= ci < self.connections@.len() && (
                        #[trigger] self.connections@[ci]).from.node_id == (
                        #[trigger] self.nodes@[kk]).id) ==> out@.contains(self.nodes@[kk].id),
            decreases n - k,
        {
            let ghost pre_out = out@;
            let id = self.nodes[k].id;
            let mut has_out = false;
            let mut ci: usize = 0;
            while ci < cn
                invariant
                    ci <= cn,
                    cn == self.connections@.len(),
                    has_out == exists|cj: int|
                        0 <= cj < ci && (#[trigger] self.connections@[cj]).from.node_id == id,
                decreases cn - ci,
            {
                if self.connections[ci].from.node_id.0 == id.0 {
                    proof {
                        assert(self.connections@[ci as int].from.node_id == id);
                    }
                    has_out = true;
                    ci = cn;
                } else {
                    ci = ci + 1;
                }
            }
            if !has_out {
                out.push(id);
                proof {
                    assert(has_node_id(self.nodes@, id)) by {
                        assert(self.nodes@[k as int].id == id);
                    }
                }
            }
            proof {
                assert forall|kk: int|
                    0 <= kk < k + 1 && !(exists|ci2: int|
                        0 <= ci2 < self.connections@.len() && (
                        #[trigger] self.connections@[ci2]).from.node_id == (
                        #[trigger] self.nodes@[kk]).id) implies out@.contains(self.nodes@[kk].id)
                    by {
                    if kk < k {
                        assert(pre_out.contains(self.nodes@[kk].id));
                        let w = choose|w: int|
                            0 <= w < pre_out.len() && pre_out[w] == self.nodes@[kk].id;
                        assert(out@[w] == self.nodes@[kk].id);
                    } else {
                        assert(out@.last() == self.nodes@[kk].id);
                    }
                }
            }
            k = k + 1;
        }
        out
    }

    /// Whether one node can be reached from another, counting a connection
    /// from the first to the second; a node always reaches itself.
    pub fn has_path(&self, start: NodeId, target: NodeId) -> (r: bool)
        ensures
            r == reaches(self.connections@, start, target),
    {
        self.is_reachable(start, target)
    }
}

} // verus!

verus! {

/// The node appears among the first `bound` emitted nodes, at depth `d`.
pub open spec fn placed(order: Seq<NodeId>, depths: Seq<usize>, x: NodeId, bound: int, d: int) -> bool {
    exists|w: int| 0 <= w < bound && #[trigger] order[w] == x && depths[w] == d
}

/// Some batch holds this node.
pub open spec fn batch_contains(batches: Seq<Vec<NodeId>>, x: NodeId) -> bool {
    exists|b: int, i: int|
        0 <= b < batches.len() && 0 <= i < batches[b]@.len() && #[trigger] batches[b]@[i] == x
}

/// Batches place every node exactly once: two distinct slots never hold the
/// same node.
pub open spec fn batches_disjoint(batches: Seq<Vec<NodeId>>) -> bool {
    forall|b1: int, i1: int, b2: int, i2: int|
        0 <= b1 < batches.len() && 0 <= i1 < batches[b1]@.len() && 0 <= b2 < batches.len() && 0
            <= i2 < batches[b2]@.len() && (b1 != b2 || i1 != i2) ==> #[trigger] batches[b1]@[i1]
            != #[trigger] batches[b2]@[i2]
}

/// Every connection crosses from an earlier batch to a strictly later one.
pub open spec fn batches_respect_edges(batches: Seq<Vec<NodeId>>, conns: Seq<Connection>) -> bool {
    forall|ci: int, b1: int, i1: int, b2: int, i2: int|
        0 <= ci < conns.len() && 0 <= b1 < batches.len() && 0 <= i1 < batches[b1]@.len() && 0 <= b2
            < batches.len() && 0 <= i2 < batches[b2]@.len() && (#[trigger] conns[ci]).from.node_id
            == #[trigger] batches[b1]@[i1] && conns[ci].to.node_id == #[trigger] batches[b2]@[i2]
            ==> b1 < b2
}

/// Some earlier-emitted parent of the node at position `i` sits exactly one
/// depth level below it.
pub open spec fn depth_witness(
    order: Seq<NodeId>,
    depths: Seq<usize>,
    conns: Seq<Connection>,
    i: int,
) -> bool {
    exists|cj: int, j: int|
        0 <= cj < conns.len() && 0 <= j < i && (#[trigger] conns[cj]).to.node_id == order[i] && (
        #[trigger] order[j]) == conns[cj].from.node_id && depths[j] == depths[i] - 1
}

/// The node has a parent placed in the given batch.
pub open spec fn has_parent_in(
    batches: Seq<Vec<NodeId>>,
    conns: Seq<Connection>,
    b: int,
    x: NodeId,
) -> bool {
    exists|ci: int, q: int|
        0 <= ci < conns.len() && 0 <= q < batches[b]@.len() && (#[trigger] conns[ci]).to.node_id
            == x && conns[ci].from.node_id == #[trigger] batches[b]@[q]
}

/// When every positive depth has a parent one level below and some node sits
/// at depth `d`, every depth down to `b` is attained by some node.
proof fn lemma_depth_attained(
    order: Seq<NodeId>,
    depths: Seq<usize>,
    conns: Seq<Connection>,
    d: int,
    b: int,
)
    requires
        depths.len() == order.len(),
        forall|i: int|
            0 <= i < depths.len() && (#[trigger] depths[i]) > 0 ==> depth_witness(
                order,
                depths,
                conns,
                i,
            ),
        0 <= b <= d,
        exists|i: int| 0 <= i < depths.len() && (#[trigger] depths[i]) == d,
    ensures
        exists|i: int| 0 <= i < depths.len() && (#[trigger] depths[i]) == b,
    decreases d - b,
{
    if b < d {
        let i = choose|i: int| 0 <= i < depths.len() && (#[trigger] depths[i]) == d;
        assert(depths[i] > 0);
        assert(depth_witness(order, depths, conns, i));
        let (cj, j): (int, int) = choose|cj: int, j: int|
            0 <= cj < conns.len() && 0 <= j < i && (#[trigger] conns[cj]).to.node_id == order[i]
                && (#[trigger] order[j]) == conns[cj].from.node_id && depths[j] == depths[i] - 1;
        assert(depths[j] == d - 1);
        lemma_depth_attained(order, depths, conns, d - 1, b);
    }
}

/// Within a batch no node is an ancestor of another: a walk of length two or
/// more never joins two slots of one batch.  This follows from the batch
/// contracts alone: every edge crosses strictly forward in batch order.
pub proof fn lemma_batch_members_independent(
    batches: Seq<Vec<NodeId>>,
    conns: Seq<Connection>,
    p: Seq<NodeId>,
    b: int,
    i1: int,
    i2: int,
)
    requires
        batches_respect_edges(batches, conns),
        forall|x: NodeId| reaches(conns, p[0], x) ==> batch_contains(batches, x),
        0 <= b < batches.len(),
        0 <= i1 < batches[b]@.len(),
        0 <= i2 < batches[b]@.len(),
        is_path_between(conns, p, batches[b]@[i1], batches[b]@[i2]),
        p.len() >= 2,
    ensures
        !batches_disjoint(batches),
{
    if batches_disjoint(batches) {
        lemma_path_climbs(batches, conns, p, b, i1);
        assert(false);
    }
}

/// Along a walk the batch index strictly climbs, so the endpoint of a
/// non-trivial walk out of a slot sits in a strictly later batch.
proof fn lemma_path_climbs(
    batches: Seq<Vec<NodeId>>,
    conns: Seq<Connection>,
    p: Seq<NodeId>,
    b: int,
    i: int,
)
    requires
        batches_respect_edges(batches, conns),
        batches_disjoint(batches),
        forall|x: NodeId| reaches(conns, p[0], x) ==> batch_contains(batches, x),
        0 <= b < batches.len(),
        0 <= i < batches[b]@.len(),
        p.len() >= 2,
        is_path_between(conns, p, batches[b]@[i], p.last()),
    ensures
        forall|b2: int, i2: int|
            0 <= b2 < batches.len() && 0 <= i2 < batches[b2]@.len() && #[trigger] batches[b2]@[i2]
                == p.last() ==> b2 > b,
    decreases p.len(),
{
    let start = batches[b]@[i];
    if p.len() == 2 {
        let z: int = 0;
        assert(has_edge(conns, p[z], p[z + 1]));
        let ci = choose|ci: int|
            0 <= ci < conns.len() && (#[trigger] conns[ci]).from.node_id == p[0]
                && conns[ci].to.node_id == p[1];
        assert forall|b2: int, i2: int|
            0 <= b2 < batches.len() && 0 <= i2 < batches[b2]@.len() && #[trigger] batches[b2]@[i2]
                == p.last() implies b2 > b by {
            assert(conns[ci].from.node_id == batches[b]@[i]);
            assert(conns[ci].to.node_id == batches[b2]@[i2]);
        }
    } else {
        let q = p.drop_last();
        assert(is_path_between(conns, q, start, q.last())) by {
            assert(forall|w: int|
                0 <= w < q.len() - 1 ==> #[trigger] q[w] == p[w] && q[w + 1] == p[w + 1]);
        }
        let mid = q.last();
        assert(reaches(conns, p[0], mid)) by {
            assert(is_path_between(conns, q, p[0], mid));
        }
        assert(batch_contains(batches, mid));
        let (bm, im): (int, int) = choose|bm: int, im: int|
            0 <= bm < batches.len() && 0 <= im < batches[bm]@.len() && #[trigger] batches[bm]@[im]
                == mid;
        assert(q[0] == p[0]);
        lemma_path_climbs(batches, conns, q, b, i);
        assert(bm > b);
        let l = p.len() - 2;
        assert(has_edge(conns, p[l], p[l + 1]));
        let ci = choose|ci: int|
            0 <= ci < conns.len() && (#[trigger] conns[ci]).from.node_id == p[l]
                && conns[ci].to.node_id == p[l + 1];
        assert forall|b2: int, i2: int|
            0 <= b2 < batches.len() && 0 <= i2 < batches[b2]@.len() && #[trigger] batches[b2]@[i2]
                == p.last() implies b2 > b by {
            assert(p[l] == mid);
            assert(conns[ci].from.node_id == batches[bm]@[im]);
            assert(conns[ci].to.node_id == batches[b2]@[i2]);
            assert(b2 > bm);
        }
    }
}

} // verus!

verus! {

/// The position of a node in the list, or the length when it is absent.
fn index_of_node(nodes: &Vec<crate::graph::GraphNode>, id: NodeId) -> (r: usize)
    ensures
        r <= nodes@.len(),
        r < nodes@.len() ==> nodes@[r as int].id == id,
{
    let n = nodes.len();
    let mut k: usize = 0;
    while k < n
        invariant
            n == nodes@.len(),
            k <= n,
        decreases n - k,
    {
        if nodes[k].id.0 == id.0 {
            proof {
                assert(nodes@[k as int].id == id);
            }
            return k;
        }
        k = k + 1;
    }
    n
}

/// Chase parent links to a fixed point; parents never exceed their children,
/// so the chase descends.
fn root_of(parent: &Vec<usize>, start: usize) -> (r: usize)
    requires
        start < parent@.len(),
        forall|j: int| 0 <= j < parent@.len() ==> #[trigger] parent@[j] <= j,
    ensures
        r < parent@.len(),
        parent@[r as int] == r,
        parent@[start as int] == start ==> r == start,
{
    let mut x = start;
    while parent[x] != x
        invariant
            x < parent@.len(),
            forall|j: int| 0 <= j < parent@.len() ==> #[trigger] parent@[j] <= j,
            x <= start,
            parent@[start as int] == start ==> x == start,
        decreases x,
    {
        x = parent[x];
    }
    x
}

impl<'a> TopologyAnalyzer<'a> {
    /// Group nodes into parallel execution batches by dependency depth: a
    /// node's depth is one more than the greatest depth of its parents, and
    /// each batch holds the nodes of one depth, so every connection crosses
    /// strictly forward and nodes within a batch are mutually independent
    /// (`lemma_batch_members_independent`).
    pub fn parallel_batches(&self) -> (r: Result<Vec<Vec<NodeId>>, GraphError>)
        requires
            crate::graph::node_ids_unique(self.graph.nodes@),
        ensures
            match r {
                Ok(batches) => {
                    &&& forall|x: NodeId|
                        has_node_id(self.graph.nodes@, x) ==> batch_contains(batches@, x)
                    &&& forall|b: int, i: int|
                        0 <= b < batches@.len() && 0 <= i < batches@[b]@.len()
                            ==> has_node_id(self.graph.nodes@, #[trigger] batches@[b]@[i])
                    &&& batches_disjoint(batches@)
                    &&& batches_respect_edges(batches@, self.graph.connections@)
                    &&& forall|b: int|
                        0 <= b < batches@.len() ==> (#[trigger] batches@[b])@.len() > 0
                    &&& forall|b: int, p: int|
                        1 <= b < batches@.len() && 0 <= p < batches@[b]@.len() ==> has_parent_in(
                            batches@,
                            self.graph.connections@,
                            b - 1,
                            #[trigger] batches@[b]@[p],
                        )
                    &&& forall|p: int, ci: int|
                        batches@.len() > 0 && 0 <= p < batches@[0]@.len() && 0 <= ci
                            < self.graph.connections@.len() && (
                        #[trigger] self.graph.connections@[ci]).to.node_id == (
                        #[trigger] batches@[0]@[p]) ==> !has_node_id(
                            self.graph.nodes@,
                            self.graph.connections@[ci].from.node_id,
                        )
                },
                Err(e) => !self.graph.wf() && e is CycleDetected,
            },
    {
        let order = match self.topological_sort() {
            Ok(o) => o,
            Err(e) => {
                return Err(e);
            }
        };
        let conns = &self.graph.connections;
        let n = order.len();
        let cn = conns.len();
        // depth of each emitted node, aligned with the order
        let mut depths: Vec<usize> = Vec::new();
        let mut t: usize = 0;
        while t < n
            invariant
                n == order@.len(),
                cn == conns@.len(),
                conns@ == self.graph.connections@,
                is_permutation_of(order@, self.graph.nodes@),
                respects_edges(order@, self.graph.connections@),
                t <= n,
                depths@.len() == t,
                forall|i: int| 0 <= i < t ==> #[trigger] depths@[i] <= i,
                forall|ci: int, i: int, j: int|
                    0 <= ci < cn && 0 <= i < t && 0 <= j < t && (
                    #[trigger] conns@[ci]).from.node_id == order@[i] && conns@[ci].to.node_id
                        == order@[j] ==> #[trigger] depths@[i] < #[trigger] depths@[j],
                forall|i: int|
                    0 <= i < t && (#[trigger] depths@[i]) > 0 ==> depth_witness(
                        order@,
                        depths@,
                        conns@,
                        i,
                    ),
            decreases n - t,
        {
            let id = order[t];
            let mut best: usize = 0;
            let mut ci: usize = 0;
            while ci < cn
                invariant
                    n == order@.len(),
                    cn == conns@.len(),
                    conns@ == self.graph.connections@,
                    is_permutation_of(order@, self.graph.nodes@),
                    respects_edges(order@, self.graph.connections@),
                    t < n,
                    id == order@[t as int],
                    depths@.len() == t,
                    forall|i: int| 0 <= i < t ==> #[trigger] depths@[i] <= i,
                    ci <= cn,
                    best <= t,
                    forall|cj: int, i: int|
                        0 <= cj < ci && 0 <= i < t && (#[trigger] conns@[cj]).to.node_id == id && (
                        #[trigger] order@[i]) == conns@[cj].from.node_id ==> depths@[i]
                            < best as int,
                    best > 0 ==> exists|cj: int, i2: int|
                        0 <= cj < ci && 0 <= i2 < t && (#[trigger] conns@[cj]).to.node_id == id
                            && (#[trigger] order@[i2]) == conns@[cj].from.node_id && depths@[i2]
                            == best - 1,
                decreases cn - ci,
            {
                if conns[ci].to.node_id.0 == id.0 {
                    proof {
                        assert(conns@[ci as int].to.node_id == id);
                    }
                    let from = conns[ci].from.node_id;
                    // the parent is already emitted, strictly earlier
                    let mut w: usize = 0;
                    let mut fidx: usize = t;
                    while w < t
                        invariant
                            w <= t,
                            t < n,
                            n == order@.len(),
                            depths@.len() == t,
                            fidx == t || (fidx < t && order@[fidx as int] == from),
                            fidx == t ==> forall|v: int|
                                0 <= v < w ==> (#[trigger] order@[v]) != from,
                        decreases t - w,
                    {
                        if order[w].0 == from.0 {
                            proof {
                                assert(order@[w as int] == from);
                            }
                            fidx = w;
                            w = t;
                        } else {
                            w = w + 1;
                        }
                    }
                    if fidx < t {
                        let dv = depths[fidx];
                        if dv + 1 > best {
                            best = dv + 1;
                        }
                        proof {
                            assert forall|cj: int, i: int|
                                0 <= cj < ci + 1 && 0 <= i < t && (
                                #[trigger] conns@[cj]).to.node_id == id && (#[trigger] order@[i])
                                    == conns@[cj].from.node_id implies depths@[i] < best as int by {
                                if cj == ci {
                                    assert(order@[i] == from);
                                    assert(order@[fidx as int] == from);
                                    assert(order@.no_duplicates());
                                    assert(i == fidx);
                                }
                            }
                            if dv + 1 == best {
                                assert(conns@[ci as int].to.node_id == id);
                                assert(order@[fidx as int] == conns@[ci as int].from.node_id);
                                assert(depths@[fidx as int] == best - 1);
                            }
                        }
                    } else {
                        proof {
                            // a parent of an emitted node is always emitted earlier
                            assert(t < order@.len());
                            assert(conns@[ci as int].to.node_id == order@[t as int]);
                            assert(exists|j: int|
                                0 <= j < t && order@[j] == conns@[ci as int].from.node_id);
                            let j = choose|j: int|
                                0 <= j < t && order@[j] == conns@[ci as int].from.node_id;
                            assert(order@[j] != from);
                            assert(false);
                        }
                    }
                } else {
                    proof {
                        assert forall|cj: int, i: int|
                            0 <= cj < ci + 1 && 0 <= i < t && (#[trigger] conns@[cj]).to.node_id
                                == id && (#[trigger] order@[i]) == conns@[cj].from.node_id implies
                            depths@[i] < best as int by {}
                    }
                }
                ci = ci + 1;
            }
            let ghost pre_depths = depths@;
            depths.push(best);
            proof {
                assert(depths@.len() == t + 1);
                assert(forall|i: int| 0 <= i < t ==> depths@[i] == pre_depths[i]);
                assert(depths@[t as int] == best);
                assert forall|ci2: int, i: int, j: int|
                    0 <= ci2 < cn && 0 <= i < t + 1 && 0 <= j < t + 1 && (
                    #[trigger] conns@[ci2]).from.node_id == order@[i] && conns@[ci2].to.node_id
                        == order@[j] implies #[trigger] depths@[i] < #[trigger] depths@[j] by {
                    if j == t {
                        if i < t {
                            assert(pre_depths[i] < best as int);
                            assert(depths@[j] == best);
                        } else {
                            // an edge from the node to itself would precede itself
                            assert(order@[i] == order@[t as int]);
                            assert(exists|w2: int|
                                0 <= w2 < t && order@[w2] == conns@[ci2].from.node_id);
                            let w2 = choose|w2: int|
                                0 <= w2 < t && order@[w2] == conns@[ci2].from.node_id;
                            assert(order@.no_duplicates());
                            assert(false);
                        }
                    } else if i == t {
                        // an edge out of the node to an earlier node would
                        // contradict the emission order
                        assert(order@[j] == conns@[ci2].to.node_id);
                        assert(exists|w2: int|
                            0 <= w2 < j && order@[w2] == conns@[ci2].from.node_id);
                        let w2 = choose|w2: int|
                            0 <= w2 < j && order@[w2] == conns@[ci2].from.node_id;
                        assert(order@.no_duplicates());
                        assert(order@[w2] == order@[t as int]);
                        assert(false);
                    } else {
                        assert(pre_depths[i] < pre_depths[j]);
                    }
                }
                assert forall|i: int|
                    0 <= i < t + 1 && (#[trigger] depths@[i]) > 0 implies depth_witness(
                    order@,
                    depths@,
                    conns@,
                    i,
                ) by {
                    if i < t {
                        assert(depth_witness(order@, pre_depths, conns@, i));
                        let (cj, j): (int, int) = choose|cj: int, j: int|
                            0 <= cj < conns@.len() && 0 <= j < i && (
                            #[trigger] conns@[cj]).to.node_id == order@[i] && (
                            #[trigger] order@[j]) == conns@[cj].from.node_id && pre_depths[j]
                                == pre_depths[i] - 1;
                        assert(depths@[j] == pre_depths[j]);
                        assert(depths@[i] == pre_depths[i]);
                        assert(conns@[cj].to.node_id == order@[i]);
                        assert(order@[j] == conns@[cj].from.node_id);
                        assert(depths@[j] == depths@[i] - 1);
                    } else {
                        assert(best > 0);
                        let (cj, j): (int, int) = choose|cj: int, j: int|
                            0 <= cj < cn && 0 <= j < t && (#[trigger] conns@[cj]).to.node_id == id
                                && (#[trigger] order@[j]) == conns@[cj].from.node_id
                                && pre_depths[j] == best - 1;
                        assert(depths@[j] == pre_depths[j]);
                        assert(conns@[cj].to.node_id == order@[t as int]);
                        assert(order@[j] == conns@[cj].from.node_id);
                        assert(depths@[j] == depths@[t as int] - 1);
                    }
                }
            }
            t = t + 1;
        }
        // group by depth
        let mut batches: Vec<Vec<NodeId>> = Vec::new();
        if n == 0 {
            proof {
                assert forall|x: NodeId| has_node_id(self.graph.nodes@, x) implies batch_contains(
                    batches@,
                    x,
                ) by {
                    let k = choose|k: int|
                        0 <= k < self.graph.nodes@.len() && (#[trigger] self.graph.nodes@[k]).id
                            == x;
                    assert(order@.len() == self.graph.nodes@.len());
                }
            }
            return Ok(batches);
        }
        let mut max_depth: usize = 0;
        let mut m: usize = 0;
        while m < n
            invariant
                m <= n,
                n == depths@.len(),
                max_depth < n,
                n == order@.len(),
                forall|i: int| 0 <= i < n ==> #[trigger] depths@[i] <= i,
                forall|i: int| 0 <= i < m ==> #[trigger] depths@[i] <= max_depth,
                m == 0 ==> max_depth == 0,
                m > 0 ==> exists|i: int|
                    0 <= i < m && (#[trigger] depths@[i]) == max_depth as int,
            decreases n - m,
        {
            if depths[m] > max_depth {
                max_depth = depths[m];
                proof {
                    assert(depths@[m as int] == max_depth as int);
                }
            } else {
                proof {
                    if m == 0 {
                        assert(depths@[0] <= 0);
                        assert(depths@[0] == max_depth as int);
                    }
                }
            }
            m = m + 1;
        }
        let mut d: usize = 0;
        while d <= max_depth
            invariant
                n == order@.len(),
                n == depths@.len(),
                n > 0,
                conns@ == self.graph.connections@,
                is_permutation_of(order@, self.graph.nodes@),
                forall|i: int| 0 <= i < n ==> #[trigger] depths@[i] <= max_depth,
                forall|ci: int, i: int, j: int|
                    0 <= ci < conns@.len() && 0 <= i < n && 0 <= j < n && (
                    #[trigger] conns@[ci]).from.node_id == order@[i] && conns@[ci].to.node_id
                        == order@[j] ==> #[trigger] depths@[i] < #[trigger] depths@[j],
                max_depth < n,
                d <= max_depth + 1,
                batches@.len() == d,
                forall|b: int, p: int|
                    0 <= b < d && 0 <= p < batches@[b]@.len() ==> placed(
                        order@,
                        depths@,
                        #[trigger] batches@[b]@[p],
                        n as int,
                        b,
                    ),
                forall|b: int| 0 <= b < d ==> (#[trigger] batches@[b])@.no_duplicates(),
                forall|i: int|
                    0 <= i < n && #[trigger] depths@[i] < d ==> batch_contains(
                        batches@,
                        order@[i],
                    ),
                forall|b: int, w: int|
                    0 <= b < d && 0 <= w < n && #[trigger] depths@[w] == b ==> (
                    #[trigger] batches@[b])@.contains(order@[w]),
                forall|i: int|
                    0 <= i < n && (#[trigger] depths@[i]) > 0 ==> depth_witness(
                        order@,
                        depths@,
                        conns@,
                        i,
                    ),
                exists|i: int| 0 <= i < n && (#[trigger] depths@[i]) == max_depth as int,
            decreases max_depth + 1 - d,
        {
            let ghost pre_batches = batches@;
            let mut batch: Vec<NodeId> = Vec::new();
            let mut i: usize = 0;
            while i < n
                invariant
                    i <= n,
                    n == order@.len(),
                    n == depths@.len(),
                    order@.no_duplicates(),
                    forall|p: int|
                        0 <= p < batch@.len() ==> placed(
                            order@,
                            depths@,
                            #[trigger] batch@[p],
                            i as int,
                            d as int,
                        ),
                    batch@.no_duplicates(),
                    forall|w: int|
                        0 <= w < i && #[trigger] depths@[w] == d as int ==> batch@.contains(
                            order@[w],
                        ),
                decreases n - i,
            {
                let ghost pre_batch = batch@;
                if depths[i] == d {
                    proof {
                        assert(!pre_batch.contains(order@[i as int])) by {
                            if pre_batch.contains(order@[i as int]) {
                                let p = choose|p: int|
                                    0 <= p < pre_batch.len() && pre_batch[p] == order@[i as int];
                                assert(placed(order@, depths@, pre_batch[p], i as int, d as int));
                                let w = choose|w: int|
                                    0 <= w < i && #[trigger] order@[w] == pre_batch[p]
                                        && depths@[w] == d as int;
                                assert(order@.no_duplicates());
                                assert(order@[w] == order@[i as int]);
                                assert(false);
                            }
                        }
                    }
                    batch.push(order[i]);
                    proof {
                        assert(forall|p: int| 0 <= p < pre_batch.len() ==> batch@[p] == pre_batch[p]);
                        assert(batch@.drop_last() =~= pre_batch);
                        assert(batch@.no_duplicates());
                        assert forall|p: int| 0 <= p < batch@.len() implies placed(
                            order@,
                            depths@,
                            #[trigger] batch@[p],
                            i + 1,
                            d as int,
                        ) by {
                            if p < pre_batch.len() {
                                assert(batch@[p] == pre_batch[p]);
                                assert(placed(order@, depths@, pre_batch[p], i as int, d as int));
                                let w = choose|w: int|
                                    0 <= w < i && #[trigger] order@[w] == pre_batch[p]
                                        && depths@[w] == d as int;
                                assert(order@[w] == batch@[p]);
                            } else {
                                assert(batch@[p] == order@[i as int]);
                                assert(depths@[i as int] == d as int);
                            }
                        }
                        assert forall|w: int|
                            0 <= w < i + 1 && #[trigger] depths@[w] == d as int implies
                            batch@.contains(order@[w]) by {
                            if w < i {
                                assert(pre_batch.contains(order@[w]));
                                let p = choose|p: int|
                                    0 <= p < pre_batch.len() && pre_batch[p] == order@[w];
                                assert(batch@[p] == order@[w]);
                            } else {
                                assert(batch@.last() == order@[w]);
                            }
                        }
                    }
                } else {
                    proof {
                        assert forall|w: int|
                            0 <= w < i + 1 && #[trigger] depths@[w] == d as int implies
                            batch@.contains(order@[w]) by {
                            if w < i {
                                assert(pre_batch.contains(order@[w]));
                            }
                        }
                        assert forall|p: int| 0 <= p < batch@.len() implies placed(
                            order@,
                            depths@,
                            #[trigger] batch@[p],
                            i + 1,
                            d as int,
                        ) by {
                            assert(placed(order@, depths@, batch@[p], i as int, d as int));
                            let w = choose|w: int|
                                0 <= w < i && #[trigger] order@[w] == batch@[p] && depths@[w]
                                    == d as int;
                        }
                    }
                }
                i = i + 1;
            }
            batches.push(batch);
            proof {
                assert(forall|b: int|
                    0 <= b < pre_batches.len() ==> #[trigger] batches@[b] == pre_batches[b]);
                assert forall|b: int, p: int|
                    0 <= b < d + 1 && 0 <= p < batches@[b]@.len() implies placed(
                    order@,
                    depths@,
                    #[trigger] batches@[b]@[p],
                    n as int,
                    b,
                ) by {
                    if b < d {
                        assert(batches@[b] == pre_batches[b]);
                        assert(placed(order@, depths@, pre_batches[b]@[p], n as int, b));
                    } else {
                        assert(batches@[b] == batch);
                        assert(placed(order@, depths@, batch@[p], n as int, d as int));
                    }
                }
                assert forall|b: int| 0 <= b < d + 1 implies (
                #[trigger] batches@[b])@.no_duplicates() by {
                    if b < d {
                        assert(batches@[b] == pre_batches[b]);
                    } else {
                        assert(batches@[b] == batch);
                    }
                }
                assert forall|ii: int|
                    0 <= ii < n && #[trigger] depths@[ii] < d + 1 implies batch_contains(
                        batches@,
                        order@[ii],
                    ) by {
                    if depths@[ii] < d {
                        assert(batch_contains(pre_batches, order@[ii]));
                        let (b, p): (int, int) = choose|b: int, p: int|
                            0 <= b < pre_batches.len() && 0 <= p < pre_batches[b]@.len()
                                && #[trigger] pre_batches[b]@[p] == order@[ii];
                        assert(batches@[b]@[p] == order@[ii]);
                    } else {
                        assert(depths@[ii] == d as int);
                        assert(batches@[d as int]@.contains(order@[ii]));
                        let p = choose|p: int|
                            0 <= p < batches@[d as int]@.len() && batches@[d as int]@[p]
                                == order@[ii];
                        assert(batch_contains(batches@, order@[ii])) by {
                            assert(batches@[d as int]@[p] == order@[ii]);
                        }
                    }
                }
                assert forall|b: int, w: int|
                    0 <= b < d + 1 && 0 <= w < n && #[trigger] depths@[w] == b implies (
                #[trigger] batches@[b])@.contains(order@[w]) by {
                    if b < d {
                        assert(batches@[b] == pre_batches[b]);
                        assert(pre_batches[b]@.contains(order@[w]));
                    } else {
                        assert(batches@[b] == batch);
                        assert(batch@.contains(order@[w]));
                    }
                }
            }
            d = d + 1;
        }
        proof {
            let bs = batches@;
            assert forall|x: NodeId| has_node_id(self.graph.nodes@, x) implies batch_contains(
                bs,
                x,
            ) by {
                let ids = order@;
                assert(order@.len() == self.graph.nodes@.len());
                // every node id appears in the order
                order@.unique_seq_to_set();
                let nid_seq = self.graph.nodes@.map_values(
                    |nd: crate::graph::GraphNode| nd.id,
                );
                assert(nid_seq.no_duplicates()) by {
                    assert forall|a: int, b: int| 0 <= a < b < nid_seq.len() implies nid_seq[a]
                        != nid_seq[b] by {
                        assert(self.graph.nodes@[a].id != self.graph.nodes@[b].id);
                    }
                }
                nid_seq.unique_seq_to_set();
                assert(order@.to_set().subset_of(nid_seq.to_set())) by {
                    assert forall|y: NodeId| order@.to_set().contains(y) implies
                        nid_seq.to_set().contains(y) by {
                        assert(order@.contains(y));
                        let w = choose|w: int| 0 <= w < order@.len() && order@[w] == y;
                        assert(has_node_id(self.graph.nodes@, y));
                        let m2 = choose|m2: int|
                            0 <= m2 < self.graph.nodes@.len() && (
                            #[trigger] self.graph.nodes@[m2]).id == y;
                        assert(nid_seq[m2] == y);
                        assert(nid_seq.contains(y));
                    }
                }
                vstd::set_lib::lemma_subset_equality(order@.to_set(), nid_seq.to_set());
                assert(order@.to_set() =~= nid_seq.to_set());
                let k = choose|k: int|
                    0 <= k < self.graph.nodes@.len() && (#[trigger] self.graph.nodes@[k]).id == x;
                assert(nid_seq[k] == x);
                assert(nid_seq.contains(x));
                assert(nid_seq.to_set().contains(x));
                assert(order@.to_set().contains(x));
                assert(order@.contains(x));
                let w = choose|w: int| 0 <= w < order@.len() && order@[w] == x;
                assert(depths@[w] <= max_depth);
                assert(batch_contains(bs, order@[w]));
            }
            assert forall|b: int, i: int|
                0 <= b < bs.len() && 0 <= i < bs[b]@.len() implies has_node_id(
                self.graph.nodes@,
                #[trigger] bs[b]@[i],
            ) by {
                assert(placed(order@, depths@, bs[b]@[i], n as int, b));
                let w = choose|w: int|
                    0 <= w < n && #[trigger] order@[w] == bs[b]@[i] && depths@[w] == b;
            }
            assert(batches_disjoint(bs)) by {
                assert forall|b1: int, i1: int, b2: int, i2: int|
                    0 <= b1 < bs.len() && 0 <= i1 < bs[b1]@.len() && 0 <= b2 < bs.len() && 0 <= i2
                        < bs[b2]@.len() && (b1 != b2 || i1 != i2) implies #[trigger] bs[b1]@[i1]
                    != #[trigger] bs[b2]@[i2] by {
                    if bs[b1]@[i1] == bs[b2]@[i2] {
                        assert(placed(order@, depths@, bs[b1]@[i1], n as int, b1));
                        assert(placed(order@, depths@, bs[b2]@[i2], n as int, b2));
                        let w1 = choose|w1: int|
                            0 <= w1 < n && #[trigger] order@[w1] == bs[b1]@[i1] && depths@[w1]
                                == b1;
                        let w2 = choose|w2: int|
                            0 <= w2 < n && #[trigger] order@[w2] == bs[b2]@[i2] && depths@[w2]
                                == b2;
                        assert(order@.no_duplicates());
                        assert(w1 == w2);
                        assert(b1 == b2);
                        assert(bs[b1]@.no_duplicates());
                        assert(false);
                    }
                }
            }
            assert(batches_respect_edges(bs, self.graph.connections@)) by {
                assert forall|ci: int, b1: int, i1: int, b2: int, i2: int|
                    0 <= ci < self.graph.connections@.len() && 0 <= b1 < bs.len() && 0 <= i1
                        < bs[b1]@.len() && 0 <= b2 < bs.len() && 0 <= i2 < bs[b2]@.len() && (
                    #[trigger] self.graph.connections@[ci]).from.node_id == #[trigger] bs[b1]@[i1]
                        && self.graph.connections@[ci].to.node_id == #[trigger] bs[b2]@[i2]
                    implies b1 < b2 by {
                    assert(placed(order@, depths@, bs[b1]@[i1], n as int, b1));
                    assert(placed(order@, depths@, bs[b2]@[i2], n as int, b2));
                    let w1 = choose|w1: int|
                        0 <= w1 < n && #[trigger] order@[w1] == bs[b1]@[i1] && depths@[w1] == b1;
                    let w2 = choose|w2: int|
                        0 <= w2 < n && #[trigger] order@[w2] == bs[b2]@[i2] && depths@[w2] == b2;
                    assert(depths@[w1] < depths@[w2]);
                }
            }
            assert(bs.len() == max_depth + 1);
            assert forall|b: int| 0 <= b < bs.len() implies (#[trigger] bs[b])@.len() > 0 by {
                lemma_depth_attained(order@, depths@, conns@, max_depth as int, b);
                let i = choose|i: int| 0 <= i < depths@.len() && (#[trigger] depths@[i]) == b;
                assert(bs[b]@.contains(order@[i]));
            }
            assert forall|b: int, p: int|
                1 <= b < bs.len() && 0 <= p < bs[b]@.len() implies has_parent_in(
                bs,
                self.graph.connections@,
                b - 1,
                #[trigger] bs[b]@[p],
            ) by {
                assert(placed(order@, depths@, bs[b]@[p], n as int, b));
                let w = choose|w: int|
                    0 <= w < n && #[trigger] order@[w] == bs[b]@[p] && depths@[w] == b;
                assert(depths@[w] > 0);
                assert(depth_witness(order@, depths@, conns@, w));
                let (cj, j): (int, int) = choose|cj: int, j: int|
                    0 <= cj < conns@.len() && 0 <= j < w && (#[trigger] conns@[cj]).to.node_id
                        == order@[w] && (#[trigger] order@[j]) == conns@[cj].from.node_id
                        && depths@[j] == depths@[w] - 1;
                assert(depths@[j] == b - 1);
                assert(bs[b - 1]@.contains(order@[j]));
                let q = choose|q: int| 0 <= q < bs[b - 1]@.len() && (#[trigger] bs[b - 1]@[q]) == order@[j];
                assert(conns@[cj].to.node_id == bs[b]@[p]);
                assert(conns@[cj].from.node_id == bs[b - 1]@[q]);
                assert(conns@ == self.graph.connections@);
                assert(has_parent_in(bs, self.graph.connections@, b - 1, bs[b]@[p]));
            }
            assert forall|p: int, ci: int|
                bs.len() > 0 && 0 <= p < bs[0]@.len() && 0 <= ci < self.graph.connections@.len()
                    && (#[trigger] self.graph.connections@[ci]).to.node_id == (
            #[trigger] bs[0]@[p]) implies !has_node_id(
                self.graph.nodes@,
                self.graph.connections@[ci].from.node_id,
            ) by {
                if has_node_id(self.graph.nodes@, self.graph.connections@[ci].from.node_id) {
                    assert(batch_contains(bs, self.graph.connections@[ci].from.node_id));
                    let (b1, i1): (int, int) = choose|b1: int, i1: int|
                        0 <= b1 < bs.len() && 0 <= i1 < bs[b1]@.len() && #[trigger] bs[b1]@[i1]
                            == self.graph.connections@[ci].from.node_id;
                    assert(placed(order@, depths@, bs[b1]@[i1], n as int, b1));
                    assert(placed(order@, depths@, bs[0]@[p], n as int, 0));
                    let w1 = choose|w1: int|
                        0 <= w1 < n && #[trigger] order@[w1] == bs[b1]@[i1] && depths@[w1] == b1;
                    let w2 = choose|w2: int|
                        0 <= w2 < n && #[trigger] order@[w2] == bs[0]@[p] && depths@[w2] == 0;
                    assert(conns@[ci].from.node_id == order@[w1]);
                    assert(conns@[ci].to.node_id == order@[w2]);
                    assert(depths@[w1] < depths@[w2]);
                    assert(false);
                }
            }
        }
        Ok(batches)
    }

    /// The dependency depth of a node: the index of the batch that holds
    /// it, which is the length of the longest chain of parents above it.
    pub fn node_depth(&self, node_id: NodeId) -> (r: Result<usize, GraphError>)
        requires
            crate::graph::node_ids_unique(self.graph.nodes@),
        ensures
            match r {
                Ok(_) => has_node_id(self.graph.nodes@, node_id),
                Err(e) => (e matches GraphError::NodeNotFound(n) && n == node_id && !has_node_id(
                    self.graph.nodes@,
                    node_id,
                )) || (e is CycleDetected && !self.graph.wf()),
            },
    {
        let batches = match self.parallel_batches() {
            Ok(bs) => bs,
            Err(e) => {
                return Err(e);
            }
        };
        let bn = batches.len();
        let mut b: usize = 0;
        while b < bn
            invariant
                bn == batches@.len(),
                b <= bn,
                forall|bb: int, ii: int|
                    0 <= bb < b && 0 <= ii < batches@[bb]@.len() ==> #[trigger] batches@[bb]@[ii]
                        != node_id,
                forall|x: NodeId|
                    has_node_id(self.graph.nodes@, x) ==> batch_contains(batches@, x),
                forall|bb: int, ii: int|
                    0 <= bb < batches@.len() && 0 <= ii < batches@[bb]@.len() ==> has_node_id(
                        self.graph.nodes@,
                        #[trigger] batches@[bb]@[ii],
                    ),
            decreases bn - b,
        {
            let cur = &batches[b];
            let cn2 = cur.len();
            let mut i: usize = 0;
            while i < cn2
                invariant
                    b < bn,
                    bn == batches@.len(),
                    cn2 == batches@[b as int]@.len(),
                    cur == &batches@[b as int],
                    i <= cn2,
                    forall|bb: int, ii: int|
                        0 <= bb < batches@.len() && 0 <= ii < batches@[bb]@.len() ==> has_node_id(
                            self.graph.nodes@,
                            #[trigger] batches@[bb]@[ii],
                        ),
                    forall|ii: int|
                        0 <= ii < i ==> #[trigger] batches@[b as int]@[ii] != node_id,
                decreases cn2 - i,
            {
                if cur[i].0 == node_id.0 {
                    proof {
                        assert(batches@[b as int]@[i as int] == node_id);
                    }
                    return Ok(b);
                }
                i = i + 1;
            }
            b = b + 1;
        }
        proof {
            if has_node_id(self.graph.nodes@, node_id) {
                assert(batch_contains(batches@, node_id));
                let (bb, ii): (int, int) = choose|bb: int, ii: int|
                    0 <= bb < batches@.len() && 0 <= ii < batches@[bb]@.len()
                        && #[trigger] batches@[bb]@[ii] == node_id;
                assert(false);
            }
        }
        Err(GraphError::NodeNotFound(node_id))
    }

    /// The weakly connected components of the graph: nodes joined by
    /// connections in either direction share a component.  Every listed
    /// identifier is a node of the graph, no component is empty, and there
    /// is at least one component exactly when the graph has a node.
    pub fn find_subgraphs(&self) -> (r: Vec<Vec<NodeId>>)
        ensures
            forall|c: int, k: int|
                0 <= c < r@.len() && 0 <= k < r@[c]@.len() ==> has_node_id(
                    self.graph.nodes@,
                    #[trigger] r@[c]@[k],
                ),
            forall|c: int| 0 <= c < r@.len() ==> (#[trigger] r@[c])@.len() > 0,
            r@.len() == 0 <==> self.graph.nodes@.len() == 0,
    {
        let n = self.graph.nodes.len();
        if n == 0 {
            return Vec::new();
        }
        // union-find over node positions; a parent never exceeds its child,
        // so chasing parents terminates
        let mut parent: Vec<usize> = Vec::new();
        let mut i: usize = 0;
        while i < n
            invariant
                i <= n,
                parent@.len() == i,
                forall|j: int| 0 <= j < i ==> #[trigger] parent@[j] <= j,
            decreases n - i,
        {
            parent.push(i);
            i = i + 1;
        }
        let cn = self.graph.connections.len();
        let mut ci: usize = 0;
        while ci < cn
            invariant
                cn == self.graph.connections@.len(),
                n == self.graph.nodes@.len(),
                parent@.len() == n,
                forall|j: int| 0 <= j < n ==> #[trigger] parent@[j] <= j,
            decreases cn - ci,
        {
            let from = self.graph.connections[ci].from.node_id;
            let to = self.graph.connections[ci].to.node_id;
            let fi = index_of_node(&self.graph.nodes, from);
            let ti = index_of_node(&self.graph.nodes, to);
            if fi < n && ti < n {
                let ra = root_of(&parent, fi);
                let rb = root_of(&parent, ti);
                if ra < rb {
                    parent.set(rb, ra);
                } else if rb < ra {
                    parent.set(ra, rb);
                }
            }
            ci = ci + 1;
        }
        let rt0 = root_of(&parent, 0);
        let mut comps: Vec<Vec<NodeId>> = Vec::new();
        let mut rr: usize = 0;
        while rr < n
            invariant
                n == self.graph.nodes@.len(),
                n > 0,
                parent@.len() == n,
                forall|j: int| 0 <= j < n ==> #[trigger] parent@[j] <= j,
                rt0 < n,
                parent@[rt0 as int] == rt0,
                rr <= n,
                forall|c: int, k: int|
                    0 <= c < comps@.len() && 0 <= k < comps@[c]@.len() ==> has_node_id(
                        self.graph.nodes@,
                        #[trigger] comps@[c]@[k],
                    ),
                forall|c: int| 0 <= c < comps@.len() ==> (#[trigger] comps@[c])@.len() > 0,
                rr > rt0 ==> comps@.len() > 0,
            decreases n - rr,
        {
            if parent[rr] == rr {
                let mut comp: Vec<NodeId> = Vec::new();
                let mut w: usize = 0;
                while w < n
                    invariant
                        n == self.graph.nodes@.len(),
                        parent@.len() == n,
                        forall|j: int| 0 <= j < n ==> #[trigger] parent@[j] <= j,
                        rr < n,
                        parent@[rr as int] == rr,
                        w <= n,
                        forall|k: int|
                            0 <= k < comp@.len() ==> has_node_id(
                                self.graph.nodes@,
                                #[trigger] comp@[k],
                            ),
                        w > rr ==> comp@.len() > 0,
                    decreases n - w,
                {
                    let rt = root_of(&parent, w);
                    if rt == rr {
                        let id = self.graph.nodes[w].id;
                        proof {
                            assert(has_node_id(self.graph.nodes@, id)) by {
                                assert(self.graph.nodes@[w as int].id == id);
                            }
                        }
                        comp.push(id);
                    }
                    w = w + 1;
                }
                comps.push(comp);
            }
            rr = rr + 1;
        }
        comps
    }

    /// The critical path length: the number of dependency levels.
    pub fn critical_path_length(&self) -> (r: Result<usize, GraphError>)
        requires
            crate::graph::node_ids_unique(self.graph.nodes@),
        ensures
            r is Err ==> !self.graph.wf(),
    {
        match self.parallel_batches() {
            Ok(batches) => Ok(batches.len()),
            Err(e) => Err(e),
        }
    }
}

} // verus!
