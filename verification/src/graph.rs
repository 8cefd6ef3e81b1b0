//! The graph store: nodes, typed connections, the five structural
//! invariants, and the mutations that preserve them.
//!
//! A well-formed graph satisfies, after every successful mutation:
//! every connection endpoint names an existing node and a port of the right
//! direction; every connection's types are compatible; each input port has
//! at most one incoming connection; the graph has no directed cycle (stated
//! here as: every non-empty set of nodes has a member with no incoming edge
//! from the set, which `lemma_wf_no_cycle` shows rules out cycles); and node
//! and connection identifiers are unique.

use crate::errors::{ConnectionId, GraphError, NodeId};
use crate::nodes::{port_lookup, FilterNode, NodeMetadata};
use crate::ports::PortDirection;
use crate::strutil::str_eq;
use crate::values::{compatible_spec, lookup, Value, ValueMap};
use vstd::prelude::*;

verus! {

/// Position of a node in a canvas; the coordinates are 64-bit float bit
/// patterns.
#[derive(Debug, Clone, Copy, PartialEq, Eq, Structural)]
pub struct Position {
    /// Horizontal position, as a float bit pattern.
    pub x: u64,
    /// Vertical position, as a float bit pattern.
    pub y: u64,
}

impl Position {
    /// Create a position from float bit patterns.
    pub fn new(x: u64, y: u64) -> (r: Self)
        ensures
            r == (Position { x, y }),
    {
        Position { x, y }
    }
}

impl Default for Position {
    /// The origin.
    fn default() -> (r: Self)
        ensures
            r == (Position { x: 0u64, y: 0u64 }),
    {
        Position { x: 0, y: 0 }
    }
}

/// An endpoint of a connection: a node and a port on it.
pub struct Endpoint {
    /// The node.
    pub node_id: NodeId,
    /// The port name on that node.
    pub port_name: String,
}

impl Endpoint {
    /// Create an endpoint.
    pub fn new(node_id: NodeId, port_name: String) -> (r: Self)
        ensures
            r.node_id == node_id,
            r.port_name == port_name,
    {
        Endpoint { node_id, port_name }
    }
}

/// A connection between an output port and an input port.
pub struct Connection {
    /// Unique identifier of this connection.
    pub id: ConnectionId,
    /// Source endpoint, an output port.
    pub from: Endpoint,
    /// Target endpoint, an input port.
    pub to: Endpoint,
}

impl Connection {
    /// Create a connection with a fresh identifier.
    pub fn new(from: Endpoint, to: Endpoint) -> (r: Self)
        ensures
            r.from == from,
            r.to == to,
    {
        Connection { id: ConnectionId::new(), from, to }
    }

    /// Replace the identifier.
    pub fn with_id(self, id: ConnectionId) -> (r: Self)
        ensures
            r.id == id,
            r.from == self.from,
            r.to == self.to,
    {
        Connection { id, ..self }
    }
}

/// Metadata about a graph document.
pub struct GraphMetadata {
    /// Optional name.
    pub name: Option<String>,
    /// Optional description.
    pub description: Option<String>,
    /// Author information.
    pub author: Option<String>,
    /// Version string.
    pub version: Option<String>,
    /// Additional tags.
    pub tags: Vec<String>,
    /// Creation timestamp.
    pub created_at: Option<String>,
    /// Last modified timestamp.
    pub modified_at: Option<String>,
}

impl Default for GraphMetadata {
    /// Everything absent.
    fn default() -> (r: Self)
        ensures
            r.name is None,
            r.description is None,
            r.author is None,
            r.version is None,
            r.tags@.len() == 0,
            r.created_at is None,
            r.modified_at is None,
    {
        GraphMetadata {
            name: None,
            description: None,
            author: None,
            version: None,
            tags: Vec::new(),
            created_at: None,
            modified_at: None,
        }
    }
}

/// A node instance in a graph: its filter, the metadata captured from it
/// once at construction, and its per-instance state.
pub struct GraphNode {
    /// Unique identifier.
    pub id: NodeId,
    /// The filter implementation.
    pub filter: Box<dyn FilterNode>,
    /// The filter's metadata, captured when the node was made.
    pub metadata: NodeMetadata,
    /// Position in a canvas.
    pub position: Position,
    /// Parameter values overriding the defaults.
    pub parameters: ValueMap,
    /// Optional display label.
    pub label: Option<String>,
    /// Whether this node is disabled.
    pub disabled: bool,
}

impl GraphNode {
    /// Create a node for a filter, capturing its metadata.
    pub fn new(filter: Box<dyn FilterNode>) -> (r: Self)
        ensures
            r.parameters@.len() == 0,
            r.label is None,
            !r.disabled,
    {
        let metadata = filter.metadata();
        GraphNode {
            id: NodeId::new(),
            filter,
            metadata,
            position: Position::new(0, 0),
            parameters: ValueMap::new(),
            label: None,
            disabled: false,
        }
    }

    /// Replace the identifier.
    pub fn with_id(self, id: NodeId) -> (r: Self)
        ensures
            r.id == id,
            r.metadata == self.metadata,
            r.parameters == self.parameters,
            r.label == self.label,
            r.disabled == self.disabled,
    {
        GraphNode { id, ..self }
    }

    /// Set the position, from float bit patterns.
    pub fn with_position(self, x: u64, y: u64) -> (r: Self)
        ensures
            r.position == (Position { x, y }),
            r.id == self.id,
            r.metadata == self.metadata,
            r.parameters == self.parameters,
    {
        GraphNode { position: Position { x, y }, ..self }
    }

    /// Set a parameter value.
    pub fn with_parameter(self, name: String, value: Value) -> (r: Self)
        ensures
            lookup(r.parameters@, name@) == Some(value@),
            forall|k2: Seq<char>|
                k2 != name@ ==> #[trigger] lookup(r.parameters@, k2) == lookup(
                    self.parameters@,
                    k2,
                ),
            r.id == self.id,
            r.metadata == self.metadata,
    {
        let mut parameters = self.parameters;
        parameters.insert(name, value);
        GraphNode { parameters, ..self }
    }

    /// Set the display label.
    pub fn with_label(self, label: String) -> (r: Self)
        ensures
            r.label == Some(label),
            r.id == self.id,
            r.metadata == self.metadata,
            r.parameters == self.parameters,
    {
        GraphNode { label: Some(label), ..self }
    }

    /// The display name: the label when set, else the filter's name.
    pub fn display_name(&self) -> (r: String)
        ensures
            match self.label {
                Some(l) => r@ == l@,
                None => r@ == self.metadata.name@,
            },
    {
        match &self.label {
            Some(l) => l.clone(),
            None => self.metadata.name.clone(),
        }
    }

    /// A parameter's effective value: the override when set, else the
    /// declared default.
    pub fn get_parameter(&self, name: &str) -> (r: Option<Value>)
        ensures
            match r {
                Some(v) => lookup(self.parameters@, name@) == Some(v@) || (lookup(
                    self.parameters@,
                    name@,
                ) is None && (crate::nodes::param_lookup(self.metadata.parameters@, name@) matches
                    Some(p) && p.default_value@ == v@)),
                None => lookup(self.parameters@, name@) is None && crate::nodes::param_lookup(
                    self.metadata.parameters@,
                    name@,
                ) is None,
            },
    {
        match self.parameters.get(name) {
            Some(v) => Some(v.duplicate()),
            None => match self.metadata.get_parameter(name) {
                Some(p) => Some(p.default_value.duplicate()),
                None => None,
            },
        }
    }

    /// Set a parameter value.
    pub fn set_parameter(&mut self, name: String, value: Value)
        ensures
            lookup(final(self).parameters@, name@) == Some(value@),
            forall|k2: Seq<char>|
                k2 != name@ ==> #[trigger] lookup(final(self).parameters@, k2) == lookup(
                    old(self).parameters@,
                    k2,
                ),
            final(self).id == old(self).id,
            final(self).metadata == old(self).metadata,
            final(self).disabled == old(self).disabled,
    {
        self.parameters.insert(name, value);
    }
}

/// The main processing graph: an ordered mapping from identifiers to nodes,
/// and an ordered list of connections.
pub struct ProcessingGraph {
    /// All nodes, in insertion order.
    pub nodes: Vec<GraphNode>,
    /// All connections, in insertion order.
    pub connections: Vec<Connection>,
    /// Graph metadata.
    pub metadata: GraphMetadata,
    /// The serial number the next connection identifier is drawn from.
    pub next_conn_serial: u64,
}

/// Whether a node sequence holds the identifier.
pub open spec fn has_node_id(nodes: Seq<GraphNode>, id: NodeId) -> bool {
    exists|i: int| 0 <= i < nodes.len() && (#[trigger] nodes[i]).id == id
}

/// The node with an identifier, where it exists and identifiers are unique.
pub open spec fn node_with_id(nodes: Seq<GraphNode>, id: NodeId) -> GraphNode {
    nodes[choose|i: int| 0 <= i < nodes.len() && (#[trigger] nodes[i]).id == id]
}

/// Whether the connection list holds an edge from `a` to `b`.
pub open spec fn has_edge(conns: Seq<Connection>, a: NodeId, b: NodeId) -> bool {
    exists|i: int|
        0 <= i < conns.len() && (#[trigger] conns[i]).from.node_id == a && conns[i].to.node_id == b
}

/// `p` is a walk along edges from `a` to `b`.
pub open spec fn is_path_between(
    conns: Seq<Connection>,
    p: Seq<NodeId>,
    a: NodeId,
    b: NodeId,
) -> bool {
    &&& p.len() >= 1
    &&& p[0] == a
    &&& p.last() == b
    &&& forall|i: int| 0 <= i < p.len() - 1 ==> has_edge(conns, p[i], #[trigger] p[i + 1])
}

/// `b` can be reached from `a` along edges; every node reaches itself.
pub open spec fn reaches(conns: Seq<Connection>, a: NodeId, b: NodeId) -> bool {
    exists|p: Seq<NodeId>| #[trigger] is_path_between(conns, p, a, b)
}

/// Node identifiers are pairwise distinct.
pub open spec fn node_ids_unique(nodes: Seq<GraphNode>) -> bool {
    forall|i: int, j: int|
        0 <= i < j < nodes.len() ==> (#[trigger] nodes[i]).id != (#[trigger] nodes[j]).id
}

/// Connection identifiers are pairwise distinct.
pub open spec fn conn_ids_unique(conns: Seq<Connection>) -> bool {
    forall|i: int, j: int|
        0 <= i < j < conns.len() ==> (#[trigger] conns[i]).id != (#[trigger] conns[j]).id
}

/// Every endpoint names an existing node and a port of the right direction,
/// and the connection's types are compatible.
pub open spec fn conn_endpoints_ok(nodes: Seq<GraphNode>, c: Connection) -> bool {
    &&& has_node_id(nodes, c.from.node_id)
    &&& has_node_id(nodes, c.to.node_id)
    &&& match port_lookup(node_with_id(nodes, c.from.node_id).metadata.outputs@, c.from.port_name@) {
        Some(out_port) => match port_lookup(
            node_with_id(nodes, c.to.node_id).metadata.inputs@,
            c.to.port_name@,
        ) {
            Some(in_port) => out_port.direction == PortDirection::Output && in_port.direction
                == PortDirection::Input && compatible_spec(out_port.port_type, in_port.port_type),
            None => false,
        },
        None => false,
    }
}

/// All connections have valid, type-compatible endpoints.
pub open spec fn conns_ok(nodes: Seq<GraphNode>, conns: Seq<Connection>) -> bool {
    forall|i: int| 0 <= i < conns.len() ==> conn_endpoints_ok(nodes, #[trigger] conns[i])
}

/// Each input port has at most one incoming connection.
pub open spec fn single_input(conns: Seq<Connection>) -> bool {
    forall|i: int, j: int|
        0 <= i < j < conns.len() ==> !((#[trigger] conns[i]).to.node_id == (
        #[trigger] conns[j]).to.node_id && conns[i].to.port_name@ == conns[j].to.port_name@)
}

/// Every member of the set is a node of the graph.
pub open spec fn live_set(nodes: Seq<GraphNode>, s: Set<NodeId>) -> bool {
    s.finite() && forall|n: NodeId| s.contains(n) ==> has_node_id(nodes, n)
}

/// Some member of the set has no incoming edge from the set.
pub open spec fn has_local_source(conns: Seq<Connection>, s: Set<NodeId>) -> bool {
    exists|n: NodeId|
        #[trigger] s.contains(n) && forall|m: NodeId| s.contains(m) ==> !has_edge(conns, m, n)
}

/// Every non-empty set of nodes has a member with no incoming edge from the
/// set.  For a finite graph this is exactly acyclicity; see
/// `lemma_wf_no_cycle`.
pub open spec fn well_founded(nodes: Seq<GraphNode>, conns: Seq<Connection>) -> bool {
    forall|s: Set<NodeId>|
        #[trigger] live_set(nodes, s) && s.len() > 0 ==> has_local_source(conns, s)
}

impl ProcessingGraph {
    /// The five structural invariants.
    pub open spec fn wf(&self) -> bool {
        &&& node_ids_unique(self.nodes@)
        &&& conn_ids_unique(self.connections@)
        &&& conns_ok(self.nodes@, self.connections@)
        &&& single_input(self.connections@)
        &&& well_founded(self.nodes@, self.connections@)
        &&& self.conn_serials_ok()
    }

    /// Connection identifiers are drawn from a counter, so a fresh one can
    /// never collide with a stored one.
    pub open spec fn conn_serials_ok(&self) -> bool {
        forall|i: int|
            0 <= i < self.connections@.len() ==> (#[trigger] self.connections@[i]).id.0
                < self.next_conn_serial as int
    }

    /// Create an empty graph.
    pub fn new() -> (r: Self)
        ensures
            r.wf(),
            r.nodes@.len() == 0,
            r.connections@.len() == 0,
    {
        let g = ProcessingGraph {
            nodes: Vec::new(),
            connections: Vec::new(),
            metadata: GraphMetadata::default(),
            next_conn_serial: 0,
        };
        proof {
            assert forall|s: Set<NodeId>| #[trigger] live_set(g.nodes@, s) && s.len() > 0 implies
                has_local_source(g.connections@, s) by {
                let n = s.choose();
                vstd::set_lib::lemma_set_empty_equivalency_len(s);
                assert(s.contains(n));
                assert(false);
            }
        }
        g
    }

    /// Name the graph.
    pub fn with_name(self, name: String) -> (r: Self)
        ensures
            r.nodes@ == self.nodes@,
            r.connections@ == self.connections@,
            r.metadata.name == Some(name),
            self.wf() ==> r.wf(),
    {
        let mut metadata = self.metadata;
        metadata.name = Some(name);
        ProcessingGraph { metadata, ..self }
    }

    /// Whether a node with this identifier exists.
    pub fn has_node(&self, id: NodeId) -> (r: bool)
        ensures
            r == has_node_id(self.nodes@, id),
    {
        let n = self.nodes.len();
        let mut i: usize = 0;
        while i < n
            invariant
                i <= n,
                n == self.nodes@.len(),
                forall|j: int| 0 <= j < i ==> (#[trigger] self.nodes@[j]).id != id,
            decreases n - i,
        {
            if self.nodes[i].id.0 == id.0 {
                proof {
                    assert(self.nodes@[i as int].id == id);
                }
                return true;
            }
            i = i + 1;
        }
        false
    }

    /// A reference to the node with this identifier.
    pub fn get_node(&self, id: NodeId) -> (r: Result<&GraphNode, GraphError>)
        requires
            node_ids_unique(self.nodes@),
        ensures
            match r {
                Ok(node) => has_node_id(self.nodes@, id) && *node == node_with_id(
                    self.nodes@,
                    id,
                ) && node.id == id,
                Err(e) => !has_node_id(self.nodes@, id) && (e matches GraphError::NodeNotFound(n)
                    && n == id),
            },
    {
        let n = self.nodes.len();
        let mut i: usize = 0;
        while i < n
            invariant
                i <= n,
                n == self.nodes@.len(),
                node_ids_unique(self.nodes@),
                forall|j: int| 0 <= j < i ==> (#[trigger] self.nodes@[j]).id != id,
            decreases n - i,
        {
            if self.nodes[i].id.0 == id.0 {
                proof {
                    assert(self.nodes@[i as int].id == id);
                    let w = choose|k: int|
                        0 <= k < self.nodes@.len() && (#[trigger] self.nodes@[k]).id == id;
                    assert(w == i as int);
                }
                return Ok(&self.nodes[i]);
            }
            i = i + 1;
        }
        Err(GraphError::NodeNotFound(id))
    }

    /// The number of nodes.
    pub fn node_count(&self) -> (r: usize)
        ensures
            r == self.nodes@.len(),
    {
        self.nodes.len()
    }

    /// All node identifiers, in insertion order.
    pub fn node_ids(&self) -> (r: Vec<NodeId>)
        ensures
            r@.len() == self.nodes@.len(),
            forall|i: int| 0 <= i < r@.len() ==> r@[i] == (#[trigger] self.nodes@[i]).id,
    {
        let mut out: Vec<NodeId> = Vec::new();
        let n = self.nodes.len();
        for i in 0..n
            invariant
                n == self.nodes@.len(),
                out@.len() == i,
                forall|j: int| 0 <= j < i ==> out@[j] == (#[trigger] self.nodes@[j]).id,
            decreases n - i,
        {
            out.push(self.nodes[i].id);
        }
        out
    }

    /// The number of connections.
    pub fn connection_count(&self) -> (r: usize)
        ensures
            r == self.connections@.len(),
    {
        self.connections.len()
    }

    /// All connections.
    pub fn connections(&self) -> (r: &Vec<Connection>)
        ensures
            r@ == self.connections@,
    {
        &self.connections
    }

    /// Whether the graph has no nodes.
    pub fn is_empty(&self) -> (r: bool)
        ensures
            r == (self.nodes@.len() == 0),
    {
        self.nodes.len() == 0
    }

    /// Whether an input port already has an incoming connection.
    pub fn is_input_connected(&self, node_id: NodeId, port: &str) -> (r: bool)
        ensures
            r == exists|i: int|
                0 <= i < self.connections@.len() && (#[trigger] self.connections@[i]).to.node_id
                    == node_id && self.connections@[i].to.port_name@ == port@,
    {
        let n = self.connections.len();
        let mut i: usize = 0;
        while i < n
            invariant
                i <= n,
                n == self.connections@.len(),
                forall|j: int|
                    0 <= j < i ==> !((#[trigger] self.connections@[j]).to.node_id == node_id
                        && self.connections@[j].to.port_name@ == port@),
            decreases n - i,
        {
            if self.connections[i].to.node_id.0 == node_id.0
                && str_eq(self.connections[i].to.port_name.as_str(), port) {
                proof {
                    assert(self.connections@[i as int].to.node_id == node_id);
                }
                return true;
            }
            i = i + 1;
        }
        false
    }

    /// Remove everything.
    pub fn clear(&mut self)
        ensures
            final(self).nodes@.len() == 0,
            final(self).connections@.len() == 0,
            final(self).wf(),
    {
        self.nodes.clear();
        self.connections.clear();
        self.next_conn_serial = 0;
        proof {
            assert forall|s: Set<NodeId>| #[trigger] live_set(self.nodes@, s) && s.len() > 0
                implies has_local_source(self.connections@, s) by {
                let n = s.choose();
                vstd::set_lib::lemma_set_empty_equivalency_len(s);
                assert(s.contains(n));
                assert(false);
            }
        }
    }
}

} // verus!

verus! {

/// Every node reaches itself.
pub proof fn lemma_reaches_refl(conns: Seq<Connection>, a: NodeId)
    ensures
        reaches(conns, a, a),
{
    let p = seq![a];
    assert(is_path_between(conns, p, a, a));
}

/// Following one more edge extends reachability.
pub proof fn lemma_reaches_step(conns: Seq<Connection>, a: NodeId, x: NodeId, m: NodeId)
    requires
        reaches(conns, a, x),
        has_edge(conns, x, m),
    ensures
        reaches(conns, a, m),
{
    let p = choose|p: Seq<NodeId>| #[trigger] is_path_between(conns, p, a, x);
    let q = p.push(m);
    assert(q.last() == m);
    assert forall|i: int| 0 <= i < q.len() - 1 implies has_edge(conns, q[i], #[trigger] q[i + 1])
        by {
        if i < p.len() - 1 {
            assert(has_edge(conns, p[i], p[i + 1]));
        } else {
            assert(q[i] == p.last());
        }
    }
    assert(is_path_between(conns, q, a, m));
}

/// Any endpoint of a walk out of a successor-closed set stays in the set.
pub proof fn lemma_path_stays_in(
    conns: Seq<Connection>,
    vset: Seq<NodeId>,
    p: Seq<NodeId>,
    a: NodeId,
    b: NodeId,
)
    requires
        is_path_between(conns, p, a, b),
        vset.contains(a),
        forall|u: NodeId, v: NodeId|
            vset.contains(u) && has_edge(conns, u, v) ==> vset.contains(v),
    ensures
        vset.contains(b),
    decreases p.len(),
{
    if p.len() == 1 {
        assert(b == a);
    } else {
        let q = p.drop_last();
        assert(is_path_between(conns, q, a, p[p.len() - 2])) by {
            assert(forall|i: int| 0 <= i < q.len() - 1 ==> #[trigger] q[i] == p[i] && q[i + 1] == p[i + 1]);
        }
        lemma_path_stays_in(conns, vset, q, a, p[p.len() - 2]);
        let i = p.len() - 2;
        assert(has_edge(conns, p[i], p[i + 1]));
        assert(p[i + 1] == b);
    }
}

/// If every edge of the smaller list is an edge of the larger, and every
/// node of the smaller graph is a node of the larger, a well-founded larger
/// graph keeps the smaller one well-founded.
pub proof fn lemma_well_founded_shrink(
    nodes: Seq<GraphNode>,
    conns: Seq<Connection>,
    sub_nodes: Seq<GraphNode>,
    sub_conns: Seq<Connection>,
)
    requires
        well_founded(nodes, conns),
        forall|n: NodeId| has_node_id(sub_nodes, n) ==> has_node_id(nodes, n),
        forall|a: NodeId, b: NodeId| has_edge(sub_conns, a, b) ==> has_edge(conns, a, b),
    ensures
        well_founded(sub_nodes, sub_conns),
{
    assert forall|s: Set<NodeId>| #[trigger] live_set(sub_nodes, s) && s.len() > 0 implies
        has_local_source(sub_conns, s) by {
        assert(live_set(nodes, s));
        assert(has_local_source(conns, s));
        let n = choose|n: NodeId|
            #[trigger] s.contains(n) && forall|m: NodeId| s.contains(m) ==> !has_edge(conns, m, n);
        assert forall|m: NodeId| s.contains(m) implies !has_edge(sub_conns, m, n) by {
            assert(!has_edge(conns, m, n));
        }
    }
}

impl ProcessingGraph {
    /// Whether `target` can be reached from `start` along connections, by
    /// breadth-first search.
    pub fn is_reachable(&self, start: NodeId, target: NodeId) -> (r: bool)
        ensures
            r == reaches(self.connections@, start, target),
    {
        if start.0 == target.0 {
            proof {
                lemma_reaches_refl(self.connections@, start);
            }
            return true;
        }
        let ghost cs = self.connections@;
        let ghost pool = cs.map_values(|c: Connection| c.to.node_id).push(start);
        let mut visited: Vec<NodeId> = Vec::new();
        let mut queue: Vec<NodeId> = Vec::new();
        queue.push(start);
        proof {
            lemma_reaches_refl(cs, start);
            assert(pool.last() == start);
            assert(queue@[0] == start);
            pool.lemma_cardinality_of_set();
        }
        while queue.len() > 0
            invariant
                cs == self.connections@,
                pool == cs.map_values(|c: Connection| c.to.node_id).push(start),
                forall|k: int| 0 <= k < visited@.len() ==> reaches(cs, start, #[trigger] visited@[k]),
                forall|k: int| 0 <= k < queue@.len() ==> reaches(cs, start, #[trigger] queue@[k]),
                forall|k: int| 0 <= k < visited@.len() ==> #[trigger] visited@[k] != target,
                forall|u: NodeId, v: NodeId|
                    visited@.contains(u) && has_edge(cs, u, v) ==> visited@.contains(v)
                        || queue@.contains(v),
                visited@.contains(start) || queue@.contains(start),
                visited@.no_duplicates(),
                forall|k: int| 0 <= k < visited@.len() ==> pool.contains(#[trigger] visited@[k]),
                forall|k: int| 0 <= k < queue@.len() ==> pool.contains(#[trigger] queue@[k]),
                visited@.len() <= pool.len(),
            decreases pool.len() - visited@.len(), queue@.len(),
        {
            let ghost q0 = queue@;
            let ghost vis0 = visited@;
            let current = queue.remove(0);
            proof {
                assert(q0[0] == current);
                assert(queue@ == q0.remove(0));
                assert forall|v: NodeId| q0.contains(v) && v != current implies
                    queue@.contains(v) by {
                    let w = choose|w: int| 0 <= w < q0.len() && q0[w] == v;
                    assert(queue@[w - 1] == v);
                }
                assert forall|k: int| 0 <= k < queue@.len() implies reaches(
                    cs,
                    start,
                    #[trigger] queue@[k],
                ) && pool.contains(queue@[k]) by {
                    assert(queue@[k] == q0[k + 1]);
                }
            }
            if current.0 == target.0 {
                proof {
                    assert(current == target);
                    assert(reaches(cs, start, q0[0]));
                }
                return true;
            }
            let mut seen = false;
            let vn = visited.len();
            let mut vi: usize = 0;
            while vi < vn
                invariant
                    vi <= vn,
                    vn == visited@.len(),
                    visited@ == vis0,
                    seen == exists|k: int| 0 <= k < vi && #[trigger] visited@[k] == current,
                decreases vn - vi,
            {
                if visited[vi].0 == current.0 {
                    proof {
                        assert(visited@[vi as int] == current);
                    }
                    seen = true;
                    vi = vn;
                } else {
                    vi = vi + 1;
                }
            }
            proof {
                assert(seen == visited@.contains(current));
            }
            if !seen {
                visited.push(current);
                proof {
                    assert(visited@.drop_last() =~= vis0);
                    assert(visited@.no_duplicates());
                    assert(reaches(cs, start, q0[0]));
                    assert(pool.contains(q0[0]));
                    assert forall|k: int| 0 <= k < visited@.len() implies pool.contains(
                        #[trigger] visited@[k],
                    ) && reaches(cs, start, visited@[k]) && visited@[k] != target by {
                        if k < vis0.len() {
                            assert(visited@[k] == vis0[k]);
                        } else {
                            assert(visited@[k] == current);
                        }
                    }
                    visited@.unique_seq_to_set();
                    pool.lemma_cardinality_of_set();
                    assert(visited@.to_set().subset_of(pool.to_set())) by {
                        assert forall|x: NodeId| visited@.to_set().contains(x) implies
                            pool.to_set().contains(x) by {
                            assert(visited@.contains(x));
                            assert(pool.contains(x));
                        }
                    }
                    vstd::set_lib::lemma_len_subset(visited@.to_set(), pool.to_set());
                }
                let ghost q1 = queue@;
                let cn = self.connections.len();
                let mut ci: usize = 0;
                while ci < cn
                    invariant
                        cs == self.connections@,
                        pool == cs.map_values(|c: Connection| c.to.node_id).push(start),
                        cn == cs.len(),
                        ci <= cn,
                        reaches(cs, start, current),
                        forall|v: NodeId| q1.contains(v) ==> queue@.contains(v),
                        forall|k: int|
                            0 <= k < queue@.len() ==> reaches(cs, start, #[trigger] queue@[k]),
                        forall|k: int|
                            0 <= k < queue@.len() ==> pool.contains(#[trigger] queue@[k]),
                        forall|j: int|
                            0 <= j < ci && (#[trigger] cs[j]).from.node_id == current
                                ==> queue@.contains(cs[j].to.node_id),
                    decreases cn - ci,
                {
                    if self.connections[ci].from.node_id.0 == current.0 {
                        let ghost qpre = queue@;
                        queue.push(self.connections[ci].to.node_id);
                        proof {
                            assert(cs[ci as int].from.node_id == current);
                            lemma_reaches_step(cs, start, current, cs[ci as int].to.node_id);
                            assert(pool[ci as int] == cs[ci as int].to.node_id);
                            assert(pool.contains(cs[ci as int].to.node_id));
                            assert(forall|k: int| 0 <= k < qpre.len() ==> queue@[k] == qpre[k]);
                            assert forall|v: NodeId| qpre.contains(v) implies queue@.contains(v) by {
                                let w = choose|w: int| 0 <= w < qpre.len() && qpre[w] == v;
                                assert(queue@[w] == v);
                            }
                            assert forall|j: int|
                                0 <= j < ci + 1 && (#[trigger] cs[j]).from.node_id == current
                                implies queue@.contains(cs[j].to.node_id) by {
                                if j == ci {
                                    assert(queue@.last() == cs[j].to.node_id);
                                }
                            }
                        }
                    }
                    ci = ci + 1;
                }
                proof {
                    assert forall|u: NodeId, v: NodeId|
                        visited@.contains(u) && has_edge(cs, u, v) implies visited@.contains(v)
                            || queue@.contains(v) by {
                        if u == current {
                            let j = choose|j: int|
                                0 <= j < cs.len() && (#[trigger] cs[j]).from.node_id == u
                                    && cs[j].to.node_id == v;
                            assert(queue@.contains(cs[j].to.node_id));
                        } else {
                            assert(vis0.contains(u));
                            assert(vis0.contains(v) || q0.contains(v));
                            if vis0.contains(v) {
                                let w = choose|w: int| 0 <= w < vis0.len() && vis0[w] == v;
                                assert(visited@[w] == v);
                            } else {
                                if v == current {
                                    assert(visited@.last() == current);
                                } else {
                                    assert(q1.contains(v));
                                }
                            }
                        }
                    }
                    assert(visited@.contains(start) || queue@.contains(start)) by {
                        if vis0.contains(start) {
                            let w = choose|w: int| 0 <= w < vis0.len() && vis0[w] == start;
                            assert(visited@[w] == start);
                        } else if start == current {
                            assert(visited@.last() == current);
                        } else {
                            assert(q1.contains(start));
                        }
                    }
                }
            } else {
                proof {
                    assert forall|u: NodeId, v: NodeId|
                        visited@.contains(u) && has_edge(cs, u, v) implies visited@.contains(v)
                            || queue@.contains(v) by {
                        assert(vis0.contains(v) || q0.contains(v));
                        if !vis0.contains(v) {
                            if v == current {
                                assert(visited@.contains(current));
                            }
                        }
                    }
                    assert(visited@.contains(start) || queue@.contains(start)) by {
                        if !vis0.contains(start) {
                            assert(q0.contains(start));
                            if start == current {
                                assert(visited@.contains(current));
                            }
                        }
                    }
                }
            }
        }
        proof {
            assert(visited@.contains(start));
            if reaches(cs, start, target) {
                let p = choose|p: Seq<NodeId>| #[trigger] is_path_between(cs, p, start, target);
                assert forall|u: NodeId, v: NodeId|
                    visited@.contains(u) && has_edge(cs, u, v) implies visited@.contains(v) by {}
                lemma_path_stays_in(cs, visited@, p, start, target);
                let w = choose|w: int| 0 <= w < visited@.len() && visited@[w] == target;
                assert(visited@[w] != target);
                assert(false);
            }
        }
        false
    }
}

} // verus!

verus! {

/// The connections that survive when a predicate keeps them, in order.
pub open spec fn filter_conns(s: Seq<Connection>, keep: spec_fn(Connection) -> bool) -> Seq<
    Connection,
>
    decreases s.len(),
{
    if s.len() == 0 {
        s
    } else if keep(s.last()) {
        filter_conns(s.drop_last(), keep).push(s.last())
    } else {
        filter_conns(s.drop_last(), keep)
    }
}

/// Filtering keeps only elements of the original, keeps their order, and
/// keeps only elements the predicate accepts.
pub proof fn lemma_filter_conns_pairs(s: Seq<Connection>, keep: spec_fn(Connection) -> bool)
    ensures
        filter_conns(s, keep).len() <= s.len(),
        forall|i: int|
            0 <= i < filter_conns(s, keep).len() ==> keep(#[trigger] filter_conns(s, keep)[i]),
        forall|i: int|
            0 <= i < filter_conns(s, keep).len() ==> exists|j: int|
                0 <= j < s.len() && #[trigger] filter_conns(s, keep)[i] == s[j],
        forall|i: int, j: int|
            0 <= i < j < filter_conns(s, keep).len() ==> exists|k: int, l: int|
                0 <= k < l < s.len() && #[trigger] filter_conns(s, keep)[i] == s[k]
                    && #[trigger] filter_conns(s, keep)[j] == s[l],
    decreases s.len(),
{
    if s.len() > 0 {
        let pre = s.drop_last();
        lemma_filter_conns_pairs(pre, keep);
        let f = filter_conns(s, keep);
        let fp = filter_conns(pre, keep);
        assert forall|i: int| 0 <= i < f.len() implies keep(#[trigger] f[i]) && exists|j: int|
            0 <= j < s.len() && f[i] == s[j] by {
            if keep(s.last()) && i == f.len() - 1 {
                assert(f[i] == s[s.len() - 1]);
            } else {
                assert(f[i] == fp[i]);
                let j = choose|j: int| 0 <= j < pre.len() && fp[i] == pre[j];
                assert(f[i] == s[j]);
            }
        }
        assert forall|i: int, j: int| 0 <= i < j < f.len() implies exists|k: int, l: int|
            0 <= k < l < s.len() && #[trigger] f[i] == s[k] && #[trigger] f[j] == s[l] by {
            if keep(s.last()) && j == f.len() - 1 {
                assert(f[i] == fp[i]);
                let k = choose|k: int| 0 <= k < pre.len() && fp[i] == pre[k];
                assert(f[i] == s[k] && f[j] == s[s.len() - 1]);
            } else {
                assert(f[i] == fp[i] && f[j] == fp[j]);
                let (k, l): (int, int) = choose|k: int, l: int|
                    0 <= k < l < pre.len() && #[trigger] fp[i] == pre[k] && fp[j] == pre[l];
                assert(f[i] == s[k] && f[j] == s[l]);
            }
        }
    }
}

/// A connection kept by a node-removing filter names neither endpoint at
/// the removed node, and every edge of the filtered list was an edge before.
pub proof fn lemma_filtered_edges(s: Seq<Connection>, keep: spec_fn(Connection) -> bool)
    ensures
        forall|a: NodeId, b: NodeId| has_edge(filter_conns(s, keep), a, b) ==> has_edge(s, a, b),
{
    lemma_filter_conns_pairs(s, keep);
    assert forall|a: NodeId, b: NodeId| has_edge(filter_conns(s, keep), a, b) implies has_edge(
        s,
        a,
        b,
    ) by {
        let f = filter_conns(s, keep);
        let i = choose|i: int|
            0 <= i < f.len() && (#[trigger] f[i]).from.node_id == a && f[i].to.node_id == b;
        let j = choose|j: int| 0 <= j < s.len() && f[i] == s[j];
        assert(s[j].from.node_id == a && s[j].to.node_id == b);
    }
}

/// Adding an edge from `a` to `b` keeps a well-founded graph well-founded,
/// provided `a` was not reachable from `b`: any set that only had `b` as its
/// source keeps a source among the nodes `b` does not reach.
pub proof fn lemma_well_founded_extend(
    nodes: Seq<GraphNode>,
    conns: Seq<Connection>,
    c: Connection,
)
    requires
        well_founded(nodes, conns),
        !reaches(conns, c.to.node_id, c.from.node_id),
    ensures
        well_founded(nodes, conns.push(c)),
{
    let a = c.from.node_id;
    let b = c.to.node_id;
    let new_conns = conns.push(c);
    assert forall|x: NodeId, y: NodeId| #[trigger] has_edge(new_conns, x, y) implies has_edge(
        conns,
        x,
        y,
    ) || (x == a && y == b) by {
        let i = choose|i: int|
            0 <= i < new_conns.len() && (#[trigger] new_conns[i]).from.node_id == x
                && new_conns[i].to.node_id == y;
        if i < conns.len() {
            assert(conns[i].from.node_id == x && conns[i].to.node_id == y);
        }
    }
    assert forall|x: NodeId, y: NodeId| has_edge(conns, x, y) implies has_edge(new_conns, x, y) by {
        let i = choose|i: int|
            0 <= i < conns.len() && (#[trigger] conns[i]).from.node_id == x && conns[i].to.node_id
                == y;
        assert(new_conns[i].from.node_id == x && new_conns[i].to.node_id == y);
    }
    assert forall|s: Set<NodeId>| #[trigger] live_set(nodes, s) && s.len() > 0 implies
        has_local_source(new_conns, s) by {
        assert(has_local_source(conns, s));
        let n = choose|n: NodeId|
            #[trigger] s.contains(n) && forall|m: NodeId| s.contains(m) ==> !has_edge(conns, m, n);
        if n != b {
            assert forall|m: NodeId| s.contains(m) implies !has_edge(new_conns, m, n) by {
                assert(!has_edge(conns, m, n));
            }
            assert(has_local_source(new_conns, s));
        } else if !s.contains(a) {
            assert forall|m: NodeId| s.contains(m) implies !has_edge(new_conns, m, n) by {
                assert(!has_edge(conns, m, n));
            }
            assert(has_local_source(new_conns, s));
        } else {
            let rset = Set::new(|x: NodeId| reaches(conns, b, x));
            let s2 = s.difference(rset);
            assert(s2.contains(a));
            vstd::set_lib::lemma_len_subset(s2, s);
            assert(s2.finite());
            assert(s2.len() > 0) by {
                if s2.len() == 0 {
                    vstd::set_lib::lemma_set_empty_equivalency_len(s2);
                    assert(!s2.contains(a));
                }
            }
            assert(live_set(nodes, s2)) by {
                assert forall|x: NodeId| s2.contains(x) implies has_node_id(nodes, x) by {
                    assert(s.contains(x));
                }
            }
            assert(has_local_source(conns, s2));
            let m = choose|m: NodeId|
                #[trigger] s2.contains(m) && forall|w: NodeId|
                    s2.contains(w) ==> !has_edge(conns, w, m);
            assert(m != b) by {
                lemma_reaches_refl(conns, b);
                assert(rset.contains(b));
            }
            assert forall|w: NodeId| s.contains(w) implies !has_edge(new_conns, w, m) by {
                if has_edge(new_conns, w, m) {
                    assert(has_edge(conns, w, m));
                    if s2.contains(w) {
                        assert(!has_edge(conns, w, m));
                    } else {
                        assert(rset.contains(w));
                        lemma_reaches_step(conns, b, w, m);
                        assert(rset.contains(m));
                        assert(!s2.contains(m));
                    }
                }
            }
            assert(s.contains(m));
            assert(has_local_source(new_conns, s));
        }
    }
}

/// A well-formed graph has no directed cycle: no walk of length two or more
/// returns to its starting node.
pub proof fn lemma_wf_no_cycle(g: &ProcessingGraph)
    requires
        g.wf(),
    ensures
        forall|p: Seq<NodeId>, n: NodeId|
            p.len() >= 2 ==> !(#[trigger] is_path_between(g.connections@, p, n, n)),
{
    assert forall|p: Seq<NodeId>, n: NodeId| p.len() >= 2 implies !(#[trigger] is_path_between(
        g.connections@,
        p,
        n,
        n,
    )) by {
        if is_path_between(g.connections@, p, n, n) {
            cycle_contradiction(g, p, n);
        }
    }
}

/// The contradiction behind `lemma_wf_no_cycle`: the cycle's node set would
/// have no member without an incoming edge from the set.
proof fn cycle_contradiction(g: &ProcessingGraph, p: Seq<NodeId>, n: NodeId)
    requires
        g.wf(),
        is_path_between(g.connections@, p, n, n),
        p.len() >= 2,
    ensures
        !g.wf(),
{
    broadcast use vstd::seq_lib::seq_to_set_is_finite;

    let s = p.to_set();
    assert(s.contains(n)) by {
        assert(p.contains(n)) by {
            assert(p[0] == n);
        }
    }
    assert(live_set(g.nodes@, s)) by {
        assert forall|x: NodeId| s.contains(x) implies has_node_id(g.nodes@, x) by {
            assert(p.contains(x));
            let i = choose|i: int| 0 <= i < p.len() && p[i] == x;
            if i < p.len() - 1 {
                assert(has_edge(g.connections@, p[i], p[i + 1]));
                let j = choose|j: int|
                    0 <= j < g.connections@.len() && (#[trigger] g.connections@[j]).from.node_id
                        == p[i] && g.connections@[j].to.node_id == p[i + 1];
                assert(conn_endpoints_ok(g.nodes@, g.connections@[j]));
            } else {
                assert(p[i] == n && p[0] == n);
                let z: int = 0;
                assert(has_edge(g.connections@, p[z], p[z + 1]));
                let j = choose|j: int|
                    0 <= j < g.connections@.len() && (#[trigger] g.connections@[j]).from.node_id
                        == p[0] && g.connections@[j].to.node_id == p[1];
                assert(conn_endpoints_ok(g.nodes@, g.connections@[j]));
            }
        }
    }
    assert(s.len() > 0) by {
        if s.len() == 0 {
            vstd::set_lib::lemma_set_empty_equivalency_len(s);
        }
    }
    assert(has_local_source(g.connections@, s));
    let m = choose|m: NodeId|
        #[trigger] s.contains(m) && forall|w: NodeId|
            s.contains(w) ==> !has_edge(g.connections@, w, m);
    assert(p.contains(m));
    let i = choose|i: int| 0 <= i < p.len() && p[i] == m;
    if i >= 1 {
        assert(has_edge(g.connections@, p[i - 1], p[(i - 1) + 1]));
        assert(p.contains(p[i - 1]));
        assert(s.contains(p[i - 1]));
    } else {
        assert(p[i] == n);
        let l = p.len() - 2;
        assert(0 <= l < p.len() - 1);
        assert(has_edge(g.connections@, p[l], p[l + 1]));
        assert(p[l + 1] == n);
        assert(p.contains(p[l]));
        assert(s.contains(p[l]));
    }
}

impl ProcessingGraph {
    /// Add a node.  A node whose identifier is already present replaces the
    /// old node, whose incident connections are removed first.
    pub fn add_node(&mut self, node: GraphNode) -> (r: NodeId)
        requires
            old(self).wf(),
        ensures
            final(self).wf(),
            r == node.id,
            has_node_id(final(self).nodes@, node.id),
            !has_node_id(old(self).nodes@, node.id) ==> final(self).nodes@ == old(
                self,
            ).nodes@.push(node) && final(self).connections@ == old(self).connections@,
    {
        let id = node.id;
        if self.has_node(id) {
            let removed = self.remove_node(id);
        }
        let ghost pre_nodes = self.nodes@;
        let ghost pre_conns = self.connections@;
        proof {
            assert(!has_node_id(pre_nodes, id));
        }
        self.nodes.push(node);
        proof {
            assert(node_ids_unique(self.nodes@)) by {
                assert forall|i: int, j: int| 0 <= i < j < self.nodes@.len() implies (
                #[trigger] self.nodes@[i]).id != (#[trigger] self.nodes@[j]).id by {
                    if j == self.nodes@.len() - 1 {
                        assert(self.nodes@[i] == pre_nodes[i]);
                        if self.nodes@[i].id == id {
                            assert(has_node_id(pre_nodes, id));
                        }
                    } else {
                        assert(self.nodes@[i] == pre_nodes[i] && self.nodes@[j] == pre_nodes[j]);
                    }
                }
            }
            assert(conns_ok(self.nodes@, self.connections@)) by {
                assert forall|i: int| 0 <= i < self.connections@.len() implies conn_endpoints_ok(
                    self.nodes@,
                    #[trigger] self.connections@[i],
                ) by {
                    let c = self.connections@[i];
                    assert(conn_endpoints_ok(pre_nodes, c));
                    lemma_node_with_id_push(pre_nodes, node, c.from.node_id);
                    lemma_node_with_id_push(pre_nodes, node, c.to.node_id);
                }
            }
            assert(well_founded(self.nodes@, self.connections@)) by {
                lemma_well_founded_grow(pre_nodes, self.connections@, node);
            }
            assert(has_node_id(self.nodes@, id)) by {
                assert(self.nodes@.last().id == id);
            }
        }
        id
    }
}

/// Looking a node up is unchanged by appending a node with a fresh
/// identifier.
pub proof fn lemma_node_with_id_push(nodes: Seq<GraphNode>, node: GraphNode, x: NodeId)
    requires
        has_node_id(nodes, x),
        !has_node_id(nodes, node.id),
        node_ids_unique(nodes),
    ensures
        has_node_id(nodes.push(node), x),
        node_with_id(nodes.push(node), x) == node_with_id(nodes, x),
{
    let grown = nodes.push(node);
    let i = choose|i: int| 0 <= i < nodes.len() && (#[trigger] nodes[i]).id == x;
    assert(grown[i].id == x);
    assert(has_node_id(grown, x));
    let j = choose|j: int| 0 <= j < grown.len() && (#[trigger] grown[j]).id == x;
    assert(j < nodes.len()) by {
        if j == nodes.len() {
            assert(grown[j] == node);
            assert(has_node_id(nodes, node.id)) by {
                assert(nodes[i].id == x);
            }
        }
    }
    assert(grown[j] == nodes[j]);
    let k = choose|k: int| 0 <= k < nodes.len() && (#[trigger] nodes[k]).id == x;
    assert(j == k || nodes[j].id != nodes[k].id);
}

/// A node with no incident connection can join a well-founded graph: any
/// set containing it has it as a source, and any other set already had one.
pub proof fn lemma_well_founded_grow(
    nodes: Seq<GraphNode>,
    conns: Seq<Connection>,
    node: GraphNode,
)
    requires
        well_founded(nodes, conns),
        forall|i: int|
            0 <= i < conns.len() ==> (#[trigger] conns[i]).from.node_id != node.id
                && conns[i].to.node_id != node.id,
    ensures
        well_founded(nodes.push(node), conns),
{
    let grown = nodes.push(node);
    assert forall|s: Set<NodeId>| #[trigger] live_set(grown, s) && s.len() > 0 implies
        has_local_source(conns, s) by {
        if s.contains(node.id) {
            assert forall|m: NodeId| s.contains(m) implies !has_edge(conns, m, node.id) by {
                if has_edge(conns, m, node.id) {
                    let i = choose|i: int|
                        0 <= i < conns.len() && (#[trigger] conns[i]).from.node_id == m
                            && conns[i].to.node_id == node.id;
                }
            }
        } else {
            assert(live_set(nodes, s)) by {
                assert forall|x: NodeId| s.contains(x) implies has_node_id(nodes, x) by {
                    assert(has_node_id(grown, x));
                    let i = choose|i: int| 0 <= i < grown.len() && (#[trigger] grown[i]).id == x;
                    assert(i < nodes.len()) by {
                        if i == nodes.len() {
                            assert(grown[i] == node);
                        }
                    }
                    assert(nodes[i].id == x);
                }
            }
        }
    }
}

} // verus!

verus! {

impl ProcessingGraph {
    /// Remove a node, dropping every connection incident to it.
    pub fn remove_node(&mut self, id: NodeId) -> (r: Result<GraphNode, GraphError>)
        requires
            old(self).wf(),
        ensures
            final(self).wf(),
            match r {
                Ok(node) => {
                    &&& has_node_id(old(self).nodes@, id)
                    &&& node.id == id
                    &&& node == node_with_id(old(self).nodes@, id)
                    &&& exists|k: int|
                        0 <= k < old(self).nodes@.len() && (#[trigger] old(self).nodes@[k]).id
                            == id && final(self).nodes@ == old(self).nodes@.remove(k)
                    &&& !has_node_id(final(self).nodes@, id)
                    &&& forall|x: NodeId|
                        x != id ==> #[trigger] has_node_id(final(self).nodes@, x) == has_node_id(
                            old(self).nodes@,
                            x,
                        )
                    &&& final(self).connections@ == filter_conns(
                        old(self).connections@,
                        |c: Connection| c.from.node_id != id && c.to.node_id != id,
                    )
                },
                Err(e) => !has_node_id(old(self).nodes@, id) && (e matches
                    GraphError::NodeNotFound(n) && n == id) && final(self).nodes@ == old(
                    self,
                ).nodes@ && final(self).connections@ == old(self).connections@,
            },
    {
        let ghost keep = |c: Connection| c.from.node_id != id && c.to.node_id != id;
        let ghost orig_nodes = self.nodes@;
        let ghost orig_conns = self.connections@;

        // find the node
        let n = self.nodes.len();
        let mut idx: usize = n;
        let mut i: usize = 0;
        while i < n
            invariant
                i <= n,
                n == self.nodes@.len(),
                idx == n || (idx < n && self.nodes@[idx as int].id == id),
                idx == n ==> forall|j: int| 0 <= j < i ==> (#[trigger] self.nodes@[j]).id != id,
            decreases n - i,
        {
            if self.nodes[i].id.0 == id.0 {
                proof {
                    assert(self.nodes@[i as int].id == id);
                }
                idx = i;
                i = n;
            } else {
                i = i + 1;
            }
        }
        if idx == n {
            return Err(GraphError::NodeNotFound(id));
        }

        // drop incident connections: pop everything, keep survivors, restore
        let mut kept_rev: Vec<Connection> = Vec::new();
        proof {
            assert(filter_conns(orig_conns, keep) =~= filter_conns(self.connections@, keep)
                + kept_rev@.reverse());
        }
        while self.connections.len() > 0
            invariant
                self.nodes@ == orig_nodes,
                self.next_conn_serial == old(self).next_conn_serial,
                filter_conns(orig_conns, keep) == filter_conns(self.connections@, keep)
                    + kept_rev@.reverse(),
                keep == (|c: Connection| c.from.node_id != id && c.to.node_id != id),
            decreases self.connections@.len(),
        {
            let ghost pre = self.connections@;
            let ghost krpre = kept_rev@;
            let c = self.connections.pop().unwrap();
            proof {
                assert(self.connections@ =~= pre.drop_last());
                assert(pre.last() == c);
            }
            if c.from.node_id.0 != id.0 || c.to.node_id.0 != id.0 {
                if c.from.node_id.0 != id.0 && c.to.node_id.0 != id.0 {
                    kept_rev.push(c);
                    proof {
                        assert(keep(pre.last()));
                        assert(filter_conns(pre, keep) == filter_conns(pre.drop_last(), keep).push(
                            pre.last(),
                        ));
                        assert(filter_conns(self.connections@, keep) + kept_rev@.reverse()
                            =~= filter_conns(pre, keep) + krpre.reverse());
                    }
                } else {
                    proof {
                        assert(!keep(pre.last()));
                    }
                }
            } else {
                proof {
                    assert(!keep(pre.last()));
                }
            }
        }
        proof {
            assert(self.connections@ =~= Seq::<Connection>::empty());
            assert(filter_conns(orig_conns, keep) =~= kept_rev@.reverse());
        }
        while kept_rev.len() > 0
            invariant
                self.nodes@ == orig_nodes,
                self.next_conn_serial == old(self).next_conn_serial,
                filter_conns(orig_conns, keep) == self.connections@ + kept_rev@.reverse(),
                keep == (|c: Connection| c.from.node_id != id && c.to.node_id != id),
            decreases kept_rev@.len(),
        {
            let ghost krpre = kept_rev@;
            let ghost cpre = self.connections@;
            let c = kept_rev.pop().unwrap();
            self.connections.push(c);
            proof {
                assert(kept_rev@ =~= krpre.drop_last());
                assert(self.connections@ + kept_rev@.reverse() =~= cpre + krpre.reverse());
            }
        }
        proof {
            assert(kept_rev@.reverse() =~= Seq::<Connection>::empty());
            assert(self.connections@ =~= filter_conns(orig_conns, keep));
        }

        // remove the node itself
        let ghost pre_nodes = self.nodes@;
        let node = self.nodes.remove(idx);
        proof {
            assert(node == pre_nodes[idx as int]);
            assert forall|k: int| 0 <= k < self.nodes@.len() implies #[trigger] self.nodes@[k]
                == (if k < idx { pre_nodes[k] } else { pre_nodes[k + 1] }) by {}
            let w = choose|w: int| 0 <= w < pre_nodes.len() && (#[trigger] pre_nodes[w]).id == id;
            assert(w == idx);
            assert(node == node_with_id(orig_nodes, id));
            assert(node_ids_unique(self.nodes@)) by {
                assert forall|a: int, b: int| 0 <= a < b < self.nodes@.len() implies (
                #[trigger] self.nodes@[a]).id != (#[trigger] self.nodes@[b]).id by {}
            }
            assert(!has_node_id(self.nodes@, id)) by {
                if has_node_id(self.nodes@, id) {
                    let k = choose|k: int|
                        0 <= k < self.nodes@.len() && (#[trigger] self.nodes@[k]).id == id;
                    if k < idx {
                        assert(pre_nodes[k].id == id && pre_nodes[idx as int].id == id);
                    } else {
                        assert(pre_nodes[k + 1].id == id && pre_nodes[idx as int].id == id);
                    }
                }
            }
            assert forall|x: NodeId| x != id implies #[trigger] has_node_id(self.nodes@, x)
                == has_node_id(orig_nodes, x) by {
                if has_node_id(orig_nodes, x) {
                    let k = choose|k: int|
                        0 <= k < orig_nodes.len() && (#[trigger] orig_nodes[k]).id == x;
                    if k < idx {
                        assert(self.nodes@[k].id == x);
                    } else {
                        assert(k > idx);
                        assert(self.nodes@[k - 1].id == x);
                    }
                }
                if has_node_id(self.nodes@, x) {
                    let k = choose|k: int|
                        0 <= k < self.nodes@.len() && (#[trigger] self.nodes@[k]).id == x;
                    if k < idx {
                        assert(orig_nodes[k].id == x);
                    } else {
                        assert(orig_nodes[k + 1].id == x);
                    }
                }
            }
            lemma_filter_conns_pairs(orig_conns, keep);
            assert(conn_ids_unique(self.connections@)) by {
                assert forall|a: int, b: int| 0 <= a < b < self.connections@.len() implies (
                #[trigger] self.connections@[a]).id != (#[trigger] self.connections@[b]).id by {
                    let (k, l): (int, int) = choose|k: int, l: int|
                        0 <= k < l < orig_conns.len() && #[trigger] self.connections@[a]
                            == orig_conns[k] && self.connections@[b] == orig_conns[l];
                }
            }
            assert(single_input(self.connections@)) by {
                assert forall|a: int, b: int| 0 <= a < b < self.connections@.len() implies !((
                #[trigger] self.connections@[a]).to.node_id == (
                #[trigger] self.connections@[b]).to.node_id && self.connections@[a].to.port_name@
                    == self.connections@[b].to.port_name@) by {
                    let (k, l): (int, int) = choose|k: int, l: int|
                        0 <= k < l < orig_conns.len() && #[trigger] self.connections@[a]
                            == orig_conns[k] && self.connections@[b] == orig_conns[l];
                }
            }
            assert(conns_ok(self.nodes@, self.connections@)) by {
                assert forall|ci: int| 0 <= ci < self.connections@.len() implies conn_endpoints_ok(
                    self.nodes@,
                    #[trigger] self.connections@[ci],
                ) by {
                    let c = self.connections@[ci];
                    assert(keep(c));
                    let j = choose|j: int| 0 <= j < orig_conns.len() && c == orig_conns[j];
                    assert(conn_endpoints_ok(orig_nodes, c));
                    lemma_node_with_id_remove(orig_nodes, idx as int, c.from.node_id);
                    lemma_node_with_id_remove(orig_nodes, idx as int, c.to.node_id);
                }
            }
            assert(well_founded(self.nodes@, self.connections@)) by {
                lemma_filtered_edges(orig_conns, keep);
                lemma_well_founded_shrink(
                    orig_nodes,
                    orig_conns,
                    self.nodes@,
                    self.connections@,
                );
            }
            assert(self.conn_serials_ok()) by {
                assert forall|ci: int| 0 <= ci < self.connections@.len() implies (
                #[trigger] self.connections@[ci]).id.0 < self.next_conn_serial as int by {
                    let j = choose|j: int|
                        0 <= j < orig_conns.len() && #[trigger] self.connections@[ci]
                            == orig_conns[j];
                }
            }
        }
        Ok(node)
    }
}

/// Looking a node up is unchanged by removing a different node.
pub proof fn lemma_node_with_id_remove(nodes: Seq<GraphNode>, idx: int, x: NodeId)
    requires
        node_ids_unique(nodes),
        0 <= idx < nodes.len(),
        has_node_id(nodes, x),
        nodes[idx].id != x,
    ensures
        has_node_id(nodes.remove(idx), x),
        node_with_id(nodes.remove(idx), x) == node_with_id(nodes, x),
{
    let cut = nodes.remove(idx);
    let k = choose|k: int| 0 <= k < nodes.len() && (#[trigger] nodes[k]).id == x;
    assert(k != idx);
    if k < idx {
        assert(cut[k].id == x);
    } else {
        assert(cut[k - 1].id == x);
    }
    assert(has_node_id(cut, x));
    let a = choose|a: int| 0 <= a < cut.len() && (#[trigger] cut[a]).id == x;
    let b = choose|b: int| 0 <= b < nodes.len() && (#[trigger] nodes[b]).id == x;
    assert(cut[a] == (if a < idx { nodes[a] } else { nodes[a + 1] }));
    if a < idx {
        assert(a == b || nodes[a].id != nodes[b].id);
    } else {
        assert(a + 1 == b || nodes[a + 1].id != nodes[b].id);
    }
}

} // verus!

verus! {

/// The first three of `connect`'s checks: both nodes exist, the source
/// names an output port and the target an input port, and the types fit.
pub open spec fn connect_types_ok(
    g: &ProcessingGraph,
    from_node: NodeId,
    from_port: Seq<char>,
    to_node: NodeId,
    to_port: Seq<char>,
) -> bool {
    &&& has_node_id(g.nodes@, from_node)
    &&& has_node_id(g.nodes@, to_node)
    &&& (port_lookup(node_with_id(g.nodes@, from_node).metadata.outputs@, from_port) matches Some(d)
        && d.direction == PortDirection::Output)
    &&& (port_lookup(node_with_id(g.nodes@, to_node).metadata.inputs@, to_port) matches Some(d)
        && d.direction == PortDirection::Input)
    &&& compatible_spec(
        port_lookup(node_with_id(g.nodes@, from_node).metadata.outputs@, from_port)->Some_0.port_type,
        port_lookup(node_with_id(g.nodes@, to_node).metadata.inputs@, to_port)->Some_0.port_type,
    )
}

/// The target input port already has an incoming connection.
pub open spec fn input_occupied(g: &ProcessingGraph, to_node: NodeId, to_port: Seq<char>) -> bool {
    exists|i: int|
        0 <= i < g.connections@.len() && (#[trigger] g.connections@[i]).to.node_id == to_node
            && g.connections@[i].to.port_name@ == to_port
}

/// What a successful `connect` checked: both nodes exist, the source names
/// an output port and the target an input port, the types fit, the input is
/// free, and the new edge closes no cycle.
pub open spec fn connect_ok(
    g: &ProcessingGraph,
    from_node: NodeId,
    from_port: Seq<char>,
    to_node: NodeId,
    to_port: Seq<char>,
) -> bool {
    &&& connect_types_ok(g, from_node, from_port, to_node, to_port)
    &&& !input_occupied(g, to_node, to_port)
    &&& !reaches(g.connections@, to_node, from_node)
}

impl ProcessingGraph {
    /// Create a connection between an output port and an input port.  The
    /// five checks run in order — node existence, port existence, type
    /// compatibility, input freedom, cycle — and nothing changes on failure.
    pub fn connect(
        &mut self,
        from_node: NodeId,
        from_port: &str,
        to_node: NodeId,
        to_port: &str,
    ) -> (r: Result<ConnectionId, GraphError>)
        requires
            old(self).wf(),
        ensures
            final(self).wf(),
            final(self).nodes@ == old(self).nodes@,
            final(self).metadata == old(self).metadata,
            match r {
                Ok(cid) => {
                    &&& connect_ok(old(self), from_node, from_port@, to_node, to_port@)
                    &&& final(self).connections@.len() == old(self).connections@.len() + 1
                    &&& final(self).connections@.drop_last() == old(self).connections@
                    &&& final(self).connections@.last().id == cid
                    &&& final(self).connections@.last().from.node_id == from_node
                    &&& final(self).connections@.last().from.port_name@ == from_port@
                    &&& final(self).connections@.last().to.node_id == to_node
                    &&& final(self).connections@.last().to.port_name@ == to_port@
                },
                Err(e) => {
                    &&& final(self).connections@ == old(self).connections@
                    &&& final(self).next_conn_serial == old(self).next_conn_serial
                    &&& match e {
                        GraphError::NodeNotFound(n) => (n == from_node && !has_node_id(
                            old(self).nodes@,
                            from_node,
                        )) || (n == to_node && has_node_id(old(self).nodes@, from_node)
                            && !has_node_id(old(self).nodes@, to_node)),
                        GraphError::PortNotFound { node_id, port } => has_node_id(
                            old(self).nodes@,
                            from_node,
                        ) && has_node_id(old(self).nodes@, to_node) && ((node_id == from_node
                            && port@ == from_port@ && !(port_lookup(
                            node_with_id(old(self).nodes@, from_node).metadata.outputs@,
                            from_port@,
                        ) matches Some(d) && d.direction == PortDirection::Output)) || (node_id
                            == to_node && port@ == to_port@ && (port_lookup(
                            node_with_id(old(self).nodes@, from_node).metadata.outputs@,
                            from_port@,
                        ) matches Some(d) && d.direction == PortDirection::Output) && !(
                        port_lookup(
                            node_with_id(old(self).nodes@, to_node).metadata.inputs@,
                            to_port@,
                        ) matches Some(d) && d.direction == PortDirection::Input))),
                        GraphError::TypeMismatch { from_type, to_type } => {
                            &&& has_node_id(old(self).nodes@, from_node)
                            &&& has_node_id(old(self).nodes@, to_node)
                            &&& (port_lookup(
                                node_with_id(old(self).nodes@, from_node).metadata.outputs@,
                                from_port@,
                            ) matches Some(d) && d.direction == PortDirection::Output
                                && d.port_type == from_type)
                            &&& (port_lookup(
                                node_with_id(old(self).nodes@, to_node).metadata.inputs@,
                                to_port@,
                            ) matches Some(d) && d.direction == PortDirection::Input && d.port_type
                                == to_type)
                            &&& !compatible_spec(from_type, to_type)
                        },
                        GraphError::PortAlreadyConnected { node_id, port } => node_id == to_node
                            && port@ == to_port@ && connect_types_ok(
                            old(self),
                            from_node,
                            from_port@,
                            to_node,
                            to_port@,
                        ) && input_occupied(old(self), to_node, to_port@),
                        GraphError::CycleDetected { nodes } => connect_types_ok(
                            old(self),
                            from_node,
                            from_port@,
                            to_node,
                            to_port@,
                        ) && !input_occupied(old(self), to_node, to_port@) && reaches(
                            old(self).connections@,
                            to_node,
                            from_node,
                        ) && nodes@ == seq![from_node, to_node],
                        GraphError::InvalidConnection { reason } => old(self).next_conn_serial
                            == u64::MAX,
                        _ => false,
                    }
                },
            },
    {
        let from_data = match self.get_node(from_node) {
            Ok(n) => n,
            Err(e) => {
                return Err(e);
            }
        };
        let to_data = match self.get_node(to_node) {
            Ok(n) => n,
            Err(_) => {
                return Err(GraphError::NodeNotFound(to_node));
            }
        };
        let from_def = match from_data.metadata.get_output(from_port) {
            Some(d) => d,
            None => {
                return Err(
                    GraphError::PortNotFound { node_id: from_node, port: from_port.to_owned() },
                );
            }
        };
        let from_dir_ok = matches!(from_def.direction, PortDirection::Output);
        if !from_dir_ok {
            return Err(GraphError::PortNotFound { node_id: from_node, port: from_port.to_owned() });
        }
        let to_def = match to_data.metadata.get_input(to_port) {
            Some(d) => d,
            None => {
                return Err(GraphError::PortNotFound { node_id: to_node, port: to_port.to_owned() });
            }
        };
        let to_dir_ok = matches!(to_def.direction, PortDirection::Input);
        if !to_dir_ok {
            return Err(GraphError::PortNotFound { node_id: to_node, port: to_port.to_owned() });
        }
        if !from_def.port_type.compatible_with(&to_def.port_type) {
            return Err(
                GraphError::TypeMismatch {
                    from_type: from_def.port_type.duplicate(),
                    to_type: to_def.port_type.duplicate(),
                },
            );
        }
        if self.is_input_connected(to_node, to_port) {
            return Err(
                GraphError::PortAlreadyConnected { node_id: to_node, port: to_port.to_owned() },
            );
        }
        if self.is_reachable(to_node, from_node) {
            let mut nodes: Vec<NodeId> = Vec::new();
            nodes.push(from_node);
            nodes.push(to_node);
            proof {
                assert(nodes@ =~= seq![from_node, to_node]);
            }
            return Err(GraphError::CycleDetected { nodes });
        }
        if self.next_conn_serial == u64::MAX {
            return Err(
                GraphError::InvalidConnection {
                    reason: "connection identifier space exhausted".to_owned(),
                },
            );
        }
        let cid = ConnectionId(self.next_conn_serial as u128);
        self.next_conn_serial = self.next_conn_serial + 1;
        let connection = Connection {
            id: cid,
            from: Endpoint { node_id: from_node, port_name: from_port.to_owned() },
            to: Endpoint { node_id: to_node, port_name: to_port.to_owned() },
        };
        let ghost pre_conns = self.connections@;
        let ghost c = connection;
        self.connections.push(connection);
        proof {
            assert(self.connections@.drop_last() =~= pre_conns);
            assert(conn_ids_unique(self.connections@)) by {
                assert forall|a: int, b: int| 0 <= a < b < self.connections@.len() implies (
                #[trigger] self.connections@[a]).id != (#[trigger] self.connections@[b]).id by {
                    if b == self.connections@.len() - 1 {
                        assert(self.connections@[a] == pre_conns[a]);
                        assert(pre_conns[a].id.0 < old(self).next_conn_serial as int);
                    } else {
                        assert(self.connections@[a] == pre_conns[a] && self.connections@[b]
                            == pre_conns[b]);
                    }
                }
            }
            assert(single_input(self.connections@)) by {
                assert forall|a: int, b: int| 0 <= a < b < self.connections@.len() implies !((
                #[trigger] self.connections@[a]).to.node_id == (
                #[trigger] self.connections@[b]).to.node_id && self.connections@[a].to.port_name@
                    == self.connections@[b].to.port_name@) by {
                    if b == self.connections@.len() - 1 {
                        assert(self.connections@[a] == pre_conns[a]);
                    } else {
                        assert(self.connections@[a] == pre_conns[a] && self.connections@[b]
                            == pre_conns[b]);
                    }
                }
            }
            assert(conns_ok(self.nodes@, self.connections@)) by {
                assert forall|i: int| 0 <= i < self.connections@.len() implies conn_endpoints_ok(
                    self.nodes@,
                    #[trigger] self.connections@[i],
                ) by {
                    if i < pre_conns.len() {
                        assert(self.connections@[i] == pre_conns[i]);
                        assert(conn_endpoints_ok(self.nodes@, pre_conns[i]));
                    } else {
                        assert(self.connections@[i] == c);
                    }
                }
            }
            assert(well_founded(self.nodes@, self.connections@)) by {
                lemma_well_founded_extend(self.nodes@, pre_conns, c);
            }
            assert(self.conn_serials_ok()) by {
                assert forall|i: int| 0 <= i < self.connections@.len() implies (
                #[trigger] self.connections@[i]).id.0 < self.next_conn_serial as int by {
                    if i < pre_conns.len() {
                        assert(self.connections@[i] == pre_conns[i]);
                        assert(pre_conns[i].id.0 < old(self).next_conn_serial as int);
                    }
                }
            }
        }
        Ok(cid)
    }

    /// Remove a connection by identifier.
    pub fn disconnect(&mut self, id: ConnectionId) -> (r: Result<Connection, GraphError>)
        requires
            old(self).wf(),
        ensures
            final(self).wf(),
            final(self).nodes@ == old(self).nodes@,
            match r {
                Ok(conn) => conn.id == id && exists|k: int|
                    0 <= k < old(self).connections@.len() && conn == old(self).connections@[k]
                        && final(self).connections@ == old(self).connections@.remove(k),
                Err(e) => final(self).connections@ == old(self).connections@ && (e matches
                    GraphError::ConnectionNotFound(c) && c == id) && !(exists|k: int|
                    0 <= k < old(self).connections@.len() && (
                    #[trigger] old(self).connections@[k]).id == id),
            },
    {
        let n = self.connections.len();
        let mut idx: usize = n;
        let mut i: usize = 0;
        while i < n
            invariant
                i <= n,
                n == self.connections@.len(),
                idx == n || (idx < n && self.connections@[idx as int].id == id),
                idx == n ==> forall|j: int|
                    0 <= j < i ==> (#[trigger] self.connections@[j]).id != id,
            decreases n - i,
        {
            if self.connections[i].id.0 == id.0 {
                proof {
                    assert(self.connections@[i as int].id == id);
                }
                idx = i;
                i = n;
            } else {
                i = i + 1;
            }
        }
        if idx == n {
            return Err(GraphError::ConnectionNotFound(id));
        }
        let ghost pre = self.connections@;
        let conn = self.connections.remove(idx);
        proof {
            let i = idx as int;
            assert(conn == pre[i]);
            assert forall|k: int| 0 <= k < self.connections@.len() implies
                #[trigger] self.connections@[k] == (if k < i {
                pre[k]
            } else {
                pre[k + 1]
            }) by {}
            assert(conn_ids_unique(self.connections@)) by {
                assert forall|a: int, b: int| 0 <= a < b < self.connections@.len() implies (
                #[trigger] self.connections@[a]).id != (#[trigger] self.connections@[b]).id by {
                    let a2: int = if a < i { a } else { a + 1 };
                    let b2: int = if b < i { b } else { b + 1 };
                    assert(pre[a2].id != pre[b2].id);
                }
            }
            assert(single_input(self.connections@)) by {
                assert forall|a: int, b: int| 0 <= a < b < self.connections@.len() implies !((
                #[trigger] self.connections@[a]).to.node_id == (
                #[trigger] self.connections@[b]).to.node_id && self.connections@[a].to.port_name@
                    == self.connections@[b].to.port_name@) by {
                    let a2: int = if a < i { a } else { a + 1 };
                    let b2: int = if b < i { b } else { b + 1 };
                    assert(!(pre[a2].to.node_id == pre[b2].to.node_id && pre[a2].to.port_name@
                        == pre[b2].to.port_name@));
                }
            }
            assert(conns_ok(self.nodes@, self.connections@)) by {
                assert forall|k: int| 0 <= k < self.connections@.len() implies conn_endpoints_ok(
                    self.nodes@,
                    #[trigger] self.connections@[k],
                ) by {
                    let k2: int = if k < i { k } else { k + 1 };
                    assert(conn_endpoints_ok(self.nodes@, pre[k2]));
                }
            }
            assert(well_founded(self.nodes@, self.connections@)) by {
                assert forall|a: NodeId, b: NodeId|
                    has_edge(self.connections@, a, b) implies has_edge(pre, a, b) by {
                    let k = choose|k: int|
                        0 <= k < self.connections@.len() && (
                        #[trigger] self.connections@[k]).from.node_id == a
                            && self.connections@[k].to.node_id == b;
                    if k < i {
                        assert(pre[k].from.node_id == a && pre[k].to.node_id == b);
                    } else {
                        assert(pre[k + 1].from.node_id == a && pre[k + 1].to.node_id == b);
                    }
                }
                lemma_well_founded_shrink(self.nodes@, pre, self.nodes@, self.connections@);
            }
            assert(self.conn_serials_ok()) by {
                assert forall|k: int| 0 <= k < self.connections@.len() implies (
                #[trigger] self.connections@[k]).id.0 < self.next_conn_serial as int by {
                    let k2: int = if k < i { k } else { k + 1 };
                    assert(pre[k2].id.0 < self.next_conn_serial as int);
                }
            }
        }
        Ok(conn)
    }
}

} // verus!
