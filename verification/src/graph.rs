//! The task graph: a topologically ordered DAG of tasks with identity and
//! state fingerprints, incremental value updates, and the node/value index
//! mapping the runtime uses. The dependency ordering is computed by the
//! petgraph crate behind trusted contracts; everything around it is
//! verified.

use vstd::prelude::*;
use vstd::pervasive::VecAdditionalExecFns;

use crate::codec::{hash64, hash64_of, u64_bytes, write_u64};
use crate::errors::{ErrorKind, Result, VegaFusionError, error_kind};
use crate::scope::{hits_at, resolution_ok, spec_get_child, TaskScope};
use crate::task::{input_var_model, input_var_models, Task, task_full_bytes, task_id_bytes, task_input_vars, task_output_signals, task_wf, TaskKind, write_task_full, write_task_id};
use crate::values::{task_value_model, task_value_wf, TaskValue};
use crate::variable::{scoped_var_id, ScopedVariable, Variable};

verus! {

/// The edge-direction marker of the dependency graph (petgraph's).
#[verifier::external_type_specification]
#[verifier::external_body]
pub struct ExDirected(petgraph::Directed);

/// The dependency graph structure (petgraph's).
#[verifier::external_type_specification]
#[verifier::external_body]
#[verifier::reject_recursive_types(N)]
#[verifier::reject_recursive_types(E)]
#[verifier::reject_recursive_types(Ty)]
#[verifier::reject_recursive_types(Ix)]
pub struct ExGraph<N, E, Ty, Ix>(petgraph::graph::Graph<N, E, Ty, Ix>);

/// The number of nodes a dependency graph holds.
pub uninterp spec fn dep_graph_nodes(
    g: petgraph::graph::Graph<(), (), petgraph::Directed, u32>,
) -> nat;

/// The edges a dependency graph holds, in insertion order, as pairs of node
/// indices.
pub uninterp spec fn dep_graph_edges(
    g: petgraph::graph::Graph<(), (), petgraph::Directed, u32>,
) -> Seq<(u32, u32)>;

/// Relies on petgraph's Graph::new: the new graph has no nodes and no edges.
#[verifier::external_body]
fn dep_graph_new() -> (g: petgraph::graph::Graph<(), (), petgraph::Directed, u32>)
    ensures
        dep_graph_nodes(g) == 0,
        dep_graph_edges(g) =~= Seq::<(u32, u32)>::empty(),
{
    petgraph::graph::Graph::new()
}

/// Relies on petgraph's Graph::add_node: appends one node and returns its
/// index, which petgraph assigns consecutively from zero.
#[verifier::external_body]
fn dep_graph_add_node(g: &mut petgraph::graph::Graph<(), (), petgraph::Directed, u32>) -> (ix:
    u32)
    requires
        dep_graph_nodes(*old(g)) < 0xffff_ffff,
    ensures
        dep_graph_nodes(*final(g)) == dep_graph_nodes(*old(g)) + 1,
        dep_graph_edges(*final(g)) == dep_graph_edges(*old(g)),
        ix as nat == dep_graph_nodes(*old(g)),
{
    g.add_node(()).index() as u32
}

/// Relies on petgraph's Graph::add_edge: appends one directed edge between
/// existing nodes.
#[verifier::external_body]
fn dep_graph_add_edge(
    g: &mut petgraph::graph::Graph<(), (), petgraph::Directed, u32>,
    a: u32,
    b: u32,
)
    requires
        (a as nat) < dep_graph_nodes(*old(g)),
        (b as nat) < dep_graph_nodes(*old(g)),
        dep_graph_edges(*old(g)).len() < 0xffff_ffff,
    ensures
        dep_graph_nodes(*final(g)) == dep_graph_nodes(*old(g)),
        dep_graph_edges(*final(g)) == dep_graph_edges(*old(g)).push((a, b)),
{
    g.add_edge(
        petgraph::graph::NodeIndex::new(a as usize),
        petgraph::graph::NodeIndex::new(b as usize),
        (),
    );
}

/// Whether the edge list contains a directed cycle: a non-empty closed walk.
pub open spec fn has_cycle(edges: Seq<(u32, u32)>) -> bool {
    exists|walk: Seq<u32>|
        walk.len() > 0 && forall|k: int|
            0 <= k < walk.len() ==> #[trigger] edges.contains(
                (walk[k], walk[(k + 1) % walk.len() as int]),
            )
}

/// A valid topological order of `n` nodes under `edges`.
pub open spec fn is_topo_order(order: Seq<u32>, n: nat, edges: Seq<(u32, u32)>) -> bool {
    &&& order.len() == n
    &&& forall|i: int| 0 <= i < order.len() ==> (#[trigger] order[i] as nat) < n
    &&& forall|i: int, j: int| 0 <= i < j < order.len() ==> order[i] != order[j]
    &&& forall|i: int, j: int|
        0 <= i < order.len() && 0 <= j < order.len() && edges.contains(
            (#[trigger] order[i], #[trigger] order[j]),
        ) ==> i < j
}

/// The order petgraph's toposort returns for a dependency graph with the
/// given node count and edge insertion sequence, if any: the algorithm is a
/// deterministic depth-first search, so its result is a function of the
/// graph alone.
pub uninterp spec fn dep_graph_topo_order(n: nat, edges: Seq<(u32, u32)>) -> Option<Seq<u32>>;

/// Relies on petgraph's algo::toposort: on success the returned order lists
/// every node exactly once with every edge pointing forward; it fails
/// exactly when the graph contains a cycle; and the algorithm is
/// deterministic, so the outcome is a function of the node count and the
/// edge insertion sequence.
#[verifier::external_body]
fn dep_graph_toposort(g: &petgraph::graph::Graph<(), (), petgraph::Directed, u32>) -> (r: Option<
    Vec<u32>,
>)
    ensures
        match r {
            Some(order) => is_topo_order(order@, dep_graph_nodes(*g), dep_graph_edges(*g))
                && dep_graph_topo_order(dep_graph_nodes(*g), dep_graph_edges(*g)) == Some(
                order@,
            ),
            None => has_cycle(dep_graph_edges(*g)) && dep_graph_topo_order(
                dep_graph_nodes(*g),
                dep_graph_edges(*g),
            ) is None,
        },
{
    match petgraph::algo::toposort(g, None) {
        Ok(order) => Some(order.iter().map(|ix| ix.index() as u32).collect()),
        Err(_) => None,
    }
}

/// An incoming edge: the source node (by final index) and, when the
/// dependency is on an auxiliary output signal, the slot of that output in
/// the source task's outputs.
#[derive(Debug, Clone, Copy, PartialEq, Eq, Structural)]
pub struct IncomingEdge {
    pub source: u32,
    pub output: Option<u32>,
}

/// An outgoing edge: the dependent node, and whether value changes
/// propagate to it.
#[derive(Debug, Clone, Copy, PartialEq, Eq, Structural)]
pub struct OutgoingEdge {
    pub target: u32,
    pub propagate: bool,
}

/// A node index together with an optional output slot: the address of one
/// value the graph can produce.
#[derive(Debug, Clone, Copy, PartialEq, Eq, Structural, Hash)]
pub struct NodeValueIndex {
    pub node_index: u32,
    pub output_index: Option<u32>,
}

impl NodeValueIndex {
    pub fn new(node_index: u32, output_index: Option<u32>) -> (r: Self)
        ensures
            r.node_index == node_index,
            r.output_index == output_index,
    {
        NodeValueIndex { node_index, output_index }
    }
}

/// A task with its edges and fingerprints.
#[derive(Debug)]
pub struct TaskNode {
    pub task: Option<Task>,
    pub incoming: Vec<IncomingEdge>,
    pub outgoing: Vec<OutgoingEdge>,
    pub id_fingerprint: u64,
    pub state_fingerprint: u64,
}

impl TaskNode {
    /// The node's task; graph nodes always carry one.
    pub fn task(&self) -> (r: &Task)
        requires
            self.task is Some,
        ensures
            *r == self.task->0,
    {
        match &self.task {
            Some(t) => t,
            None => {
                proof {
                    assert(false);
                }
                unreached()
            },
        }
    }
}

/// The task graph: nodes in topological order.
#[derive(Debug)]
pub struct TaskGraph {
    pub nodes: Vec<TaskNode>,
}

/// Every node carries a well-formed task.
pub open spec fn tasks_ok(g: Seq<TaskNode>) -> bool {
    forall|i: int|
        0 <= i < g.len() ==> (#[trigger] g[i]).task is Some && task_wf(g[i].task->0)
}

/// Every incoming edge's source index is strictly below the node's own
/// index: the order is topological and the graph acyclic.
pub open spec fn edges_ok(g: Seq<TaskNode>) -> bool {
    forall|i: int, k: int|
        0 <= i < g.len() && 0 <= k < g[i].incoming@.len() ==> (
        #[trigger] g[i].incoming@[k]).source < i
}

/// Every outgoing edge points strictly forward and stays in range.
pub open spec fn outgoing_ok(g: Seq<TaskNode>) -> bool {
    forall|i: int, k: int|
        0 <= i < g.len() && 0 <= k < g[i].outgoing@.len() ==> i < (
        #[trigger] g[i].outgoing@[k]).target < g.len()
}

/// The bytes hashed for a node's identity fingerprint: for value tasks the
/// task's identity bytes alone; for derived tasks the parents' identity
/// fingerprints in incoming order, then the task's full bytes.
pub open spec fn id_fp_at(g: Seq<TaskNode>, i: int) -> u64
    decreases i, 1int, 0int,
    when 0 <= i < g.len()
{
    if g[i].task->0.task_kind->0 is Value {
        hash64_of(task_id_bytes(g[i].task->0))
    } else {
        hash64_of(parents_id_bytes(g, g[i].incoming@, i) + task_full_bytes(g[i].task->0))
    }
}

/// The parents' identity fingerprints, eight bytes each, in edge order.
/// Out-of-range sources (which a well-formed graph never has) contribute a
/// zero.
pub open spec fn parents_id_bytes(g: Seq<TaskNode>, edges: Seq<IncomingEdge>, i: int) -> Seq<u8>
    decreases i, 0int, edges.len(),
    when 0 <= i < g.len()
{
    if edges.len() == 0 {
        Seq::empty()
    } else {
        u64_bytes(
            if 0 <= edges[0].source < i {
                id_fp_at(g, edges[0].source as int)
            } else {
                0u64
            },
        ) + parents_id_bytes(g, edges.subrange(1, edges.len() as int), i)
    }
}

/// The bytes hashed for a node's state fingerprint: for value tasks the
/// full task bytes, value included; for derived tasks the parents' state
/// fingerprints in incoming order, then the node's identity fingerprint.
pub open spec fn state_fp_at(g: Seq<TaskNode>, i: int) -> u64
    decreases i, 3int, 0int,
    when 0 <= i < g.len()
{
    if g[i].task->0.task_kind->0 is Value {
        hash64_of(task_full_bytes(g[i].task->0))
    } else {
        hash64_of(parents_state_bytes(g, g[i].incoming@, i) + u64_bytes(id_fp_at(g, i)))
    }
}

/// The parents' state fingerprints, eight bytes each, in edge order.
pub open spec fn parents_state_bytes(
    g: Seq<TaskNode>,
    edges: Seq<IncomingEdge>,
    i: int,
) -> Seq<u8>
    decreases i, 2int, edges.len(),
    when 0 <= i < g.len()
{
    if edges.len() == 0 {
        Seq::empty()
    } else {
        u64_bytes(
            if 0 <= edges[0].source < i {
                state_fp_at(g, edges[0].source as int)
            } else {
                0u64
            },
        ) + parents_state_bytes(g, edges.subrange(1, edges.len() as int), i)
    }
}

/// Every stored fingerprint equals its recomputation from the node
/// structure and values.
#[verifier::opaque]
pub open spec fn fps_ok(g: Seq<TaskNode>) -> bool {
    forall|i: int|
        0 <= i < g.len() ==> (#[trigger] g[i]).id_fingerprint == id_fp_at(g, i)
            && g[i].state_fingerprint == state_fp_at(g, i)
}

/// A well-formed task graph.
pub open spec fn graph_wf(tg: TaskGraph) -> bool {
    &&& tasks_ok(tg.nodes@)
    &&& edges_ok(tg.nodes@)
    &&& outgoing_ok(tg.nodes@)
    &&& fps_ok(tg.nodes@)
}

/// Structural equality of two node lists: same tasks and same edges
/// (fingerprints may differ).
pub open spec fn same_structure(a: Seq<TaskNode>, b: Seq<TaskNode>) -> bool {
    &&& a.len() == b.len()
    &&& forall|i: int| 0 <= i < a.len() ==> (#[trigger] a[i]).task == b[i].task
    &&& forall|i: int| 0 <= i < a.len() ==> (#[trigger] a[i]).incoming@ == b[i].incoming@
}

/// The ascending list of indices below `n` at which two fingerprint
/// sequences differ.
pub open spec fn diff_indices(a: Seq<u64>, b: Seq<u64>, n: int) -> Seq<usize>
    decreases n,
{
    if n <= 0 {
        Seq::empty()
    } else if a[n - 1] != b[n - 1] {
        diff_indices(a, b, n - 1).push((n - 1) as usize)
    } else {
        diff_indices(a, b, n - 1)
    }
}

/// The stored state fingerprints of a node list, in node order.
pub open spec fn state_fps(g: Seq<TaskNode>) -> Seq<u64> {
    Seq::new(g.len(), |i: int| g[i].state_fingerprint)
}

/// The ascending list of node indices whose stored state fingerprint
/// differs between two equally long node lists.
pub open spec fn state_diff(a: Seq<TaskNode>, b: Seq<TaskNode>) -> Seq<usize> {
    diff_indices(state_fps(a), state_fps(b), a.len() as int)
}

/// `diff_indices` reads its sequences only below `n`.
proof fn lemma_diff_indices_congruence(
    a1: Seq<u64>,
    a2: Seq<u64>,
    b1: Seq<u64>,
    b2: Seq<u64>,
    n: int,
)
    requires
        forall|j: int| 0 <= j < n ==> a1[j] == a2[j],
        forall|j: int| 0 <= j < n ==> b1[j] == b2[j],
    ensures
        diff_indices(a1, b1, n) == diff_indices(a2, b2, n),
    decreases n,
{
    if n > 0 {
        lemma_diff_indices_congruence(a1, a2, b1, b2, n - 1);
    }
}

/// Fingerprints are a pure function of the tasks and edges: structurally
/// equal graphs have equal identity and state fingerprints at every node.
/// In particular, building the same specification twice yields byte-equal
/// fingerprints.
pub proof fn lemma_fingerprint_determinism(a: Seq<TaskNode>, b: Seq<TaskNode>, i: int)
    requires
        same_structure(a, b),
        0 <= i < a.len(),
    ensures
        id_fp_at(a, i) == id_fp_at(b, i),
        state_fp_at(a, i) == state_fp_at(b, i),
    decreases i, 5int, 0int,
{
    lemma_parents_bytes_determinism(a, b, a[i].incoming@, i);
}

/// Edge lists hash to the same parent bytes on structurally equal graphs.
proof fn lemma_parents_bytes_determinism(
    a: Seq<TaskNode>,
    b: Seq<TaskNode>,
    edges: Seq<IncomingEdge>,
    i: int,
)
    requires
        same_structure(a, b),
        0 <= i < a.len(),
    ensures
        parents_id_bytes(a, edges, i) == parents_id_bytes(b, edges, i),
        parents_state_bytes(a, edges, i) == parents_state_bytes(b, edges, i),
    decreases i, 4int, edges.len(),
{
    if edges.len() > 0 {
        if 0 <= edges[0].source < i {
            lemma_fingerprint_determinism(a, b, edges[0].source as int);
        }
        lemma_parents_bytes_determinism(a, b, edges.subrange(1, edges.len() as int), i);
    }
}

/// Snoc form of `parents_id_bytes`.
proof fn lemma_parents_id_bytes_snoc(g: Seq<TaskNode>, s: Seq<IncomingEdge>, x: IncomingEdge, i: int)
    requires
        0 <= i < g.len(),
    ensures
        parents_id_bytes(g, s.push(x), i) == parents_id_bytes(g, s, i) + u64_bytes(
            if 0 <= x.source < i {
                id_fp_at(g, x.source as int)
            } else {
                0u64
            },
        ),
    decreases s.len(),
{
    let sx = s.push(x);
    let xb = u64_bytes(
        if 0 <= x.source < i {
            id_fp_at(g, x.source as int)
        } else {
            0u64
        },
    );
    if s.len() == 0 {
        assert(sx.subrange(1, sx.len() as int) =~= Seq::<IncomingEdge>::empty());
        assert(parents_id_bytes(g, sx, i) == xb + parents_id_bytes(
            g,
            Seq::<IncomingEdge>::empty(),
            i,
        ));
        assert(xb + Seq::<u8>::empty() =~= xb);
        assert(Seq::<u8>::empty() + xb =~= xb);
    } else {
        let tail = s.subrange(1, s.len() as int);
        let h = u64_bytes(
            if 0 <= s[0].source < i {
                id_fp_at(g, s[0].source as int)
            } else {
                0u64
            },
        );
        assert(sx[0] == s[0]);
        assert(sx.subrange(1, sx.len() as int) =~= tail.push(x));
        lemma_parents_id_bytes_snoc(g, tail, x, i);
        assert(parents_id_bytes(g, sx, i) == h + (parents_id_bytes(g, tail, i) + xb));
        assert(h + (parents_id_bytes(g, tail, i) + xb) =~= (h + parents_id_bytes(g, tail, i))
            + xb);
        assert(parents_id_bytes(g, s, i) == h + parents_id_bytes(g, tail, i));
    }
}

/// Snoc form of `parents_state_bytes`.
proof fn lemma_parents_state_bytes_snoc(
    g: Seq<TaskNode>,
    s: Seq<IncomingEdge>,
    x: IncomingEdge,
    i: int,
)
    requires
        0 <= i < g.len(),
    ensures
        parents_state_bytes(g, s.push(x), i) == parents_state_bytes(g, s, i) + u64_bytes(
            if 0 <= x.source < i {
                state_fp_at(g, x.source as int)
            } else {
                0u64
            },
        ),
    decreases s.len(),
{
    let sx = s.push(x);
    let xb = u64_bytes(
        if 0 <= x.source < i {
            state_fp_at(g, x.source as int)
        } else {
            0u64
        },
    );
    if s.len() == 0 {
        assert(sx.subrange(1, sx.len() as int) =~= Seq::<IncomingEdge>::empty());
        assert(parents_state_bytes(g, sx, i) == xb + parents_state_bytes(
            g,
            Seq::<IncomingEdge>::empty(),
            i,
        ));
        assert(xb + Seq::<u8>::empty() =~= xb);
        assert(Seq::<u8>::empty() + xb =~= xb);
    } else {
        let tail = s.subrange(1, s.len() as int);
        let h = u64_bytes(
            if 0 <= s[0].source < i {
                state_fp_at(g, s[0].source as int)
            } else {
                0u64
            },
        );
        assert(sx[0] == s[0]);
        assert(sx.subrange(1, sx.len() as int) =~= tail.push(x));
        lemma_parents_state_bytes_snoc(g, tail, x, i);
        assert(parents_state_bytes(g, sx, i) == h + (parents_state_bytes(g, tail, i) + xb));
        assert(h + (parents_state_bytes(g, tail, i) + xb) =~= (h + parents_state_bytes(
            g,
            tail,
            i,
        )) + xb);
        assert(parents_state_bytes(g, s, i) == h + parents_state_bytes(g, tail, i));
    }
}

impl TaskGraph {
    /// The indices of a node's parents, in incoming-edge order.
    pub fn parent_indices(&self, node_index: usize) -> (r: Result<Vec<usize>>)
        ensures
            r is Ok == ((node_index as int) < self.nodes@.len()),
            r matches Ok(v) ==> {
                &&& v@.len() == self.nodes@[node_index as int].incoming@.len()
                &&& forall|k: int|
                    0 <= k < v@.len() ==> (#[trigger] v@[k]) as int
                        == self.nodes@[node_index as int].incoming@[k].source as int
            },
            r matches Err(e) ==> error_kind(e) == ErrorKind::Internal,
    {
        if node_index >= self.nodes.len() {
            return Err(
                VegaFusionError::internal("node index out of bounds").with_context(
                    crate::errors::index_context(node_index).as_str(),
                ),
            );
        }
        let node = &self.nodes[node_index];
        let mut out: Vec<usize> = Vec::new();
        let mut k: usize = 0;
        while k < node.incoming.len()
            invariant
                k <= node.incoming@.len(),
                out@.len() == k as int,
                forall|j: int|
                    0 <= j < k as int ==> (#[trigger] out@[j]) as int == node.incoming@[j].source
                        as int,
            decreases node.incoming@.len() - k as int,
        {
            out.push(node.incoming[k].source as usize);
            k = k + 1;
        }
        Ok(out)
    }

    /// The indices of a node's children, in outgoing-edge order.
    pub fn child_indices(&self, node_index: usize) -> (r: Result<Vec<usize>>)
        ensures
            r is Ok == ((node_index as int) < self.nodes@.len()),
            r matches Ok(v) ==> {
                &&& v@.len() == self.nodes@[node_index as int].outgoing@.len()
                &&& forall|k: int|
                    0 <= k < v@.len() ==> (#[trigger] v@[k]) as int
                        == self.nodes@[node_index as int].outgoing@[k].target as int
            },
            r matches Err(e) ==> error_kind(e) == ErrorKind::Internal,
    {
        if node_index >= self.nodes.len() {
            return Err(
                VegaFusionError::internal("node index out of bounds").with_context(
                    crate::errors::index_context(node_index).as_str(),
                ),
            );
        }
        let node = &self.nodes[node_index];
        let mut out: Vec<usize> = Vec::new();
        let mut k: usize = 0;
        while k < node.outgoing.len()
            invariant
                k <= node.outgoing@.len(),
                out@.len() == k as int,
                forall|j: int|
                    0 <= j < k as int ==> (#[trigger] out@[j]) as int == node.outgoing@[j].target
                        as int,
            decreases node.outgoing@.len() - k as int,
        {
            out.push(node.outgoing[k].target as usize);
            k = k + 1;
        }
        Ok(out)
    }

    /// A node's parents, in incoming-edge order.
    pub fn parent_nodes(&self, node_index: usize) -> (r: Result<Vec<&TaskNode>>)
        requires
            edges_ok(self.nodes@),
        ensures
            r is Ok == ((node_index as int) < self.nodes@.len()),
            r matches Ok(v) ==> {
                let node = self.nodes@[node_index as int];
                &&& v@.len() == node.incoming@.len()
                &&& forall|k: int|
                    0 <= k < v@.len() ==> *(#[trigger] v@[k]) == self.nodes@[node.incoming@[k].source as int]
            },
            r matches Err(e) ==> error_kind(e) == ErrorKind::Internal,
    {
        if node_index >= self.nodes.len() {
            return Err(
                VegaFusionError::internal("node index out of bounds").with_context(
                    crate::errors::index_context(node_index).as_str(),
                ),
            );
        }
        let node = &self.nodes[node_index];
        let mut out: Vec<&TaskNode> = Vec::new();
        let mut k: usize = 0;
        while k < node.incoming.len()
            invariant
                edges_ok(self.nodes@),
                node_index < self.nodes@.len(),
                node == self.nodes@[node_index as int],
                k <= node.incoming@.len(),
                out@.len() == k as int,
                forall|j: int|
                    0 <= j < k as int ==> *(#[trigger] out@[j])
                        == self.nodes@[node.incoming@[j].source as int],
            decreases node.incoming@.len() - k as int,
        {
            let src = node.incoming[k].source as usize;
            proof {
                assert(node.incoming@[k as int].source < node_index as int);
            }
            out.push(&self.nodes[src]);
            k = k + 1;
        }
        Ok(out)
    }

    /// A node's children, in outgoing-edge order.
    pub fn child_nodes(&self, node_index: usize) -> (r: Result<Vec<&TaskNode>>)
        requires
            outgoing_ok(self.nodes@),
        ensures
            r is Ok == ((node_index as int) < self.nodes@.len()),
            r matches Ok(v) ==> {
                let node = self.nodes@[node_index as int];
                &&& v@.len() == node.outgoing@.len()
                &&& forall|k: int|
                    0 <= k < v@.len() ==> *(#[trigger] v@[k]) == self.nodes@[node.outgoing@[k].target as int]
            },
            r matches Err(e) ==> error_kind(e) == ErrorKind::Internal,
    {
        if node_index >= self.nodes.len() {
            return Err(
                VegaFusionError::internal("node index out of bounds").with_context(
                    crate::errors::index_context(node_index).as_str(),
                ),
            );
        }
        let node = &self.nodes[node_index];
        let mut out: Vec<&TaskNode> = Vec::new();
        let mut k: usize = 0;
        while k < node.outgoing.len()
            invariant
                outgoing_ok(self.nodes@),
                node_index < self.nodes@.len(),
                node == self.nodes@[node_index as int],
                k <= node.outgoing@.len(),
                out@.len() == k as int,
                forall|j: int|
                    0 <= j < k as int ==> *(#[trigger] out@[j])
                        == self.nodes@[node.outgoing@[j].target as int],
            decreases node.outgoing@.len() - k as int,
        {
            let tgt = node.outgoing[k].target as usize;
            proof {
                assert(node.outgoing@[k as int].target > node_index);
                assert((node.outgoing@[k as int].target as int) < self.nodes@.len());
            }
            out.push(&self.nodes[tgt]);
            k = k + 1;
        }
        Ok(out)
    }

    /// The node at an index.
    pub fn node(&self, node_index: usize) -> (r: Result<&TaskNode>)
        ensures
            r is Ok == ((node_index as int) < self.nodes@.len()),
            r matches Ok(n) ==> *n == self.nodes@[node_index as int],
            r matches Err(e) ==> error_kind(e) == ErrorKind::Internal,
    {
        if node_index >= self.nodes.len() {
            return Err(
                VegaFusionError::internal("node index out of bounds").with_context(
                    crate::errors::index_context(node_index).as_str(),
                ),
            );
        }
        Ok(&self.nodes[node_index])
    }
}

/// A placeholder node used while swapping a node out for mutation.
fn blank_node() -> (r: TaskNode)
    ensures
        r.task is None,
{
    TaskNode {
        task: None,
        incoming: Vec::new(),
        outgoing: Vec::new(),
        id_fingerprint: 0,
        state_fingerprint: 0,
    }
}

impl TaskGraph {
    /// Recomputes every identity fingerprint in topological order.
    #[verifier::loop_isolation(false)]
    fn init_identity_fingerprints(&mut self)
        requires
            tasks_ok(old(self).nodes@),
            edges_ok(old(self).nodes@),
        ensures
            same_structure(final(self).nodes@, old(self).nodes@),
            tasks_ok(final(self).nodes@),
            edges_ok(final(self).nodes@),
            final(self).nodes@.len() == old(self).nodes@.len(),
            forall|i: int|
                0 <= i < final(self).nodes@.len() ==> (#[trigger] final(self).nodes@[i]).outgoing@
                    == old(self).nodes@[i].outgoing@ && final(self).nodes@[i].state_fingerprint
                    == old(self).nodes@[i].state_fingerprint,
            forall|i: int|
                0 <= i < final(self).nodes@.len() ==> (
                #[trigger] final(self).nodes@[i]).id_fingerprint == id_fp_at(
                    final(self).nodes@,
                    i,
                ),
    {
        let ghost g0 = self.nodes@;
        let n = self.nodes.len();
        let mut fps: Vec<u64> = Vec::new();
        let mut i: usize = 0;
        while i < n
            invariant
                self.nodes@ == g0,
                n == g0.len(),
                i <= n,
                fps@.len() == i as int,
                forall|j: int| 0 <= j < i as int ==> #[trigger] fps@[j] == id_fp_at(g0, j),
            decreases n - i,
        {
            let node = &self.nodes[i];
            let mut buf: Vec<u8> = Vec::new();
            let is_value = matches!(node.task().task_kind(), TaskKind::Value(_));
            if is_value {
                write_task_id(&mut buf, node.task());
                proof {
                    assert(buf@ =~= task_id_bytes(g0[i as int].task->0));
                }
            } else {
                let mut k: usize = 0;
                while k < node.incoming.len()
                    invariant
                        self.nodes@ == g0,
                        i < g0.len(),
                        node == g0[i as int],
                        fps@.len() == i as int,
                        forall|j: int| 0 <= j < i as int ==> #[trigger] fps@[j] == id_fp_at(g0, j),
                        k <= node.incoming@.len(),
                        buf@ =~= parents_id_bytes(g0, node.incoming@.take(k as int), i as int),
                    decreases node.incoming@.len() - k as int,
                {
                    let src = node.incoming[k].source as usize;
                    proof {
                        assert(node.incoming@[k as int].source < i as int);
                    }
                    write_u64(&mut buf, fps[src]);
                    proof {
                        assert(node.incoming@.take(k as int + 1) =~= node.incoming@.take(
                            k as int,
                        ).push(node.incoming@[k as int]));
                        lemma_parents_id_bytes_snoc(
                            g0,
                            node.incoming@.take(k as int),
                            node.incoming@[k as int],
                            i as int,
                        );
                    }
                    k = k + 1;
                }
                proof {
                    assert(node.incoming@.take(node.incoming@.len() as int) =~= node.incoming@);
                }
                write_task_full(&mut buf, node.task());
            }
            let fp = hash64(&buf);
            proof {
                assert(fp == id_fp_at(g0, i as int));
            }
            fps.push(fp);
            i = i + 1;
        }
        // apply the fingerprints
        let mut t: usize = 0;
        while t < n
            invariant
                n == g0.len(),
                self.nodes@.len() == g0.len(),
                fps@.len() == n as int,
                forall|j: int| 0 <= j < n as int ==> #[trigger] fps@[j] == id_fp_at(g0, j),
                t <= n,
                forall|j: int|
                    t as int <= j < n as int ==> #[trigger] self.nodes@[j] == g0[j],
                forall|j: int|
                    0 <= j < t as int ==> (#[trigger] self.nodes@[j]).task == g0[j].task
                        && self.nodes@[j].incoming@ == g0[j].incoming@ && self.nodes@[j].outgoing@
                        == g0[j].outgoing@ && self.nodes@[j].state_fingerprint
                        == g0[j].state_fingerprint && self.nodes@[j].id_fingerprint == fps@[j],
            decreases n - t,
        {
            let mut tmp = blank_node();
            self.nodes.set_and_swap(t, &mut tmp);
            let fp = fps[t];
            let fixed = TaskNode {
                task: tmp.task,
                incoming: tmp.incoming,
                outgoing: tmp.outgoing,
                id_fingerprint: fp,
                state_fingerprint: tmp.state_fingerprint,
            };
            let mut put = fixed;
            self.nodes.set_and_swap(t, &mut put);
            t = t + 1;
        }
        proof {
            assert(same_structure(self.nodes@, g0));
            assert forall|i2: int| 0 <= i2 < self.nodes@.len() implies (
            #[trigger] self.nodes@[i2]).id_fingerprint == id_fp_at(self.nodes@, i2) by {
                lemma_fingerprint_determinism(self.nodes@, g0, i2);
            }
        }
    }

    /// Recomputes every state fingerprint in topological order and returns,
    /// in ascending order, the indices whose fingerprint changed.
    #[verifier::loop_isolation(false)]
    pub fn update_state_fingerprints(&mut self) -> (r: Result<Vec<usize>>)
        requires
            tasks_ok(old(self).nodes@),
            edges_ok(old(self).nodes@),
            forall|i: int|
                0 <= i < old(self).nodes@.len() ==> (
                #[trigger] old(self).nodes@[i]).id_fingerprint == id_fp_at(old(self).nodes@, i),
        ensures
            r is Ok,
            same_structure(final(self).nodes@, old(self).nodes@),
            tasks_ok(final(self).nodes@),
            edges_ok(final(self).nodes@),
            forall|i: int|
                0 <= i < final(self).nodes@.len() ==> (#[trigger] final(self).nodes@[i]).outgoing@
                    == old(self).nodes@[i].outgoing@ && final(self).nodes@[i].id_fingerprint
                    == old(self).nodes@[i].id_fingerprint,
            forall|i: int|
                0 <= i < final(self).nodes@.len() ==> (
                #[trigger] final(self).nodes@[i]).state_fingerprint == state_fp_at(
                    final(self).nodes@,
                    i,
                ),
            r matches Ok(changed) ==> {
                &&& changed@ == state_diff(final(self).nodes@, old(self).nodes@)
                &&& forall|a: int, b: int|
                    0 <= a < b < changed@.len() ==> (#[trigger] changed@[a]) < (
                    #[trigger] changed@[b])
                &&& forall|a: int|
                    0 <= a < changed@.len() ==> (#[trigger] changed@[a])
                        < final(self).nodes@.len()
                &&& forall|i: int|
                    0 <= i < final(self).nodes@.len() ==> (changed@.contains(i as usize) <==> (
                    #[trigger] final(self).nodes@[i]).state_fingerprint
                        != old(self).nodes@[i].state_fingerprint)
            },
    {
        let ghost g0 = self.nodes@;
        let n = self.nodes.len();
        let mut fps: Vec<u64> = Vec::new();
        let mut i: usize = 0;
        while i < n
            invariant
                self.nodes@ == g0,
                n == g0.len(),
                i <= n,
                fps@.len() == i as int,
                forall|j: int| 0 <= j < i as int ==> #[trigger] fps@[j] == state_fp_at(g0, j),
            decreases n - i,
        {
            let node = &self.nodes[i];
            let mut buf: Vec<u8> = Vec::new();
            proof {
                reveal(state_fp_at);
                                    }
            let is_value = matches!(node.task().task_kind(), TaskKind::Value(_));
            if is_value {
                write_task_full(&mut buf, node.task());
                proof {
                    assert(buf@ =~= task_full_bytes(g0[i as int].task->0));
                }
            } else {
                let mut k: usize = 0;
                while k < node.incoming.len()
                    invariant
                        self.nodes@ == g0,
                        i < g0.len(),
                        node == g0[i as int],
                        fps@.len() == i as int,
                        forall|j: int|
                            0 <= j < i as int ==> #[trigger] fps@[j] == state_fp_at(g0, j),
                        k <= node.incoming@.len(),
                        buf@ =~= parents_state_bytes(g0, node.incoming@.take(k as int), i as int),
                    decreases node.incoming@.len() - k as int,
                {
                    let src = node.incoming[k].source as usize;
                    proof {
                        assert(node.incoming@[k as int].source < i as int);
                    }
                    write_u64(&mut buf, fps[src]);
                    proof {
                        assert(node.incoming@.take(k as int + 1) =~= node.incoming@.take(
                            k as int,
                        ).push(node.incoming@[k as int]));
                        lemma_parents_state_bytes_snoc(
                            g0,
                            node.incoming@.take(k as int),
                            node.incoming@[k as int],
                            i as int,
                        );
                    }
                    k = k + 1;
                }
                proof {
                    assert(node.incoming@.take(node.incoming@.len() as int) =~= node.incoming@);
                }
                write_u64(&mut buf, node.id_fingerprint);
            }
            let fp = hash64(&buf);
            proof {
                assert(fp == state_fp_at(g0, i as int));
            }
            fps.push(fp);
            i = i + 1;
        }
        // apply the fingerprints, collecting the changed indices
        let mut changed: Vec<usize> = Vec::new();
        let mut t: usize = 0;
        while t < n
            invariant
                n == g0.len(),
                self.nodes@.len() == g0.len(),
                fps@.len() == n as int,
                forall|j: int| 0 <= j < n as int ==> #[trigger] fps@[j] == state_fp_at(g0, j),
                t <= n,
                forall|j: int|
                    t as int <= j < n as int ==> #[trigger] self.nodes@[j] == g0[j],
                forall|j: int|
                    0 <= j < t as int ==> (#[trigger] self.nodes@[j]).task == g0[j].task
                        && self.nodes@[j].incoming@ == g0[j].incoming@ && self.nodes@[j].outgoing@
                        == g0[j].outgoing@ && self.nodes@[j].id_fingerprint
                        == g0[j].id_fingerprint && self.nodes@[j].state_fingerprint == fps@[j],
                forall|a: int, b: int|
                    0 <= a < b < changed@.len() ==> (#[trigger] changed@[a]) < (
                    #[trigger] changed@[b]),
                forall|a: int|
                    0 <= a < changed@.len() ==> (#[trigger] changed@[a]) < t,
                forall|j: int|
                    0 <= j < t as int ==> (changed@.contains(j as usize) <==> #[trigger] fps@[j]
                        != g0[j].state_fingerprint),
                changed@ == diff_indices(fps@, state_fps(g0), t as int),
            decreases n - t,
        {
            let mut tmp = blank_node();
            self.nodes.set_and_swap(t, &mut tmp);
            let fp = fps[t];
            let was = tmp.state_fingerprint;
            let fixed = TaskNode {
                task: tmp.task,
                incoming: tmp.incoming,
                outgoing: tmp.outgoing,
                id_fingerprint: tmp.id_fingerprint,
                state_fingerprint: fp,
            };
            let mut put = fixed;
            self.nodes.set_and_swap(t, &mut put);
            if fp != was {
                let ghost cpre = changed@;
                changed.push(t);
                proof {
                    assert forall|j: int|
                        0 <= j < t as int + 1 implies (changed@.contains(j as usize) <==> (
                        #[trigger] fps@[j] != g0[j].state_fingerprint)) by {
                        if j < t as int {
                            if cpre.contains(j as usize) {
                                let w = choose|w: int|
                                    0 <= w < cpre.len() && cpre[w] == j as usize;
                                assert(changed@[w] == j as usize);
                            }
                            if changed@.contains(j as usize) {
                                let w = choose|w: int|
                                    0 <= w < changed@.len() && changed@[w] == j as usize;
                                if w < changed@.len() - 1 {
                                    assert(cpre[w] == j as usize);
                                }
                            }
                        } else {
                            assert(changed@[changed@.len() - 1] == t);
                        }
                    }
                    assert(state_fps(g0)[t as int] == g0[t as int].state_fingerprint);
                    assert(changed@ =~= diff_indices(fps@, state_fps(g0), t as int + 1));
                }
            } else {
                proof {
                    assert forall|j: int|
                        0 <= j < t as int + 1 implies (changed@.contains(j as usize) <==> (
                        #[trigger] fps@[j] != g0[j].state_fingerprint)) by {
                        if j == t as int {
                            if changed@.contains(t) {
                                let w = choose|w: int|
                                    0 <= w < changed@.len() && changed@[w] == t;
                                assert(changed@[w] < t);
                            }
                        }
                    }
                    assert(state_fps(g0)[t as int] == g0[t as int].state_fingerprint);
                    assert(changed@ =~= diff_indices(fps@, state_fps(g0), t as int + 1));
                }
            }
            t = t + 1;
        }
        proof {
            assert(same_structure(self.nodes@, g0));
            assert forall|i2: int| 0 <= i2 < self.nodes@.len() implies (
            #[trigger] self.nodes@[i2]).state_fingerprint == state_fp_at(self.nodes@, i2) by {
                lemma_fingerprint_determinism(self.nodes@, g0, i2);
            }
            lemma_diff_indices_congruence(
                fps@,
                state_fps(self.nodes@),
                state_fps(g0),
                state_fps(g0),
                n as int,
            );
            assert(changed@ == state_diff(self.nodes@, g0));
        }
        Ok(changed)
    }
}

/// A permutation of `0 .. n` attains every value below `n`.
proof fn lemma_permutation_surjective(order: Seq<u32>, n: nat)
    requires
        is_node_permutation(order, n),
    ensures
        forall|v: u32| (v as nat) < n ==> #[trigger] order.contains(v),
{
    broadcast use vstd::seq_lib::seq_to_set_is_finite;
    broadcast use vstd::set::group_set_axioms;

    let ints = Seq::new(order.len(), |i: int| order[i] as int);
    assert(ints.no_duplicates()) by {
        assert forall|i: int, j: int| 0 <= i < j < ints.len() implies ints[i] != ints[j] by {
            assert(order[i] != order[j]);
        }
    }
    ints.unique_seq_to_set();
    let rng = vstd::set_lib::set_int_range(0, n as int);
    vstd::set_lib::lemma_int_range(0, n as int);
    assert(ints.to_set().subset_of(rng)) by {
        assert forall|x: int| ints.to_set().contains(x) implies rng.contains(x) by {
            let q = choose|q: int| 0 <= q < ints.len() && ints[q] == x;
            assert((order[q] as nat) < n);
        }
    }
    vstd::set_lib::lemma_subset_equality(ints.to_set(), rng);
    assert forall|v: u32| (v as nat) < n implies #[trigger] order.contains(v) by {
        assert(rng.contains(v as int));
        assert(ints.to_set().contains(v as int));
        let q = choose|q: int| 0 <= q < ints.len() && ints[q] == v as int;
        assert(order[q] == v);
    }
}

/// No two tasks define the same variable at the same scope.
pub open spec fn no_duplicate_sites(tasks: Seq<Task>) -> bool {
    forall|i: int, j: int|
        0 <= i < j < tasks.len() ==> !(crate::variable::var_id((#[trigger] tasks[i]).variable->0)
            == crate::variable::var_id((#[trigger] tasks[j]).variable->0) && tasks[i].scope@
            == tasks[j].scope@)
}

/// The first task below `n` defining `(vid, scope)`, if any.
pub open spec fn first_def_upto(
    tasks: Seq<Task>,
    vid: (crate::variable::VariableNamespace, Seq<char>),
    scope: Seq<u32>,
    n: int,
) -> Option<int>
    decreases n,
{
    if n <= 0 {
        None
    } else {
        match first_def_upto(tasks, vid, scope, n - 1) {
            Some(j) => Some(j),
            None => if crate::variable::var_id(tasks[n - 1].variable->0) == vid && tasks[n
                - 1].scope@ == scope {
                Some(n - 1)
            } else {
                None
            },
        }
    }
}

/// The first task defining `(vid, scope)`, if any.
pub open spec fn first_def(
    tasks: Seq<Task>,
    vid: (crate::variable::VariableNamespace, Seq<char>),
    scope: Seq<u32>,
) -> Option<int> {
    first_def_upto(tasks, vid, scope, tasks.len() as int)
}

/// A match at `j` below which nothing matches pins the first definition.
proof fn lemma_first_def_pins(
    tasks: Seq<Task>,
    vid: (crate::variable::VariableNamespace, Seq<char>),
    scope: Seq<u32>,
    j: int,
    m: int,
)
    requires
        0 <= j < m <= tasks.len(),
        first_def_upto(tasks, vid, scope, j) is None,
        crate::variable::var_id(tasks[j].variable->0) == vid && tasks[j].scope@ == scope,
    ensures
        first_def_upto(tasks, vid, scope, m) == Some(j),
    decreases m,
{
    if m > j + 1 {
        lemma_first_def_pins(tasks, vid, scope, j, m - 1);
    }
}

/// No match below `m` leaves the first definition undefined.
proof fn lemma_first_def_none(
    tasks: Seq<Task>,
    vid: (crate::variable::VariableNamespace, Seq<char>),
    scope: Seq<u32>,
    m: int,
)
    requires
        forall|t: int|
            0 <= t < m ==> !(crate::variable::var_id((#[trigger] tasks[t]).variable->0) == vid
                && tasks[t].scope@ == scope),
    ensures
        first_def_upto(tasks, vid, scope, m) is None,
    decreases m,
{
    if m > 0 {
        lemma_first_def_none(tasks, vid, scope, m - 1);
    }
}

/// The first output signal below `n` named `name`, if any.
pub open spec fn first_slot_upto(outs: Seq<Seq<char>>, name: Seq<char>, n: int) -> Option<int>
    decreases n,
{
    if n <= 0 {
        None
    } else {
        match first_slot_upto(outs, name, n - 1) {
            Some(j) => Some(j),
            None => if outs[n - 1] == name {
                Some(n - 1)
            } else {
                None
            },
        }
    }
}

/// The slot of the first output signal named `name`, if any.
pub open spec fn first_slot(outs: Seq<Seq<char>>, name: Seq<char>) -> Option<int> {
    first_slot_upto(outs, name, outs.len() as int)
}

/// A match at `j` below which nothing matches pins the first slot.
proof fn lemma_first_slot_pins(outs: Seq<Seq<char>>, name: Seq<char>, j: int, m: int)
    requires
        0 <= j < m <= outs.len(),
        first_slot_upto(outs, name, j) is None,
        outs[j] == name,
    ensures
        first_slot_upto(outs, name, m) == Some(j),
    decreases m,
{
    if m > j + 1 {
        lemma_first_slot_pins(outs, name, j, m - 1);
    }
}

/// No match below `m` leaves the first slot undefined.
proof fn lemma_first_slot_none(outs: Seq<Seq<char>>, name: Seq<char>, m: int)
    requires
        forall|t: int| 0 <= t < m ==> (#[trigger] outs[t]) != name,
    ensures
        first_slot_upto(outs, name, m) is None,
    decreases m,
{
    if m > 0 {
        lemma_first_slot_none(outs, name, m - 1);
    }
}

/// Whether one input variable of task `t` resolves in the scope tree to a
/// defining task, with a valid output slot where the reference hit an
/// output signal.
pub open spec fn spec_input_ok(
    tasks: Seq<Task>,
    ts: TaskScope,
    t: int,
    m: crate::expression::IvModel,
) -> bool {
    &&& crate::scope::spec_resolve(ts, m.0, m.1, tasks[t].scope@) is Some
    &&& {
        let res = crate::scope::spec_resolve(ts, m.0, m.1, tasks[t].scope@)->0;
        let tgt = first_def(tasks, res.0, res.1);
        &&& tgt is Some
        &&& (tgt->0 != t && res.2 is Some ==> first_slot(
            task_output_signals(tasks[tgt->0]),
            res.2->0,
        ) is Some)
    }
}

/// The resolved incoming entry of one input variable of task `t`: the
/// original index of the defining task and the output slot; `None` when the
/// reference resolves to the task itself (self-edges are elided).
pub open spec fn spec_input_entry(
    tasks: Seq<Task>,
    ts: TaskScope,
    t: int,
    m: crate::expression::IvModel,
) -> Option<(u32, Option<u32>)> {
    let res = crate::scope::spec_resolve(ts, m.0, m.1, tasks[t].scope@)->0;
    let tgt = first_def(tasks, res.0, res.1)->0;
    if tgt == t {
        None
    } else {
        Some(
            (
                tgt as u32,
                match res.2 {
                    None => None,
                    Some(oname) => Some(
                        first_slot(task_output_signals(tasks[tgt]), oname)->0 as u32,
                    ),
                },
            ),
        )
    }
}

/// The incoming references of task `t` over a prefix of its input list:
/// one entry per non-self input, in input order.
pub open spec fn spec_refs_of(
    tasks: Seq<Task>,
    ts: TaskScope,
    t: int,
    ivs: Seq<crate::expression::IvModel>,
) -> Seq<(u32, Option<u32>)>
    decreases ivs.len(),
{
    if ivs.len() == 0 {
        Seq::empty()
    } else {
        spec_refs_of(tasks, ts, t, ivs.drop_last()) + (match spec_input_entry(
            tasks,
            ts,
            t,
            ivs.last(),
        ) {
            None => Seq::<(u32, Option<u32>)>::empty(),
            Some(e) => seq![e],
        })
    }
}

/// The incoming references of task `t`.
pub open spec fn spec_task_refs(tasks: Seq<Task>, ts: TaskScope, t: int) -> Seq<
    (u32, Option<u32>),
> {
    spec_refs_of(tasks, ts, t, task_input_vars(tasks[t]))
}

/// One dependency edge per reference entry, targeting task `t`.
pub open spec fn refs_to_edges(refs: Seq<(u32, Option<u32>)>, t: int) -> Seq<(u32, u32)> {
    Seq::new(refs.len(), |k: int| (refs[k].0, t as u32))
}

/// The flat dependency edge list of the first `n` tasks: per task, one edge
/// per non-self input, in input order.
pub open spec fn spec_edges_upto(tasks: Seq<Task>, ts: TaskScope, n: int) -> Seq<(u32, u32)>
    decreases n,
{
    if n <= 0 {
        Seq::empty()
    } else {
        spec_edges_upto(tasks, ts, n - 1) + refs_to_edges(
            spec_task_refs(tasks, ts, n - 1),
            n - 1,
        )
    }
}

/// The dependency edges of the whole task list, resolved through the scope
/// tree.
pub open spec fn spec_edges(tasks: Seq<Task>, ts: TaskScope) -> Seq<(u32, u32)> {
    spec_edges_upto(tasks, ts, tasks.len() as int)
}

/// Every task's scope lies in the scope tree and every input reference
/// resolves to a defining task, with a valid output slot where needed.
pub open spec fn all_inputs_resolved(tasks: Seq<Task>, ts: TaskScope) -> bool {
    forall|t: int|
        0 <= t < tasks.len() ==> #[trigger] crate::scope::spec_get_child(
            ts,
            tasks[t].scope@,
        ) is Some && forall|k: int|
            0 <= k < task_input_vars(tasks[t]).len() ==> spec_input_ok(
                tasks,
                ts,
                t,
                #[trigger] task_input_vars(tasks[t])[k],
            )
}

/// Some input variable of some task has no definition in any enclosing
/// scope.
pub open spec fn some_input_unresolvable(tasks: Seq<Task>, ts: TaskScope) -> bool {
    exists|t: int, k: int|
        0 <= t < tasks.len() && 0 <= k < task_input_vars(tasks[t]).len()
            && crate::scope::spec_resolve(
            ts,
            (#[trigger] task_input_vars(tasks[t])[k]).0,
            task_input_vars(tasks[t])[k].1,
            tasks[t].scope@,
        ) is None
}

/// A reference-list prefix never outgrows the full list.
proof fn lemma_refs_take_len(
    tasks: Seq<Task>,
    ts: TaskScope,
    t: int,
    ivs: Seq<crate::expression::IvModel>,
    v: int,
)
    requires
        0 <= v <= ivs.len(),
    ensures
        spec_refs_of(tasks, ts, t, ivs.take(v)).len() <= spec_refs_of(tasks, ts, t, ivs).len(),
    decreases ivs.len() - v,
{
    if v < ivs.len() {
        assert(ivs.take(v + 1).drop_last() =~= ivs.take(v));
        assert(ivs.take(v + 1).last() == ivs[v]);
        lemma_refs_take_len(tasks, ts, t, ivs, v + 1);
    } else {
        assert(ivs.take(v) =~= ivs);
    }
}

/// An edge-list stage never outgrows the full edge list.
proof fn lemma_edges_upto_len(tasks: Seq<Task>, ts: TaskScope, i: int, n: int)
    requires
        0 <= i <= n,
    ensures
        spec_edges_upto(tasks, ts, i).len() <= spec_edges_upto(tasks, ts, n).len(),
    decreases n - i,
{
    if i < n {
        lemma_edges_upto_len(tasks, ts, i + 1, n);
    }
}

/// Finds the task defining a scoped variable.
fn find_task(tasks: &Vec<Task>, var: &Variable, scope: &Vec<u32>) -> (r: Option<usize>)
    requires
        forall|i: int| 0 <= i < tasks@.len() ==> task_wf(#[trigger] tasks@[i]),
    ensures
        match r {
            Some(j) => j < tasks@.len() && crate::variable::var_id(tasks@[j as int].variable->0)
                == crate::variable::var_id(*var) && tasks@[j as int].scope@ == scope@
                && first_def(tasks@, crate::variable::var_id(*var), scope@) == Some(j as int),
            None => (forall|j: int|
                0 <= j < tasks@.len() ==> !(crate::variable::var_id(
                    (#[trigger] tasks@[j]).variable->0,
                ) == crate::variable::var_id(*var) && tasks@[j].scope@ == scope@)) && first_def(
                tasks@,
                crate::variable::var_id(*var),
                scope@,
            ) is None,
        },
{
    let mut j: usize = 0;
    while j < tasks.len()
        invariant
            forall|i: int| 0 <= i < tasks@.len() ==> task_wf(#[trigger] tasks@[i]),
            j <= tasks@.len(),
            forall|t: int|
                0 <= t < j as int ==> !(crate::variable::var_id(
                    (#[trigger] tasks@[t]).variable->0,
                ) == crate::variable::var_id(*var) && tasks@[t].scope@ == scope@),
        decreases tasks@.len() - j as int,
    {
        let vars_eq = crate::variable::var_eq(tasks[j].variable(), var);
        let scopes_eq = tasks[j].scope == *scope;
        proof {
            if scopes_eq {
                assert(tasks@[j as int].scope@ =~= scope@);
            }
            if tasks@[j as int].scope@ == scope@ {
                assert(forall|q: int|
                    0 <= q < scope@.len() ==> tasks@[j as int].scope@[q] == scope@[q]);
            }
        }
        if vars_eq && scopes_eq {
            proof {
                lemma_first_def_none(tasks@, crate::variable::var_id(*var), scope@, j as int);
                lemma_first_def_pins(
                    tasks@,
                    crate::variable::var_id(*var),
                    scope@,
                    j as int,
                    tasks@.len() as int,
                );
            }
            return Some(j);
        }
        j = j + 1;
    }
    proof {
        lemma_first_def_none(tasks@, crate::variable::var_id(*var), scope@, tasks@.len() as int);
    }
    None
}

/// The name views of a list of variables.
pub open spec fn var_names(outs: Seq<Variable>) -> Seq<Seq<char>> {
    Seq::new(outs.len(), |i: int| outs[i].name@)
}

/// Finds the slot of an output variable among a task's outputs.
#[verifier::loop_isolation(false)]
fn find_output_slot(outs: &Vec<Variable>, ov: &Variable) -> (r: Option<usize>)
    requires
        forall|i: int|
            0 <= i < outs@.len() ==> (#[trigger] outs@[i]).namespace
                == crate::variable::VariableNamespace::Signal,
        ov.namespace == crate::variable::VariableNamespace::Signal,
    ensures
        match r {
            Some(k) => k < outs@.len() && crate::variable::var_id(outs@[k as int])
                == crate::variable::var_id(*ov) && first_slot(var_names(outs@), ov.name@)
                == Some(k as int),
            None => (forall|k: int|
                0 <= k < outs@.len() ==> crate::variable::var_id(#[trigger] outs@[k])
                    != crate::variable::var_id(*ov)) && first_slot(
                var_names(outs@),
                ov.name@,
            ) is None,
        },
{
    let mut k: usize = 0;
    while k < outs.len()
        invariant
            k <= outs@.len(),
            forall|t: int|
                0 <= t < k as int ==> crate::variable::var_id(#[trigger] outs@[t])
                    != crate::variable::var_id(*ov),
        decreases outs@.len() - k as int,
    {
        if crate::variable::var_eq(&outs[k], ov) {
            proof {
                assert forall|t: int| 0 <= t < k as int implies #[trigger] var_names(outs@)[t]
                    != ov.name@ by {
                    assert(crate::variable::var_id(outs@[t]) != crate::variable::var_id(*ov));
                    assert(outs@[t].namespace == ov.namespace);
                }
                lemma_first_slot_none(var_names(outs@), ov.name@, k as int);
                lemma_first_slot_pins(var_names(outs@), ov.name@, k as int, outs@.len() as int);
            }
            return Some(k);
        }
        k = k + 1;
    }
    proof {
        assert forall|t: int| 0 <= t < outs@.len() implies #[trigger] var_names(outs@)[t]
            != ov.name@ by {
            assert(crate::variable::var_id(outs@[t]) != crate::variable::var_id(*ov));
            assert(outs@[t].namespace == ov.namespace);
        }
        lemma_first_slot_none(var_names(outs@), ov.name@, outs@.len() as int);
    }
    None
}

/// A sequence of node indices that is a permutation of `0 .. n`.
pub open spec fn is_node_permutation(order: Seq<u32>, n: nat) -> bool {
    &&& order.len() == n
    &&& forall|i: int| 0 <= i < order.len() ==> (#[trigger] order[i] as nat) < n
    &&& forall|i: int, j: int| 0 <= i < j < order.len() ==> order[i] != order[j]
}

/// Rejects duplicate definition sites among the tasks: succeeds exactly
/// when every task defines a distinct scoped variable.
fn check_duplicate_tasks(tasks: &Vec<Task>) -> (r: Result<()>)
    requires
        forall|i: int| 0 <= i < tasks@.len() ==> task_wf(#[trigger] tasks@[i]),
    ensures
        r is Ok <==> no_duplicate_sites(tasks@),
        r matches Err(e) ==> error_kind(e) == ErrorKind::Specification,
{
    let n = tasks.len();
    let mut i: usize = 0;
    while i < n
        invariant
            n == tasks@.len(),
            forall|t: int| 0 <= t < tasks@.len() ==> task_wf(#[trigger] tasks@[t]),
            i <= n,
            forall|a: int, b: int|
                0 <= a < b < n && a < i as int ==> !(crate::variable::var_id(
                    (#[trigger] tasks@[a]).variable->0,
                ) == crate::variable::var_id((#[trigger] tasks@[b]).variable->0)
                    && tasks@[a].scope@ == tasks@[b].scope@),
        decreases n - i,
    {
        let mut j: usize = i + 1;
        while j < n
            invariant
                n == tasks@.len(),
                forall|t: int| 0 <= t < tasks@.len() ==> task_wf(#[trigger] tasks@[t]),
                i < n,
                i < j <= n,
                forall|b: int|
                    i < b < j as int ==> !(crate::variable::var_id(
                        tasks@[i as int].variable->0,
                    ) == crate::variable::var_id((#[trigger] tasks@[b]).variable->0)
                        && tasks@[i as int].scope@ == tasks@[b].scope@),
            decreases n - j,
        {
            let same_var = crate::variable::var_eq(tasks[i].variable(), tasks[j].variable());
            let same_scope = tasks[i].scope == tasks[j].scope;
            proof {
                if same_scope {
                    assert(tasks@[i as int].scope@ =~= tasks@[j as int].scope@);
                }
                if tasks@[i as int].scope@ == tasks@[j as int].scope@ {
                    assert(forall|q: int|
                        0 <= q < tasks@[i as int].scope@.len() ==> tasks@[i as int].scope@[q]
                            == tasks@[j as int].scope@[q]);
                }
            }
            if same_var && same_scope {
                proof {
                    assert(!no_duplicate_sites(tasks@));
                }
                return Err(VegaFusionError::specification("duplicate variable definition"));
            }
            j = j + 1;
        }
        i = i + 1;
    }
    Ok(())
}

/// The resolved incoming references of every task: per task, the original
/// index of each input's definition site with its output slot, and the flat
/// edge list.
pub open spec fn resolved_refs_ok(
    refs: Seq<Vec<(u32, Option<u32>)>>,
    edges: Seq<(u32, u32)>,
    n: int,
) -> bool {
    &&& refs.len() == n
    &&& forall|a: int|
        0 <= a < edges.len() ==> ((#[trigger] edges[a]).0 as int) < n && (edges[a].1 as int) < n
            && edges[a].0 != edges[a].1
    &&& forall|t: int, k: int|
        0 <= t < n && 0 <= k < refs[t]@.len() ==> {
            let entry = #[trigger] refs[t]@[k];
            &&& (entry.0 as int) < n
            &&& entry.0 != t as u32
            &&& edges.contains((entry.0, t as u32))
        }
}

/// Resolves every input of every task through the scope tree: on success
/// the returned edge list and per-task references are exactly the
/// spec-level resolution of the inputs, and success is owed exactly when
/// every input resolves and the edges fit.
#[verifier::loop_isolation(false)]
#[verifier::rlimit(100)]
#[verifier::spinoff_prover]
fn resolve_all_inputs(tasks: &Vec<Task>, task_scope: &TaskScope) -> (r: Result<
    (Vec<(u32, u32)>, Vec<Vec<(u32, Option<u32>)>>),
>)
    requires
        forall|i: int| 0 <= i < tasks@.len() ==> task_wf(#[trigger] tasks@[i]),
        tasks@.len() < 0xffff_ffff,
    ensures
        r is Ok <==> all_inputs_resolved(tasks@, *task_scope) && spec_edges(
            tasks@,
            *task_scope,
        ).len() <= 0xffff_fffe,
        r matches Ok(pair) ==> {
            &&& resolved_refs_ok(pair.1@, pair.0@, tasks@.len() as int)
            &&& pair.0@.len() <= 0xffff_fffe
            &&& pair.0@ == spec_edges(tasks@, *task_scope)
            &&& pair.1@.len() == tasks@.len()
            &&& forall|t: int|
                0 <= t < tasks@.len() ==> (#[trigger] pair.1@[t])@ == spec_task_refs(
                    tasks@,
                    *task_scope,
                    t,
                )
        },
        r matches Err(e) ==> error_kind(e) == ErrorKind::Specification || error_kind(e)
            == ErrorKind::Internal,
        r matches Err(e) && error_kind(e) == ErrorKind::Specification
            ==> some_input_unresolvable(tasks@, *task_scope),
{
    let ghost ts0 = tasks@;
    let n = tasks.len();
    let mut edges: Vec<(u32, u32)> = Vec::new();
    let mut resolved_inputs: Vec<Vec<(u32, Option<u32>)>> = Vec::new();
    let mut i: usize = 0;
    while i < n
        invariant
            n == ts0.len(),
            n < 0xffff_ffff,
            tasks@ == ts0,
            forall|t: int| 0 <= t < ts0.len() ==> task_wf(#[trigger] ts0[t]),
            i <= n,
            edges@.len() <= 0xffff_fffe,
            resolved_inputs@.len() == i as int,
            edges@ == spec_edges_upto(ts0, *task_scope, i as int),
            forall|t: int|
                0 <= t < i as int ==> (#[trigger] resolved_inputs@[t])@ == spec_task_refs(
                    ts0,
                    *task_scope,
                    t,
                ),
            forall|t: int|
                0 <= t < i as int ==> #[trigger] spec_get_child(
                    *task_scope,
                    ts0[t].scope@,
                ) is Some,
            forall|t: int, k: int|
                0 <= t < i as int && 0 <= k < task_input_vars(ts0[t]).len() ==> spec_input_ok(
                    ts0,
                    *task_scope,
                    t,
                    #[trigger] task_input_vars(ts0[t])[k],
                ),
            forall|a: int|
                0 <= a < edges@.len() ==> ((#[trigger] edges@[a]).0 as int) < n && (edges@[a].1
                    as int) < n && edges@[a].0 != edges@[a].1,
            forall|t: int, k: int|
                0 <= t < i as int && 0 <= k < resolved_inputs@[t]@.len() ==> {
                    let entry = #[trigger] resolved_inputs@[t]@[k];
                    &&& (entry.0 as int) < n
                    &&& entry.0 != t as u32
                    &&& edges@.contains((entry.0, t as u32))
                },
        decreases n - i,
    {
        let mut mine: Vec<(u32, Option<u32>)> = Vec::new();
        if task_scope.get_child(tasks[i].scope()).is_err() {
            proof {
                assert(!all_inputs_resolved(ts0, *task_scope));
            }
            return Err(VegaFusionError::internal("task scope not in scope tree"));
        }
        let input_vars = tasks[i].input_vars();
        let ghost ivs = task_input_vars(ts0[i as int]);
        proof {
            assert(input_var_models(input_vars@) == ivs);
            assert(input_vars@.len() == ivs.len());
        }
        let mut v: usize = 0;
        while v < input_vars.len()
            invariant
                i < n,
                spec_get_child(*task_scope, tasks@[i as int].scope@) is Some,
                input_var_models(input_vars@) == ivs,
                ivs == task_input_vars(ts0[i as int]),
                input_vars@.len() == ivs.len(),
                v <= input_vars@.len(),
                edges@.len() <= 0xffff_fffe,
                mine@ == spec_refs_of(ts0, *task_scope, i as int, ivs.take(v as int)),
                edges@ == spec_edges_upto(ts0, *task_scope, i as int) + refs_to_edges(
                    spec_refs_of(ts0, *task_scope, i as int, ivs.take(v as int)),
                    i as int,
                ),
                forall|k: int|
                    0 <= k < v as int ==> spec_input_ok(
                        ts0,
                        *task_scope,
                        i as int,
                        #[trigger] ivs[k],
                    ),
                forall|a: int|
                    0 <= a < edges@.len() ==> ((#[trigger] edges@[a]).0 as int) < n && (
                    edges@[a].1 as int) < n && edges@[a].0 != edges@[a].1,
                forall|k: int|
                    0 <= k < mine@.len() ==> {
                        let entry = #[trigger] mine@[k];
                        &&& (entry.0 as int) < n
                        &&& entry.0 != i as u32
                        &&& edges@.contains((entry.0, i as u32))
                    },
                resolved_inputs@.len() == i as int,
                forall|t: int, k: int|
                    0 <= t < i as int && 0 <= k < resolved_inputs@[t]@.len() ==> {
                        let entry = #[trigger] resolved_inputs@[t]@[k];
                        &&& (entry.0 as int) < n
                        &&& entry.0 != t as u32
                        &&& edges@.contains((entry.0, t as u32))
                    },
            decreases input_vars@.len() - v as int,
        {
            let ghost m = ivs[v as int];
            proof {
                assert(m == input_var_model(input_vars@[v as int]));
            }
            let resolved = match task_scope.resolve_scope(&input_vars[v].var, tasks[i].scope()) {
                Ok(rr) => rr,
                Err(e) => {
                    proof {
                        crate::scope::lemma_resolution_failure(
                            *task_scope,
                            m.0,
                            m.1,
                            ts0[i as int].scope@,
                        );
                        assert(some_input_unresolvable(ts0, *task_scope));
                        assert(!spec_input_ok(ts0, *task_scope, i as int, m));
                        assert(!all_inputs_resolved(ts0, *task_scope));
                    }
                    return Err(e.with_context("failed to resolve task input"));
                },
            };
            proof {
                crate::scope::lemma_resolution_model(
                    *task_scope,
                    m.0,
                    m.1,
                    ts0[i as int].scope@,
                    resolved,
                );
            }
            let ghost res = crate::scope::spec_resolve(
                *task_scope,
                m.0,
                m.1,
                ts0[i as int].scope@,
            )->0;
            let target = match find_task(tasks, &resolved.var, &resolved.scope) {
                Some(t) => t,
                None => {
                    proof {
                        assert(first_def(ts0, res.0, res.1) is None);
                        assert(!spec_input_ok(ts0, *task_scope, i as int, m));
                        assert(!all_inputs_resolved(ts0, *task_scope));
                    }
                    return Err(VegaFusionError::internal("no task defines a required input"));
                },
            };
            proof {
                assert(first_def(ts0, res.0, res.1) == Some(target as int));
            }
            if target != i {
                let slot: Option<u32> = match &resolved.output_var {
                    Some(ov) => {
                        let outs = tasks[target].output_vars();
                        proof {
                            assert(var_names(outs@) =~= task_output_signals(
                                ts0[target as int],
                            ));
                        }
                        match find_output_slot(&outs, ov) {
                            Some(k) => {
                                proof {
                                    assert(first_slot(
                                        task_output_signals(ts0[target as int]),
                                        res.2->0,
                                    ) == Some(k as int));
                                }
                                Some(k as u32)
                            },
                            None => {
                                proof {
                                    assert(first_slot(
                                        task_output_signals(ts0[target as int]),
                                        res.2->0,
                                    ) is None);
                                    assert(!spec_input_ok(ts0, *task_scope, i as int, m));
                                    assert(!all_inputs_resolved(ts0, *task_scope));
                                }
                                return Err(
                                    VegaFusionError::internal("failed to find output variable"),
                                );
                            },
                        }
                    },
                    None => None,
                };
                proof {
                    assert(spec_input_entry(ts0, *task_scope, i as int, m) == Some(
                        (target as u32, slot),
                    ));
                    assert(spec_input_ok(ts0, *task_scope, i as int, m));
                }
                let ghost epre = edges@;
                if edges.len() >= 0xffff_fffe {
                    proof {
                        if all_inputs_resolved(ts0, *task_scope) && spec_edges(
                            ts0,
                            *task_scope,
                        ).len() <= 0xffff_fffe {
                            assert(ivs.take(v as int + 1).drop_last() =~= ivs.take(v as int));
                            assert(ivs.take(v as int + 1).last() == ivs[v as int]);
                            assert(spec_refs_of(
                                ts0,
                                *task_scope,
                                i as int,
                                ivs.take(v as int + 1),
                            ).len() == mine@.len() + 1);
                            lemma_refs_take_len(ts0, *task_scope, i as int, ivs, v as int + 1);
                            assert(ivs.take(ivs.len() as int) =~= ivs);
                            lemma_edges_upto_len(ts0, *task_scope, i as int + 1, n as int);
                            assert(false);
                        }
                    }
                    return Err(VegaFusionError::internal("too many edges"));
                }
                edges.push((target as u32, i as u32));
                mine.push((target as u32, slot));
                proof {
                    assert(ivs.take(v as int + 1).drop_last() =~= ivs.take(v as int));
                    assert(ivs.take(v as int + 1).last() == ivs[v as int]);
                    assert(mine@ =~= spec_refs_of(
                        ts0,
                        *task_scope,
                        i as int,
                        ivs.take(v as int + 1),
                    ));
                    assert(edges@ =~= spec_edges_upto(ts0, *task_scope, i as int)
                        + refs_to_edges(
                        spec_refs_of(ts0, *task_scope, i as int, ivs.take(v as int + 1)),
                        i as int,
                    ));
                    assert(edges@[edges@.len() - 1] == (target as u32, i as u32));
                    assert forall|k: int| 0 <= k < mine@.len() implies {
                        let entry = #[trigger] mine@[k];
                        &&& (entry.0 as int) < n
                        &&& entry.0 != i as u32
                        &&& edges@.contains((entry.0, i as u32))
                    } by {
                        if k < mine@.len() - 1 {
                            let w = choose|w: int|
                                0 <= w < epre.len() && epre[w] == (mine@[k].0, i as u32);
                            assert(edges@[w] == (mine@[k].0, i as u32));
                        }
                    }
                    assert forall|t: int, k: int|
                        0 <= t < i as int && 0 <= k < resolved_inputs@[t]@.len() implies {
                        let entry = #[trigger] resolved_inputs@[t]@[k];
                        &&& (entry.0 as int) < n
                        &&& entry.0 != t as u32
                        &&& edges@.contains((entry.0, t as u32))
                    } by {
                        let w = choose|w: int|
                            0 <= w < epre.len() && epre[w] == (resolved_inputs@[t]@[k].0, t as u32);
                        assert(edges@[w] == (resolved_inputs@[t]@[k].0, t as u32));
                    }
                }
            } else {
                proof {
                    assert(spec_input_entry(ts0, *task_scope, i as int, m) is None);
                    assert(spec_input_ok(ts0, *task_scope, i as int, m));
                    assert(ivs.take(v as int + 1).drop_last() =~= ivs.take(v as int));
                    assert(ivs.take(v as int + 1).last() == ivs[v as int]);
                    assert(mine@ =~= spec_refs_of(
                        ts0,
                        *task_scope,
                        i as int,
                        ivs.take(v as int + 1),
                    ));
                    assert(refs_to_edges(
                        spec_refs_of(ts0, *task_scope, i as int, ivs.take(v as int + 1)),
                        i as int,
                    ) =~= refs_to_edges(
                        spec_refs_of(ts0, *task_scope, i as int, ivs.take(v as int)),
                        i as int,
                    ));
                }
            }
            v = v + 1;
        }
        proof {
            assert(ivs.take(ivs.len() as int) =~= ivs);
            assert(mine@ == spec_task_refs(ts0, *task_scope, i as int));
            assert(edges@ =~= spec_edges_upto(ts0, *task_scope, i as int + 1));
        }
        resolved_inputs.push(mine);
        i = i + 1;
    }
    proof {
        assert(edges@ == spec_edges(ts0, *task_scope));
        assert(all_inputs_resolved(ts0, *task_scope));
    }
    Ok((edges, resolved_inputs))
}

/// Topologically sorts `n` nodes under the edge list; a cycle is an
/// internal error.
fn sort_dependency_graph(n: usize, edges: &Vec<(u32, u32)>) -> (r: Result<Vec<u32>>)
    requires
        n < 0xffff_ffff,
        edges@.len() <= 0xffff_fffe,
        forall|a: int|
            0 <= a < edges@.len() ==> ((#[trigger] edges@[a]).0 as int) < n && (edges@[a].1
                as int) < n,
    ensures
        r is Ok <==> dep_graph_topo_order(n as nat, edges@) is Some,
        r matches Ok(order) ==> is_topo_order(order@, n as nat, edges@) && Some(order@)
            == dep_graph_topo_order(n as nat, edges@),
        r matches Err(e) ==> error_kind(e) == ErrorKind::Internal && has_cycle(edges@),
{
    let mut dg = dep_graph_new();
    let mut k: usize = 0;
    while k < n
        invariant
            n < 0xffff_ffff,
            k <= n,
            dep_graph_nodes(dg) == k as nat,
            dep_graph_edges(dg) =~= Seq::<(u32, u32)>::empty(),
        decreases n - k,
    {
        dep_graph_add_node(&mut dg);
        k = k + 1;
    }
    let mut k: usize = 0;
    while k < edges.len()
        invariant
            n < 0xffff_ffff,
            edges@.len() <= 0xffff_fffe,
            forall|a: int|
                0 <= a < edges@.len() ==> ((#[trigger] edges@[a]).0 as int) < n && (edges@[a].1
                    as int) < n,
            k <= edges@.len(),
            dep_graph_nodes(dg) == n as nat,
            dep_graph_edges(dg) =~= edges@.take(k as int),
        decreases edges@.len() - k as int,
    {
        let (a, b) = edges[k];
        proof {
            assert(edges@.take(k as int + 1) =~= edges@.take(k as int).push(edges@[k as int]));
        }
        dep_graph_add_edge(&mut dg, a, b);
        k = k + 1;
    }
    proof {
        assert(dep_graph_edges(dg) =~= edges@);
        assert(dep_graph_edges(dg) == edges@);
        assert(dep_graph_nodes(dg) == n as nat);
    }
    match dep_graph_toposort(&dg) {
        Some(order) => Ok(order),
        None => Err(VegaFusionError::internal("failed to sort dependency graph topologically")),
    }
}

/// Inverts a node permutation: the final position of each original index.
fn invert_order(order: &Vec<u32>, n: usize) -> (r: Vec<usize>)
    requires
        n < 0xffff_ffff,
        is_node_permutation(order@, n as nat),
    ensures
        r@.len() == n,
        forall|q: int| 0 <= q < n ==> r@[order@[q] as int] == q,
        forall|q: int| 0 <= q < n ==> (#[trigger] r@[q] as int) < n,
        forall|j: int| 0 <= j < n ==> order@[#[trigger] r@[j] as int] as int == j,
{
    let mut pos_of: Vec<usize> = Vec::new();
    let mut k: usize = 0;
    while k < n
        invariant
            k <= n,
            pos_of@.len() == k as int,
            forall|q: int| 0 <= q < k as int ==> (#[trigger] pos_of@[q] as int) < n,
        decreases n - k,
    {
        pos_of.push(0);
        k = k + 1;
    }
    let mut p: usize = 0;
    while p < n
        invariant
            is_node_permutation(order@, n as nat),
            order@.len() == n,
            pos_of@.len() == n,
            p <= n,
            forall|q: int| 0 <= q < p as int ==> pos_of@[order@[q] as int] == q,
            forall|q: int| 0 <= q < n ==> (#[trigger] pos_of@[q] as int) < n,
        decreases n - p,
    {
        pos_of.set(order[p] as usize, p);
        proof {
            assert forall|q: int| 0 <= q < p as int + 1 implies pos_of@[order@[q] as int]
                == q by {
                if q < p as int {
                    assert(order@[q] != order@[p as int]);
                }
            }
        }
        p = p + 1;
    }
    proof {
        lemma_permutation_surjective(order@, n as nat);
        assert forall|j: int| 0 <= j < n implies order@[#[trigger] pos_of@[j] as int] as int
            == j by {
            assert(order@.contains(j as u32));
            let q = choose|q: int| 0 <= q < order@.len() && order@[q] == j as u32;
            assert(pos_of@[order@[q] as int] == q);
        }
    }
    pos_of
}

/// Moves the tasks into topological position, building each node's
/// incoming edges and attaching the outgoing edges on their sources.
#[verifier::loop_isolation(false)]
#[verifier::rlimit(100)]
#[verifier::spinoff_prover]
fn assemble_nodes(
    tasks: Vec<Task>,
    order: &Vec<u32>,
    pos_of: &Vec<usize>,
    resolved_inputs: &Vec<Vec<(u32, Option<u32>)>>,
    edges: &Vec<(u32, u32)>,
) -> (r: Result<Vec<TaskNode>>)
    requires
        tasks@.len() < 0xffff_ffff,
        forall|t: int| 0 <= t < tasks@.len() ==> task_wf(#[trigger] tasks@[t]),
        is_topo_order(order@, tasks@.len() as nat, edges@),
        pos_of@.len() == tasks@.len(),
        forall|q: int| 0 <= q < tasks@.len() ==> pos_of@[order@[q] as int] == q,
        forall|q: int| 0 <= q < tasks@.len() ==> (#[trigger] pos_of@[q] as int) < tasks@.len(),
        forall|j: int|
            0 <= j < tasks@.len() ==> order@[#[trigger] pos_of@[j] as int] as int == j,
        resolved_refs_ok(resolved_inputs@, edges@, tasks@.len() as int),
    ensures
        r is Ok,
        r matches Ok(nodes) ==> {
            &&& nodes@.len() == tasks@.len()
            &&& tasks_ok(nodes@)
            &&& edges_ok(nodes@)
            &&& outgoing_ok(nodes@)
            &&& forall|q: int|
                0 <= q < nodes@.len() ==> (#[trigger] nodes@[q]).task->0
                    == tasks@[order@[q] as int]
            &&& forall|q: int|
                0 <= q < nodes@.len() ==> (#[trigger] nodes@[q]).incoming@.len()
                    == resolved_inputs@[order@[q] as int]@.len()
            &&& forall|q: int, k: int|
                0 <= q < nodes@.len() && 0 <= k < nodes@[q].incoming@.len() ==> {
                    let entry = resolved_inputs@[order@[q] as int]@[k];
                    &&& order@[(#[trigger] nodes@[q].incoming@[k]).source as int] == entry.0
                    &&& nodes@[q].incoming@[k].output == entry.1
                }
        },
        r matches Err(e) ==> error_kind(e) == ErrorKind::Internal,
{
    let ghost ts0 = tasks@;
    let n = tasks.len();
    let mut slots: Vec<Option<Task>> = Vec::new();
    let mut rest = tasks;
    while rest.len() > 0
        invariant
            slots@.len() + rest@.len() == n,
            forall|j: int|
                0 <= j < slots@.len() ==> ((#[trigger] slots@[j]) matches Some(t) && t == ts0[j]),
            forall|j: int| 0 <= j < rest@.len() ==> #[trigger] rest@[j] == ts0[slots@.len() + j],
        decreases rest@.len(),
    {
        let t = rest.remove(0);
        slots.push(Some(t));
    }
    let mut nodes: Vec<TaskNode> = Vec::new();
    let mut p: usize = 0;
    while p < n
        invariant
            n < 0xffff_ffff,
            ts0.len() == n,
            forall|t: int| 0 <= t < ts0.len() ==> task_wf(#[trigger] ts0[t]),
            is_topo_order(order@, n as nat, edges@),
            order@.len() == n,
            pos_of@.len() == n,
            forall|q: int| 0 <= q < n ==> pos_of@[order@[q] as int] == q,
            forall|q: int| 0 <= q < n ==> (#[trigger] pos_of@[q] as int) < n,
            forall|j: int| 0 <= j < n ==> order@[#[trigger] pos_of@[j] as int] as int == j,
            resolved_refs_ok(resolved_inputs@, edges@, n as int),
            p <= n,
            slots@.len() == n,
            forall|j: int|
                0 <= j < n ==> ((#[trigger] slots@[j]) is Some <==> !order@.take(
                    p as int,
                ).contains(j as u32)),
            forall|j: int|
                0 <= j < n && slots@[j] is Some ==> (#[trigger] slots@[j])->0 == ts0[j],
            nodes@.len() == p as int,
            forall|q: int|
                0 <= q < p as int ==> (#[trigger] nodes@[q]).task is Some && nodes@[q].task->0
                    == ts0[order@[q] as int],
            forall|q: int, k2: int|
                0 <= q < p as int && 0 <= k2 < nodes@[q].incoming@.len() ==> (
                #[trigger] nodes@[q].incoming@[k2]).source < q,
            forall|q: int| 0 <= q < p as int ==> (#[trigger] nodes@[q]).outgoing@.len() == 0,
            forall|q: int|
                0 <= q < p as int ==> (#[trigger] nodes@[q]).incoming@.len()
                    == resolved_inputs@[order@[q] as int]@.len(),
            forall|q: int, k2: int|
                0 <= q < p as int && 0 <= k2 < nodes@[q].incoming@.len() ==> {
                    let entry = resolved_inputs@[order@[q] as int]@[k2];
                    &&& order@[(#[trigger] nodes@[q].incoming@[k2]).source as int] == entry.0
                    &&& nodes@[q].incoming@[k2].output == entry.1
                },
        decreases n - p,
    {
        let o = order[p] as usize;
        proof {
            assert(order@.take(p as int + 1)[p as int] == order@[p as int]);
            assert(order@.take(p as int + 1).contains(order@[p as int]));
            if order@.take(p as int).contains(order@[p as int]) {
                let w = choose|w: int|
                    0 <= w < p as int && (#[trigger] order@.take(p as int)[w]) == order@[p as int];
                assert(order@[w] == order@[p as int]);
            }
            assert(slots@[o as int] is Some);
        }
        let mut taken: Option<Task> = None;
        slots.set_and_swap(o, &mut taken);
        let task = match taken {
            Some(t) => t,
            None => {
                proof {
                    assert(false);
                }
                return Err(VegaFusionError::internal("unreachable"));
            },
        };
        let refs = &resolved_inputs[o];
        let mut incoming: Vec<IncomingEdge> = Vec::new();
        let mut k2: usize = 0;
        while k2 < refs.len()
            invariant
                o < n,
                order@[p as int] as int == o as int,
                p < n,
                refs == resolved_inputs@[o as int],
                k2 <= refs@.len(),
                incoming@.len() == k2 as int,
                forall|w: int|
                    0 <= w < k2 as int ==> ((#[trigger] incoming@[w]).source as int) < p as int,
                forall|w: int|
                    0 <= w < k2 as int ==> order@[(#[trigger] incoming@[w]).source as int]
                        == refs@[w].0 && incoming@[w].output == refs@[w].1,
            decreases refs@.len() - k2 as int,
        {
            let (src_orig, slot) = refs[k2];
            let srcpos = pos_of[src_orig as usize];
            proof {
                let e = (src_orig, o as u32);
                assert(edges@.contains(e));
                assert(order@[pos_of@[src_orig as int] as int] == src_orig);
                assert(order@[p as int] == o as u32);
                if pos_of@[src_orig as int] as int >= p as int {
                    if pos_of@[src_orig as int] as int == p as int {
                        assert(src_orig == o as u32);
                        assert(false);
                    } else {
                        assert(false);
                    }
                }
            }
            incoming.push(IncomingEdge { source: srcpos as u32, output: slot });
            k2 = k2 + 1;
        }
        nodes.push(
            TaskNode {
                task: Some(task),
                incoming,
                outgoing: Vec::new(),
                id_fingerprint: 0,
                state_fingerprint: 0,
            },
        );
        proof {
            assert forall|j: int|
                0 <= j < n implies ((#[trigger] slots@[j]) is Some <==> !order@.take(
                p as int + 1,
            ).contains(j as u32)) by {
                assert(order@.take(p as int + 1) =~= order@.take(p as int).push(
                    order@[p as int],
                ));
                if j != o as int {
                    if order@.take(p as int).contains(j as u32) {
                        let w = choose|w: int|
                            0 <= w < p as int && (#[trigger] order@.take(p as int)[w]) == j as u32;
                        assert(order@.take(p as int + 1)[w] == j as u32);
                    }
                    if order@.take(p as int + 1).contains(j as u32) {
                        let w = choose|w: int|
                            0 <= w < p as int + 1 && (#[trigger] order@.take(p as int + 1)[w])
                                == j as u32;
                        if w < p as int {
                            assert(order@.take(p as int)[w] == j as u32);
                        }
                    }
                }
            }
        }
        p = p + 1;
    }
    // Attach outgoing edges: one per incoming edge, on its source.
    let mut q: usize = 0;
    let ghost nodes_mid = nodes@;
    while q < n
        invariant
            ts0.len() == n,
            nodes@.len() == n,
            q <= n,
            forall|w: int|
                0 <= w < n ==> (#[trigger] nodes@[w]).task == nodes_mid[w].task
                    && nodes@[w].incoming@ == nodes_mid[w].incoming@ && nodes@[w].id_fingerprint
                    == nodes_mid[w].id_fingerprint && nodes@[w].state_fingerprint
                    == nodes_mid[w].state_fingerprint,
            forall|w: int, k2: int|
                0 <= w < n && 0 <= k2 < nodes@[w].outgoing@.len() ==> ((
                #[trigger] nodes@[w].outgoing@[k2]).target as int) < n && (nodes@[w].outgoing@[
                    k2
                ].target as int) > w,
            forall|w: int, k3: int|
                0 <= w < n && 0 <= k3 < nodes@[w].incoming@.len() ==> (
                #[trigger] nodes@[w].incoming@[k3]).source < w,
        decreases n - q,
    {
        let m = nodes[q].incoming.len();
        let mut k2: usize = 0;
        while k2 < m
            invariant
                nodes@.len() == n,
                q < n,
                m == nodes@[q as int].incoming@.len(),
                forall|w: int|
                    0 <= w < n ==> (#[trigger] nodes@[w]).task == nodes_mid[w].task
                        && nodes@[w].incoming@ == nodes_mid[w].incoming@
                        && nodes@[w].id_fingerprint == nodes_mid[w].id_fingerprint
                        && nodes@[w].state_fingerprint == nodes_mid[w].state_fingerprint,
                forall|w: int, k3: int|
                    0 <= w < n && 0 <= k3 < nodes@[w].outgoing@.len() ==> ((
                    #[trigger] nodes@[w].outgoing@[k3]).target as int) < n && (nodes@[w].outgoing@[
                        k3
                    ].target as int) > w,
                forall|w: int, k3: int|
                    0 <= w < n && 0 <= k3 < nodes@[w].incoming@.len() ==> (
                    #[trigger] nodes@[w].incoming@[k3]).source < w,
                k2 <= m,
            decreases m - k2,
        {
            let src = nodes[q].incoming[k2].source as usize;
            proof {
                assert(nodes@[q as int].incoming@[k2 as int].source < q as int);
            }
            let mut tmp = blank_node();
            nodes.set_and_swap(src, &mut tmp);
            let mut grown = tmp;
            grown.outgoing.push(OutgoingEdge { target: q as u32, propagate: true });
            let mut put = grown;
            nodes.set_and_swap(src, &mut put);
            k2 = k2 + 1;
        }
        q = q + 1;
    }
    Ok(nodes)
}

/// What `TaskGraph::new` promises of a graph built from `tasks` against the
/// scope tree `ts`: the nodes are the tasks in the deterministic
/// topological order of the spec-level dependency edges, each node's
/// incoming edges are its task's resolved non-self inputs in input order
/// (sources mapped through that order, output slots as resolved), and the
/// graph is well formed with both fingerprint families computed. Two graphs
/// built from equal inputs therefore agree node for node; see
/// `lemma_build_deterministic`.
pub open spec fn built_from(g: TaskGraph, tasks: Seq<Task>, ts: TaskScope) -> bool {
    let order = dep_graph_topo_order(tasks.len(), spec_edges(tasks, ts))->0;
    &&& graph_wf(g)
    &&& g.nodes@.len() == tasks.len()
    &&& dep_graph_topo_order(tasks.len(), spec_edges(tasks, ts)) is Some
    &&& is_node_permutation(order, tasks.len())
    &&& is_topo_order(order, tasks.len(), spec_edges(tasks, ts))
    &&& forall|p: int|
        0 <= p < g.nodes@.len() ==> (#[trigger] g.nodes@[p]).task->0 == tasks[order[p] as int]
    &&& forall|p: int|
        0 <= p < g.nodes@.len() ==> (#[trigger] g.nodes@[p]).incoming@.len() == spec_task_refs(
            tasks,
            ts,
            order[p] as int,
        ).len()
    &&& forall|p: int, k: int|
        0 <= p < g.nodes@.len() && 0 <= k < g.nodes@[p].incoming@.len() ==> {
            let entry = spec_task_refs(tasks, ts, order[p] as int)[k];
            &&& order[(#[trigger] g.nodes@[p].incoming@[k]).source as int] == entry.0
            &&& g.nodes@[p].incoming@[k].output == entry.1
        }
}

impl TaskGraph {
    /// Builds the task graph: one node per task, dependency edges resolved
    /// through the scope tree (one incoming edge per non-self input, in
    /// input order, with the output slot where the input names an output
    /// signal), nodes relabeled into the deterministic topological order
    /// (cycles are an internal error, duplicate definition sites a
    /// specification error), and both fingerprint families computed.
    /// Success is owed whenever the definition sites are distinct, every
    /// input resolves, the edges fit, and the dependency graph is acyclic.
    #[verifier::loop_isolation(false)]
    #[verifier::rlimit(100)]
    #[verifier::spinoff_prover]
    pub fn new(tasks: Vec<Task>, task_scope: &TaskScope) -> (r: Result<TaskGraph>)
        requires
            forall|i: int| 0 <= i < tasks@.len() ==> task_wf(#[trigger] tasks@[i]),
        ensures
            r matches Ok(g) ==> built_from(g, tasks@, *task_scope),
            (tasks@.len() < 0xffff_ffff && no_duplicate_sites(tasks@) && all_inputs_resolved(
                tasks@,
                *task_scope,
            ) && spec_edges(tasks@, *task_scope).len() <= 0xffff_fffe && !has_cycle(
                spec_edges(tasks@, *task_scope),
            )) ==> r is Ok,
            r matches Err(e) ==> error_kind(e) == ErrorKind::Specification || error_kind(e)
                == ErrorKind::Internal,
            r matches Err(e) && error_kind(e) == ErrorKind::Specification ==> (
            !no_duplicate_sites(tasks@) || some_input_unresolvable(tasks@, *task_scope)),
    {
        let ghost ts0 = tasks@;
        let n = tasks.len();
        if n >= 0xffff_ffff {
            return Err(VegaFusionError::internal("too many tasks"));
        }
        match check_duplicate_tasks(&tasks) {
            Ok(_) => {},
            Err(e) => {
                return Err(e);
            },
        }
        let (edges, resolved_inputs) = match resolve_all_inputs(&tasks, task_scope) {
            Ok(pair) => pair,
            Err(e) => {
                return Err(e);
            },
        };
        let order = match sort_dependency_graph(n, &edges) {
            Ok(order) => order,
            Err(e) => {
                return Err(e);
            },
        };
        let pos_of = invert_order(&order, n);
        let nodes = match assemble_nodes(tasks, &order, &pos_of, &resolved_inputs, &edges) {
            Ok(nodes) => nodes,
            Err(e) => {
                proof {
                    assert(false);
                }
                return Err(e);
            },
        };
        let this = match finish_graph(nodes) {
            Ok(g) => g,
            Err(e) => {
                proof {
                    assert(false);
                }
                return Err(e);
            },
        };
        proof {
            assert(is_node_permutation(order@, ts0.len()));
            assert(Some(order@) == dep_graph_topo_order(ts0.len(), spec_edges(ts0, *task_scope)));
            assert(forall|p2: int|
                0 <= p2 < this.nodes@.len() ==> (#[trigger] this.nodes@[p2]).task->0
                    == ts0[order@[p2] as int]);
            assert(built_from(this, ts0, *task_scope));
        }
        Ok(this)
    }
}

/// Building the same tasks against the same scope tree twice yields graphs
/// that agree node for node: same tasks, same incoming edges, and
/// byte-equal identity and state fingerprints. The topological order and
/// the edges are functions of the inputs, and the fingerprints of those.
pub proof fn lemma_build_deterministic(
    tasks: Seq<Task>,
    ts: TaskScope,
    g1: TaskGraph,
    g2: TaskGraph,
)
    requires
        built_from(g1, tasks, ts),
        built_from(g2, tasks, ts),
    ensures
        g1.nodes@.len() == g2.nodes@.len(),
        forall|i: int|
            0 <= i < g1.nodes@.len() ==> (#[trigger] g1.nodes@[i]).task == g2.nodes@[i].task
                && g1.nodes@[i].incoming@ == g2.nodes@[i].incoming@
                && g1.nodes@[i].id_fingerprint == g2.nodes@[i].id_fingerprint
                && g1.nodes@[i].state_fingerprint == g2.nodes@[i].state_fingerprint,
{
    let order = dep_graph_topo_order(tasks.len(), spec_edges(tasks, ts))->0;
    assert forall|p: int| 0 <= p < g1.nodes@.len() implies (#[trigger] g1.nodes@[p]).task
        == g2.nodes@[p].task && g1.nodes@[p].incoming@ == g2.nodes@[p].incoming@ by {
        assert(g1.nodes@[p].task is Some && g2.nodes@[p].task is Some);
        assert(g1.nodes@[p].task->0 == g2.nodes@[p].task->0);
        assert forall|k: int| 0 <= k < g1.nodes@[p].incoming@.len() implies (
        #[trigger] g1.nodes@[p].incoming@[k]) == g2.nodes@[p].incoming@[k] by {
            let s1 = g1.nodes@[p].incoming@[k].source;
            let s2 = g2.nodes@[p].incoming@[k].source;
            assert((s1 as int) < p && (s2 as int) < p);
            assert(order[s1 as int] == order[s2 as int]);
            if s1 != s2 {
                assert(false);
            }
        }
        assert(g1.nodes@[p].incoming@ =~= g2.nodes@[p].incoming@);
    }
    assert(same_structure(g1.nodes@, g2.nodes@));
    assert forall|i: int| 0 <= i < g1.nodes@.len() implies (
    #[trigger] g1.nodes@[i]).id_fingerprint == g2.nodes@[i].id_fingerprint
        && g1.nodes@[i].state_fingerprint == g2.nodes@[i].state_fingerprint by {
        lemma_fingerprint_determinism(g1.nodes@, g2.nodes@, i);
        reveal(fps_ok);
    }
}

/// Computes both fingerprint families over freshly assembled nodes.
#[verifier::rlimit(100)]
#[verifier::spinoff_prover]
fn finish_graph(nodes: Vec<TaskNode>) -> (r: Result<TaskGraph>)
    requires
        tasks_ok(nodes@),
        edges_ok(nodes@),
        outgoing_ok(nodes@),
    ensures
        r is Ok,
        r matches Ok(g) ==> {
            &&& graph_wf(g)
            &&& g.nodes@.len() == nodes@.len()
            &&& forall|p: int|
                0 <= p < g.nodes@.len() ==> (#[trigger] g.nodes@[p]).task == nodes@[p].task
            &&& forall|p: int|
                0 <= p < g.nodes@.len() ==> (#[trigger] g.nodes@[p]).incoming@
                    == nodes@[p].incoming@
        },
        r matches Err(e) ==> error_kind(e) == ErrorKind::Internal || error_kind(e)
            == ErrorKind::Specification,
{
    let mut this = TaskGraph { nodes };
    this.init_identity_fingerprints();
    let ghost gmid = this.nodes@;
    match this.update_state_fingerprints() {
        Ok(_) => {},
        Err(e) => {
            proof {
                assert(false);
            }
            return Err(e);
        },
    }
    proof {
        assert(outgoing_ok(this.nodes@));
        assert forall|i: int| 0 <= i < this.nodes@.len() implies (
        #[trigger] this.nodes@[i]).id_fingerprint == id_fp_at(this.nodes@, i)
            && this.nodes@[i].state_fingerprint == state_fp_at(this.nodes@, i) by {
            lemma_fingerprint_determinism(this.nodes@, gmid, i);
        }
        assert(fps_ok(this.nodes@)) by {
            reveal(fps_ok);
        }
        assert(graph_wf(this));
    }
    Ok(this)
}

/// The node/value addresses emitted for a list of changed node indices:
/// each node's own value, then one address per output slot.
pub open spec fn nvi_expand(g: Seq<TaskNode>, changed: Seq<usize>) -> Seq<NodeValueIndex>
    decreases changed.len(),
{
    if changed.len() == 0 {
        Seq::empty()
    } else {
        nvi_head(g, changed[0]) + nvi_expand(g, changed.subrange(1, changed.len() as int))
    }
}

/// The addresses of one node's values: the primary value, then each output.
pub open spec fn nvi_head(g: Seq<TaskNode>, i: usize) -> Seq<NodeValueIndex> {
    seq![NodeValueIndex { node_index: i as u32, output_index: None }] + Seq::new(
        task_output_signals(g[i as int].task->0).len(),
        |k: int| NodeValueIndex { node_index: i as u32, output_index: Some(k as u32) },
    )
}

/// Snoc form of `nvi_expand`.
proof fn lemma_nvi_expand_snoc(g: Seq<TaskNode>, s: Seq<usize>, x: usize)
    ensures
        nvi_expand(g, s.push(x)) == nvi_expand(g, s) + nvi_head(g, x),
    decreases s.len(),
{
    let sx = s.push(x);
    let xb = nvi_head(g, x);
    if s.len() == 0 {
        assert(sx.subrange(1, sx.len() as int) =~= Seq::<usize>::empty());
        assert(nvi_expand(g, sx) == xb + nvi_expand(g, Seq::<usize>::empty()));
        assert(xb + Seq::<NodeValueIndex>::empty() =~= xb);
        assert(Seq::<NodeValueIndex>::empty() + xb =~= xb);
    } else {
        let tail = s.subrange(1, s.len() as int);
        let h = nvi_head(g, s[0]);
        assert(sx[0] == s[0]);
        assert(sx.subrange(1, sx.len() as int) =~= tail.push(x));
        lemma_nvi_expand_snoc(g, tail, x);
        assert(nvi_expand(g, sx) == h + (nvi_expand(g, tail) + xb));
        assert(h + (nvi_expand(g, tail) + xb) =~= (h + nvi_expand(g, tail)) + xb);
        assert(nvi_expand(g, s) == h + nvi_expand(g, tail));
    }
}

/// The key and address identities of a mapping, entry for entry.
pub open spec fn mapping_ids(r: Seq<(ScopedVariable, NodeValueIndex)>) -> Seq<
    ((crate::variable::VariableNamespace, Seq<char>, Seq<u32>), NodeValueIndex),
> {
    Seq::new(r.len(), |e: int| (scoped_var_id(r[e].0), r[e].1))
}

/// The mapping entries one node contributes: its primary value under the
/// task's own scoped variable, then one entry per output signal slot, at
/// the same scope.
pub open spec fn node_map_entries(g: Seq<TaskNode>, i: int) -> Seq<
    ((crate::variable::VariableNamespace, Seq<char>, Seq<u32>), NodeValueIndex),
> {
    seq![
        (
            (
                g[i].task->0.variable->0.namespace,
                g[i].task->0.variable->0.name@,
                g[i].task->0.scope@,
            ),
            NodeValueIndex { node_index: i as u32, output_index: None },
        ),
    ] + Seq::new(
        task_output_signals(g[i].task->0).len(),
        |k: int|
            (
                (
                    crate::variable::VariableNamespace::Signal,
                    task_output_signals(g[i].task->0)[k],
                    g[i].task->0.scope@,
                ),
                NodeValueIndex { node_index: i as u32, output_index: Some(k as u32) },
            ),
    )
}

/// The mapping entries of the first `n` nodes, in node order.
pub open spec fn map_upto(g: Seq<TaskNode>, n: int) -> Seq<
    ((crate::variable::VariableNamespace, Seq<char>, Seq<u32>), NodeValueIndex),
>
    decreases n,
{
    if n <= 0 {
        Seq::empty()
    } else {
        map_upto(g, n - 1) + node_map_entries(g, n - 1)
    }
}

/// The full mapping of a node list: every node's definition sites, each
/// bound to its node/value address.
pub open spec fn spec_mapping(g: Seq<TaskNode>) -> Seq<
    ((crate::variable::VariableNamespace, Seq<char>, Seq<u32>), NodeValueIndex),
> {
    map_upto(g, g.len() as int)
}

/// Every address in a mapping prefix names a node below `n`, and no two
/// entries share an address.
proof fn lemma_map_upto_distinct(g: Seq<TaskNode>, n: int)
    requires
        0 <= n <= g.len(),
        g.len() < 0xffff_ffff,
        forall|i: int|
            0 <= i < g.len() ==> task_output_signals((#[trigger] g[i]).task->0).len()
                < 0xffff_ffff,
    ensures
        forall|e: int|
            0 <= e < map_upto(g, n).len() ==> ((#[trigger] map_upto(g, n)[e]).1.node_index
                as int) < n,
        forall|e1: int, e2: int|
            0 <= e1 < e2 < map_upto(g, n).len() ==> map_upto(g, n)[e1].1 != map_upto(
                g,
                n,
            )[e2].1,
    decreases n,
{
    if n > 0 {
        lemma_map_upto_distinct(g, n - 1);
        let prev = map_upto(g, n - 1);
        let mine = node_map_entries(g, n - 1);
        let full = map_upto(g, n);
        assert forall|e: int| 0 <= e < full.len() implies ((#[trigger] full[e]).1.node_index
            as int) < n by {
            if e < prev.len() {
                assert(full[e] == prev[e]);
            } else {
                assert(full[e] == mine[e - prev.len()]);
            }
        }
        assert forall|e1: int, e2: int| 0 <= e1 < e2 < full.len() implies full[e1].1
            != full[e2].1 by {
            if e2 < prev.len() {
                assert(full[e1] == prev[e1] && full[e2] == prev[e2]);
            } else if e1 >= prev.len() {
                let k1 = e1 - prev.len();
                let k2 = e2 - prev.len();
                assert(full[e1] == mine[k1] && full[e2] == mine[k2]);
                if k1 == 0 {
                    assert(mine[k1].1.output_index is None);
                    assert(mine[k2].1.output_index == Some((k2 - 1) as u32));
                } else {
                    assert(mine[k1].1.output_index == Some((k1 - 1) as u32));
                    assert(mine[k2].1.output_index == Some((k2 - 1) as u32));
                }
            } else {
                assert(full[e1] == prev[e1]);
                assert(full[e2] == mine[e2 - prev.len()]);
                assert((prev[e1].1.node_index as int) < n - 1);
                assert(mine[e2 - prev.len()].1.node_index as int == n - 1);
            }
        }
    }
}

/// The mapping addresses each value at most once: distinct entries carry
/// distinct node/value addresses. With the mapping pinned entry for entry
/// by `spec_mapping`, the mapping is a bijection between definition sites
/// and addresses whenever the sites themselves are distinct.
pub proof fn lemma_mapping_addresses_distinct(g: Seq<TaskNode>, e1: int, e2: int)
    requires
        g.len() < 0xffff_ffff,
        forall|i: int|
            0 <= i < g.len() ==> task_output_signals((#[trigger] g[i]).task->0).len()
                < 0xffff_ffff,
        0 <= e1 < e2 < spec_mapping(g).len(),
    ensures
        spec_mapping(g)[e1].1 != spec_mapping(g)[e2].1,
{
    lemma_map_upto_distinct(g, g.len() as int);
}

/// Every definition site of every node appears in the mapping: the entries
/// of node `i` are all contained in the full mapping.
pub proof fn lemma_mapping_complete(g: Seq<TaskNode>, i: int)
    requires
        0 <= i < g.len(),
    ensures
        forall|k: int|
            0 <= k < node_map_entries(g, i).len() ==> spec_mapping(g).contains(
                #[trigger] node_map_entries(g, i)[k],
            ),
{
    lemma_map_upto_contains(g, g.len() as int, i);
}

/// The mapping prefix up to `n` contains every entry of each node below
/// `n`.
proof fn lemma_map_upto_contains(g: Seq<TaskNode>, n: int, i: int)
    requires
        0 <= i < n <= g.len(),
    ensures
        forall|k: int|
            0 <= k < node_map_entries(g, i).len() ==> map_upto(g, n).contains(
                #[trigger] node_map_entries(g, i)[k],
            ),
    decreases n,
{
    let mine = node_map_entries(g, i);
    if i == n - 1 {
        assert forall|k: int| 0 <= k < mine.len() implies map_upto(g, n).contains(
            #[trigger] mine[k],
        ) by {
            assert(map_upto(g, n)[map_upto(g, n - 1).len() + k] == mine[k]);
        }
    } else {
        lemma_map_upto_contains(g, n - 1, i);
        assert forall|k: int| 0 <= k < mine.len() implies map_upto(g, n).contains(
            #[trigger] mine[k],
        ) by {
            let e = choose|e: int|
                0 <= e < map_upto(g, n - 1).len() && #[trigger] map_upto(g, n - 1)[e]
                    == mine[k];
            assert(map_upto(g, n)[e] == mine[k]);
        }
    }
}

impl TaskGraph {
    /// The mapping from scoped variables to node/value addresses, pinned
    /// entry for entry: for each node in order, its primary value under the
    /// task's scoped variable, then one entry per output signal slot at the
    /// same scope. Every definition site appears (`lemma_mapping_complete`)
    /// and no two entries share an address
    /// (`lemma_mapping_addresses_distinct`).
    #[verifier::loop_isolation(false)]
    pub fn build_mapping(&self) -> (r: Vec<(ScopedVariable, NodeValueIndex)>)
        requires
            tasks_ok(self.nodes@),
            self.nodes@.len() < 0xffff_ffff,
            forall|i: int|
                0 <= i < self.nodes@.len() ==> task_output_signals(
                    (#[trigger] self.nodes@[i]).task->0,
                ).len() < 0xffff_ffff,
        ensures
            mapping_ids(r@) == spec_mapping(self.nodes@),
            r@.len() >= self.nodes@.len(),
            forall|e: int|
                0 <= e < r@.len() ==> {
                    let entry = #[trigger] r@[e];
                    &&& (entry.1.node_index as int) < self.nodes@.len()
                    &&& entry.0.1@ == self.nodes@[entry.1.node_index as int].task->0.scope@
                    &&& match entry.1.output_index {
                        None => crate::variable::var_id(entry.0.0) == crate::variable::var_id(
                            self.nodes@[entry.1.node_index as int].task->0.variable->0,
                        ),
                        Some(k) => (k as int) < task_output_signals(
                            self.nodes@[entry.1.node_index as int].task->0,
                        ).len() && entry.0.0.namespace == crate::variable::VariableNamespace::Signal
                            && entry.0.0.name@ == task_output_signals(
                            self.nodes@[entry.1.node_index as int].task->0,
                        )[k as int],
                    }
                },
    {
        let mut out: Vec<(ScopedVariable, NodeValueIndex)> = Vec::new();
        let n = self.nodes.len();
        let mut i: usize = 0;
        while i < n
            invariant
                tasks_ok(self.nodes@),
                n == self.nodes@.len(),
                n < 0xffff_ffff,
                i <= n,
                out@.len() >= i as int,
                forall|e: int|
                    0 <= e < out@.len() ==> {
                        let entry = #[trigger] out@[e];
                        &&& (entry.1.node_index as int) < self.nodes@.len()
                        &&& entry.0.1@ == self.nodes@[entry.1.node_index as int].task->0.scope@
                        &&& match entry.1.output_index {
                            None => crate::variable::var_id(entry.0.0)
                                == crate::variable::var_id(
                                self.nodes@[entry.1.node_index as int].task->0.variable->0,
                            ),
                            Some(k) => (k as int) < task_output_signals(
                                self.nodes@[entry.1.node_index as int].task->0,
                            ).len() && entry.0.0.namespace
                                == crate::variable::VariableNamespace::Signal && entry.0.0.name@
                                == task_output_signals(
                                self.nodes@[entry.1.node_index as int].task->0,
                            )[k as int],
                        }
                    },
                mapping_ids(out@) == map_upto(self.nodes@, i as int),
            decreases n - i,
        {
            let task = self.nodes[i].task();
            let var = task.variable().clone();
            let scope = crate::task::slice_to_vec(task.scope());
            let ghost opre0 = out@;
            out.push(((var, scope), NodeValueIndex { node_index: i as u32, output_index: None }));
            proof {
                let rhs = map_upto(self.nodes@, i as int) + node_map_entries(
                    self.nodes@,
                    i as int,
                ).take(1);
                assert(scoped_var_id(out@[out@.len() - 1].0) == node_map_entries(
                    self.nodes@,
                    i as int,
                )[0].0);
                assert(out@[out@.len() - 1].1 == node_map_entries(self.nodes@, i as int)[0].1);
                assert(mapping_ids(out@).len() == rhs.len());
                assert forall|w: int|
                    0 <= w < mapping_ids(out@).len() implies #[trigger] mapping_ids(out@)[w]
                    == rhs[w] by {
                    if w < opre0.len() {
                        assert(out@[w] == opre0[w]);
                        assert(mapping_ids(opre0)[w] == (scoped_var_id(opre0[w].0), opre0[w].1));
                    }
                }
                assert(mapping_ids(out@) =~= rhs);
            }
            let outs = task.output_vars();
            let mut k: usize = 0;
            while k < outs.len() && k < 0xffff_ffff
                invariant
                    tasks_ok(self.nodes@),
                    n == self.nodes@.len(),
                    n < 0xffff_ffff,
                    i < n,
                    outs@.len() == task_output_signals(self.nodes@[i as int].task->0).len(),
                    k <= 0xffff_ffff,
                    forall|w: int|
                        0 <= w < outs@.len() ==> (#[trigger] outs@[w]).namespace
                            == crate::variable::VariableNamespace::Signal && outs@[w].name@
                            == task_output_signals(self.nodes@[i as int].task->0)[w],
                    k <= outs@.len(),
                    out@.len() >= i as int + 1,
                    forall|e: int|
                        0 <= e < out@.len() ==> {
                            let entry = #[trigger] out@[e];
                            &&& (entry.1.node_index as int) < self.nodes@.len()
                            &&& entry.0.1@ == self.nodes@[entry.1.node_index as int].task->0.scope@
                            &&& match entry.1.output_index {
                                None => crate::variable::var_id(entry.0.0)
                                    == crate::variable::var_id(
                                    self.nodes@[entry.1.node_index as int].task->0.variable->0,
                                ),
                                Some(k2) => (k2 as int) < task_output_signals(
                                    self.nodes@[entry.1.node_index as int].task->0,
                                ).len() && entry.0.0.namespace
                                    == crate::variable::VariableNamespace::Signal
                                    && entry.0.0.name@ == task_output_signals(
                                    self.nodes@[entry.1.node_index as int].task->0,
                                )[k2 as int],
                            }
                        },
                    mapping_ids(out@) == map_upto(self.nodes@, i as int) + node_map_entries(
                        self.nodes@,
                        i as int,
                    ).take(1 + k as int),
                decreases outs@.len() - k as int,
            {
                let ovar = outs[k].clone();
                let oscope = crate::task::slice_to_vec(task.scope());
                let ghost opre1 = out@;
                out.push(
                    (
                        (ovar, oscope),
                        NodeValueIndex { node_index: i as u32, output_index: Some(k as u32) },
                    ),
                );
                proof {
                    let mine = node_map_entries(self.nodes@, i as int);
                    let rhs = map_upto(self.nodes@, i as int) + mine.take(1 + k as int + 1);
                    assert(mine.take(1 + k as int + 1) =~= mine.take(1 + k as int).push(
                        mine[1 + k as int],
                    ));
                    assert(scoped_var_id(out@[out@.len() - 1].0) == mine[1 + k as int].0);
                    assert(out@[out@.len() - 1].1 == mine[1 + k as int].1);
                    assert(mapping_ids(out@).len() == rhs.len());
                    assert forall|w: int|
                        0 <= w < mapping_ids(out@).len() implies #[trigger] mapping_ids(out@)[w]
                        == rhs[w] by {
                        if w < opre1.len() {
                            assert(out@[w] == opre1[w]);
                            assert(mapping_ids(opre1)[w] == (
                                scoped_var_id(opre1[w].0),
                                opre1[w].1,
                            ));
                        }
                    }
                    assert(mapping_ids(out@) =~= rhs);
                }
                k = k + 1;
            }
            proof {
                let mine = node_map_entries(self.nodes@, i as int);
                assert(k as int == outs@.len());
                assert(mine.take(1 + k as int) =~= mine);
                assert(mapping_ids(out@) =~= map_upto(self.nodes@, i as int + 1));
            }
            i = i + 1;
        }
        proof {
            assert(mapping_ids(out@) == spec_mapping(self.nodes@));
        }
        out
    }

    /// Replaces the value of a value node (the node's kind must stay on the
    /// same side of the scalar/table split, so its identity is unchanged),
    /// recomputes all state fingerprints, and returns, in ascending node
    /// order, the addresses of every node whose state fingerprint changed,
    /// output slots included. Fails exactly on an out-of-range index or a
    /// node that is not a value task.
    pub fn update_value(&mut self, node_index: usize, value: TaskValue) -> (r: Result<
        Vec<NodeValueIndex>,
    >)
        requires
            graph_wf(*old(self)),
            old(self).nodes@.len() < 0xffff_ffff,
            task_value_wf(value),
            (node_index as int) < old(self).nodes@.len() && old(self).nodes@[node_index as int].task->0.task_kind->0 is Value
                ==> (value is Scalar <==> old(self).nodes@[node_index as int].task->0.task_kind->0->Value_0 is Scalar),
        ensures
            r is Ok == ((node_index as int) < old(self).nodes@.len() && old(
                self,
            ).nodes@[node_index as int].task->0.task_kind->0 is Value),
            r matches Err(e) ==> error_kind(e) == ErrorKind::Internal && *final(self) == *old(
                self,
            ),
            r matches Ok(changed) ==> {
                &&& final(self).nodes@.len() == old(self).nodes@.len()
                &&& graph_wf(*final(self))
                &&& forall|i: int|
                    0 <= i < final(self).nodes@.len() && i != node_index as int ==> (
                    #[trigger] final(self).nodes@[i]).task == old(self).nodes@[i].task
                &&& final(self).nodes@[node_index as int].task->0.task_kind->0
                    == TaskKind::Value(value)
                &&& final(self).nodes@[node_index as int].task->0.variable == old(
                    self,
                ).nodes@[node_index as int].task->0.variable
                &&& final(self).nodes@[node_index as int].task->0.scope@ == old(
                    self,
                ).nodes@[node_index as int].task->0.scope@
                &&& forall|i: int|
                    0 <= i < final(self).nodes@.len() ==> (
                    #[trigger] final(self).nodes@[i]).id_fingerprint == old(
                        self,
                    ).nodes@[i].id_fingerprint && final(self).nodes@[i].incoming@ == old(
                        self,
                    ).nodes@[i].incoming@ && final(self).nodes@[i].outgoing@ == old(
                        self,
                    ).nodes@[i].outgoing@
                &&& changed@ == nvi_expand(
                    final(self).nodes@,
                    state_diff(final(self).nodes@, old(self).nodes@),
                )
                &&& forall|e: int|
                    0 <= e < changed@.len() ==> ((#[trigger] changed@[e]).node_index as int)
                        < final(self).nodes@.len()
            },
    {
        if node_index >= self.nodes.len() {
            return Err(VegaFusionError::internal("missing node"));
        }
        let is_value = matches!(
            self.nodes[node_index].task().task_kind(),
            TaskKind::Value(_)
        );
        if !is_value {
            return Err(VegaFusionError::internal("task is not a value"));
        }
        let changed = match self.update_value_inner(node_index, value) {
            Ok(c) => c,
            Err(e) => {
                proof {
                    assert(false);
                }
                return Err(e);
            },
        };
        let out = expand_changed_indices(&self.nodes, &changed);
        proof {
            lemma_nvi_expand_contains(self.nodes@, changed@);
        }
        Ok(out)
    }

    /// The body of a value update, after validation: replaces the value and
    /// recomputes the state fingerprints, returning the changed node
    /// indices in ascending order.
    #[verifier::rlimit(100)]
    #[verifier::spinoff_prover]
    fn update_value_inner(&mut self, node_index: usize, value: TaskValue) -> (r: Result<
        Vec<usize>,
    >)
        requires
            graph_wf(*old(self)),
            old(self).nodes@.len() < 0xffff_ffff,
            task_value_wf(value),
            (node_index as int) < old(self).nodes@.len(),
            old(self).nodes@[node_index as int].task->0.task_kind->0 is Value,
            value is Scalar <==> old(self).nodes@[node_index as int].task->0.task_kind->0->Value_0 is Scalar,
        ensures
            r is Ok,
            final(self).nodes@.len() == old(self).nodes@.len(),
            tasks_ok(final(self).nodes@),
            forall|i: int|
                0 <= i < final(self).nodes@.len() && i != node_index as int ==> (
                #[trigger] final(self).nodes@[i]).task == old(self).nodes@[i].task,
            final(self).nodes@[node_index as int].task->0.task_kind->0 == TaskKind::Value(value),
            final(self).nodes@[node_index as int].task->0.variable == old(
                self,
            ).nodes@[node_index as int].task->0.variable,
            final(self).nodes@[node_index as int].task->0.scope@ == old(
                self,
            ).nodes@[node_index as int].task->0.scope@,
            graph_wf(*final(self)),
            forall|i: int|
                0 <= i < final(self).nodes@.len() ==> (
                #[trigger] final(self).nodes@[i]).id_fingerprint == old(
                    self,
                ).nodes@[i].id_fingerprint && final(self).nodes@[i].incoming@ == old(
                    self,
                ).nodes@[i].incoming@ && final(self).nodes@[i].outgoing@ == old(
                    self,
                ).nodes@[i].outgoing@,
            r matches Ok(ch) ==> ch@ == state_diff(final(self).nodes@, old(self).nodes@),
            r matches Ok(ch) ==> forall|a: int|
                0 <= a < ch@.len() ==> ((#[trigger] ch@[a]) as int) < final(self).nodes@.len(),
    {
        let ghost g0 = self.nodes@;
        proof {
            reveal(fps_ok);
        }
        swap_in_value(&mut self.nodes, node_index, value);
        let ghost gmid = self.nodes@;
        let changed = match self.update_state_fingerprints() {
            Ok(c) => c,
            Err(e) => {
                proof {
                    assert(false);
                }
                return Err(e);
            },
        };
        proof {
            assert forall|i: int| 0 <= i < self.nodes@.len() implies (
            #[trigger] self.nodes@[i]).id_fingerprint == id_fp_at(self.nodes@, i) by {
                lemma_fingerprint_determinism(self.nodes@, gmid, i);
            }
            assert(fps_ok(self.nodes@)) by {
                reveal(fps_ok);
            }
            assert(outgoing_ok(self.nodes@));
            assert(graph_wf(*self));
            lemma_diff_indices_congruence(
                state_fps(self.nodes@),
                state_fps(self.nodes@),
                state_fps(gmid),
                state_fps(g0),
                self.nodes@.len() as int,
            );
            assert(changed@ == state_diff(self.nodes@, g0));
        }
        Ok(changed)
    }
}

/// Replaces the task value of a value node in place, preserving every
/// stored identity fingerprint: the identity bytes of a value node never
/// include the payload.
#[verifier::rlimit(100)]
#[verifier::spinoff_prover]
fn swap_in_value(nodes: &mut Vec<TaskNode>, node_index: usize, value: TaskValue)
    requires
        tasks_ok(old(nodes)@),
        edges_ok(old(nodes)@),
        outgoing_ok(old(nodes)@),
        forall|i: int|
            0 <= i < old(nodes)@.len() ==> (#[trigger] old(nodes)@[i]).id_fingerprint
                == id_fp_at(old(nodes)@, i),
        task_value_wf(value),
        (node_index as int) < old(nodes)@.len(),
        old(nodes)@[node_index as int].task->0.task_kind->0 is Value,
        value is Scalar <==> old(nodes)@[node_index as int].task->0.task_kind->0->Value_0 is Scalar,
    ensures
        final(nodes)@.len() == old(nodes)@.len(),
        tasks_ok(final(nodes)@),
        edges_ok(final(nodes)@),
        outgoing_ok(final(nodes)@),
        forall|i: int|
            0 <= i < final(nodes)@.len() && i != node_index as int ==> #[trigger] final(nodes)@[i]
                == old(nodes)@[i],
        final(nodes)@[node_index as int].task->0.task_kind->0 == TaskKind::Value(value),
        final(nodes)@[node_index as int].task->0.variable == old(nodes)@[node_index as int].task->0.variable,
        final(nodes)@[node_index as int].task->0.scope@ == old(nodes)@[node_index as int].task->0.scope@,
        final(nodes)@[node_index as int].incoming@ == old(nodes)@[node_index as int].incoming@,
        final(nodes)@[node_index as int].outgoing@ == old(nodes)@[node_index as int].outgoing@,
        final(nodes)@[node_index as int].id_fingerprint == old(nodes)@[node_index as int].id_fingerprint,
        final(nodes)@[node_index as int].state_fingerprint == old(nodes)@[node_index as int].state_fingerprint,
        forall|i: int|
            0 <= i < final(nodes)@.len() ==> (#[trigger] final(nodes)@[i]).id_fingerprint
                == id_fp_at(final(nodes)@, i),
{
    let ghost g0 = nodes@;
    let mut tmp = blank_node();
    nodes.set_and_swap(node_index, &mut tmp);
    let old_task = match tmp.task {
        Some(t) => t,
        None => {
            proof {
                assert(false);
            }
            unreached()
        },
    };
    let new_task = Task {
        variable: old_task.variable,
        scope: old_task.scope,
        task_kind: Some(TaskKind::Value(value)),
    };
    let fixed = TaskNode {
        task: Some(new_task),
        incoming: tmp.incoming,
        outgoing: tmp.outgoing,
        id_fingerprint: tmp.id_fingerprint,
        state_fingerprint: tmp.state_fingerprint,
    };
    let mut put = fixed;
    nodes.set_and_swap(node_index, &mut put);
    proof {
        assert(task_id_bytes(nodes@[node_index as int].task->0) == task_id_bytes(
            g0[node_index as int].task->0,
        )) by {
            reveal(task_id_bytes);
        }
        assert forall|i: int| 0 <= i < nodes@.len() implies (
        #[trigger] nodes@[i]).id_fingerprint == id_fp_at(nodes@, i) by {
            lemma_id_fp_congruence(nodes@, g0, i);
        }
        assert(tasks_ok(nodes@));
        assert(edges_ok(nodes@));
        assert(outgoing_ok(nodes@));
    }
}

/// Expands a list of changed node indices into node/value addresses.
#[verifier::loop_isolation(false)]
#[verifier::rlimit(100)]
#[verifier::spinoff_prover]
fn expand_changed_indices(nodes: &Vec<TaskNode>, changed: &Vec<usize>) -> (r: Vec<
    NodeValueIndex,
>)
    requires
        tasks_ok(nodes@),
        forall|a: int| 0 <= a < changed@.len() ==> (#[trigger] changed@[a]) < nodes@.len(),
    ensures
        r@ == nvi_expand(nodes@, changed@),
{
    let mut out: Vec<NodeValueIndex> = Vec::new();
    let mut c: usize = 0;
    while c < changed.len()
        invariant
            tasks_ok(nodes@),
            forall|a: int| 0 <= a < changed@.len() ==> (#[trigger] changed@[a]) < nodes@.len(),
            c <= changed@.len(),
            out@ =~= nvi_expand(nodes@, changed@.take(c as int)),
        decreases changed@.len() - c as int,
    {
        let i = changed[c];
        let ghost opre = out@;
        out.push(NodeValueIndex { node_index: i as u32, output_index: None });
        let outs = nodes[i].task().output_vars();
        let mut k: usize = 0;
        while k < outs.len()
            invariant
                tasks_ok(nodes@),
                c < changed@.len(),
                i == changed@[c as int],
                (i as int) < nodes@.len(),
                outs@.len() == task_output_signals(nodes@[i as int].task->0).len(),
                k <= outs@.len(),
                out@ =~= opre + seq![
                    NodeValueIndex { node_index: i as u32, output_index: None },
                ] + Seq::new(k as nat, |w: int| NodeValueIndex {
                    node_index: i as u32,
                    output_index: Some(w as u32),
                }),
            decreases outs@.len() - k as int,
        {
            out.push(NodeValueIndex { node_index: i as u32, output_index: Some(k as u32) });
            proof {
                assert(Seq::new(k as nat + 1, |w: int| NodeValueIndex {
                    node_index: i as u32,
                    output_index: Some(w as u32),
                }) =~= Seq::new(k as nat, |w: int| NodeValueIndex {
                    node_index: i as u32,
                    output_index: Some(w as u32),
                }).push(NodeValueIndex { node_index: i as u32, output_index: Some(k as u32) }));
            }
            k = k + 1;
        }
        proof {
            assert(changed@.take(c as int + 1) =~= changed@.take(c as int).push(
                changed@[c as int],
            ));
            lemma_nvi_expand_snoc(nodes@, changed@.take(c as int), changed@[c as int]);
            assert(Seq::new(outs@.len(), |w: int| NodeValueIndex {
                node_index: i as u32,
                output_index: Some(w as u32),
            }) =~= Seq::new(
                task_output_signals(nodes@[i as int].task->0).len(),
                |w: int| NodeValueIndex { node_index: i as u32, output_index: Some(w as u32) },
            ));
            assert(out@ =~= nvi_expand(nodes@, changed@.take(c as int + 1)));
        }
        c = c + 1;
    }
    proof {
        assert(changed@.take(changed@.len() as int) =~= changed@);
    }
    out
}

/// The primary addresses in an expansion are exactly the listed nodes, and
/// every address stays in range.
proof fn lemma_nvi_expand_contains(g: Seq<TaskNode>, ch: Seq<usize>)
    requires
        g.len() < 0xffff_ffff,
        forall|a: int| 0 <= a < ch.len() ==> (#[trigger] ch[a]) < g.len(),
    ensures
        forall|v: u32|
            #[trigger] nvi_expand(g, ch).contains(
                NodeValueIndex { node_index: v, output_index: None },
            ) <==> ch.contains(v as usize),
        forall|e: int|
            0 <= e < nvi_expand(g, ch).len() ==> ((#[trigger] nvi_expand(g, ch)[e]).node_index
                as int) < g.len(),
    decreases ch.len(),
{
    if ch.len() == 0 {
    } else {
        let tail = ch.subrange(1, ch.len() as int);
        assert(forall|a: int| 0 <= a < tail.len() ==> (#[trigger] tail[a]) < g.len());
        lemma_nvi_expand_contains(g, tail);
        let head = nvi_head(g, ch[0]);
        let full = nvi_expand(g, ch);
        assert(full == head + nvi_expand(g, tail));
        assert(head[0] == (NodeValueIndex { node_index: ch[0] as u32, output_index: None }));
        assert forall|e: int| 0 <= e < head.len() implies ((#[trigger] head[e]).node_index
            as int) < g.len() && (e != 0 ==> head[e].output_index is Some) by {}
        assert forall|v: u32| #[trigger] full.contains(
            NodeValueIndex { node_index: v, output_index: None },
        ) <==> ch.contains(v as usize) by {
            if full.contains(NodeValueIndex { node_index: v, output_index: None }) {
                let e = choose|e: int|
                    0 <= e < full.len() && full[e] == (NodeValueIndex {
                        node_index: v,
                        output_index: None,
                    });
                if e < head.len() {
                    assert(head[e] == full[e]);
                    if e != 0 {
                        assert(head[e].output_index is Some);
                        assert(false);
                    }
                    assert(v == ch[0] as u32);
                    assert(ch[0] < g.len());
                    assert(v as usize == ch[0]);
                    assert(ch.contains(v as usize));
                } else {
                    assert(nvi_expand(g, tail)[e - head.len()] == full[e]);
                    assert(nvi_expand(g, tail).contains(NodeValueIndex {
                        node_index: v,
                        output_index: None,
                    }));
                    assert(tail.contains(v as usize));
                    let w = choose|w: int| 0 <= w < tail.len() && tail[w] == v as usize;
                    assert(ch[w + 1] == v as usize);
                }
            }
            if ch.contains(v as usize) {
                let w = choose|w: int| 0 <= w < ch.len() && ch[w] == v as usize;
                if w == 0 {
                    assert(ch[0] < g.len());
                    assert(ch[0] as u32 == v) by {
                        assert(ch[0] == v as usize);
                    }
                    assert(full[0] == head[0]);
                    assert(full.contains(NodeValueIndex {
                        node_index: v,
                        output_index: None,
                    }));
                } else {
                    assert(tail[w - 1] == v as usize);
                    assert(tail.contains(v as usize));
                    assert(nvi_expand(g, tail).contains(NodeValueIndex {
                        node_index: v,
                        output_index: None,
                    }));
                    let e = choose|e: int|
                        0 <= e < nvi_expand(g, tail).len() && nvi_expand(g, tail)[e] == (
                        NodeValueIndex { node_index: v, output_index: None });
                    assert(full[head.len() + e] == nvi_expand(g, tail)[e]);
                    assert(full.contains(NodeValueIndex {
                        node_index: v,
                        output_index: None,
                    }));
                }
            }
        }
        assert forall|e: int| 0 <= e < full.len() implies ((#[trigger] full[e]).node_index
            as int) < g.len() by {
            if e < head.len() {
                assert(full[e] == head[e]);
            } else {
                assert(full[e] == nvi_expand(g, tail)[e - head.len()]);
            }
        }
    }
}

/// A diff over pointwise equal fingerprint sequences is empty.
proof fn lemma_diff_indices_empty(x: Seq<u64>, y: Seq<u64>, n: int)
    requires
        forall|j: int| 0 <= j < n ==> x[j] == y[j],
    ensures
        diff_indices(x, y, n) == Seq::<usize>::empty(),
    decreases n,
{
    if n > 0 {
        lemma_diff_indices_empty(x, y, n - 1);
    }
}

/// State fingerprints depend only on each node's edges and its byte forms:
/// two node lists that agree on those agree on every state fingerprint.
proof fn lemma_state_fp_congruence(a: Seq<TaskNode>, b: Seq<TaskNode>, i: int)
    requires
        a.len() == b.len(),
        0 <= i < a.len(),
        forall|j: int| 0 <= j < a.len() ==> (#[trigger] a[j]).incoming@ == b[j].incoming@,
        forall|j: int| 0 <= j < a.len() ==> (#[trigger] a[j]).task is Some && b[j].task is Some,
        forall|j: int|
            0 <= j < a.len() ==> ((#[trigger] a[j]).task->0.task_kind->0 is Value
                <==> b[j].task->0.task_kind->0 is Value),
        forall|j: int|
            0 <= j < a.len() ==> task_id_bytes((#[trigger] a[j]).task->0) == task_id_bytes(
                b[j].task->0,
            ),
        forall|j: int|
            0 <= j < a.len() ==> task_full_bytes((#[trigger] a[j]).task->0) == task_full_bytes(
                b[j].task->0,
            ),
    ensures
        state_fp_at(a, i) == state_fp_at(b, i),
    decreases i, 7int, 0int,
{
    if !(a[i].task->0.task_kind->0 is Value) {
        lemma_id_fp_congruence(a, b, i);
        lemma_parents_state_congruence(a, b, a[i].incoming@, i);
    }
}

/// Edge-list form of the state congruence.
proof fn lemma_parents_state_congruence(
    a: Seq<TaskNode>,
    b: Seq<TaskNode>,
    edges: Seq<IncomingEdge>,
    i: int,
)
    requires
        a.len() == b.len(),
        0 <= i < a.len(),
        forall|j: int| 0 <= j < a.len() ==> (#[trigger] a[j]).incoming@ == b[j].incoming@,
        forall|j: int| 0 <= j < a.len() ==> (#[trigger] a[j]).task is Some && b[j].task is Some,
        forall|j: int|
            0 <= j < a.len() ==> ((#[trigger] a[j]).task->0.task_kind->0 is Value
                <==> b[j].task->0.task_kind->0 is Value),
        forall|j: int|
            0 <= j < a.len() ==> task_id_bytes((#[trigger] a[j]).task->0) == task_id_bytes(
                b[j].task->0,
            ),
        forall|j: int|
            0 <= j < a.len() ==> task_full_bytes((#[trigger] a[j]).task->0) == task_full_bytes(
                b[j].task->0,
            ),
    ensures
        parents_state_bytes(a, edges, i) == parents_state_bytes(b, edges, i),
    decreases i, 6int, edges.len(),
{
    if edges.len() > 0 {
        if 0 <= edges[0].source < i {
            lemma_state_fp_congruence(a, b, edges[0].source as int);
        }
        lemma_parents_state_congruence(a, b, edges.subrange(1, edges.len() as int), i);
    }
}

/// Writing back what a node already holds changes nothing: when two
/// well-formed graphs agree at every node on the incoming edges and on the
/// task's variable, scope path and kind, every state fingerprint agrees,
/// so the change set between them is empty. In particular an update that
/// replaces a node's value with an equal one returns an empty change set.
pub proof fn lemma_update_same_value_empty(ga: TaskGraph, gb: TaskGraph)
    requires
        graph_wf(ga),
        graph_wf(gb),
        ga.nodes@.len() == gb.nodes@.len(),
        forall|j: int|
            0 <= j < ga.nodes@.len() ==> (#[trigger] ga.nodes@[j]).incoming@
                == gb.nodes@[j].incoming@,
        forall|j: int|
            0 <= j < ga.nodes@.len() ==> (#[trigger] ga.nodes@[j]).task->0.variable
                == gb.nodes@[j].task->0.variable,
        forall|j: int|
            0 <= j < ga.nodes@.len() ==> (#[trigger] ga.nodes@[j]).task->0.scope@
                == gb.nodes@[j].task->0.scope@,
        forall|j: int|
            0 <= j < ga.nodes@.len() ==> (#[trigger] ga.nodes@[j]).task->0.task_kind
                == gb.nodes@[j].task->0.task_kind,
    ensures
        state_diff(ga.nodes@, gb.nodes@) == Seq::<usize>::empty(),
        nvi_expand(ga.nodes@, state_diff(ga.nodes@, gb.nodes@)) == Seq::<
            NodeValueIndex,
        >::empty(),
{
    reveal(fps_ok);
    let a = ga.nodes@;
    let b = gb.nodes@;
    assert forall|j: int| 0 <= j < a.len() implies task_full_bytes((#[trigger] a[j]).task->0)
        == task_full_bytes(b[j].task->0) && task_id_bytes(a[j].task->0) == task_id_bytes(
        b[j].task->0,
    ) by {
        crate::task::lemma_task_bytes_model(a[j].task->0, b[j].task->0);
    }
    assert forall|j: int| 0 <= j < a.len() implies #[trigger] state_fps(a)[j] == state_fps(
        b,
    )[j] by {
        lemma_state_fp_congruence(a, b, j);
    }
    lemma_diff_indices_empty(state_fps(a), state_fps(b), a.len() as int);
}

/// Whether node `i` is `root` itself or depends on it transitively through
/// incoming edges.
pub open spec fn descends(g: Seq<TaskNode>, root: int, i: int) -> bool
    decreases i,
{
    ||| i == root
    ||| exists|k: int|
        0 <= k < g[i].incoming@.len() && ((#[trigger] g[i].incoming@[k]).source as int) < i
            && descends(g, root, g[i].incoming@[k].source as int)
}

/// A node outside `ni`'s dependents computes the same fingerprints on two
/// node lists that differ only in `ni`'s task.
proof fn lemma_fp_outside_descendants(a: Seq<TaskNode>, b: Seq<TaskNode>, ni: int, i: int)
    requires
        a.len() == b.len(),
        0 <= i < a.len(),
        forall|j: int| 0 <= j < a.len() ==> (#[trigger] a[j]).incoming@ == b[j].incoming@,
        forall|j: int|
            0 <= j < a.len() && j != ni ==> (#[trigger] a[j]).task == b[j].task,
        forall|j: int| 0 <= j < a.len() ==> (#[trigger] a[j]).task is Some && b[j].task is Some,
        !descends(a, ni, i),
    ensures
        id_fp_at(a, i) == id_fp_at(b, i),
        state_fp_at(a, i) == state_fp_at(b, i),
    decreases i, 9int, 0int,
{
    assert(i != ni);
    assert(forall|w: int|
        0 <= w < a[i].incoming@.len() ==> a[i].incoming@.contains(#[trigger] a[i].incoming@[w]));
    lemma_parents_fp_outside(a, b, ni, a[i].incoming@, i);
}

/// Edge-list form of the outside-the-dependents congruence: every edge in
/// the list is one of node `i`'s incoming edges.
proof fn lemma_parents_fp_outside(
    a: Seq<TaskNode>,
    b: Seq<TaskNode>,
    ni: int,
    edges: Seq<IncomingEdge>,
    i: int,
)
    requires
        a.len() == b.len(),
        0 <= i < a.len(),
        forall|j: int| 0 <= j < a.len() ==> (#[trigger] a[j]).incoming@ == b[j].incoming@,
        forall|j: int|
            0 <= j < a.len() && j != ni ==> (#[trigger] a[j]).task == b[j].task,
        forall|j: int| 0 <= j < a.len() ==> (#[trigger] a[j]).task is Some && b[j].task is Some,
        !descends(a, ni, i),
        forall|w: int|
            0 <= w < edges.len() ==> a[i].incoming@.contains(#[trigger] edges[w]),
    ensures
        parents_id_bytes(a, edges, i) == parents_id_bytes(b, edges, i),
        parents_state_bytes(a, edges, i) == parents_state_bytes(b, edges, i),
    decreases i, 8int, edges.len(),
{
    if edges.len() > 0 {
        if 0 <= edges[0].source < i {
            assert(!descends(a, ni, edges[0].source as int)) by {
                if descends(a, ni, edges[0].source as int) {
                    let k = choose|k: int|
                        0 <= k < a[i].incoming@.len() && #[trigger] a[i].incoming@[k]
                            == edges[0];
                    assert(((a[i].incoming@[k]).source as int) < i && descends(
                        a,
                        ni,
                        a[i].incoming@[k].source as int,
                    ));
                }
            }
            lemma_fp_outside_descendants(a, b, ni, edges[0].source as int);
        }
        let tail = edges.subrange(1, edges.len() as int);
        assert(forall|w: int|
            0 <= w < tail.len() ==> a[i].incoming@.contains(#[trigger] tail[w]));
        lemma_parents_fp_outside(a, b, ni, tail, i);
    }
}

/// A value update can only change the updated node and its transitive
/// dependents: on two well-formed graphs that differ only in one node's
/// task, every node whose stored state fingerprint differs depends on that
/// node.
pub proof fn lemma_changed_only_descendants(ga: TaskGraph, gb: TaskGraph, ni: int)
    requires
        graph_wf(ga),
        graph_wf(gb),
        ga.nodes@.len() == gb.nodes@.len(),
        0 <= ni < ga.nodes@.len(),
        forall|j: int|
            0 <= j < ga.nodes@.len() ==> (#[trigger] ga.nodes@[j]).incoming@
                == gb.nodes@[j].incoming@,
        forall|j: int|
            0 <= j < ga.nodes@.len() && j != ni ==> (#[trigger] ga.nodes@[j]).task
                == gb.nodes@[j].task,
    ensures
        forall|v: int|
            0 <= v < ga.nodes@.len() && (#[trigger] ga.nodes@[v]).state_fingerprint
                != gb.nodes@[v].state_fingerprint ==> descends(ga.nodes@, ni, v),
{
    reveal(fps_ok);
    assert forall|v: int|
        0 <= v < ga.nodes@.len() && (#[trigger] ga.nodes@[v]).state_fingerprint
            != gb.nodes@[v].state_fingerprint implies descends(ga.nodes@, ni, v) by {
        if !descends(ga.nodes@, ni, v) {
            lemma_fp_outside_descendants(ga.nodes@, gb.nodes@, ni, v);
        }
    }
}

/// Identity fingerprints depend only on each node's edges, its identity
/// bytes, and (for derived nodes) its full bytes: two node lists that agree
/// on those agree on every identity fingerprint.
proof fn lemma_id_fp_congruence(a: Seq<TaskNode>, b: Seq<TaskNode>, i: int)
    requires
        a.len() == b.len(),
        0 <= i < a.len(),
        forall|j: int| 0 <= j < a.len() ==> (#[trigger] a[j]).incoming@ == b[j].incoming@,
        forall|j: int| 0 <= j < a.len() ==> (#[trigger] a[j]).task is Some && b[j].task is Some,
        forall|j: int|
            0 <= j < a.len() ==> ((#[trigger] a[j]).task->0.task_kind->0 is Value
                <==> b[j].task->0.task_kind->0 is Value),
        forall|j: int|
            0 <= j < a.len() ==> task_id_bytes((#[trigger] a[j]).task->0) == task_id_bytes(
                b[j].task->0,
            ),
        forall|j: int|
            0 <= j < a.len() && !(a[j].task->0.task_kind->0 is Value) ==> task_full_bytes(
                (#[trigger] a[j]).task->0,
            ) == task_full_bytes(b[j].task->0),
    ensures
        id_fp_at(a, i) == id_fp_at(b, i),
    decreases i, 1int, 0int,
{
    if !(a[i].task->0.task_kind->0 is Value) {
        lemma_parents_id_congruence(a, b, a[i].incoming@, i);
    }
}

/// Edge-list form of the identity congruence.
proof fn lemma_parents_id_congruence(
    a: Seq<TaskNode>,
    b: Seq<TaskNode>,
    edges: Seq<IncomingEdge>,
    i: int,
)
    requires
        a.len() == b.len(),
        0 <= i < a.len(),
        forall|j: int| 0 <= j < a.len() ==> (#[trigger] a[j]).incoming@ == b[j].incoming@,
        forall|j: int| 0 <= j < a.len() ==> (#[trigger] a[j]).task is Some && b[j].task is Some,
        forall|j: int|
            0 <= j < a.len() ==> ((#[trigger] a[j]).task->0.task_kind->0 is Value
                <==> b[j].task->0.task_kind->0 is Value),
        forall|j: int|
            0 <= j < a.len() ==> task_id_bytes((#[trigger] a[j]).task->0) == task_id_bytes(
                b[j].task->0,
            ),
        forall|j: int|
            0 <= j < a.len() && !(a[j].task->0.task_kind->0 is Value) ==> task_full_bytes(
                (#[trigger] a[j]).task->0,
            ) == task_full_bytes(b[j].task->0),
    ensures
        parents_id_bytes(a, edges, i) == parents_id_bytes(b, edges, i),
    decreases i, 0int, edges.len(),
{
    if edges.len() > 0 {
        if 0 <= edges[0].source < i {
            lemma_id_fp_congruence(a, b, edges[0].source as int);
        }
        lemma_parents_id_congruence(a, b, edges.subrange(1, edges.len() as int), i);
    }
}

} // verus!
