//! The task graph: one node per task, an edge from each task to every task it waits for.
//!
//! The graph is held in a `petgraph` graph; its nodes are numbered as the tasks of the
//! graph are, and each edge carries an [`Edge`] telling a dependency from a mere ordering.
use crate::project::{Task, TaskView, tasks_view, spec_wait_matches};
use petgraph::algo::toposort;
use petgraph::graph::{Graph, NodeIndex};
use petgraph::visit::{depth_first_search, Control, DfsEvent, Reversed};
use petgraph::Directed;
use vstd::prelude::*;

verus! {

#[verifier::external_type_specification]
#[verifier::external_body]
#[verifier::reject_recursive_types(N)]
#[verifier::reject_recursive_types(E)]
#[verifier::reject_recursive_types(Ty)]
#[verifier::reject_recursive_types(Ix)]
pub struct ExGraph<N, E, Ty, Ix>(Graph<N, E, Ty, Ix>);

#[verifier::external_type_specification]
#[verifier::external_body]
pub struct ExDirection(petgraph::EdgeDirection);

#[verifier::external_type_specification]
#[verifier::external_body]
pub struct ExDirected(Directed);

/// Edge from a task to a task it waits for.
#[derive(Debug, Clone, Copy)]
pub struct Edge {
    /// Whether the dependent task re-runs when this dependency re-runs, in watch mode.
    pub cascade: bool,
    /// Whether this edge only orders the two tasks, without making one depend on the other.
    /// Such an edge comes from `wait_for`: it neither pulls the task into the run nor
    /// blocks the dependent task when it fails.
    pub ordering_only: bool,
}

impl Edge {
    /// The edge of a `depends_on` entry.
    pub fn depends_on(cascade: bool) -> (r: Edge)
        ensures
            r == (Edge { cascade, ordering_only: false }),
    {
        Edge { cascade, ordering_only: false }
    }

    /// The edge of a `wait_for` entry.
    pub fn wait_for() -> (r: Edge)
        ensures
            r == (Edge { cascade: false, ordering_only: true }),
    {
        Edge { cascade: false, ordering_only: true }
    }
}

/// The graph the tasks are held in, indexed by `usize`.
pub type PGraph = Graph<(), Edge, Directed, usize>;

/// An edge as its source node, its target node and its weight.
pub type EdgeEntry = (usize, usize, Edge);

/// The number of nodes of a graph.
pub uninterp spec fn graph_node_count(g: PGraph) -> nat;

/// The edges of a graph, in the order they were added.
pub uninterp spec fn graph_edges(g: PGraph) -> Seq<EdgeEntry>;

/// Whether `d` is `EdgeDirection::Incoming`.
pub uninterp spec fn is_incoming(d: petgraph::EdgeDirection) -> bool;

/// Whether some edge runs from `a` to `b`.
pub open spec fn has_edge(edges: Seq<EdgeEntry>, a: int, b: int) -> bool {
    exists|k: int| 0 <= k < edges.len() && edges[k].0 == a && edges[k].1 == b
}

/// Whether `k` is the most recently added edge from `a` to `b`.
pub open spec fn is_last_edge(edges: Seq<EdgeEntry>, a: int, b: int, k: int) -> bool {
    &&& 0 <= k < edges.len()
    &&& edges[k].0 == a
    &&& edges[k].1 == b
    &&& forall|j: int| k < j < edges.len() ==> !(edges[j].0 == a && edges[j].1 == b)
}

/// The targets of the edges from `a`, in the order the edges were added.
pub open spec fn out_targets(edges: Seq<EdgeEntry>, a: int) -> Seq<usize>
    decreases edges.len(),
{
    if edges.len() == 0 {
        Seq::empty()
    } else {
        let r = out_targets(edges.drop_last(), a);
        if edges.last().0 == a {
            r.push(edges.last().1)
        } else {
            r
        }
    }
}

/// Whether every two consecutive nodes of `p` are joined by an edge.
pub open spec fn is_path(edges: Seq<EdgeEntry>, p: Seq<usize>) -> bool {
    forall|i: int| 0 <= i < p.len() - 1 ==> #[trigger] has_edge(edges, p[i] as int, p[i + 1] as int)
}

/// Whether a path of at least one edge leads from `c` back to `c`.
pub open spec fn on_cycle(edges: Seq<EdgeEntry>, c: int) -> bool {
    exists|p: Seq<usize>| p.len() >= 2 && p[0] == c && p[p.len() - 1] == c && #[trigger] is_path(edges, p)
}

/// Whether `order` lists each of the `n` nodes once, every edge running from an earlier node to
/// a later one.
pub open spec fn is_topological(order: Seq<usize>, n: nat, edges: Seq<EdgeEntry>) -> bool {
    &&& order.len() == n
    &&& order.no_duplicates()
    &&& forall|k: int| 0 <= k < n ==> order[k] < n
    &&& forall|x: usize| x < n ==> order.contains(x)
    &&& forall|e: int, p: int, q: int|
        #![trigger edges[e], order[p], order[q]]
        0 <= e < edges.len() && 0 <= p < n && 0 <= q < n && order[p] == edges[e].0 && order[q]
            == edges[e].1 ==> p < q
}

/// Calls `Graph::new`, which makes a graph without nodes or edges.
#[verifier::external_body]
fn graph_new() -> (g: PGraph)
    ensures
        graph_node_count(g) == 0,
        graph_edges(g) == Seq::<EdgeEntry>::empty(),
{
    Graph::default()
}

/// Calls `Graph::add_node`, which appends a node; the new node is numbered after the others.
#[verifier::external_body]
fn graph_add_node(g: &mut PGraph) -> (idx: usize)
    ensures
        idx == graph_node_count(*old(g)),
        graph_node_count(*final(g)) == graph_node_count(*old(g)) + 1,
        graph_edges(*final(g)) == graph_edges(*old(g)),
{
    g.add_node(()).index()
}

/// Calls `Graph::add_edge`, which appends an edge; it panics on a node that does not exist.
#[verifier::external_body]
fn graph_add_edge(g: &mut PGraph, a: usize, b: usize, weight: Edge)
    requires
        a < graph_node_count(*old(g)),
        b < graph_node_count(*old(g)),
    ensures
        graph_node_count(*final(g)) == graph_node_count(*old(g)),
        graph_edges(*final(g)) == graph_edges(*old(g)).push((a, b, weight)),
{
    g.add_edge(NodeIndex::new(a), NodeIndex::new(b), weight);
}

/// Calls `Graph::find_edge`, which walks the edges from `a` from the most recently added one and
/// returns the first that reaches `b`.
#[verifier::external_body]
fn graph_find_edge(g: &PGraph, a: usize, b: usize) -> (r: Option<usize>)
    ensures
        match r {
            Some(k) => is_last_edge(graph_edges(*g), a as int, b as int, k as int),
            None => !has_edge(graph_edges(*g), a as int, b as int),
        },
{
    g.find_edge(NodeIndex::new(a), NodeIndex::new(b)).map(|e| e.index())
}

/// Calls `Graph::edge_weight`, which returns the weight of an edge if the edge exists.
#[verifier::external_body]
fn graph_edge_weight(g: &PGraph, k: usize) -> (r: Option<Edge>)
    ensures
        k < graph_edges(*g).len() ==> r == Some(graph_edges(*g)[k as int].2),
        k >= graph_edges(*g).len() ==> r is None,
{
    g.edge_weight(petgraph::graph::EdgeIndex::new(k)).copied()
}

/// Calls `Graph::neighbors_directed` with `Outgoing`, which lists the targets of the edges from
/// `a`, the most recently added edge first.
#[verifier::external_body]
fn graph_neighbors(g: &PGraph, a: usize) -> (r: Vec<usize>)
    ensures
        r@ == out_targets(graph_edges(*g), a as int).reverse(),
{
    g.neighbors_directed(NodeIndex::new(a), petgraph::EdgeDirection::Outgoing).map(|n| n.index()).collect()
}

/// Calls `petgraph::algo::toposort`, which lists the nodes so that every edge runs from an
/// earlier node to a later one, or else returns a node that lies on a cycle.
#[verifier::external_body]
fn graph_toposort(g: &PGraph) -> (r: Result<Vec<usize>, usize>)
    ensures
        match r {
            Ok(order) => is_topological(order@, graph_node_count(*g), graph_edges(*g)),
            Err(c) => c < graph_node_count(*g) && on_cycle(graph_edges(*g), c as int),
        },
{
    match toposort(g, None) {
        Ok(order) => Ok(order.into_iter().map(|n| n.index()).collect()),
        Err(cycle) => Err(cycle.node_id().index()),
    }
}

/// Tells the variants of `EdgeDirection` apart.
#[verifier::external_body]
fn direction_is_incoming(d: petgraph::EdgeDirection) -> (r: bool)
    ensures
        r == is_incoming(d),
{
    match d {
        petgraph::EdgeDirection::Incoming => true,
        petgraph::EdgeDirection::Outgoing => false,
    }
}

/// The result of a node, as its dependents see it.
#[derive(Debug, Clone, Copy, PartialEq, Eq, Structural)]
pub enum NodeResult {
    /// Not finished yet, or restarting
    Pending,
    Success,
    Failure,
}

impl NodeResult {
    /// Whether the node succeeded.
    pub fn success(&self) -> (r: bool)
        ensures
            r == (*self is Success),
    {
        match self {
            NodeResult::Success => true,
            _ => false,
        }
    }

    /// Whether the node has a result.
    pub fn present(&self) -> (r: bool)
        ensures
            r == !(*self is Pending),
    {
        match self {
            NodeResult::Pending => false,
            _ => true,
        }
    }
}

/// A command to the visitors of the nodes.
#[derive(Debug, Clone)]
pub enum VisitorCommand {
    /// Stop every visitor
    Stop,
    /// Run the named task again, without waiting for its dependencies when forced
    Restart { task: String, force: bool },
}

/// The result of a node, from the runner to its visitor.
#[derive(Debug, Clone, Copy)]
pub struct CallbackMessage(pub NodeResult);

/// Why a task graph cannot be made.
#[derive(Debug)]
pub enum GraphError {
    /// The dependencies run in a circle through the named task.
    Cycle { task: String },
}

/// Whether `i` is the last of the tasks named `name`, which is the node a name stands for.
pub open spec fn is_last_named(sel: Seq<TaskView>, name: Seq<char>, i: int) -> bool {
    &&& 0 <= i < sel.len()
    &&& sel[i].name == name
    &&& forall|j: int| i < j < sel.len() ==> sel[j].name != name
}

/// Whether `i` is the first of the tasks named `name`.
pub open spec fn is_first_named(sel: Seq<TaskView>, name: Seq<char>, i: int) -> bool {
    &&& 0 <= i < sel.len()
    &&& sel[i].name == name
    &&& forall|j: int| 0 <= j < i ==> sel[j].name != name
}

/// Whether some task of `sel` is named `name`.
pub open spec fn has_named(sel: Seq<TaskView>, name: Seq<char>) -> bool {
    exists|i: int| 0 <= i < sel.len() && sel[i].name == name
}

/// The tasks that become nodes: all of them, or under `force` only the targets.
pub open spec fn selection(all: Seq<TaskView>, targets: Option<Seq<Seq<char>>>, force: bool) -> Seq<
    TaskView,
> {
    if force {
        all.filter(|t: TaskView| targets is Some && targets->0.contains(t.name))
    } else {
        all
    }
}

/// Whether the `d`-th dependency of the `t`-th task joins the node `a` to the node `b`.
pub open spec fn dep_joins(all: Seq<TaskView>, sel: Seq<TaskView>, t: int, d: int, a: int, b: int) -> bool {
    &&& 0 <= t < all.len()
    &&& 0 <= d < all[t].depends_on.len()
    &&& is_last_named(sel, all[t].name, a)
    &&& is_last_named(sel, all[t].depends_on[d].task, b)
}

/// Whether the `w`-th `wait_for` entry of the `t`-th task orders the node `a` after the node `b`,
/// the `u`-th task being the one it names.
pub open spec fn wait_joins(
    all: Seq<TaskView>,
    sel: Seq<TaskView>,
    t: int,
    w: int,
    u: int,
    a: int,
    b: int,
) -> bool {
    &&& 0 <= t < all.len()
    &&& 0 <= w < all[t].wait_for.len()
    &&& 0 <= u < all.len()
    &&& is_last_named(sel, all[t].name, a)
    &&& is_last_named(sel, all[u].name, b)
    &&& spec_wait_matches(all[t].wait_for[w], all[u])
    &&& a != b
}

/// Whether a dependency joins `a` to `b`.
pub open spec fn dep_pair(all: Seq<TaskView>, sel: Seq<TaskView>, a: int, b: int) -> bool {
    exists|t: int, d: int| #[trigger] dep_joins(all, sel, t, d, a, b)
}

/// Whether a `wait_for` entry orders `a` after `b`.
pub open spec fn wait_pair(all: Seq<TaskView>, sel: Seq<TaskView>, a: int, b: int) -> bool {
    exists|t: int, w: int, u: int| #[trigger] wait_joins(all, sel, t, w, u, a, b)
}

/// Whether the task graph of the tasks `all`, made of the nodes `sel`, has an edge from `a` to `b`.
pub open spec fn spec_pair(all: Seq<TaskView>, sel: Seq<TaskView>, a: int, b: int) -> bool {
    dep_pair(all, sel, a, b) || wait_pair(all, sel, a, b)
}

/// Whether every two consecutive nodes of `p` are joined in the task graph.
pub open spec fn is_spec_path(all: Seq<TaskView>, sel: Seq<TaskView>, p: Seq<usize>) -> bool {
    forall|i: int| 0 <= i < p.len() - 1 ==> #[trigger] spec_pair(all, sel, p[i] as int, p[i + 1] as int)
}

/// Whether the task graph leads from the node `c` back to it.
pub open spec fn spec_on_cycle(all: Seq<TaskView>, sel: Seq<TaskView>, c: int) -> bool {
    exists|p: Seq<usize>|
        p.len() >= 2 && p[0] == c && p[p.len() - 1] == c && #[trigger] is_spec_path(all, sel, p)
}

/// Whether every edge joins two of the `n` nodes.
pub open spec fn edges_in_range(edges: Seq<EdgeEntry>, n: nat) -> bool {
    forall|k: int| 0 <= k < edges.len() ==> edges[k].0 < n && edges[k].1 < n
}

/// Whether an edge comes from the task graph: a dependency edge from a dependency between its
/// nodes, with the dependency's `cascade`, or an ordering edge from a `wait_for` entry.
pub open spec fn edge_sound(all: Seq<TaskView>, sel: Seq<TaskView>, e: EdgeEntry) -> bool {
    if !e.2.ordering_only {
        exists|t: int, d: int|
            #[trigger] dep_joins(all, sel, t, d, e.0 as int, e.1 as int) && e.2.cascade
                == all[t].depends_on[d].cascade
    } else {
        !e.2.cascade && wait_pair(all, sel, e.0 as int, e.1 as int)
    }
}

/// Whether every edge comes from the task graph.
pub open spec fn edges_sound(all: Seq<TaskView>, sel: Seq<TaskView>, edges: Seq<EdgeEntry>) -> bool {
    forall|k: int| 0 <= k < edges.len() ==> #[trigger] edge_sound(all, sel, edges[k])
}

/// The edge of the `d`-th dependency of the `t`-th task, from `a` to `b`.
pub open spec fn dep_edge(all: Seq<TaskView>, t: int, d: int, a: int, b: int) -> EdgeEntry {
    (a as usize, b as usize, Edge { cascade: all[t].depends_on[d].cascade, ordering_only: false })
}

/// Whether the dependencies before the `d`-th dependency of the `t`-th task have their edges.
pub open spec fn deps_done(
    all: Seq<TaskView>,
    sel: Seq<TaskView>,
    edges: Seq<EdgeEntry>,
    t: int,
    d: int,
) -> bool {
    forall|t2: int, d2: int, a: int, b: int|
        #[trigger] dep_joins(all, sel, t2, d2, a, b) && (t2 < t || (t2 == t && d2 < d)) ==> edges.contains(
            dep_edge(all, t2, d2, a, b),
        )
}

/// Whether the `wait_for` entries before the `u`-th task named by the `w`-th entry of the `t`-th
/// task have an edge joining their nodes.
pub open spec fn waits_done(
    all: Seq<TaskView>,
    sel: Seq<TaskView>,
    edges: Seq<EdgeEntry>,
    t: int,
    w: int,
    u: int,
) -> bool {
    forall|t2: int, w2: int, u2: int, a: int, b: int|
        #[trigger] wait_joins(all, sel, t2, w2, u2, a, b) && (t2 < t || (t2 == t && (w2 < w || (w2 == w
            && u2 < u)))) ==> has_edge(edges, a, b)
}

/// Whether an ordering edge is the only edge between its nodes.
pub open spec fn waits_unique(edges: Seq<EdgeEntry>) -> bool {
    forall|k1: int, k2: int|
        #![trigger edges[k1], edges[k2]]
        0 <= k1 < edges.len() && 0 <= k2 < edges.len() && k1 != k2 && edges[k1].0 == edges[k2].0
            && edges[k1].1 == edges[k2].1 ==> !edges[k1].2.ordering_only && !edges[k2].2.ordering_only
}

/// Whether `edges` are the edges of the task graph of the tasks `all` made of the nodes `sel`:
/// an edge for each dependency between two nodes, with its `cascade`, and an ordering edge for
/// each `wait_for` entry naming another node that no other edge already joins to it.
pub open spec fn edges_built(all: Seq<TaskView>, sel: Seq<TaskView>, edges: Seq<EdgeEntry>) -> bool {
    &&& edges_in_range(edges, sel.len())
    &&& edges_sound(all, sel, edges)
    &&& deps_done(all, sel, edges, all.len() as int, 0)
    &&& waits_done(all, sel, edges, all.len() as int, 0, 0)
    &&& waits_unique(edges)
}

/// Appending an edge keeps every edge before it, and every pair it joined.
proof fn lemma_push_keeps(
    all: Seq<TaskView>,
    sel: Seq<TaskView>,
    old_edges: Seq<EdgeEntry>,
    e: EdgeEntry,
)
    ensures
        forall|k: int| 0 <= k < old_edges.len() ==> old_edges.push(e)[k] == old_edges[k],
        forall|x: EdgeEntry| old_edges.contains(x) ==> old_edges.push(e).contains(x),
        forall|a: int, b: int| has_edge(old_edges, a, b) ==> has_edge(old_edges.push(e), a, b),
        old_edges.push(e).contains(e),
        has_edge(old_edges.push(e), e.0 as int, e.1 as int),
{
    let n = old_edges.push(e);
    assert(n[old_edges.len() as int] == e);
    assert forall|x: EdgeEntry| old_edges.contains(x) implies n.contains(x) by {
        let k = choose|k: int| 0 <= k < old_edges.len() && old_edges[k] == x;
        assert(n[k] == x);
    }
    assert forall|a: int, b: int| has_edge(old_edges, a, b) implies has_edge(n, a, b) by {
        let k = choose|k: int| 0 <= k < old_edges.len() && old_edges[k].0 == a && old_edges[k].1 == b;
        assert(n[k] == old_edges[k]);
    }
}

/// The names of a list of strings.
pub open spec fn names_view(names: Seq<String>) -> Seq<Seq<char>> {
    names.map_values(|s: String| s@)
}

/// The names of the tasks `all`.
pub open spec fn task_names(all: Seq<TaskView>) -> Seq<Seq<char>> {
    all.map_values(|t: TaskView| t.name)
}

/// What the task graph holds.
pub struct TaskGraphView {
    /// The task of each node
    pub tasks: Seq<TaskView>,
    /// The edges
    pub edges: Seq<EdgeEntry>,
    /// The tasks whose completion is awaited
    pub targets: Seq<Seq<char>>,
}

/// The dependency graph of the tasks of a run.
pub struct TaskGraph {
    graph: PGraph,
    tasks: Vec<Task>,
    targets: Vec<String>,
}

impl View for TaskGraph {
    type V = TaskGraphView;

    closed spec fn view(&self) -> TaskGraphView {
        TaskGraphView {
            tasks: tasks_view(self.tasks@),
            edges: graph_edges(self.graph),
            targets: names_view(self.targets@),
        }
    }
}

/// Whether a graph has one node per task, edges between its nodes only, and no cycle.
pub open spec fn graph_wf(v: TaskGraphView) -> bool {
    &&& forall|k: int| 0 <= k < v.edges.len() ==> v.edges[k].0 < v.tasks.len() && v.edges[k].1 < v.tasks.len()
    &&& forall|c: int| !on_cycle(v.edges, c)
}

/// What `TaskGraph::new` gives for the tasks `all`: a graph whose nodes are the selected tasks
/// and whose edges are those of the task graph, and which is refused if and only if the task
/// graph has a cycle, naming a task on the cycle.
pub open spec fn new_result(
    all: Seq<TaskView>,
    targets: Option<Seq<Seq<char>>>,
    force: bool,
    r: Result<TaskGraph, GraphError>,
) -> bool {
    let sel = selection(all, targets, force);
    &&& (r is Ok <==> forall|c: int| !spec_on_cycle(all, sel, c))
    &&& match r {
        Ok(g) => {
            &&& g.wf()
            &&& g@.tasks == sel
            &&& edges_built(all, sel, g@.edges)
            &&& g@.targets == match targets {
                Some(t) => t,
                None => task_names(all),
            }
        },
        Err(GraphError::Cycle { task }) => exists|c: int|
            0 <= c < sel.len() && spec_on_cycle(all, sel, c) && #[trigger] sel[c].name == task@,
    }
}

/// Where `x` stands in `order`.
spec fn topo_pos(order: Seq<usize>, x: usize) -> int {
    choose|q: int| 0 <= q < order.len() && order[q] == x
}

/// A topological order lists every node.
proof fn lemma_topo_pos(order: Seq<usize>, n: nat, edges: Seq<EdgeEntry>, x: usize)
    requires
        is_topological(order, n, edges),
        x < n,
    ensures
        0 <= topo_pos(order, x) < n,
        order[topo_pos(order, x)] == x,
{
    assert(order.contains(x));
}

/// Along a path, every node comes later in a topological order than the first.
proof fn lemma_path_ascends(order: Seq<usize>, n: nat, edges: Seq<EdgeEntry>, p: Seq<usize>, j: int)
    requires
        is_topological(order, n, edges),
        forall|k: int| 0 <= k < edges.len() ==> edges[k].0 < n && edges[k].1 < n,
        is_path(edges, p),
        1 <= j < p.len(),
    ensures
        p[0] < n,
        p[j] < n,
        topo_pos(order, p[0]) < topo_pos(order, p[j]),
    decreases j,
{
    let i = j - 1;
    assert(has_edge(edges, p[i] as int, p[i + 1] as int));
    let k = choose|k: int| 0 <= k < edges.len() && edges[k].0 == p[j - 1] && edges[k].1 == p[j];
    lemma_topo_pos(order, n, edges, p[j - 1]);
    lemma_topo_pos(order, n, edges, p[j]);
    let a = topo_pos(order, p[j - 1]);
    let b = topo_pos(order, p[j]);
    assert(order[a] == edges[k].0 && order[b] == edges[k].1);
    assert(a < b);
    if j > 1 {
        lemma_path_ascends(order, n, edges, p, j - 1);
    }
}

/// A graph with a topological order has no cycle.
proof fn lemma_topo_acyclic(order: Seq<usize>, n: nat, edges: Seq<EdgeEntry>)
    requires
        is_topological(order, n, edges),
        forall|k: int| 0 <= k < edges.len() ==> edges[k].0 < n && edges[k].1 < n,
    ensures
        forall|c: int| !on_cycle(edges, c),
{
    assert forall|c: int| !on_cycle(edges, c) by {
        if on_cycle(edges, c) {
            let p = choose|p: Seq<usize>|
                p.len() >= 2 && p[0] == c && p[p.len() - 1] == c && #[trigger] is_path(edges, p);
            lemma_path_ascends(order, n, edges, p, p.len() - 1);
        }
    }
}

/// An edge built for the task graph joins two nodes the task graph joins.
proof fn lemma_edge_is_pair(all: Seq<TaskView>, sel: Seq<TaskView>, edges: Seq<EdgeEntry>, a: int, b: int)
    requires
        edges_sound(all, sel, edges),
        has_edge(edges, a, b),
    ensures
        spec_pair(all, sel, a, b),
{
    let k = choose|k: int| 0 <= k < edges.len() && edges[k].0 == a && edges[k].1 == b;
    assert(edge_sound(all, sel, edges[k]));
    if !edges[k].2.ordering_only {
        let (t, d) = choose|t: int, d: int|
            #[trigger] dep_joins(all, sel, t, d, edges[k].0 as int, edges[k].1 as int) && edges[k].2.cascade
                == all[t].depends_on[d].cascade;
        assert(dep_pair(all, sel, a, b));
    }
}

/// Two nodes the task graph joins are joined by an edge built for it.
proof fn lemma_pair_is_edge(all: Seq<TaskView>, sel: Seq<TaskView>, edges: Seq<EdgeEntry>, a: int, b: int)
    requires
        sel.len() <= usize::MAX,
        deps_done(all, sel, edges, all.len() as int, 0),
        waits_done(all, sel, edges, all.len() as int, 0, 0),
        spec_pair(all, sel, a, b),
    ensures
        has_edge(edges, a, b),
{
    if dep_pair(all, sel, a, b) {
        let (t, d) = choose|t: int, d: int| #[trigger] dep_joins(all, sel, t, d, a, b);
        assert(edges.contains(dep_edge(all, t, d, a, b)));
        let k = choose|k: int| 0 <= k < edges.len() && edges[k] == dep_edge(all, t, d, a, b);
        assert(0 <= a < sel.len() && 0 <= b < sel.len());
        assert(edges[k].0 == a && edges[k].1 == b);
    } else {
        let (t, w, u) = choose|t: int, w: int, u: int| #[trigger] wait_joins(all, sel, t, w, u, a, b);
    }
}

/// The edges built for the task graph join exactly the nodes the task graph joins.
proof fn lemma_edges_match(all: Seq<TaskView>, sel: Seq<TaskView>, edges: Seq<EdgeEntry>, a: int, b: int)
    requires
        sel.len() <= usize::MAX,
        edges_built(all, sel, edges),
    ensures
        has_edge(edges, a, b) <==> spec_pair(all, sel, a, b),
{
    if has_edge(edges, a, b) {
        lemma_edge_is_pair(all, sel, edges, a, b);
    }
    if spec_pair(all, sel, a, b) {
        lemma_pair_is_edge(all, sel, edges, a, b);
    }
}

/// The edges built for the task graph have a cycle through `c` exactly when the task graph does.
proof fn lemma_cycle_match(all: Seq<TaskView>, sel: Seq<TaskView>, edges: Seq<EdgeEntry>, c: int)
    requires
        sel.len() <= usize::MAX,
        edges_built(all, sel, edges),
    ensures
        on_cycle(edges, c) <==> spec_on_cycle(all, sel, c),
{
    if on_cycle(edges, c) {
        let p = choose|p: Seq<usize>| p.len() >= 2 && p[0] == c && p[p.len() - 1] == c && #[trigger] is_path(edges, p);
        assert forall|i: int| 0 <= i < p.len() - 1 implies #[trigger] spec_pair(all, sel, p[i] as int, p[i + 1] as int) by {
            assert(has_edge(edges, p[i] as int, p[i + 1] as int));
            lemma_edges_match(all, sel, edges, p[i] as int, p[i + 1] as int);
        }
        assert(is_spec_path(all, sel, p));
    }
    if spec_on_cycle(all, sel, c) {
        let p = choose|p: Seq<usize>| p.len() >= 2 && p[0] == c && p[p.len() - 1] == c && #[trigger] is_spec_path(all, sel, p);
        assert forall|i: int| 0 <= i < p.len() - 1 implies #[trigger] has_edge(edges, p[i] as int, p[i + 1] as int) by {
            assert(spec_pair(all, sel, p[i] as int, p[i + 1] as int));
            lemma_edges_match(all, sel, edges, p[i] as int, p[i + 1] as int);
        }
        assert(is_path(edges, p));
    }
}

/// Finds the node a name stands for: the last task of `sel` with that name.
fn last_named(sel: &Vec<Task>, name: &String) -> (r: Option<usize>)
    ensures
        match r {
            Some(i) => is_last_named(tasks_view(sel@), name@, i as int),
            None => !has_named(tasks_view(sel@), name@),
        },
{
    let mut i: usize = sel.len();
    while i > 0
        invariant
            i <= sel.len(),
            forall|j: int| i <= j < sel.len() ==> tasks_view(sel@)[j].name != name@,
        decreases i,
    {
        i = i - 1;
        if sel[i].name == *name {
            return Some(i);
        }
    }
    None
}

/// Whether `targets` is given and holds `name`.
fn targets_contain(targets: Option<&Vec<String>>, name: &String) -> (r: bool)
    ensures
        r == (targets is Some && names_view(targets->0@).contains(name@)),
{
    match targets {
        None => false,
        Some(t) => {
            let mut i: usize = 0;
            while i < t.len()
                invariant
                    i <= t.len(),
                    targets == Some(t),
                    forall|j: int| 0 <= j < i ==> t@[j]@ != name@,
                decreases t.len() - i,
            {
                if t[i] == *name {
                    assert(t@ == targets->0@);
                    assert(names_view(t@)[i as int] == name@);
                    assert(names_view(t@).contains(name@));
                    return true;
                }
                i = i + 1;
            }
            assert(!names_view(t@).contains(name@));
            false
        },
    }
}

/// Copies a list of strings.
fn copy_names(names: &Vec<String>) -> (r: Vec<String>)
    ensures
        names_view(r@) == names_view(names@),
{
    let mut r: Vec<String> = Vec::new();
    let mut i: usize = 0;
    while i < names.len()
        invariant
            i <= names.len(),
            names_view(r@) == names_view(names@.take(i as int)),
        decreases names.len() - i,
    {
        r.push(names[i].clone());
        proof {
            assert(names_view(names@.take(i + 1)) =~= names_view(names@.take(i as int)).push(names@[i as int]@));
            assert(names_view(r@) =~= names_view(r@.drop_last()).push(r@.last()@));
        }
        i = i + 1;
    }
    proof {
        assert(names@.take(names@.len() as int) =~= names@);
    }
    r
}

impl TaskGraph {
    /// Whether the graph has one node per task, edges between its nodes only, and no cycle.
    pub closed spec fn wf(&self) -> bool {
        &&& graph_node_count(self.graph) == self.tasks@.len()
        &&& graph_wf(self@)
    }

    /// Builds the task graph of `tasks`: a node for each task, or under `force` only for each
    /// target, an edge for each dependency between two nodes and an ordering-only edge for each
    /// `wait_for` entry naming another node. Without targets every task is a target.
    ///
    /// A dependency on a task that is not a node is left out, as happens when a subgraph is made.
    /// Fails if the dependencies run in a circle.
    pub fn new(tasks: &Vec<Task>, targets: Option<&Vec<String>>, force: bool) -> (r: Result<TaskGraph, GraphError>)
        ensures
            new_result(tasks_view(tasks@), match targets {
                Some(t) => Some(names_view(t@)),
                None => None,
            }, force, r),
    {
        let ghost all = tasks_view(tasks@);
        let ghost tv: Option<Seq<Seq<char>>> = match targets {
            Some(t) => Some(names_view(t@)),
            None => None,
        };
        let ghost pred = |t: TaskView| tv is Some && tv->0.contains(t.name);
        let mut graph = graph_new();
        let mut sel: Vec<Task> = Vec::new();

        // The nodes: every task, or under `force` only the targets
        let mut i: usize = 0;
        while i < tasks.len()
            invariant
                i <= tasks.len(),
                all == tasks_view(tasks@),
                tv == (match targets {
                    Some(t) => Some(names_view(t@)),
                    None => None,
                }),
                pred == (|t: TaskView| tv is Some && tv->0.contains(t.name)),
                tasks_view(sel@) == selection(all.take(i as int), tv, force),
                graph_node_count(graph) == sel.len(),
                graph_edges(graph) == Seq::<EdgeEntry>::empty(),
            decreases tasks.len() - i,
        {
            proof {
                reveal(Seq::filter);
                assert(all.take(i + 1).drop_last() =~= all.take(i as int));
                assert(all.take(i + 1).last() == all[i as int]);
            }
            if !force || targets_contain(targets, &tasks[i].name) {
                graph_add_node(&mut graph);
                sel.push(tasks[i].duplicate());
                proof {
                    assert(tasks_view(sel@) =~= tasks_view(sel@.drop_last()).push(all[i as int]));
                    if !force {
                        assert(all.take(i + 1) =~= all.take(i as int).push(all[i as int]));
                    }
                }
            } else {
                proof {
                    assert(tasks_view(sel@) =~= selection(all.take(i + 1), tv, force));
                }
            }
            i = i + 1;
        }
        proof {
            assert(all.take(tasks@.len() as int) =~= all);
        }
        let ghost s = tasks_view(sel@);
        assert(s == selection(all, tv, force));

        // An edge for each dependency between two nodes
        let mut t: usize = 0;
        while t < tasks.len()
            invariant
                t <= tasks.len(),
                all == tasks_view(tasks@),
                s == tasks_view(sel@),
                graph_node_count(graph) == sel.len(),
                edges_in_range(graph_edges(graph), sel@.len()),
                edges_sound(all, s, graph_edges(graph)),
                forall|k: int| 0 <= k < graph_edges(graph).len() ==> !(#[trigger] graph_edges(graph)[k]).2.ordering_only,
                deps_done(all, s, graph_edges(graph), t as int, 0),
            decreases tasks.len() - t,
        {
            let from = last_named(&sel, &tasks[t].name);
            let mut d: usize = 0;
            while d < tasks[t].depends_on.len()
                invariant
                    t < tasks.len(),
                    d <= tasks[t as int].depends_on.len(),
                    all == tasks_view(tasks@),
                    s == tasks_view(sel@),
                    match from {
                        Some(a) => is_last_named(s, all[t as int].name, a as int),
                        None => !has_named(s, all[t as int].name),
                    },
                    graph_node_count(graph) == sel.len(),
                    edges_in_range(graph_edges(graph), sel@.len()),
                    edges_sound(all, s, graph_edges(graph)),
                    forall|k: int| 0 <= k < graph_edges(graph).len() ==> !(#[trigger] graph_edges(graph)[k]).2.ordering_only,
                    deps_done(all, s, graph_edges(graph), t as int, d as int),
                decreases tasks[t as int].depends_on.len() - d,
            {
                let to = last_named(&sel, &tasks[t].depends_on[d].task);
                let ghost old_edges = graph_edges(graph);
                let cascade = tasks[t].depends_on[d].cascade;
                assert(all[t as int].depends_on[d as int] == tasks@[t as int].depends_on@[d as int]@);
                match (from, to) {
                    (Some(a), Some(b)) => {
                        graph_add_edge(&mut graph, a, b, Edge::depends_on(cascade));
                        proof {
                            let e = graph_edges(graph);
                            let x = dep_edge(all, t as int, d as int, a as int, b as int);
                            assert(e == old_edges.push(x));
                            lemma_push_keeps(all, s, old_edges, x);
                            assert(dep_joins(all, s, t as int, d as int, a as int, b as int));
                            assert forall|k: int| 0 <= k < e.len() implies #[trigger] edge_sound(all, s, e[k]) by {
                                if k < old_edges.len() {
                                    assert(edge_sound(all, s, old_edges[k]));
                                }
                            }
                            assert forall|k: int| 0 <= k < e.len() implies !(#[trigger] e[k]).2.ordering_only by {
                                if k < old_edges.len() {
                                    assert(!old_edges[k].2.ordering_only);
                                }
                            }
                            assert forall|t2: int, d2: int, a2: int, b2: int|
                                #[trigger] dep_joins(all, s, t2, d2, a2, b2) && (t2 < t || (t2 == t && d2 < d + 1)) implies e.contains(
                                    dep_edge(all, t2, d2, a2, b2)) by {
                                if t2 == t && d2 == d {
                                    assert(a2 == a && b2 == b);
                                } else {
                                    assert(old_edges.contains(dep_edge(all, t2, d2, a2, b2)));
                                }
                            }
                        }
                    },
                    _ => {
                        proof {
                            assert forall|t2: int, d2: int, a2: int, b2: int|
                                #[trigger] dep_joins(all, s, t2, d2, a2, b2) && (t2 < t || (t2 == t && d2 < d + 1)) implies graph_edges(graph).contains(
                                    dep_edge(all, t2, d2, a2, b2)) by {
                                if t2 == t && d2 == d {
                                    assert(false);
                                }
                            }
                        }
                    },
                }
                d = d + 1;
            }
            t = t + 1;
        }

        // An ordering-only edge for each `wait_for` entry naming another node, unless the two
        // nodes are already joined: a dependency is stricter, and the graph stays free of
        // parallel ordering edges
        let mut t: usize = 0;
        while t < tasks.len()
            invariant
                t <= tasks.len(),
                all == tasks_view(tasks@),
                s == tasks_view(sel@),
                graph_node_count(graph) == sel.len(),
                edges_in_range(graph_edges(graph), sel@.len()),
                edges_sound(all, s, graph_edges(graph)),
                deps_done(all, s, graph_edges(graph), all.len() as int, 0),
                waits_done(all, s, graph_edges(graph), t as int, 0, 0),
                waits_unique(graph_edges(graph)),
            decreases tasks.len() - t,
        {
            let from = last_named(&sel, &tasks[t].name);
            match from {
                None => {
                    proof {
                        assert forall|t2: int, w2: int, u2: int, a2: int, b2: int|
                            #[trigger] wait_joins(all, s, t2, w2, u2, a2, b2) && (t2 < t + 1 || (t2 == t + 1 && (w2 < 0 || (w2 == 0 && u2 < 0))))
                            implies has_edge(graph_edges(graph), a2, b2) by {
                            if t2 == t {
                                assert(false);
                            }
                        }
                    }
                },
                Some(a) => {
                    let mut w: usize = 0;
                    while w < tasks[t].wait_for.len()
                        invariant
                            t < tasks.len(),
                            w <= tasks[t as int].wait_for.len(),
                            all == tasks_view(tasks@),
                            s == tasks_view(sel@),
                            is_last_named(s, all[t as int].name, a as int),
                            graph_node_count(graph) == sel.len(),
                            edges_in_range(graph_edges(graph), sel@.len()),
                            edges_sound(all, s, graph_edges(graph)),
                            deps_done(all, s, graph_edges(graph), all.len() as int, 0),
                            waits_done(all, s, graph_edges(graph), t as int, w as int, 0),
                            waits_unique(graph_edges(graph)),
                        decreases tasks[t as int].wait_for.len() - w,
                    {
                        let mut u: usize = 0;
                        while u < tasks.len()
                            invariant
                                t < tasks.len(),
                                w < tasks[t as int].wait_for.len(),
                                u <= tasks.len(),
                                all == tasks_view(tasks@),
                                s == tasks_view(sel@),
                                is_last_named(s, all[t as int].name, a as int),
                                graph_node_count(graph) == sel.len(),
                                edges_in_range(graph_edges(graph), sel@.len()),
                                edges_sound(all, s, graph_edges(graph)),
                                deps_done(all, s, graph_edges(graph), all.len() as int, 0),
                                waits_done(all, s, graph_edges(graph), t as int, w as int, u as int),
                                waits_unique(graph_edges(graph)),
                            decreases tasks.len() - u,
                        {
                            let ghost old_edges = graph_edges(graph);
                            let to = last_named(&sel, &tasks[u].name);
                            let matched = tasks[t].wait_for[w].matches(&tasks[u]);
                            assert(all[t as int].wait_for[w as int] == tasks@[t as int].wait_for@[w as int]@);
                            match to {
                                Some(b) => {
                                    if matched && b != a {
                                        match graph_find_edge(&graph, a, b) {
                                            Some(_) => {},
                                            None => {
                                                graph_add_edge(&mut graph, a, b, Edge::wait_for());
                                                proof {
                                                    let e = graph_edges(graph);
                                                    let x: EdgeEntry = (a, b, Edge { cascade: false, ordering_only: true });
                                                    let n = old_edges.len() as int;
                                                    assert(e == old_edges.push(x));
                                                    lemma_push_keeps(all, s, old_edges, x);
                                                    assert(wait_joins(all, s, t as int, w as int, u as int, a as int, b as int));
                                                    assert(edge_sound(all, s, x));
                                                    assert forall|k: int| 0 <= k < e.len() implies #[trigger] edge_sound(all, s, e[k]) by {
                                                        if k < n {
                                                            assert(edge_sound(all, s, old_edges[k]));
                                                        }
                                                    }
                                                    assert forall|k1: int, k2: int|
                                                        #![trigger e[k1], e[k2]]
                                                        0 <= k1 < e.len() && 0 <= k2 < e.len() && k1 != k2 && e[k1].0 == e[k2].0 && e[k1].1 == e[k2].1
                                                        implies !e[k1].2.ordering_only && !e[k2].2.ordering_only by {
                                                        if k1 == n {
                                                            assert(old_edges[k2].0 == a && old_edges[k2].1 == b);
                                                            assert(has_edge(old_edges, a as int, b as int));
                                                        } else if k2 == n {
                                                            assert(old_edges[k1].0 == a && old_edges[k1].1 == b);
                                                            assert(has_edge(old_edges, a as int, b as int));
                                                        } else {
                                                            assert(e[k1] == old_edges[k1]);
                                                            assert(e[k2] == old_edges[k2]);
                                                        }
                                                    }
                                                }
                                            },
                                        }
                                    }
                                },
                                None => {},
                            }
                            proof {
                                assert forall|t2: int, w2: int, u2: int, a2: int, b2: int|
                                    #[trigger] wait_joins(all, s, t2, w2, u2, a2, b2) && (t2 < t || (t2 == t && (w2 < w || (w2 == w && u2 < u + 1))))
                                    implies has_edge(graph_edges(graph), a2, b2) by {
                                    if t2 == t && w2 == w && u2 == u {
                                        assert(a2 == a);
                                        assert(to is Some && b2 == to->0);
                                    } else {
                                        assert(has_edge(old_edges, a2, b2));
                                    }
                                }
                            }
                            u = u + 1;
                        }
                        proof {
                            assert forall|t2: int, w2: int, u2: int, a2: int, b2: int|
                                #[trigger] wait_joins(all, s, t2, w2, u2, a2, b2) && (t2 < t || (t2 == t && (w2 < w + 1 || (w2 == w + 1 && u2 < 0))))
                                implies has_edge(graph_edges(graph), a2, b2) by {
                                if t2 == t && w2 == w {
                                    assert(u2 < tasks.len());
                                }
                            }
                        }
                        w = w + 1;
                    }
                    proof {
                        assert forall|t2: int, w2: int, u2: int, a2: int, b2: int|
                            #[trigger] wait_joins(all, s, t2, w2, u2, a2, b2) && (t2 < t + 1 || (t2 == t + 1 && (w2 < 0 || (w2 == 0 && u2 < 0))))
                            implies has_edge(graph_edges(graph), a2, b2) by {
                            if t2 == t {
                                assert(w2 < all[t as int].wait_for.len());
                            }
                        }
                    }
                },
            }
            t = t + 1;
        }
        let ghost edges = graph_edges(graph);
        assert(edges_built(all, s, edges));

        // Without targets, every task is a target
        let targets: Vec<String> = match targets {
            Some(t) => copy_names(t),
            None => {
                let mut names: Vec<String> = Vec::new();
                let mut i: usize = 0;
                while i < tasks.len()
                    invariant
                        i <= tasks.len(),
                        all == tasks_view(tasks@),
                        names_view(names@) == task_names(all.take(i as int)),
                    decreases tasks.len() - i,
                {
                    names.push(tasks[i].name.clone());
                    proof {
                        assert(task_names(all.take(i + 1)) =~= task_names(all.take(i as int)).push(all[i as int].name));
                        assert(names_view(names@) =~= names_view(names@.drop_last()).push(names@.last()@));
                    }
                    i = i + 1;
                }
                proof {
                    assert(all.take(tasks@.len() as int) =~= all);
                }
                names
            },
        };

        match graph_toposort(&graph) {
            Ok(order) => {
                proof {
                    lemma_topo_acyclic(order@, graph_node_count(graph), edges);
                    assert forall|c: int| !spec_on_cycle(all, s, c) by {
                        lemma_cycle_match(all, s, edges, c);
                    }
                }
                let g = TaskGraph { graph, tasks: sel, targets };
                assert(graph_wf(g@));
                Ok(g)
            },
            Err(c) => {
                proof {
                    lemma_cycle_match(all, s, edges, c as int);
                }
                let task = sel[c].name.clone();
                assert(s[c as int].name == task@);
                Err(GraphError::Cycle { task })
            },
        }
    }
}


/// The weight of the most recently added edge from `a` to `b`, if there is one.
pub open spec fn last_edge_weight(edges: Seq<EdgeEntry>, a: int, b: int) -> Option<Edge> {
    if has_edge(edges, a, b) {
        Some(edges[choose|k: int| is_last_edge(edges, a, b, k)].2)
    } else {
        None
    }
}

/// Whether a walk through the graph goes on from `u` to `v`. Going down the dependencies, it stops
/// at an ordering edge, which does not pull its task into the run. Going up to the dependents, it
/// also stops at a dependency that does not cascade, so that re-running a task does not re-run
/// the tasks merely ordered after it nor those that opted out of cascading.
pub open spec fn spec_follows(edges: Seq<EdgeEntry>, u: int, v: int, incoming: bool) -> bool {
    if incoming {
        match last_edge_weight(edges, v, u) {
            Some(e) => !e.ordering_only && e.cascade,
            None => true,
        }
    } else {
        match last_edge_weight(edges, u, v) {
            Some(e) => !e.ordering_only,
            None => true,
        }
    }
}

/// Whether a walk goes from `u` to `v` in one step, along an edge from `u` to `v`, or from `v` to
/// `u` when walking up to the dependents.
pub open spec fn walk_step(edges: Seq<EdgeEntry>, incoming: bool, u: int, v: int) -> bool {
    &&& if incoming {
        has_edge(edges, v, u)
    } else {
        has_edge(edges, u, v)
    }
    &&& spec_follows(edges, u, v, incoming)
}

/// Whether a walk from one of `starts` reaches `x`.
pub open spec fn reaches(edges: Seq<EdgeEntry>, starts: Seq<usize>, incoming: bool, x: int) -> bool {
    exists|p: Seq<usize>|
        #![trigger p[0], p[p.len() - 1]]
        p.len() >= 1 && starts.contains(p[0]) && p[p.len() - 1] == x && forall|i: int|
            0 <= i < p.len() - 1 ==> #[trigger] walk_step(edges, incoming, p[i] as int, p[i + 1] as int)
}

/// Whether a dependency edge, one that is not ordering only, goes from `u` to `v`.
pub open spec fn dependency_edge(edges: Seq<EdgeEntry>, u: int, v: int) -> bool {
    exists|k: int| 0 <= k < edges.len() && edges[k].0 == u && edges[k].1 == v && !edges[k].2.ordering_only
}

/// Whether a path of dependency edges leads from one of `starts` to `x`.
pub open spec fn pulled_in(edges: Seq<EdgeEntry>, starts: Seq<usize>, x: int) -> bool {
    exists|p: Seq<usize>|
        #![trigger p[0], p[p.len() - 1]]
        p.len() >= 1 && starts.contains(p[0]) && p[p.len() - 1] == x && forall|i: int|
            0 <= i < p.len() - 1 ==> #[trigger] dependency_edge(edges, p[i] as int, p[i + 1] as int)
}

/// The most recently added edge between two nodes is one of the edges between them.
proof fn lemma_last_edge_is_an_edge(edges: Seq<EdgeEntry>, a: int, b: int)
    requires
        has_edge(edges, a, b),
    ensures
        exists|k: int| is_last_edge(edges, a, b, k),
        is_last_edge(edges, a, b, choose|k: int| is_last_edge(edges, a, b, k)),
    decreases edges.len(),
{
    let n = edges.len() - 1;
    if edges[n].0 == a && edges[n].1 == b {
        assert(is_last_edge(edges, a, b, n));
    } else {
        let rest = edges.drop_last();
        let k = choose|k: int| 0 <= k < edges.len() && edges[k].0 == a && edges[k].1 == b;
        assert(rest[k] == edges[k]);
        lemma_last_edge_is_an_edge(rest, a, b);
        let j = choose|j: int| is_last_edge(rest, a, b, j);
        assert forall|k2: int| j < k2 < edges.len() implies !(edges[k2].0 == a && edges[k2].1 == b) by {
            if k2 < n {
                assert(rest[k2] == edges[k2]);
            }
        }
        assert(rest[j] == edges[j]);
        assert(is_last_edge(edges, a, b, j));
    }
}

/// Walking down from the targets, an ordering edge (a `wait_for`) is never followed: every task
/// reached is a target or is reached from one through dependency edges alone, so a task joined
/// to the targets only by ordering edges is not pulled into the run. Where an ordering edge is
/// the only edge between its nodes, as in every task graph, every task reached through
/// dependency edges is reached.
pub proof fn law_walking_down_pulls_in_dependencies_only(edges: Seq<EdgeEntry>, starts: Seq<usize>, x: int)
    ensures
        reaches(edges, starts, false, x) ==> pulled_in(edges, starts, x),
        waits_unique(edges) && pulled_in(edges, starts, x) ==> reaches(edges, starts, false, x),
{
    if reaches(edges, starts, false, x) {
        let p = choose|p: Seq<usize>|
            #![trigger p[0], p[p.len() - 1]]
            p.len() >= 1 && starts.contains(p[0]) && p[p.len() - 1] == x && forall|i: int|
                0 <= i < p.len() - 1 ==> #[trigger] walk_step(edges, false, p[i] as int, p[i + 1] as int);
        assert forall|i: int| 0 <= i < p.len() - 1 implies #[trigger] dependency_edge(edges, p[i] as int, p[i + 1] as int) by {
            assert(walk_step(edges, false, p[i] as int, p[i + 1] as int));
            let a = p[i] as int;
            let b = p[i + 1] as int;
            lemma_last_edge_is_an_edge(edges, a, b);
            let k = choose|k: int| is_last_edge(edges, a, b, k);
            assert(!edges[k].2.ordering_only);
        }
        assert(pulled_in(edges, starts, x));
    }
    if waits_unique(edges) && pulled_in(edges, starts, x) {
        let p = choose|p: Seq<usize>|
            #![trigger p[0], p[p.len() - 1]]
            p.len() >= 1 && starts.contains(p[0]) && p[p.len() - 1] == x && forall|i: int|
                0 <= i < p.len() - 1 ==> #[trigger] dependency_edge(edges, p[i] as int, p[i + 1] as int);
        assert forall|i: int| 0 <= i < p.len() - 1 implies #[trigger] walk_step(edges, false, p[i] as int, p[i + 1] as int) by {
            assert(dependency_edge(edges, p[i] as int, p[i + 1] as int));
            let a = p[i] as int;
            let b = p[i + 1] as int;
            let k = choose|k: int| 0 <= k < edges.len() && edges[k].0 == a && edges[k].1 == b && !edges[k].2.ordering_only;
            lemma_last_edge_is_an_edge(edges, a, b);
            let l = choose|l: int| is_last_edge(edges, a, b, l);
            if l != k {
                assert(!edges[l].2.ordering_only);
            }
        }
        assert(reaches(edges, starts, false, x));
    }
}

/// Whether a dependency edge that cascades goes from `u` to `v`.
pub open spec fn cascading_edge(edges: Seq<EdgeEntry>, u: int, v: int) -> bool {
    exists|k: int|
        0 <= k < edges.len() && edges[k].0 == u && edges[k].1 == v && !edges[k].2.ordering_only && edges[k].2.cascade
}

/// Walking up from re-run tasks to their dependents, only dependencies that cascade are
/// followed: every task reached is one of the re-run tasks or depends on one, through a chain of
/// cascading dependencies, so a task merely ordered after another, or that opted out of
/// cascading, is not re-run with it.
pub proof fn law_walking_up_follows_cascading_dependencies(edges: Seq<EdgeEntry>, starts: Seq<usize>, x: int)
    requires
        reaches(edges, starts, true, x),
    ensures
        exists|p: Seq<usize>|
            #![trigger p[0], p[p.len() - 1]]
            p.len() >= 1 && starts.contains(p[0]) && p[p.len() - 1] == x && forall|i: int|
                0 <= i < p.len() - 1 ==> #[trigger] cascading_edge(edges, p[i + 1] as int, p[i] as int),
{
    let p = choose|p: Seq<usize>|
        #![trigger p[0], p[p.len() - 1]]
        p.len() >= 1 && starts.contains(p[0]) && p[p.len() - 1] == x && forall|i: int|
            0 <= i < p.len() - 1 ==> #[trigger] walk_step(edges, true, p[i] as int, p[i + 1] as int);
    assert forall|i: int| 0 <= i < p.len() - 1 implies #[trigger] cascading_edge(edges, p[i + 1] as int, p[i] as int) by {
        assert(walk_step(edges, true, p[i] as int, p[i + 1] as int));
        let a = p[i + 1] as int;
        let b = p[i] as int;
        lemma_last_edge_is_an_edge(edges, a, b);
        let k = choose|k: int| is_last_edge(edges, a, b, k);
        assert(!edges[k].2.ordering_only && edges[k].2.cascade);
    }
}

/// Whether `s` is the first node of a task named in `names`.
pub open spec fn is_start(tasks: Seq<TaskView>, names: Seq<String>, s: int) -> bool {
    exists|i: int| 0 <= i < names.len() && #[trigger] is_first_named(tasks, names[i]@, s)
}

impl TaskGraph {
    /// Lists the tasks in an order where every task comes before the tasks it waits for.
    /// A graph never has a cycle, so this always succeeds.
    pub fn sort(&self) -> (r: Result<Vec<Task>, GraphError>)
        requires
            self.wf(),
        ensures
            r is Ok,
            exists|order: Seq<usize>|
                is_topological(order, self@.tasks.len(), self@.edges) && tasks_view(r->Ok_0@) == order.map_values(
                    |i: usize| self@.tasks[i as int],
                ),
    {
        match graph_toposort(&self.graph) {
            Ok(order) => {
                let ghost n = self@.tasks.len();
                let mut out: Vec<Task> = Vec::new();
                let mut i: usize = 0;
                while i < order.len()
                    invariant
                        i <= order.len(),
                        self.wf(),
                        is_topological(order@, graph_node_count(self.graph), graph_edges(self.graph)),
                        tasks_view(out@) == order@.take(i as int).map_values(|j: usize| self@.tasks[j as int]),
                    decreases order.len() - i,
                {
                    let j = order[i];
                    out.push(self.tasks[j].duplicate());
                    proof {
                        assert(order@.take(i + 1) =~= order@.take(i as int).push(j));
                        assert(tasks_view(out@) =~= tasks_view(out@.drop_last()).push(out@.last()@));
                        assert(order@.take(i + 1).map_values(|j: usize| self@.tasks[j as int]) =~= order@.take(
                            i as int,
                        ).map_values(|j: usize| self@.tasks[j as int]).push(self@.tasks[j as int]));
                    }
                    i = i + 1;
                }
                proof {
                    assert(order@.take(order@.len() as int) =~= order@);
                    assert(graph_node_count(self.graph) == self@.tasks.len());
                    assert(is_topological(order@, self@.tasks.len(), self@.edges));
                }
                Ok(out)
            },
            Err(c) => {
                assert(on_cycle(graph_edges(self.graph), c as int));
                assert(graph_wf(self@));
                assert(self@.edges == graph_edges(self.graph));
                assert(!on_cycle(self@.edges, c as int));
                assert(false);
                Err(GraphError::Cycle { task: self.tasks[c].name.clone() })
            },
        }
    }

    /// Lists the tasks of the graph, in the order of their nodes.
    pub fn tasks(&self) -> (r: Vec<Task>)
        ensures
            tasks_view(r@) == self@.tasks,
    {
        let mut out: Vec<Task> = Vec::new();
        let mut i: usize = 0;
        while i < self.tasks.len()
            invariant
                i <= self.tasks.len(),
                tasks_view(out@) == self@.tasks.take(i as int),
            decreases self.tasks.len() - i,
        {
            out.push(self.tasks[i].duplicate());
            proof {
                assert(tasks_view(out@) =~= tasks_view(out@.drop_last()).push(out@.last()@));
                assert(self@.tasks.take(i + 1) =~= self@.tasks.take(i as int).push(self@.tasks[i as int]));
            }
            i = i + 1;
        }
        proof {
            assert(self@.tasks.take(self@.tasks.len() as int) =~= self@.tasks);
        }
        out
    }

    /// The weight of the edge from `from` to `to`, the most recently added if there are several.
    fn edge(&self, from: usize, to: usize) -> (r: Option<Edge>)
        requires
            self.wf(),
        ensures
            r == last_edge_weight(self@.edges, from as int, to as int),
    {
        match graph_find_edge(&self.graph, from, to) {
            Some(k) => {
                let e = graph_edge_weight(&self.graph, k);
                proof {
                    let edges = graph_edges(self.graph);
                    let k2 = choose|k2: int| is_last_edge(edges, from as int, to as int, k2);
                    assert(k2 == k as int) by {
                        if k2 < k {
                            assert(!(edges[k as int].0 == from && edges[k as int].1 == to));
                        }
                        if k2 > k {
                            assert(!(edges[k2].0 == from && edges[k2].1 == to));
                        }
                    }
                }
                e
            },
            None => None,
        }
    }

    /// Whether a walk through the graph goes on from `u` to `v`; see [`spec_follows`].
    fn follows(&self, u: usize, v: usize, incoming: bool) -> (r: bool)
        requires
            self.wf(),
        ensures
            r == spec_follows(self@.edges, u as int, v as int, incoming),
    {
        if incoming {
            match self.edge(v, u) {
                Some(e) => !e.ordering_only && e.cascade,
                None => true,
            }
        } else {
            match self.edge(u, v) {
                Some(e) => !e.ordering_only,
                None => true,
            }
        }
    }

    /// Calls `petgraph::visit::depth_first_search` from `starts`, going on along an edge only
    /// where [`Self::follows`] says so, and lists the nodes it discovers: the nodes a walk down
    /// the edges reaches.
    #[verifier::external_body]
    fn discover_outgoing(&self, starts: &Vec<usize>) -> (visited: Vec<usize>)
        requires
            self.wf(),
            forall|i: int| 0 <= i < starts@.len() ==> starts@[i] < self@.tasks.len(),
        ensures
            visited@.no_duplicates(),
            forall|x: usize| visited@.contains(x) <==> reaches(self@.edges, starts@, false, x as int),
    {
        let mut visited = Vec::new();
        depth_first_search(&self.graph, starts.iter().map(|&i| NodeIndex::new(i)), |event| match event {
            DfsEvent::TreeEdge(u, v) if !self.follows(u.index(), v.index(), false) => Control::<()>::Prune,
            DfsEvent::Discover(n, _) => { visited.push(n.index()); Control::Continue },
            _ => Control::Continue,
        });
        visited
    }

    /// Calls `petgraph::visit::depth_first_search` on the reversed graph from `starts`, going on
    /// along an edge only where [`Self::follows`] says so, and lists the nodes it discovers: the
    /// nodes a walk up the edges reaches.
    #[verifier::external_body]
    fn discover_incoming(&self, starts: &Vec<usize>) -> (visited: Vec<usize>)
        requires
            self.wf(),
            forall|i: int| 0 <= i < starts@.len() ==> starts@[i] < self@.tasks.len(),
        ensures
            visited@.no_duplicates(),
            forall|x: usize| visited@.contains(x) <==> reaches(self@.edges, starts@, true, x as int),
    {
        let mut visited = Vec::new();
        depth_first_search(Reversed(&self.graph), starts.iter().map(|&i| NodeIndex::new(i)), |event| match event {
            DfsEvent::TreeEdge(u, v) if !self.follows(u.index(), v.index(), true) => Control::<()>::Prune,
            DfsEvent::Discover(n, _) => { visited.push(n.index()); Control::Continue },
            _ => Control::Continue,
        });
        visited
    }

    /// Finds the first node whose task has the given name.
    fn node_by_task(&self, name: &String) -> (r: Option<(&Task, usize)>)
        ensures
            match r {
                Some((t, i)) => is_first_named(self@.tasks, name@, i as int) && t@ == self@.tasks[i as int],
                None => !has_named(self@.tasks, name@),
            },
    {
        let mut i: usize = 0;
        while i < self.tasks.len()
            invariant
                i <= self.tasks.len(),
                forall|j: int| 0 <= j < i ==> self@.tasks[j].name != name@,
            decreases self.tasks.len() - i,
        {
            if self.tasks[i].name == *name {
                return Some((&self.tasks[i], i));
            }
            i = i + 1;
        }
        None
    }

    /// Makes the graph of the tasks reached from the named tasks: going down the dependencies
    /// with `Outgoing`, the tasks a run of them needs; going up to the dependents with `Incoming`,
    /// the tasks a re-run of them re-runs. The named tasks are the targets of the new graph.
    pub fn transitive_closure(&self, names: &Vec<String>, direction: petgraph::EdgeDirection) -> (r: Result<TaskGraph, GraphError>)
        requires
            self.wf(),
        ensures
            exists|starts: Seq<usize>, visited: Seq<usize>|
                #![trigger starts.len(), visited.len()]
                (forall|x: usize| #[trigger] starts.contains(x) <==> is_start(self@.tasks, names@, x as int))
                    && visited.no_duplicates() && (forall|x: usize|
                    #[trigger] visited.contains(x) <==> reaches(
                        self@.edges,
                        starts,
                        is_incoming(direction),
                        x as int,
                    )) && new_result(
                    visited.map_values(|i: usize| self@.tasks[i as int]),
                    Some(names_view(names@)),
                    false,
                    r,
                ),
    {
        let incoming = direction_is_incoming(direction);
        let mut starts: Vec<usize> = Vec::new();
        let mut i: usize = 0;
        while i < names.len()
            invariant
                i <= names.len(),
                forall|x: usize| #[trigger] starts@.contains(x) <==> exists|j: int|
                    0 <= j < i && #[trigger] is_first_named(self@.tasks, names@[j]@, x as int),
            decreases names.len() - i,
        {
            let ghost old_starts = starts@;
            match self.node_by_task(&names[i]) {
                Some((_, n)) => {
                    starts.push(n);
                    proof {
                        assert forall|x: usize| #[trigger] starts@.contains(x) <==> exists|j: int|
                            0 <= j < i + 1 && #[trigger] is_first_named(self@.tasks, names@[j]@, x as int) by {
                            if starts@.contains(x) {
                                let k = choose|k: int| 0 <= k < starts@.len() && starts@[k] == x;
                                if k < old_starts.len() {
                                    assert(old_starts[k] == x);
                                    assert(old_starts.contains(x));
                                } else {
                                    assert(is_first_named(self@.tasks, names@[i as int]@, x as int));
                                }
                            }
                            if exists|j: int| 0 <= j < i + 1 && #[trigger] is_first_named(self@.tasks, names@[j]@, x as int) {
                                let j = choose|j: int| 0 <= j < i + 1 && #[trigger] is_first_named(self@.tasks, names@[j]@, x as int);
                                if j == i {
                                    assert(x == n);
                                    assert(starts@[old_starts.len() as int] == n);
                                } else {
                                    assert(old_starts.contains(x));
                                    let k = choose|k: int| 0 <= k < old_starts.len() && old_starts[k] == x;
                                    assert(starts@[k] == x);
                                }
                            }
                        }
                    }
                },
                None => {
                    proof {
                        assert forall|x: usize| #[trigger] starts@.contains(x) <==> exists|j: int|
                            0 <= j < i + 1 && #[trigger] is_first_named(self@.tasks, names@[j]@, x as int) by {
                            if exists|j: int| 0 <= j < i + 1 && #[trigger] is_first_named(self@.tasks, names@[j]@, x as int) {
                                let j = choose|j: int| 0 <= j < i + 1 && #[trigger] is_first_named(self@.tasks, names@[j]@, x as int);
                                if j == i {
                                    assert(has_named(self@.tasks, names@[i as int]@));
                                }
                            }
                        }
                    }
                },
            }
            i = i + 1;
        }
        assert forall|x: usize| #[trigger] starts@.contains(x) implies x < self@.tasks.len() by {
            let j = choose|j: int| 0 <= j < names.len() && #[trigger] is_first_named(self@.tasks, names@[j]@, x as int);
        }
        assert forall|k: int| 0 <= k < starts@.len() implies starts@[k] < self@.tasks.len() by {
            assert(starts@.contains(starts@[k]));
        }
        let visited = if incoming {
            self.discover_incoming(&starts)
        } else {
            self.discover_outgoing(&starts)
        };
        let mut tasks: Vec<Task> = Vec::new();
        let mut k: usize = 0;
        while k < visited.len()
            invariant
                k <= visited.len(),
                self.wf(),
                forall|x: usize| #[trigger] starts@.contains(x) ==> x < self@.tasks.len(),
                forall|x: usize| #[trigger] visited@.contains(x) <==> reaches(self@.edges, starts@, incoming, x as int),
                tasks_view(tasks@) == visited@.take(k as int).map_values(|i: usize| self@.tasks[i as int]),
            decreases visited.len() - k,
        {
            let j = visited[k];
            proof {
                assert(visited@.contains(j));
                assert(reaches(self@.edges, starts@, incoming, j as int));
                let p = choose|p: Seq<usize>|
                    #![trigger p[0], p[p.len() - 1]]
                    p.len() >= 1 && starts@.contains(p[0]) && p[p.len() - 1] == j && forall|i: int|
                        0 <= i < p.len() - 1 ==> #[trigger] walk_step(self@.edges, incoming, p[i] as int, p[i + 1] as int);
                if p.len() == 1 {
                    assert(starts@.contains(j));
                } else {
                    let i = p.len() - 2;
                    assert(walk_step(self@.edges, incoming, p[i] as int, p[i + 1] as int));
                    if incoming {
                        let e = choose|e: int| 0 <= e < self@.edges.len() && self@.edges[e].0 == p[i + 1] && self@.edges[e].1 == p[i];
                    } else {
                        let e = choose|e: int| 0 <= e < self@.edges.len() && self@.edges[e].0 == p[i] && self@.edges[e].1 == p[i + 1];
                    }
                }
            }
            tasks.push(self.tasks[j].duplicate());
            proof {
                assert(visited@.take(k + 1) =~= visited@.take(k as int).push(j));
                assert(tasks_view(tasks@) =~= tasks_view(tasks@.drop_last()).push(tasks@.last()@));
                assert(visited@.take(k + 1).map_values(|i: usize| self@.tasks[i as int]) =~= visited@.take(
                    k as int,
                ).map_values(|i: usize| self@.tasks[i as int]).push(self@.tasks[j as int]));
            }
            k = k + 1;
        }
        proof {
            assert(visited@.take(visited@.len() as int) =~= visited@);
        }
        let r = TaskGraph::new(&tasks, Some(names), false);
        assert(forall|x: usize| #[trigger] starts@.contains(x) <==> is_start(self@.tasks, names@, x as int));
        assert(tasks_view(tasks@) == visited@.map_values(|i: usize| self@.tasks[i as int]));
        assert(starts@.len() == starts@.len() && visited@.len() == visited@.len());
        r
    }
}

/// The nodes a node waits for, the most recently added edge first: its dependencies and its
/// ordering-only tasks, each as a node and whether the edge to it is ordering-only.
pub open spec fn spec_waits(edges: Seq<EdgeEntry>, node: int) -> Seq<(usize, bool)> {
    out_targets(edges, node).reverse().map_values(|n: usize| (n, last_edge_weight(edges, node, n as int)->0.ordering_only))
}

/// The targets of the edges from a node are the targets of edges.
proof fn lemma_out_targets(edges: Seq<EdgeEntry>, a: int, i: int)
    requires
        0 <= i < out_targets(edges, a).len(),
    ensures
        has_edge(edges, a, out_targets(edges, a)[i] as int),
    decreases edges.len(),
{
    let r = out_targets(edges.drop_last(), a);
    if i < r.len() {
        lemma_out_targets(edges.drop_last(), a, i);
        let k = choose|k: int| 0 <= k < edges.drop_last().len() && edges.drop_last()[k].0 == a && edges.drop_last()[k].1 == r[i];
        assert(edges[k] == edges.drop_last()[k]);
    } else {
        assert(edges.last().0 == a);
        assert(edges[edges.len() - 1] == edges.last());
    }
}

impl TaskGraph {
    /// The number of nodes.
    pub fn node_count(&self) -> (r: usize)
        ensures
            r == self@.tasks.len(),
    {
        self.tasks.len()
    }

    /// The task of a node.
    pub fn node_task(&self, node: usize) -> (r: &Task)
        requires
            node < self@.tasks.len(),
        ensures
            r@ == self@.tasks[node as int],
    {
        &self.tasks[node]
    }

    /// The tasks whose completion is awaited.
    pub fn targets(&self) -> (r: &Vec<String>)
        ensures
            names_view(r@) == self@.targets,
    {
        &self.targets
    }

    /// Lists what a node waits for before it runs: each task an edge from it reaches, the most
    /// recently added edge first, with whether the edge only orders the two tasks. The result of
    /// an ordering-only task is awaited but ignored; a dependency must succeed.
    pub fn node_waits(&self, node: usize) -> (r: Vec<(usize, bool)>)
        requires
            self.wf(),
            node < self@.tasks.len(),
        ensures
            r@ == spec_waits(self@.edges, node as int),
    {
        let targets = graph_neighbors(&self.graph, node);
        let ghost t = out_targets(self@.edges, node as int).reverse();
        let mut r: Vec<(usize, bool)> = Vec::new();
        let mut i: usize = 0;
        while i < targets.len()
            invariant
                i <= targets.len(),
                self.wf(),
                node < self@.tasks.len(),
                t == out_targets(self@.edges, node as int).reverse(),
                targets@ == t,
                r@ == t.take(i as int).map_values(|n: usize| (n, last_edge_weight(self@.edges, node as int, n as int)->0.ordering_only)),
            decreases targets.len() - i,
        {
            let n = targets[i];
            proof {
                let o = out_targets(self@.edges, node as int);
                let j = o.len() - 1 - i;
                assert(t[i as int] == o[j]);
                lemma_out_targets(self@.edges, node as int, j);
                assert(has_edge(self@.edges, node as int, n as int));
            }
            let e = self.edge(node, n);
            let ordering_only = match e {
                Some(e) => e.ordering_only,
                None => false,
            };
            r.push((n, ordering_only));
            proof {
                assert(t.take(i + 1) =~= t.take(i as int).push(n));
                assert(r@ =~= t.take(i + 1).map_values(|n: usize| (n, last_edge_weight(self@.edges, node as int, n as int)->0.ordering_only)));
            }
            i = i + 1;
        }
        proof {
            assert(t.take(t.len() as int) =~= t);
        }
        r
    }
}
} // verus!
