//! The workspace dependency graph: reachability over an edge set, the
//! strongly-connected-component wrappers, and the lemmas connecting
//! stalled staging to cycles.
use vstd::prelude::*;

use crate::package::WorkspacePackage;
use crate::strmap::seq_has_string;

verus! {

/// An edge `j -> i` of the workspace graph: package `i` declares package
/// `j`'s name among its workspace dependencies, so `j` builds before `i`.
pub open spec fn pkg_dep_edge(pkgs: Seq<WorkspacePackage>, j: int, i: int) -> bool {
    seq_has_string(pkgs[i].workspace_dependencies@, pkgs[j].name@)
}

/// All edges of the workspace graph, over package indices.
pub open spec fn pkg_edges(pkgs: Seq<WorkspacePackage>) -> Set<(int, int)> {
    Set::new(
        |p: (int, int)|
            0 <= p.0 < pkgs.len() && 0 <= p.1 < pkgs.len() && pkg_dep_edge(pkgs, p.0, p.1),
    )
}

/// A path from `a` to `b` along `edges` of length at most `n`.
pub open spec fn reaches_within(edges: Set<(int, int)>, a: int, b: int, n: nat) -> bool
    decreases n,
{
    a == b || (n > 0 && exists|m: int|
        edges.contains((a, m)) && reaches_within(edges, m, b, (n - 1) as nat))
}

/// Some path leads from `a` to `b` (including the empty path when `a == b`).
pub open spec fn reaches(edges: Set<(int, int)>, a: int, b: int) -> bool {
    exists|n: nat| reaches_within(edges, a, b, n)
}

/// A path of at least one edge leads from `a` to `b`.
pub open spec fn reaches_plus(edges: Set<(int, int)>, a: int, b: int) -> bool {
    exists|m: int| edges.contains((a, m)) && reaches(edges, m, b)
}

/// Paths lead both ways: `a` and `b` lie in one strongly connected component.
pub open spec fn mutually_reachable(edges: Set<(int, int)>, a: int, b: int) -> bool {
    reaches(edges, a, b) && reaches(edges, b, a)
}

/// No node lies on a closed walk of one or more edges.
pub open spec fn acyclic(edges: Set<(int, int)>) -> bool {
    forall|v: int| !reaches_plus(edges, v, v)
}

/// The node belongs to a strongly connected component of size two or more.
pub open spec fn in_nontrivial_scc(edges: Set<(int, int)>, v: int) -> bool {
    exists|w: int| w != v && mutually_reachable(edges, v, w)
}

/// Prepending an edge to a path keeps the target reachable.
pub proof fn lemma_reaches_step(edges: Set<(int, int)>, a: int, m: int, b: int)
    requires
        edges.contains((a, m)),
        reaches(edges, m, b),
    ensures
        reaches(edges, a, b),
        reaches_plus(edges, a, b),
{
    let n = choose|n: nat| reaches_within(edges, m, b, n);
    assert(reaches_within(edges, a, b, n + 1));
}

/// A single edge is a path.
pub proof fn lemma_edge_reaches(edges: Set<(int, int)>, a: int, b: int)
    requires
        edges.contains((a, b)),
    ensures
        reaches(edges, a, b),
{
    assert(reaches_within(edges, b, b, 0));
    lemma_reaches_step(edges, a, b, b);
}

/// A nonempty path keeps both of its endpoints among the edge endpoints.
pub proof fn lemma_reaches_in_range(edges: Set<(int, int)>, a: int, b: int, lo: int, hi: int)
    requires
        reaches(edges, a, b),
        a != b,
        forall|p: (int, int)| edges.contains(p) ==> lo <= p.0 < hi && lo <= p.1 < hi,
    ensures
        lo <= a < hi,
        lo <= b < hi,
{
    let n = choose|n: nat| reaches_within(edges, a, b, n);
    lemma_reaches_within_in_range(edges, a, b, n, lo, hi);
}

proof fn lemma_reaches_within_in_range(
    edges: Set<(int, int)>,
    a: int,
    b: int,
    n: nat,
    lo: int,
    hi: int,
)
    requires
        reaches_within(edges, a, b, n),
        a != b,
        forall|p: (int, int)| edges.contains(p) ==> lo <= p.0 < hi && lo <= p.1 < hi,
    ensures
        lo <= a < hi,
        lo <= b < hi,
    decreases n,
{
    let m = choose|m: int| edges.contains((a, m)) && reaches_within(edges, m, b, (n - 1) as nat);
    assert(edges.contains((a, m)));
    if m != b {
        lemma_reaches_within_in_range(edges, m, b, (n - 1) as nat, lo, hi);
    }
}

/// When a workspace has no self-dependency and no strongly connected
/// component of size two or more, its graph has no closed walk at all.
pub proof fn lemma_no_nontrivial_scc_acyclic(edges: Set<(int, int)>)
    requires
        forall|v: int| !edges.contains((v, v)),
        forall|v: int| !in_nontrivial_scc(edges, v),
    ensures
        acyclic(edges),
{
    assert forall|v: int| !reaches_plus(edges, v, v) by {
        if reaches_plus(edges, v, v) {
            let m = choose|m: int| edges.contains((v, m)) && reaches(edges, m, v);
            assert(m != v);
            lemma_edge_reaches(edges, v, m);
            assert(mutually_reachable(edges, v, m));
            assert(in_nontrivial_scc(edges, v));
        }
    }
}

/// A sequence longer than a finite set it draws from must repeat a value.
proof fn lemma_pigeonhole(u: Set<int>, w: Seq<int>)
    requires
        u.finite(),
        w.len() > u.len(),
        forall|t: int| 0 <= t < w.len() ==> u.contains(#[trigger] w[t]),
    ensures
        exists|t1: int, t2: int| 0 <= t1 < t2 < w.len() && w[t1] == w[t2],
    decreases u.len(),
{
    if exists|t: int| 1 <= t < w.len() && #[trigger] w[t] == w[0] {
        let t = choose|t: int| 1 <= t < w.len() && #[trigger] w[t] == w[0];
        assert(0 <= 0 < t < w.len() && w[0] == w[t]);
    } else {
        let u2 = u.remove(w[0]);
        let w2 = w.drop_first();
        assert(u.contains(w[0]));
        assert(u2.len() == u.len() - 1);
        assert forall|t: int| 0 <= t < w2.len() implies u2.contains(#[trigger] w2[t]) by {
            assert(w2[t] == w[t + 1]);
        }
        lemma_pigeonhole(u2, w2);
        let (t1, t2) = choose|t1: int, t2: int| 0 <= t1 < t2 < w2.len() && w2[t1] == w2[t2];
        assert(w[t1 + 1] == w[t2 + 1]);
    }
}

/// Walks backwards through predecessors: every element of the result lies in
/// `u`, and consecutive elements are joined by an edge into the earlier one.
proof fn build_pred_walk(edges: Set<(int, int)>, u: Set<int>, len: nat) -> (w: Seq<int>)
    requires
        len >= 1,
        exists|x: int| u.contains(x),
        forall|i: int| u.contains(i) ==> exists|j: int| u.contains(j) && edges.contains((j, i)),
    ensures
        w.len() == len,
        forall|t: int| 0 <= t < w.len() ==> u.contains(#[trigger] w[t]),
        forall|t: int| 0 <= t < w.len() - 1 ==> edges.contains((#[trigger] w[t + 1], w[t])),
    decreases len,
{
    if len == 1 {
        let x = choose|x: int| u.contains(x);
        seq![x]
    } else {
        let w0 = build_pred_walk(edges, u, (len - 1) as nat);
        let last = w0[len - 2];
        let j = choose|j: int| u.contains(j) && edges.contains((j, last));
        let w = w0.push(j);
        assert forall|t: int| 0 <= t < w.len() - 1 implies edges.contains(
            (#[trigger] w[t + 1], w[t]),
        ) by {
            if t < len - 2 {
                assert(w[t + 1] == w0[t + 1] && w[t] == w0[t]);
            } else {
                assert(w[t + 1] == j && w[t] == last);
            }
        }
        w
    }
}

/// Following a backwards walk forwards: the later element reaches the
/// earlier one.
proof fn lemma_walk_reaches(edges: Set<(int, int)>, w: Seq<int>, t1: int, t2: int)
    requires
        0 <= t1 <= t2 < w.len(),
        forall|t: int| 0 <= t < w.len() - 1 ==> edges.contains((#[trigger] w[t + 1], w[t])),
    ensures
        reaches_within(edges, w[t2], w[t1], (t2 - t1) as nat),
    decreases t2 - t1,
{
    if t1 < t2 {
        lemma_walk_reaches(edges, w, t1, t2 - 1);
        assert(edges.contains((w[(t2 - 1) + 1], w[t2 - 1])));
        assert(reaches_within(edges, w[t2 - 1], w[t1], (t2 - 1 - t1) as nat));
    }
}

#[verifier::external_type_specification]
#[verifier::external_body]
#[verifier::reject_recursive_types(N)]
#[verifier::reject_recursive_types(E)]
#[verifier::reject_recursive_types(Ty)]
#[verifier::reject_recursive_types(Ix)]
pub struct ExGraph<N, E, Ty, Ix>(petgraph::graph::Graph<N, E, Ty, Ix>);

#[verifier::external_type_specification]
#[verifier::external_body]
pub struct ExDirected(petgraph::Directed);

/// Whether some group of the component list names the node.
pub open spec fn scc_covers(r: Seq<Vec<usize>>, v: usize) -> bool {
    exists|k: int, m: int| 0 <= k < r.len() && 0 <= m < r[k]@.len() && r[k]@[m] == v
}

/// How many nodes the graph holds.
pub uninterp spec fn graph_node_count(g: petgraph::graph::DiGraph<(), (), usize>) -> nat;

/// The edge pairs the graph holds, as source and target node indices.
pub uninterp spec fn graph_edge_set(g: petgraph::graph::DiGraph<(), (), usize>) -> Set<(int, int)>;

/// Relies on petgraph's Graph::with_capacity: the graph it builds holds no
/// nodes and no edges.
#[verifier::external_body]
pub fn graph_new() -> (g: petgraph::graph::DiGraph<(), (), usize>)
    ensures
        graph_node_count(g) == 0,
        graph_edge_set(g) == Set::<(int, int)>::empty(),
{
    petgraph::graph::DiGraph::with_capacity(0, 0)
}

/// Relies on petgraph's Graph::add_node: the node is appended and its index
/// is the previous node count; with a usize index type no capacity bound is
/// hit.
#[verifier::external_body]
pub fn graph_add_node(g: &mut petgraph::graph::DiGraph<(), (), usize>) -> (i: usize)
    ensures
        i as nat == graph_node_count(*old(g)),
        graph_node_count(*final(g)) == graph_node_count(*old(g)) + 1,
        graph_edge_set(*final(g)) == graph_edge_set(*old(g)),
{
    g.add_node(()).index()
}

/// Relies on petgraph's Graph::add_edge: it appends one edge from `a` to
/// `b` and panics only when an endpoint is out of bounds.
#[verifier::external_body]
pub fn graph_add_edge(g: &mut petgraph::graph::DiGraph<(), (), usize>, a: usize, b: usize)
    requires
        a < graph_node_count(*old(g)),
        b < graph_node_count(*old(g)),
    ensures
        graph_node_count(*final(g)) == graph_node_count(*old(g)),
        graph_edge_set(*final(g)) == graph_edge_set(*old(g)).insert((a as int, b as int)),
{
    g.add_edge(
        petgraph::graph::NodeIndex::new(a),
        petgraph::graph::NodeIndex::new(b),
        (),
    );
}

/// Relies on petgraph's algo::tarjan_scc: it returns the strongly connected
/// components, that is, a partition of the node indices in which two nodes
/// share a group exactly when each reaches the other.
#[verifier::external_body]
pub fn graph_tarjan_scc(g: &petgraph::graph::DiGraph<(), (), usize>) -> (r: Vec<Vec<usize>>)
    ensures
        forall|k: int, m: int|
            #![trigger r@[k]@[m]]
            0 <= k < r@.len() && 0 <= m < r@[k]@.len() ==> (r@[k]@[m] as nat) < graph_node_count(
                *g,
            ),
        forall|v: usize| (v as nat) < graph_node_count(*g) ==> #[trigger] scc_covers(r@, v),
        forall|k1: int, m1: int, k2: int, m2: int|
            #![trigger r@[k1]@[m1], r@[k2]@[m2]]
            0 <= k1 < r@.len() && 0 <= m1 < r@[k1]@.len() && 0 <= k2 < r@.len() && 0 <= m2
                < r@[k2]@.len() && (k1 != k2 || m1 != m2) ==> r@[k1]@[m1] != r@[k2]@[m2],
        forall|k: int, m1: int, m2: int|
            #![trigger r@[k]@[m1], r@[k]@[m2]]
            0 <= k < r@.len() && 0 <= m1 < r@[k]@.len() && 0 <= m2 < r@[k]@.len()
                ==> mutually_reachable(graph_edge_set(*g), r@[k]@[m1] as int, r@[k]@[m2] as int),
        forall|k1: int, m1: int, k2: int, m2: int|
            #![trigger r@[k1]@[m1], r@[k2]@[m2]]
            0 <= k1 < r@.len() && 0 <= m1 < r@[k1]@.len() && 0 <= k2 < r@.len() && 0 <= m2
                < r@[k2]@.len() && k1 != k2 ==> !mutually_reachable(
                graph_edge_set(*g),
                r@[k1]@[m1] as int,
                r@[k2]@[m2] as int,
            ),
{
    petgraph::algo::tarjan_scc(g)
        .into_iter()
        .map(|component| component.into_iter().map(|ix| ix.index()).collect())
        .collect()
}

/// A nonempty finite set in which every element has a predecessor inside the
/// set forces a closed walk: this is what a stalled stage planner exhibits.
pub proof fn lemma_blocked_set_has_cycle(edges: Set<(int, int)>, u: Set<int>)
    requires
        u.finite(),
        exists|x: int| u.contains(x),
        forall|i: int| u.contains(i) ==> exists|j: int| u.contains(j) && edges.contains((j, i)),
    ensures
        !acyclic(edges),
{
    let w = build_pred_walk(edges, u, u.len() + 1);
    lemma_pigeonhole(u, w);
    let (t1, t2) = choose|t1: int, t2: int| 0 <= t1 < t2 < w.len() && w[t1] == w[t2];
    lemma_walk_reaches(edges, w, t1, t2 - 1);
    let v = w[t1];
    assert(edges.contains((w[(t2 - 1) + 1], w[t2 - 1])));
    assert(w[(t2 - 1) + 1] == w[t2]);
    assert(reaches(edges, w[t2 - 1], v));
    assert(reaches_plus(edges, v, v));
}

} // verus!
