//! Directed graphs of petgraph, seen through their node count and edge list,
//! and the facts about components and orderings that the mapper relies on.
use vstd::prelude::*;
use petgraph::graph::DiGraph;

verus! {

#[verifier::external_type_specification]
#[verifier::external_body]
#[verifier::reject_recursive_types(N)]
#[verifier::reject_recursive_types(E)]
#[verifier::reject_recursive_types(Ty)]
#[verifier::reject_recursive_types(Ix)]
pub struct ExGraph<N, E, Ty, Ix>(petgraph::graph::Graph<N, E, Ty, Ix>);

#[verifier::external_type_specification]
#[verifier::external_body]
pub struct ExDirected(petgraph::Directed);

/// Number of nodes of a graph.
pub uninterp spec fn node_total(g: DiGraph<usize, ()>) -> nat;

/// Edges of a graph, as (source, target) positions, in insertion order.
pub uninterp spec fn edge_list(g: DiGraph<usize, ()>) -> Seq<(usize, usize)>;

/// Largest node or edge count a graph with 32-bit indices can reach.
pub const INDEX_LIMIT: usize = 0xffff_fffe;

/// Relies on petgraph::graph::Graph::new: an empty graph.
#[verifier::external_body]
pub(crate) fn graph_new() -> (g: DiGraph<usize, ()>)
    ensures
        node_total(g) == 0,
        edge_list(g) == Seq::<(usize, usize)>::empty(),
{
    DiGraph::new()
}

/// Relies on petgraph::graph::Graph::add_node: the new node takes the next
/// position; it panics only when that position is the index type's end marker.
#[verifier::external_body]
pub(crate) fn graph_add_node(g: &mut DiGraph<usize, ()>, weight: usize) -> (r: usize)
    requires
        node_total(*old(g)) <= INDEX_LIMIT,
    ensures
        r == node_total(*old(g)),
        node_total(*final(g)) == node_total(*old(g)) + 1,
        edge_list(*final(g)) == edge_list(*old(g)),
{
    g.add_node(weight).index()
}

/// Relies on petgraph::graph::Graph::add_edge: appends the edge `a -> b`,
/// parallel edges included; it panics on a missing node or a full edge index.
#[verifier::external_body]
pub(crate) fn graph_add_edge(g: &mut DiGraph<usize, ()>, a: usize, b: usize)
    requires
        a < node_total(*old(g)),
        b < node_total(*old(g)),
        edge_list(*old(g)).len() <= INDEX_LIMIT,
    ensures
        node_total(*final(g)) == node_total(*old(g)),
        edge_list(*final(g)) == edge_list(*old(g)).push((a, b)),
{
    g.add_edge(petgraph::graph::NodeIndex::new(a), petgraph::graph::NodeIndex::new(b), ());
}

/// Relies on petgraph::graph::Graph::update_edge: adds the edge `a -> b`
/// unless the graph already has one.
#[verifier::external_body]
pub(crate) fn graph_update_edge(g: &mut DiGraph<usize, ()>, a: usize, b: usize)
    requires
        a < node_total(*old(g)),
        b < node_total(*old(g)),
        edge_list(*old(g)).len() <= INDEX_LIMIT,
    ensures
        node_total(*final(g)) == node_total(*old(g)),
        edge_list(*final(g)) == (if edge_list(*old(g)).contains((a, b)) {
            edge_list(*old(g))
        } else {
            edge_list(*old(g)).push((a, b))
        }),
{
    g.update_edge(petgraph::graph::NodeIndex::new(a), petgraph::graph::NodeIndex::new(b), ());
}

/// Component `c` of `sccs` holds node `v`.
pub open spec fn holds(sccs: Seq<Seq<usize>>, c: int, v: usize) -> bool {
    0 <= c < sccs.len() && sccs[c].contains(v)
}

/// Some component of `sccs` holds node `v`.
pub open spec fn placed(sccs: Seq<Seq<usize>>, v: usize) -> bool {
    exists|c: int| #[trigger] holds(sccs, c, v)
}

/// `sccs` splits the nodes `0..n` into non-empty groups, each node in exactly
/// one group at exactly one place.
pub open spec fn is_partition(sccs: Seq<Seq<usize>>, n: nat) -> bool {
    &&& forall|c: int| 0 <= c < sccs.len() ==> #[trigger] sccs[c].len() > 0
    &&& forall|c: int, k: int| 0 <= c < sccs.len() && 0 <= k < sccs[c].len() ==> #[trigger] sccs[c][k] < n
    &&& forall|v: usize| v < n ==> #[trigger] placed(sccs, v)
    &&& forall|c1: int, k1: int, c2: int, k2: int|
        0 <= c1 < sccs.len() && 0 <= k1 < sccs[c1].len() && 0 <= c2 < sccs.len() && 0 <= k2
            < sccs[c2].len() && #[trigger] sccs[c1][k1] == #[trigger] sccs[c2][k2] ==> c1 == c2 && k1 == k2
}

/// Every edge leads to a component listed no later than its source's.
pub open spec fn edges_descend(sccs: Seq<Seq<usize>>, edges: Seq<(usize, usize)>) -> bool {
    forall|e: (usize, usize), c1: int, c2: int|
        edges.contains(e) && #[trigger] holds(sccs, c1, e.0) && #[trigger] holds(sccs, c2, e.1) ==> c2 <= c1
}

/// `p` is a walk of one or more nodes along `edges`.
pub open spec fn is_path(edges: Seq<(usize, usize)>, p: Seq<usize>) -> bool {
    p.len() >= 1 && forall|i: int| 0 <= i < p.len() - 1 ==> #[trigger] edges.contains((p[i], p[i + 1]))
}

/// Some walk along `edges` leads from `u` to `v`; every node reaches itself.
pub open spec fn reaches(edges: Seq<(usize, usize)>, u: usize, v: usize) -> bool {
    exists|p: Seq<usize>| #[trigger] is_path(edges, p) && p[0] == u && p.last() == v
}

/// Two nodes share a group of `sccs` exactly when each reaches the other.
pub open spec fn groups_are_components(sccs: Seq<Seq<usize>>, edges: Seq<(usize, usize)>) -> bool {
    forall|c1: int, c2: int, u: usize, v: usize|
        #[trigger] holds(sccs, c1, u) && #[trigger] holds(sccs, c2, v) ==> (c1 == c2 <==> (reaches(
            edges,
            u,
            v,
        ) && reaches(edges, v, u)))
}

/// Relies on petgraph::algo::tarjan_scc: the strongly connected components,
/// which partition the nodes, listed in reverse topological order.
#[verifier::external_body]
pub(crate) fn strongly_connected(g: &DiGraph<usize, ()>) -> (r: Vec<Vec<usize>>)
    ensures
        is_partition(r.deep_view(), node_total(*g)),
        edges_descend(r.deep_view(), edge_list(*g)),
        groups_are_components(r.deep_view(), edge_list(*g)),
{
    petgraph::algo::tarjan_scc(g).into_iter().map(|c| c.into_iter().map(|v| v.index()).collect()).collect()
}

/// `order` lists each node of `0..n` once, every edge's source before its target.
pub open spec fn is_topological(order: Seq<usize>, n: nat, edges: Seq<(usize, usize)>) -> bool {
    &&& order.len() == n
    &&& forall|i: int| 0 <= i < order.len() ==> #[trigger] order[i] < n
    &&& forall|i: int, j: int| 0 <= i < j < order.len() ==> order[i] != order[j]
    &&& forall|e: (usize, usize), i: int, j: int|
        #![trigger edges.contains(e), order[i], order[j]]
        edges.contains(e) && 0 <= i < order.len() && 0 <= j < order.len() && order[i] == e.0
            && order[j] == e.1 ==> i < j
}

/// `rank` decreases strictly along every edge.
pub open spec fn ranks(edges: Seq<(usize, usize)>, rank: spec_fn(usize) -> int) -> bool {
    forall|e: (usize, usize)| #[trigger] edges.contains(e) ==> rank(e.0) > rank(e.1)
}

/// Some ranking of the nodes decreases strictly along every edge, that is,
/// the graph has no cycle.
pub open spec fn has_ranking(edges: Seq<(usize, usize)>) -> bool {
    exists|rank: spec_fn(usize) -> int| #[trigger] ranks(edges, rank)
}

/// Relies on petgraph::algo::toposort: a topological order of the nodes, or an
/// error exactly when the graph has a cycle.
#[verifier::external_body]
pub(crate) fn topological_order(g: &DiGraph<usize, ()>) -> (r: Result<Vec<usize>, ()>)
    ensures
        r matches Ok(order) ==> is_topological(order@, node_total(*g), edge_list(*g)),
        has_ranking(edge_list(*g)) ==> r is Ok,
{
    match petgraph::algo::toposort(g, None) {
        Ok(order) => Ok(order.into_iter().map(|v| v.index()).collect()),
        Err(_) => Err(()),
    }
}

/// Distinct values below `n` are at most `n` in number, and `n` of them are
/// all of `0..n`.
pub proof fn lemma_distinct_below(s: Seq<int>, n: int)
    requires
        0 <= n,
        s.no_duplicates(),
        forall|i: int| 0 <= i < s.len() ==> 0 <= #[trigger] s[i] < n,
    ensures
        s.len() <= n,
        s.len() == n ==> forall|v: int| 0 <= v < n ==> s.contains(v),
{
    s.unique_seq_to_set();
    vstd::set_lib::lemma_int_range(0, n);
    let range = vstd::set_lib::set_int_range(0, n);
    assert(s.to_set().subset_of(range));
    vstd::set_lib::lemma_len_subset(s.to_set(), range);
    if s.len() == n {
        vstd::set_lib::lemma_subset_equality(s.to_set(), range);
        assert forall|v: int| 0 <= v < n implies s.contains(v) by {
            assert(range.contains(v));
            assert(s.to_set().contains(v));
        }
    }
}

/// A partition of `0..n` has at most `n` groups.
pub proof fn lemma_partition_count(sccs: Seq<Seq<usize>>, n: nat)
    requires
        is_partition(sccs, n),
    ensures
        sccs.len() <= n,
{
    let firsts = Seq::new(sccs.len(), |c: int| sccs[c][0] as int);
    assert forall|i: int, j: int| 0 <= i < firsts.len() && 0 <= j < firsts.len() && i != j implies firsts[i] != firsts[j] by {
        assert(sccs[i].len() > 0);
        assert(sccs[j].len() > 0);
        if sccs[i][0] == sccs[j][0] {
            assert(i == j);
        }
    }
    assert forall|i: int| 0 <= i < firsts.len() implies 0 <= #[trigger] firsts[i] < n by {
        assert(sccs[i].len() > 0);
        assert(sccs[i][0] < n);
    }
    lemma_distinct_below(firsts, n as int);
}

/// A topological order of `0..n` holds every node.
pub proof fn lemma_order_covers(order: Seq<usize>, n: nat, edges: Seq<(usize, usize)>)
    requires
        is_topological(order, n, edges),
    ensures
        forall|v: usize| v < n ==> order.contains(v),
{
    let s = order.map_values(|x: usize| x as int);
    assert forall|i: int, j: int| 0 <= i < s.len() && 0 <= j < s.len() && i != j implies s[i] != s[j] by {
        if i < j {
            assert(order[i] != order[j]);
        } else {
            assert(order[j] != order[i]);
        }
    }
    assert forall|i: int| 0 <= i < s.len() implies 0 <= #[trigger] s[i] < n by {
        assert(order[i] < n);
    }
    lemma_distinct_below(s, n as int);
    assert forall|v: usize| v < n implies order.contains(v) by {
        assert(s.contains(v as int));
        let i = choose|i: int| 0 <= i < s.len() && s[i] == v as int;
        assert(order[i] == v);
    }
}

} // verus!
