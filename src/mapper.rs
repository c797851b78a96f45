//! The mapper: builds the call graph of the units, condenses its strongly
//! connected components into super-nodes, and orders them into build batches
//! in which every unit comes after what it calls.
use vstd::prelude::*;
use petgraph::graph::DiGraph;
use crate::graph::{
    edge_list, edges_descend, graph_add_edge, groups_are_components, graph_add_node, graph_new, graph_update_edge,
    has_ranking, holds, is_partition, is_topological, lemma_order_covers, lemma_partition_count,
    node_total, placed, ranks, strongly_connected, topological_order, INDEX_LIMIT,
};
use crate::unit::AtomicUnit;

verus! {

/// Position of the last element of `ids` equal to `d`.
pub open spec fn last_index(ids: Seq<Seq<char>>, d: Seq<char>) -> Option<int>
    decreases ids.len(),
{
    if ids.len() == 0 {
        None
    } else if ids.last() == d {
        Some(ids.len() - 1)
    } else {
        last_index(ids.drop_last(), d)
    }
}

/// The ids of `units`, in order.
pub open spec fn ids_of(units: Seq<AtomicUnit>) -> Seq<Seq<char>> {
    units.map_values(|u: AtomicUnit| u.id@)
}

/// Edges that the first `k` dependencies of unit `u` contribute: from the
/// node of `u`'s id to the node of each dependency that names a unit.
pub open spec fn unit_edges(units: Seq<AtomicUnit>, u: int, k: int) -> Seq<(usize, usize)>
    decreases k,
{
    if k <= 0 {
        Seq::empty()
    } else {
        let p = unit_edges(units, u, k - 1);
        match last_index(ids_of(units), units[u].dependencies.deep_view()[k - 1]) {
            Some(t) => p.push((last_index(ids_of(units), units[u].id@).unwrap() as usize, t as usize)),
            None => p,
        }
    }
}

/// Edges of the call graph contributed by the first `u` units, in order.
pub open spec fn graph_edges(units: Seq<AtomicUnit>, u: int) -> Seq<(usize, usize)>
    decreases u,
{
    if u <= 0 {
        Seq::empty()
    } else {
        graph_edges(units, u - 1) + unit_edges(units, u - 1, units[u - 1].dependencies.len() as int)
    }
}

/// Number of dependencies over all of the first `u` units.
pub open spec fn total_dependencies(units: Seq<AtomicUnit>, u: int) -> int
    decreases u,
{
    if u <= 0 {
        0
    } else {
        total_dependencies(units, u - 1) + units[u - 1].dependencies.len()
    }
}

proof fn lemma_last_index(ids: Seq<Seq<char>>, d: Seq<char>)
    ensures
        last_index(ids, d) matches Some(i) ==> 0 <= i < ids.len() && ids[i] == d,
        last_index(ids, d) is None <==> !ids.contains(d),
    decreases ids.len(),
{
    if ids.len() > 0 {
        lemma_last_index(ids.drop_last(), d);
        if ids.last() != d && ids.contains(d) {
            let i = choose|i: int| 0 <= i < ids.len() && ids[i] == d;
            assert(ids.drop_last()[i] == d);
        }
        if ids.drop_last().contains(d) {
            let i = choose|i: int| 0 <= i < ids.drop_last().len() && ids.drop_last()[i] == d;
            assert(ids[i] == d);
        }
    }
}

proof fn lemma_unit_edges_len(units: Seq<AtomicUnit>, u: int, k: int)
    ensures
        unit_edges(units, u, k).len() <= if k < 0 { 0 } else { k },
    decreases k,
{
    if k > 0 {
        lemma_unit_edges_len(units, u, k - 1);
    }
}

/// Position of the last unit whose id is `d`.
fn find_unit(units: &Vec<AtomicUnit>, d: &String) -> (r: Option<usize>)
    ensures
        r matches Some(i) ==> last_index(ids_of(units@), d@) == Some(i as int),
        r is None ==> last_index(ids_of(units@), d@) is None,
{
    let ghost ids = ids_of(units@);
    let mut i: usize = units.len();
    assert(ids.take(i as int) =~= ids);
    while i > 0
        invariant
            i <= units.len(),
            ids == ids_of(units@),
            last_index(ids, d@) == last_index(ids.take(i as int), d@),
        decreases i,
    {
        assert(ids.take(i as int).drop_last() == ids.take(i - 1));
        if units[i - 1].id == *d {
            return Some(i - 1);
        }
        i = i - 1;
    }
    None
}

/// The call graph of a set of units, with its strongly connected components.
pub struct DependencyGraph {
    /// Ids of the units, one node per unit.
    pub ids: Vec<String>,
    /// (caller, callee) node pairs, in insertion order.
    pub edges: Vec<(usize, usize)>,
    /// Strongly connected components, in reverse topological order.
    pub sccs: Vec<Vec<usize>>,
}

impl DependencyGraph {
    pub open spec fn wf(&self) -> bool {
        &&& self.ids.len() <= INDEX_LIMIT
        &&& self.edges.len() <= INDEX_LIMIT
        &&& forall|i: int| 0 <= i < self.edges.len() ==> #[trigger] self.edges@[i].0 < self.ids.len() && self.edges@[i].1 < self.ids.len()
        &&& is_partition(self.sccs.deep_view(), self.ids.len() as nat)
        &&& edges_descend(self.sccs.deep_view(), self.edges@)
        &&& groups_are_components(self.sccs.deep_view(), self.edges@)
    }

    /// Builds the call graph: one node per unit, and an edge from a unit to
    /// each of its dependencies that is the id of a unit. Dependencies that
    /// name no unit are dropped.
    pub fn build(units: &Vec<AtomicUnit>) -> (r: Self)
        requires
            units.len() <= INDEX_LIMIT,
            total_dependencies(units@, units.len() as int) <= INDEX_LIMIT,
        ensures
            r.wf(),
            r.ids.deep_view() == ids_of(units@),
            r.edges@ == graph_edges(units@, units.len() as int),
    {
        let mut g: DiGraph<usize, ()> = graph_new();
        let mut ids: Vec<String> = Vec::new();
        let n = units.len();
        let mut i: usize = 0;
        while i < n
            invariant
                i <= n == units.len() <= INDEX_LIMIT,
                node_total(g) == i,
                edge_list(g) == Seq::<(usize, usize)>::empty(),
                ids.deep_view() == ids_of(units@).take(i as int),
            decreases n - i,
        {
            graph_add_node(&mut g, i);
            let ghost before = ids.deep_view();
            ids.push(units[i].id.clone());
            assert(ids.deep_view() =~= before.push(units@[i as int].id@));
            i = i + 1;
            assert(ids.deep_view() =~= ids_of(units@).take(i as int));
        }
        assert(ids_of(units@).take(n as int) =~= ids_of(units@));
        let ghost all_ids = ids_of(units@);
        let mut edges: Vec<(usize, usize)> = Vec::new();
        let mut u: usize = 0;
        while u < n
            invariant
                u <= n == units.len() <= INDEX_LIMIT,
                all_ids == ids_of(units@),
                total_dependencies(units@, units.len() as int) <= INDEX_LIMIT,
                node_total(g) == n,
                edge_list(g) == edges@,
                edges@ == graph_edges(units@, u as int),
                edges.len() <= total_dependencies(units@, u as int),
                forall|e: int| 0 <= e < edges.len() ==> #[trigger] edges@[e].0 < n && edges@[e].1 < n,
            decreases n - u,
        {
            proof {
                lemma_total_mono(units@, u as int + 1, units.len() as int);
            }
            let from = find_unit(units, &units[u].id);
            proof {
                lemma_last_index(all_ids, units@[u as int].id@);
                assert(all_ids[u as int] == units@[u as int].id@);
            }
            let from = from.unwrap();
            let deps = &units[u].dependencies;
            let ghost start = edges@;
            let mut k: usize = 0;
            while k < deps.len()
                invariant
                    u < n == units.len() <= INDEX_LIMIT,
                    all_ids == ids_of(units@),
                    deps == units@[u as int].dependencies,
                    from < n,
                    last_index(all_ids, units@[u as int].id@) == Some(from as int),
                    total_dependencies(units@, u + 1) <= INDEX_LIMIT,
                    start.len() <= total_dependencies(units@, u as int),
                    k <= deps.len(),
                    node_total(g) == n,
                    edge_list(g) == edges@,
                    edges@ == start + unit_edges(units@, u as int, k as int),
                    forall|e: int| 0 <= e < edges.len() ==> #[trigger] edges@[e].0 < n && edges@[e].1 < n,
                decreases deps.len() - k,
            {
                proof {
                    lemma_unit_edges_len(units@, u as int, k as int);
                }
                match find_unit(units, &deps[k]) {
                    Some(t) => {
                        proof {
                            lemma_last_index(all_ids, deps.deep_view()[k as int]);
                        }
                        graph_add_edge(&mut g, from, t);
                        edges.push((from, t));
                        assert(edges@ =~= start + unit_edges(units@, u as int, k + 1));
                    },
                    None => {},
                }
                k = k + 1;
            }
            proof {
                lemma_unit_edges_len(units@, u as int, deps.len() as int);
                assert(graph_edges(units@, u + 1) == graph_edges(units@, u as int) + unit_edges(units@, u as int, deps.len() as int));
            }
            u = u + 1;
        }
        let sccs = strongly_connected(&g);
        DependencyGraph { ids, edges, sccs }
    }
}

proof fn lemma_total_mono(units: Seq<AtomicUnit>, a: int, b: int)
    requires
        0 <= a <= b,
    ensures
        total_dependencies(units, a) <= total_dependencies(units, b),
    decreases b - a,
{
    if a < b {
        lemma_total_mono(units, a, b - 1);
    }
}

/// How hard a super-node is to refactor, by its size.
#[derive(Clone, Copy, Debug, PartialEq, Eq, Structural)]
pub enum Difficulty {
    Low,
    Medium,
    High,
    VeryHigh,
}

/// The difficulty tag of a batch of `size` units: none for a single unit,
/// `Low` up to 5, `Medium` up to 10, `High` up to 20, `VeryHigh` above.
pub open spec fn difficulty_for(size: int) -> Option<Difficulty> {
    if size > 20 {
        Some(Difficulty::VeryHigh)
    } else if size > 10 {
        Some(Difficulty::High)
    } else if size > 5 {
        Some(Difficulty::Medium)
    } else if size > 1 {
        Some(Difficulty::Low)
    } else {
        None
    }
}

/// Label of a difficulty, as written in build orders.
pub open spec fn difficulty_label(d: Difficulty) -> Seq<char> {
    match d {
        Difficulty::Low => "Low"@,
        Difficulty::Medium => "Medium"@,
        Difficulty::High => "High"@,
        Difficulty::VeryHigh => "Very High"@,
    }
}

impl Difficulty {
    /// The tag for a batch of `size` units.
    pub fn for_size(size: usize) -> (r: Option<Difficulty>)
        ensures
            r == difficulty_for(size as int),
    {
        if size > 20 {
            Some(Difficulty::VeryHigh)
        } else if size > 10 {
            Some(Difficulty::High)
        } else if size > 5 {
            Some(Difficulty::Medium)
        } else if size > 1 {
            Some(Difficulty::Low)
        } else {
            None
        }
    }

    pub fn label(&self) -> (r: String)
        ensures
            r@ == difficulty_label(*self),
    {
        match self {
            Difficulty::Low => "Low".to_owned(),
            Difficulty::Medium => "Medium".to_owned(),
            Difficulty::High => "High".to_owned(),
            Difficulty::VeryHigh => "Very High".to_owned(),
        }
    }
}

/// One step of the build order: a component of the call graph.
pub struct BuildOrderBatch {
    /// Ids of the units of the batch.
    pub units: Vec<String>,
    /// Positions of those units in the input.
    pub members: Vec<usize>,
    /// Whether the batch holds more than one unit.
    pub is_super_node: bool,
    /// Size of the component, for super-nodes.
    pub scc_size: Option<usize>,
    /// Refactoring difficulty, for super-nodes.
    pub refactoring_difficulty: Option<Difficulty>,
}

/// Totals over a build order.
pub struct BuildMetadata {
    pub total_units: usize,
    pub total_batches: usize,
    pub super_nodes: usize,
    pub largest_super_node: usize,
}

/// Batches in build order, with their totals.
pub struct BuildOrder {
    pub metadata: BuildMetadata,
    pub batches: Vec<BuildOrderBatch>,
}

/// A batch carries the marks its size calls for.
pub open spec fn batch_marked(b: BuildOrderBatch) -> bool {
    &&& b.is_super_node == (b.units.len() > 1)
    &&& b.scc_size == (if b.units.len() > 1 { Some(b.units.len() as usize) } else { None })
    &&& b.refactoring_difficulty == difficulty_for(b.units.len() as int)
}

/// Unit positions of each batch.
pub open spec fn batch_members(bs: Seq<BuildOrderBatch>) -> Seq<Seq<usize>> {
    bs.map_values(|b: BuildOrderBatch| b.members@)
}

/// Number of super-nodes among `bs`.
pub open spec fn count_super(bs: Seq<BuildOrderBatch>) -> nat
    decreases bs.len(),
{
    if bs.len() == 0 {
        0
    } else {
        count_super(bs.drop_last()) + if bs.last().units.len() > 1 { 1nat } else { 0nat }
    }
}

/// Size of the largest super-node among `bs`, or 0.
pub open spec fn largest_super(bs: Seq<BuildOrderBatch>) -> nat
    decreases bs.len(),
{
    if bs.len() == 0 {
        0
    } else {
        let p = largest_super(bs.drop_last());
        let n = bs.last().units.len() as nat;
        if n > 1 && n > p {
            n
        } else {
            p
        }
    }
}

/// Every caller's batch comes no earlier than its callee's.
pub open spec fn respects_edges(bs: Seq<BuildOrderBatch>, edges: Seq<(usize, usize)>) -> bool {
    edges_descend(batch_members(bs), edges)
}

impl DependencyGraph {
    /// Position of the component holding each node.
    fn component_index(&self) -> (comp: Vec<usize>)
        requires
            self.wf(),
        ensures
            comp.len() == self.ids.len(),
            forall|v: usize| v < self.ids.len() ==> #[trigger] holds(self.sccs.deep_view(), comp@[v as int] as int, v),
    {
        let ghost sc = self.sccs.deep_view();
        let n = self.ids.len();
        let mut comp: Vec<usize> = Vec::new();
        let mut i: usize = 0;
        while i < n
            invariant
                i <= n,
                comp.len() == i,
            decreases n - i,
        {
            comp.push(0);
            i = i + 1;
        }
        let mut c: usize = 0;
        while c < self.sccs.len()
            invariant
                self.wf(),
                sc == self.sccs.deep_view(),
                n == self.ids.len(),
                comp.len() == n,
                c <= self.sccs.len(),
                forall|c2: int, k2: int| 0 <= c2 < c && 0 <= k2 < sc[c2].len() ==> comp@[#[trigger] sc[c2][k2] as int] == c2,
            decreases self.sccs.len() - c,
        {
            let mut k: usize = 0;
            while k < self.sccs[c].len()
                invariant
                    self.wf(),
                    sc == self.sccs.deep_view(),
                    n == self.ids.len(),
                    comp.len() == n,
                    c < self.sccs.len(),
                    k <= self.sccs[c as int].len(),
                    forall|c2: int, k2: int| 0 <= c2 < c && 0 <= k2 < sc[c2].len() ==> comp@[#[trigger] sc[c2][k2] as int] == c2,
                    forall|k2: int| 0 <= k2 < k ==> comp@[#[trigger] sc[c as int][k2] as int] == c,
                decreases self.sccs[c as int].len() - k,
            {
                let v = self.sccs[c][k];
                assert(sc[c as int][k as int] == v);
                comp.set(v, c);
                proof {
                    assert forall|c2: int, k2: int| 0 <= c2 < c && 0 <= k2 < sc[c2].len() implies comp@[#[trigger] sc[c2][k2] as int] == c2 by {
                        if sc[c2][k2] == v {
                            assert(c2 == c);
                        }
                    }
                    assert forall|k2: int| 0 <= k2 < k + 1 implies comp@[#[trigger] sc[c as int][k2] as int] == c by {
                        if k2 < k && sc[c as int][k2] == v {
                            assert(k2 == k);
                        }
                    }
                }
                k = k + 1;
            }
            c = c + 1;
        }
        proof {
            assert forall|v: usize| v < n implies #[trigger] holds(sc, comp@[v as int] as int, v) by {
                assert(placed(sc, v));
                let c2 = choose|c2: int| #[trigger] holds(sc, c2, v);
                let k2 = choose|k2: int| 0 <= k2 < sc[c2].len() && sc[c2][k2] == v;
                assert(comp@[sc[c2][k2] as int] == c2);
            }
        }
        comp
    }

    /// The batched build order: one batch per strongly connected component,
    /// every callee's batch before its callers' unless they share one.
    pub fn build_order(&self) -> (r: BuildOrder)
        requires
            self.wf(),
        ensures
            r.batches.len() == self.sccs.len(),
            is_partition(batch_members(r.batches@), self.ids.len() as nat),
            respects_edges(r.batches@, self.edges@),
            groups_are_components(batch_members(r.batches@), self.edges@),
            forall|b: int| 0 <= b < r.batches.len() ==> {
                let batch = #[trigger] r.batches@[b];
                &&& batch.units.len() == batch.members.len()
                &&& forall|k: int| 0 <= k < batch.units.len() ==> batch.units@[k]@ == self.ids@[batch.members@[k] as int]@
                &&& batch_marked(batch)
            },
            r.metadata.total_units == self.ids.len(),
            r.metadata.total_batches == r.batches.len(),
            r.metadata.super_nodes == count_super(r.batches@),
            r.metadata.largest_super_node == largest_super(r.batches@),
    {
        let ghost sc = self.sccs.deep_view();
        let n = self.ids.len();
        let count = self.sccs.len();
        proof {
            lemma_partition_count(sc, n as nat);
        }
        let comp = self.component_index();
        let mut cond: DiGraph<usize, ()> = graph_new();
        let mut c: usize = 0;
        while c < count
            invariant
                c <= count <= n <= INDEX_LIMIT,
                node_total(cond) == c,
                edge_list(cond) == Seq::<(usize, usize)>::empty(),
            decreases count - c,
        {
            graph_add_node(&mut cond, c);
            c = c + 1;
        }
        let mut i: usize = 0;
        while i < self.edges.len()
            invariant
                self.wf(),
                sc == self.sccs.deep_view(),
                n == self.ids.len(),
                count == self.sccs.len(),
                comp.len() == n,
                forall|v: usize| v < n ==> #[trigger] holds(sc, comp@[v as int] as int, v),
                i <= self.edges.len(),
                node_total(cond) == count,
                edge_list(cond).len() <= i,
                forall|e: (usize, usize)| #[trigger] edge_list(cond).contains(e) ==> e.1 < e.0 < count,
                forall|j: int| 0 <= j < i ==> {
                    let e = #[trigger] self.edges@[j];
                    comp@[e.0 as int] != comp@[e.1 as int] ==> edge_list(cond).contains((comp@[e.0 as int], comp@[e.1 as int]))
                },
            decreases self.edges.len() - i,
        {
            let (u, v) = self.edges[i];
            assert(self.edges@[i as int].0 < n && self.edges@[i as int].1 < n);
            let cu = comp[u];
            let cv = comp[v];
            if cu != cv {
                proof {
                    assert(holds(sc, cu as int, u));
                    assert(holds(sc, cv as int, v));
                    assert(self.edges@.contains((u, v)));
                }
                let ghost before = edge_list(cond);
                graph_update_edge(&mut cond, cu, cv);
                proof {
                    assert forall|e: (usize, usize)| #[trigger] edge_list(cond).contains(e) implies e.1 < e.0 < count by {
                        if !before.contains(e) {
                            let x = choose|x: int| 0 <= x < edge_list(cond).len() && edge_list(cond)[x] == e;
                            assert(x == before.len());
                        }
                    }
                    assert forall|j: int| 0 <= j < i + 1 implies {
                        let e = #[trigger] self.edges@[j];
                        comp@[e.0 as int] != comp@[e.1 as int] ==> edge_list(cond).contains((comp@[e.0 as int], comp@[e.1 as int]))
                    } by {
                        let e = self.edges@[j];
                        if j < i && comp@[e.0 as int] != comp@[e.1 as int] {
                            let x = choose|x: int| 0 <= x < before.len() && before[x] == (comp@[e.0 as int], comp@[e.1 as int]);
                            assert(edge_list(cond)[x] == before[x]);
                        }
                        if j == i && !before.contains((cu, cv)) {
                            assert(edge_list(cond)[before.len() as int] == (cu, cv));
                        }
                    }
                }
            }
            i = i + 1;
        }
        let ghost cedges = edge_list(cond);
        proof {
            let rank = |x: usize| x as int;
            assert(ranks(cedges, rank));
            assert(has_ranking(cedges));
        }
        let order = match topological_order(&cond) {
            Ok(o) => o,
            Err(()) => {
                proof {
                    assert(false);
                }
                Vec::new()
            },
        };
        proof {
            lemma_order_covers(order@, count as nat, cedges);
        }
        let mut batches: Vec<BuildOrderBatch> = Vec::new();
        let mut super_nodes: usize = 0;
        let mut largest: usize = 0;
        let mut b: usize = 0;
        while b < count
            invariant
                self.wf(),
                sc == self.sccs.deep_view(),
                n == self.ids.len(),
                count == self.sccs.len(),
                is_topological(order@, count as nat, cedges),
                b <= count,
                batches.len() == b,
                super_nodes == count_super(batches@),
                largest == largest_super(batches@),
                super_nodes <= b,
                largest <= n,
                forall|x: int| 0 <= x < b ==> {
                    let batch = #[trigger] batches@[x];
                    &&& batch.members@ == sc[order@[count - 1 - x] as int]
                    &&& batch.units.len() == batch.members.len()
                    &&& forall|k: int| 0 <= k < batch.units.len() ==> batch.units@[k]@ == self.ids@[batch.members@[k] as int]@
                    &&& batch_marked(batch)
                },
            decreases count - b,
        {
            let c = order[count - 1 - b];
            let scc = &self.sccs[c];
            let mut members: Vec<usize> = Vec::new();
            let mut units: Vec<String> = Vec::new();
            let mut k: usize = 0;
            while k < scc.len()
                invariant
                    self.wf(),
                    sc == self.sccs.deep_view(),
                    n == self.ids.len(),
                    c < count == self.sccs.len(),
                    scc == self.sccs@[c as int],
                    k <= scc.len(),
                    members@ == sc[c as int].take(k as int),
                    units.len() == k,
                    forall|j: int| 0 <= j < k ==> units@[j]@ == self.ids@[members@[j] as int]@,
                decreases scc.len() - k,
            {
                let v = scc[k];
                assert(sc[c as int][k as int] == v);
                assert(v < n);
                members.push(v);
                units.push(self.ids[v].clone());
                k = k + 1;
                assert(members@ =~= sc[c as int].take(k as int));
            }
            assert(sc[c as int].take(scc.len() as int) =~= sc[c as int]);
            let size = units.len();
            proof {
                assert(size == sc[c as int].len());
                assert(size <= n) by {
                    let s = sc[c as int].map_values(|x: usize| x as int);
                    assert forall|i: int, j: int| 0 <= i < s.len() && 0 <= j < s.len() && i != j implies s[i] != s[j] by {
                        if sc[c as int][i] == sc[c as int][j] {
                            assert(i == j);
                        }
                    }
                    assert forall|i: int| 0 <= i < s.len() implies 0 <= #[trigger] s[i] < n by {
                        assert(sc[c as int][i] < n);
                    }
                    crate::graph::lemma_distinct_below(s, n as int);
                }
            }
            let is_super = size > 1;
            let batch = BuildOrderBatch {
                units,
                members,
                is_super_node: is_super,
                scc_size: if is_super { Some(size) } else { None },
                refactoring_difficulty: Difficulty::for_size(size),
            };
            let ghost before = batches@;
            batches.push(batch);
            proof {
                assert(batches@.drop_last() == before);
            }
            if is_super {
                super_nodes = super_nodes + 1;
                if size > largest {
                    largest = size;
                }
            }
            b = b + 1;
        }
        proof {
            self.lemma_batches_sound(batches@, order@, cedges, comp@);
        }
        BuildOrder {
            metadata: BuildMetadata {
                total_units: n,
                total_batches: count,
                super_nodes,
                largest_super_node: largest,
            },
            batches,
        }
    }

    proof fn lemma_batches_sound(
        &self,
        batches: Seq<BuildOrderBatch>,
        order: Seq<usize>,
        cedges: Seq<(usize, usize)>,
        comp: Seq<usize>,
    )
        requires
            self.wf(),
            batches.len() == self.sccs.len(),
            is_topological(order, self.sccs.len() as nat, cedges),
            comp.len() == self.ids.len(),
            forall|v: usize| v < self.ids.len() ==> #[trigger] holds(self.sccs.deep_view(), comp[v as int] as int, v),
            forall|j: int| 0 <= j < self.edges.len() ==> {
                let e = #[trigger] self.edges@[j];
                comp[e.0 as int] != comp[e.1 as int] ==> cedges.contains((comp[e.0 as int], comp[e.1 as int]))
            },
            forall|x: int| 0 <= x < batches.len() ==> (#[trigger] batches[x]).members@ == self.sccs.deep_view()[order[
                self.sccs.len() - 1 - x] as int],
        ensures
            is_partition(batch_members(batches), self.ids.len() as nat),
            respects_edges(batches, self.edges@),
            groups_are_components(batch_members(batches), self.edges@),
    {
        let sc = self.sccs.deep_view();
        let n = self.ids.len() as nat;
        let count = self.sccs.len() as int;
        let bm = batch_members(batches);
        lemma_order_covers(order, count as nat, cedges);
        assert forall|x: int| 0 <= x < bm.len() implies #[trigger] bm[x] == sc[order[count - 1 - x] as int] by {
            assert(bm[x] == batches[x].members@);
        }
        assert forall|c: int| 0 <= c < bm.len() implies #[trigger] bm[c].len() > 0 by {
            assert(bm[c] == sc[order[count - 1 - c] as int]);
        }
        assert forall|c: int, k: int| 0 <= c < bm.len() && 0 <= k < bm[c].len() implies #[trigger] bm[c][k] < n by {
            assert(bm[c] == sc[order[count - 1 - c] as int]);
        }
        assert forall|v: usize| v < n implies #[trigger] placed(bm, v) by {
            let c = comp[v as int];
            assert(holds(sc, c as int, v));
            assert(order.contains(c));
            let i = choose|i: int| 0 <= i < order.len() && order[i] == c;
            let x = count - 1 - i;
            assert(bm[x] == sc[order[i] as int]);
            assert(holds(bm, x, v));
        }
        assert forall|c1: int, k1: int, c2: int, k2: int|
            0 <= c1 < bm.len() && 0 <= k1 < bm[c1].len() && 0 <= c2 < bm.len() && 0 <= k2
                < bm[c2].len() && #[trigger] bm[c1][k1] == #[trigger] bm[c2][k2] implies c1 == c2 && k1 == k2 by {
            let o1 = order[count - 1 - c1] as int;
            let o2 = order[count - 1 - c2] as int;
            assert(bm[c1] == sc[o1]);
            assert(bm[c2] == sc[o2]);
            assert(sc[o1][k1] == sc[o2][k2]);
            assert(o1 == o2);
            if c1 != c2 {
                if c1 < c2 {
                    assert(order[count - 1 - c2] != order[count - 1 - c1]);
                } else {
                    assert(order[count - 1 - c1] != order[count - 1 - c2]);
                }
            }
        }
        assert forall|e: (usize, usize), b1: int, b2: int|
            self.edges@.contains(e) && #[trigger] holds(bm, b1, e.0) && #[trigger] holds(bm, b2, e.1) implies b2 <= b1 by {
            let j = choose|j: int| 0 <= j < self.edges.len() && self.edges@[j] == e;
            assert(e.0 < n && e.1 < n);
            let o1 = order[count - 1 - b1] as int;
            let o2 = order[count - 1 - b2] as int;
            assert(bm[b1] == sc[o1]);
            assert(bm[b2] == sc[o2]);
            assert(holds(sc, o1, e.0));
            assert(holds(sc, o2, e.1));
            let ku = choose|k: int| 0 <= k < sc[o1].len() && sc[o1][k] == e.0;
            let cc = comp[e.0 as int] as int;
            assert(holds(sc, cc, e.0));
            let kc = choose|k: int| 0 <= k < sc[cc].len() && sc[cc][k] == e.0;
            assert(sc[o1][ku] == sc[cc][kc]);
            assert(o1 == cc);
            let kv = choose|k: int| 0 <= k < sc[o2].len() && sc[o2][k] == e.1;
            let cd = comp[e.1 as int] as int;
            assert(holds(sc, cd, e.1));
            let kd = choose|k: int| 0 <= k < sc[cd].len() && sc[cd][k] == e.1;
            assert(sc[o2][kv] == sc[cd][kd]);
            assert(o2 == cd);
            if o1 != o2 {
                assert(cedges.contains((o1 as usize, o2 as usize)));
                let i1 = count - 1 - b1;
                let i2 = count - 1 - b2;
                assert(order[i1] == (o1 as usize, o2 as usize).0);
                assert(order[i2] == (o1 as usize, o2 as usize).1);
                assert(i1 < i2);
            } else if b1 != b2 {
                let i1 = count - 1 - b1;
                let i2 = count - 1 - b2;
                if i1 < i2 {
                    assert(order[i1] != order[i2]);
                } else {
                    assert(order[i2] != order[i1]);
                }
            }
        }
        assert forall|b1: int, b2: int, u: usize, v: usize|
            #[trigger] holds(bm, b1, u) && #[trigger] holds(bm, b2, v) implies (b1 == b2 <==> (crate::graph::reaches(
                self.edges@,
                u,
                v,
            ) && crate::graph::reaches(self.edges@, v, u))) by {
            let i1 = count - 1 - b1;
            let i2 = count - 1 - b2;
            let o1 = order[i1] as int;
            let o2 = order[i2] as int;
            assert(bm[b1] == sc[o1]);
            assert(bm[b2] == sc[o2]);
            assert(holds(sc, o1, u));
            assert(holds(sc, o2, v));
            if b1 != b2 {
                if i1 < i2 {
                    assert(order[i1] != order[i2]);
                } else {
                    assert(order[i2] != order[i1]);
                }
            }
        }
    }
}

/// No two units share an id.
pub open spec fn ids_distinct(units: Seq<AtomicUnit>) -> bool {
    forall|i: int, j: int| 0 <= i < j < units.len() ==> units[i].id@ != units[j].id@
}

/// `bs` is the build order that the mapper gives for `units`: a partition of
/// the unit positions into batches, each batch naming its units by id, each
/// marked by its size, and no batch before a batch it calls into.
pub open spec fn is_build_order(units: Seq<AtomicUnit>, bs: Seq<BuildOrderBatch>) -> bool {
    &&& is_partition(batch_members(bs), units.len() as nat)
    &&& respects_edges(bs, graph_edges(units, units.len() as int))
    &&& groups_are_components(batch_members(bs), graph_edges(units, units.len() as int))
    &&& forall|b: int| 0 <= b < bs.len() ==> {
        let batch = #[trigger] bs[b];
        &&& batch.units.len() == batch.members.len()
        &&& forall|k: int| 0 <= k < batch.units.len() ==> batch.units@[k]@ == units[batch.members@[k] as int].id@
        &&& batch_marked(batch)
    }
}

/// Orders `units` into build batches: builds the call graph, finds its
/// strongly connected components, and emits them callees first.
pub fn map_units(units: &Vec<AtomicUnit>) -> (r: BuildOrder)
    requires
        units.len() <= INDEX_LIMIT,
        total_dependencies(units@, units.len() as int) <= INDEX_LIMIT,
    ensures
        is_build_order(units@, r.batches@),
        r.metadata.total_units == units.len(),
        r.metadata.total_batches == r.batches.len(),
        r.metadata.super_nodes == count_super(r.batches@),
        r.metadata.largest_super_node == largest_super(r.batches@),
{
    let g = DependencyGraph::build(units);
    let r = g.build_order();
    proof {
        assert forall|b: int| 0 <= b < r.batches.len() implies {
            let batch = #[trigger] r.batches@[b];
            &&& batch.units.len() == batch.members.len()
            &&& forall|k: int| 0 <= k < batch.units.len() ==> batch.units@[k]@ == units@[batch.members@[k] as int].id@
            &&& batch_marked(batch)
        } by {
            let batch = r.batches@[b];
            assert forall|k: int| 0 <= k < batch.units.len() implies batch.units@[k]@ == units@[batch.members@[k] as int].id@ by {
                let m = batch.members@[k] as int;
                assert(holds(batch_members(r.batches@), b, batch.members@[k]));
                assert(batch_members(r.batches@)[b][k] == batch.members@[k]);
                assert(g.ids.deep_view()[m] == g.ids@[m]@);
            }
        }
    }
    r
}

proof fn lemma_unit_edge_present(units: Seq<AtomicUnit>, u: int, k: int, j: int)
    requires
        0 <= j < k <= units[u].dependencies.len(),
        last_index(ids_of(units), units[u].dependencies.deep_view()[j]) is Some,
    ensures
        unit_edges(units, u, k).contains(
            (
                last_index(ids_of(units), units[u].id@).unwrap() as usize,
                last_index(ids_of(units), units[u].dependencies.deep_view()[j]).unwrap() as usize,
            ),
        ),
    decreases k,
{
    let e = (
        last_index(ids_of(units), units[u].id@).unwrap() as usize,
        last_index(ids_of(units), units[u].dependencies.deep_view()[j]).unwrap() as usize,
    );
    let p = unit_edges(units, u, k - 1);
    if j == k - 1 {
        assert(unit_edges(units, u, k).last() == e);
    } else {
        lemma_unit_edge_present(units, u, k - 1, j);
        let x = choose|x: int| 0 <= x < p.len() && p[x] == e;
        match last_index(ids_of(units), units[u].dependencies.deep_view()[k - 1]) {
            Some(t) => assert(unit_edges(units, u, k)[x] == e),
            None => {},
        }
    }
}

proof fn lemma_graph_edge_present(units: Seq<AtomicUnit>, n: int, u: int, j: int)
    requires
        0 <= u < n <= units.len(),
        0 <= j < units[u].dependencies.len(),
        last_index(ids_of(units), units[u].dependencies.deep_view()[j]) is Some,
    ensures
        graph_edges(units, n).contains(
            (
                last_index(ids_of(units), units[u].id@).unwrap() as usize,
                last_index(ids_of(units), units[u].dependencies.deep_view()[j]).unwrap() as usize,
            ),
        ),
    decreases n,
{
    let e = (
        last_index(ids_of(units), units[u].id@).unwrap() as usize,
        last_index(ids_of(units), units[u].dependencies.deep_view()[j]).unwrap() as usize,
    );
    let p = graph_edges(units, n - 1);
    let q = unit_edges(units, n - 1, units[n - 1].dependencies.len() as int);
    if u == n - 1 {
        lemma_unit_edge_present(units, u, units[u].dependencies.len() as int, j);
        let x = choose|x: int| 0 <= x < q.len() && q[x] == e;
        assert((p + q)[p.len() + x] == e);
    } else {
        lemma_graph_edge_present(units, n - 1, u, j);
        let x = choose|x: int| 0 <= x < p.len() && p[x] == e;
        assert((p + q)[x] == e);
    }
}

proof fn lemma_last_index_distinct(units: Seq<AtomicUnit>, u: int)
    requires
        ids_distinct(units),
        0 <= u < units.len(),
    ensures
        last_index(ids_of(units), units[u].id@) == Some(u),
{
    let ids = ids_of(units);
    lemma_last_index(ids, units[u].id@);
    assert(ids[u] == units[u].id@);
    let i = last_index(ids, units[u].id@).unwrap();
    if i != u {
        if i < u {
            assert(units[i].id@ != units[u].id@);
        } else {
            assert(units[u].id@ != units[i].id@);
        }
    }
}

/// Ordering of a build order: when ids are distinct, every dependency of a
/// unit that is the id of a unit lies in the unit's own batch or in an
/// earlier one.
pub proof fn lemma_dependencies_built_first(
    units: Seq<AtomicUnit>,
    bs: Seq<BuildOrderBatch>,
    b: int,
    k: int,
    j: int,
)
    requires
        ids_distinct(units),
        is_build_order(units, bs),
        0 <= b < bs.len(),
        0 <= k < bs[b].members.len(),
        units.len() <= usize::MAX,
        0 <= j < units[bs[b].members@[k] as int].dependencies.len(),
        ids_of(units).contains(units[bs[b].members@[k] as int].dependencies.deep_view()[j]),
    ensures
        exists|b2: int, k2: int|
            0 <= b2 <= b && 0 <= k2 < bs[b2].units.len() && #[trigger] bs[b2].units@[k2]@
                == units[bs[b].members@[k] as int].dependencies.deep_view()[j],
{
    let bm = batch_members(bs);
    let n = units.len();
    let u = bs[b].members@[k] as int;
    let d = units[u].dependencies.deep_view()[j];
    assert(bm[b] == bs[b].members@);
    assert(bm[b][k] < n);
    lemma_last_index(ids_of(units), d);
    lemma_last_index_distinct(units, u);
    let t = last_index(ids_of(units), d).unwrap();
    lemma_graph_edge_present(units, n as int, u, j);
    assert(0 <= t < ids_of(units).len());
    let e = (u as usize, t as usize);
    assert(e.1 as int == t);
    assert(holds(bm, b, e.0)) by {
        assert(bm[b][k] == e.0);
    }
    assert(placed(bm, e.1));
    let b2 = choose|b2: int| #[trigger] holds(bm, b2, e.1);
    assert(b2 <= b);
    let k2 = choose|k2: int| 0 <= k2 < bm[b2].len() && bm[b2][k2] == e.1;
    assert(bm[b2] == bs[b2].members@);
    let batch = bs[b2];
    assert(batch.units.len() == batch.members.len());
    assert(batch.members@[k2] == t);
    assert(bs[b2].units@[k2]@ == units[t].id@);
    assert(ids_of(units)[t] == units[t].id@);
}

/// Unit positions of the first `b` batches, batch after batch.
pub open spec fn members_flat(bs: Seq<BuildOrderBatch>, b: int) -> Seq<usize>
    decreases b,
{
    if b <= 0 {
        Seq::empty()
    } else {
        members_flat(bs, b - 1) + bs[b - 1].members@
    }
}

/// Unit ids of the first `b` batches, batch after batch.
pub open spec fn ids_flat(bs: Seq<BuildOrderBatch>, b: int) -> Seq<Seq<char>>
    decreases b,
{
    if b <= 0 {
        Seq::empty()
    } else {
        ids_flat(bs, b - 1) + bs[b - 1].units.deep_view()
    }
}

/// The ids at positions `ps` of `units`.
pub open spec fn ids_at(units: Seq<AtomicUnit>, ps: Seq<usize>) -> Seq<Seq<char>> {
    ps.map_values(|p: usize| units[p as int].id@)
}

proof fn lemma_ids_flat(units: Seq<AtomicUnit>, bs: Seq<BuildOrderBatch>, b: int)
    requires
        is_build_order(units, bs),
        0 <= b <= bs.len(),
    ensures
        ids_flat(bs, b) == ids_at(units, members_flat(bs, b)),
    decreases b,
{
    if b > 0 {
        lemma_ids_flat(units, bs, b - 1);
        let batch = bs[b - 1];
        assert(batch.units.len() == batch.members.len());
        assert(batch.units.deep_view() =~= ids_at(units, batch.members@)) by {
            assert forall|k: int| 0 <= k < batch.units.len() implies batch.units.deep_view()[k] == ids_at(units, batch.members@)[k] by {
                assert(batch.units@[k]@ == units[batch.members@[k] as int].id@);
            }
        }
        assert(ids_at(units, members_flat(bs, b - 1) + batch.members@) =~= ids_at(units, members_flat(bs, b - 1))
            + ids_at(units, batch.members@));
    }
}

proof fn lemma_members_flat(bs: Seq<BuildOrderBatch>, n: nat, b: int)
    requires
        is_partition(batch_members(bs), n),
        0 <= b <= bs.len(),
    ensures
        members_flat(bs, b).no_duplicates(),
        forall|i: int| 0 <= i < members_flat(bs, b).len() ==> #[trigger] members_flat(bs, b)[i] < n,
        forall|v: usize| #[trigger] members_flat(bs, b).contains(v) <==> exists|c: int| 0 <= c < b && #[trigger] holds(batch_members(bs), c, v),
    decreases b,
{
    let bm = batch_members(bs);
    if b > 0 {
        lemma_members_flat(bs, n, b - 1);
        let p = members_flat(bs, b - 1);
        let m = bs[b - 1].members@;
        assert(bm[b - 1] == m);
        let f = p + m;
        assert(f == members_flat(bs, b));
        assert forall|i: int| 0 <= i < f.len() implies #[trigger] f[i] < n by {
            if i >= p.len() {
                assert(f[i] == bm[b - 1][i - p.len()]);
            }
        }
        assert forall|v: usize| #[trigger] f.contains(v) <==> exists|c: int| 0 <= c < b && #[trigger] holds(bm, c, v) by {
            if f.contains(v) {
                let i = choose|i: int| 0 <= i < f.len() && f[i] == v;
                if i < p.len() {
                    assert(p.contains(v));
                } else {
                    assert(m[i - p.len()] == v);
                    assert(holds(bm, b - 1, v));
                }
            }
            if exists|c: int| 0 <= c < b && #[trigger] holds(bm, c, v) {
                let c = choose|c: int| 0 <= c < b && #[trigger] holds(bm, c, v);
                if c < b - 1 {
                    assert(p.contains(v));
                    let i = choose|i: int| 0 <= i < p.len() && p[i] == v;
                    assert(f[i] == v);
                } else {
                    let k = choose|k: int| 0 <= k < m.len() && m[k] == v;
                    assert(f[p.len() + k] == v);
                }
            }
        }
        assert forall|i: int, j: int| 0 <= i < f.len() && 0 <= j < f.len() && i != j implies f[i] != f[j] by {
            if i >= p.len() && j >= p.len() {
                let ki = i - p.len();
                let kj = j - p.len();
                assert(bm[b - 1][ki] == f[i]);
                assert(bm[b - 1][kj] == f[j]);
            } else if i < p.len() && j >= p.len() {
                if f[i] == f[j] {
                    assert(p.contains(f[i]));
                    let c = choose|c: int| 0 <= c < b - 1 && #[trigger] holds(bm, c, f[i]);
                    let k = choose|k: int| 0 <= k < bm[c].len() && bm[c][k] == f[i];
                    assert(bm[b - 1][j - p.len()] == f[j]);
                }
            } else if i >= p.len() && j < p.len() {
                if f[i] == f[j] {
                    assert(p.contains(f[j]));
                    let c = choose|c: int| 0 <= c < b - 1 && #[trigger] holds(bm, c, f[j]);
                    let k = choose|k: int| 0 <= k < bm[c].len() && bm[c][k] == f[j];
                    assert(bm[b - 1][i - p.len()] == f[i]);
                }
            }
        }
    }
}

proof fn lemma_permutation_multiset(units: Seq<AtomicUnit>, p: Seq<usize>, n: nat)
    requires
        n <= units.len(),
        p.len() == n,
        p.no_duplicates(),
        forall|i: int| 0 <= i < p.len() ==> #[trigger] p[i] < n,
    ensures
        ids_at(units, p).to_multiset() == ids_of(units).take(n as int).to_multiset(),
    decreases n,
{
    broadcast use vstd::seq_lib::group_to_multiset_ensures;

    if n == 0 {
        assert(ids_at(units, p) =~= Seq::<Seq<char>>::empty());
        assert(ids_of(units).take(0) =~= Seq::<Seq<char>>::empty());
    } else {
        let s = p.map_values(|x: usize| x as int);
        assert forall|i: int, j: int| 0 <= i < s.len() && 0 <= j < s.len() && i != j implies s[i] != s[j] by {}
        assert forall|i: int| 0 <= i < s.len() implies 0 <= #[trigger] s[i] < n by {}
        crate::graph::lemma_distinct_below(s, n as int);
        assert(s.contains(n - 1));
        let j = choose|j: int| 0 <= j < s.len() && s[j] == n - 1;
        let q = p.remove(j);
        assert forall|i: int| 0 <= i < q.len() implies #[trigger] q[i] < n - 1 by {
            let o = if i < j { i } else { i + 1 };
            assert(q[i] == p[o]);
            assert(p[o] != p[j]);
        }
        assert(q.no_duplicates()) by {
            assert forall|a: int, c: int| 0 <= a < q.len() && 0 <= c < q.len() && a != c implies q[a] != q[c] by {
                let oa = if a < j { a } else { a + 1 };
                let oc = if c < j { c } else { c + 1 };
                assert(q[a] == p[oa]);
                assert(q[c] == p[oc]);
            }
        }
        lemma_permutation_multiset(units, q, (n - 1) as nat);
        let x = units[n - 1].id@;
        assert(ids_at(units, p) =~= ids_at(units, q).insert(j, x));
        vstd::seq_lib::to_multiset_insert(ids_at(units, q), j, x);
        assert(ids_of(units).take(n as int) =~= ids_of(units).take(n - 1).push(x));
        vstd::seq_lib::to_multiset_build(ids_of(units).take(n - 1), x);
    }
}

/// Coverage of a build order: the ids across all batches, with their
/// repetitions, are exactly the ids of the units.
pub proof fn lemma_coverage(units: Seq<AtomicUnit>, bs: Seq<BuildOrderBatch>)
    requires
        units.len() <= usize::MAX,
        is_build_order(units, bs),
    ensures
        ids_flat(bs, bs.len() as int).to_multiset() == ids_of(units).to_multiset(),
{
    let n = units.len();
    let b = bs.len() as int;
    lemma_members_flat(bs, n, b);
    lemma_ids_flat(units, bs, b);
    let f = members_flat(bs, b);
    let s = f.map_values(|x: usize| x as int);
    assert forall|i: int, j: int| 0 <= i < s.len() && 0 <= j < s.len() && i != j implies s[i] != s[j] by {}
    assert forall|i: int| 0 <= i < s.len() implies 0 <= #[trigger] s[i] < n by {}
    crate::graph::lemma_distinct_below(s, n as int);
    assert(f.len() >= n) by {
        let range = vstd::set_lib::set_int_range(0, n as int);
        assert forall|v: int| range.contains(v) implies s.to_set().contains(v) by {
            let u = v as usize;
            assert(placed(batch_members(bs), u));
            let c = choose|c: int| #[trigger] holds(batch_members(bs), c, u);
            assert(f.contains(u));
            let i = choose|i: int| 0 <= i < f.len() && f[i] == u;
            assert(s[i] == v);
        }
        vstd::seq_lib::seq_to_set_is_finite(s);
        vstd::set_lib::lemma_int_range(0, n as int);
        vstd::set_lib::lemma_len_subset(range, s.to_set());
        s.unique_seq_to_set();
    }
    lemma_permutation_multiset(units, f, n);
    assert(ids_of(units).take(n as int) =~= ids_of(units));
}

} // verus!
