//! Cycle analysis: for each super-node, the intra-component edges that are
//! cheap to cut (a heuristic, not a minimum feedback arc set) and advice on
//! how to break the cycle.
use vstd::prelude::*;
use vstd::string::StringExecFns;
use crate::mapper::DependencyGraph;

verus! {

/// Number of the first `hi` edges that enter `v` from a node of `scc`.
pub open spec fn indegree_within(edges: Seq<(usize, usize)>, scc: Seq<usize>, v: usize, hi: int) -> nat
    decreases hi,
{
    if hi <= 0 {
        0
    } else {
        indegree_within(edges, scc, v, hi - 1) + if edges[hi - 1].1 == v && scc.contains(edges[hi - 1].0) {
            1nat
        } else {
            0nat
        }
    }
}

/// An edge from `u` to a node of `scc` that at most two edges from `scc` enter.
pub open spec fn is_weak(edges: Seq<(usize, usize)>, scc: Seq<usize>, e: (usize, usize)) -> bool {
    scc.contains(e.1) && indegree_within(edges, scc, e.1, edges.len() as int) <= 2
}

/// Weak edges leaving `u` among edges `lo` up to `hi`, newest first, the
/// order in which the graph lists a node's outgoing edges.
pub open spec fn weak_from(edges: Seq<(usize, usize)>, scc: Seq<usize>, u: usize, lo: int, hi: int) -> Seq<
    (usize, usize),
>
    decreases hi - lo,
{
    if lo >= hi || lo < 0 {
        Seq::empty()
    } else {
        let p = weak_from(edges, scc, u, lo + 1, hi);
        if edges[lo].0 == u && is_weak(edges, scc, edges[lo]) {
            p.push(edges[lo])
        } else {
            p
        }
    }
}

/// Weak edges of `scc` leaving its first `c` members, member by member.
pub open spec fn weak_edges_of(edges: Seq<(usize, usize)>, scc: Seq<usize>, c: int) -> Seq<(usize, usize)>
    decreases c,
{
    if c <= 0 {
        Seq::empty()
    } else {
        weak_edges_of(edges, scc, c - 1) + weak_from(edges, scc, scc[c - 1], 0, edges.len() as int)
    }
}

fn contains_node(scc: &Vec<usize>, v: usize) -> (r: bool)
    ensures
        r == scc@.contains(v),
{
    let mut i: usize = 0;
    while i < scc.len()
        invariant
            i <= scc.len(),
            forall|j: int| 0 <= j < i ==> scc@[j] != v,
        decreases scc.len() - i,
    {
        if scc[i] == v {
            return true;
        }
        i = i + 1;
    }
    false
}

fn indegree(edges: &Vec<(usize, usize)>, scc: &Vec<usize>, v: usize) -> (r: usize)
    ensures
        r == indegree_within(edges@, scc@, v, edges.len() as int),
{
    let mut count: usize = 0;
    let mut i: usize = 0;
    while i < edges.len()
        invariant
            i <= edges.len(),
            count == indegree_within(edges@, scc@, v, i as int),
            count <= i,
        decreases edges.len() - i,
    {
        if edges[i].1 == v && contains_node(scc, edges[i].0) {
            count = count + 1;
        }
        i = i + 1;
    }
    count
}

/// Edges inside component `scc` whose target at most two edges from the
/// component enter, listed by source in component order, each source's
/// edges newest first.
pub fn find_weak_edges(edges: &Vec<(usize, usize)>, scc: &Vec<usize>) -> (r: Vec<(usize, usize)>)
    ensures
        r@ == weak_edges_of(edges@, scc@, scc.len() as int),
        forall|j: int| 0 <= j < r.len() ==> edges@.contains(#[trigger] r@[j]),
{
    let mut weak: Vec<(usize, usize)> = Vec::new();
    let mut c: usize = 0;
    while c < scc.len()
        invariant
            c <= scc.len(),
            weak@ == weak_edges_of(edges@, scc@, c as int),
            forall|j: int| 0 <= j < weak.len() ==> edges@.contains(#[trigger] weak@[j]),
        decreases scc.len() - c,
    {
        let u = scc[c];
        let ghost start = weak@;
        let mut i: usize = edges.len();
        while i > 0
            invariant
                i <= edges.len(),
                c < scc.len(),
                u == scc@[c as int],
                weak@ == start + weak_from(edges@, scc@, u, i as int, edges.len() as int),
                forall|j: int| 0 <= j < weak.len() ==> edges@.contains(#[trigger] weak@[j]),
            decreases i,
        {
            let (a, b) = edges[i - 1];
            if a == u && contains_node(scc, b) && indegree(edges, scc, b) <= 2 {
                weak.push((a, b));
                assert(weak@ =~= start + weak_from(edges@, scc@, u, i - 1, edges.len() as int));
                assert(edges@[i - 1] == (a, b));
            }
            i = i - 1;
        }
        c = c + 1;
    }
    weak
}

/// Decimal digits of `n`.
pub open spec fn decimal(n: nat) -> Seq<char>
    decreases n,
{
    if n >= 10 {
        decimal(n / 10) + digit(n % 10)
    } else {
        digit(n)
    }
}

/// The digit of `d`, for `d` below ten.
pub open spec fn digit(d: nat) -> Seq<char> {
    if d == 0 { "0"@ } else if d == 1 { "1"@ } else if d == 2 { "2"@ } else if d == 3 { "3"@ }
    else if d == 4 { "4"@ } else if d == 5 { "5"@ } else if d == 6 { "6"@ } else if d == 7 { "7"@ }
    else if d == 8 { "8"@ } else { "9"@ }
}

fn append_digit(s: &mut String, d: usize)
    requires
        d < 10,
    ensures
        final(s)@ == old(s)@ + digit(d as nat),
{
    if d == 0 { s.append("0") } else if d == 1 { s.append("1") } else if d == 2 { s.append("2") }
    else if d == 3 { s.append("3") } else if d == 4 { s.append("4") } else if d == 5 { s.append("5") }
    else if d == 6 { s.append("6") } else if d == 7 { s.append("7") } else if d == 8 { s.append("8") }
    else { s.append("9") }
}

/// The decimal text of `n`.
pub fn decimal_text(n: usize) -> (r: String)
    ensures
        r@ == decimal(n as nat),
    decreases n,
{
    let mut s = if n >= 10 {
        decimal_text(n / 10)
    } else {
        String::new()
    };
    append_digit(&mut s, n % 10);
    proof {
        if n < 10 {
            assert(s@ =~= digit(n as nat));
        }
    }
    s
}

/// The suggestion that names the edge `(from, to)`.
pub open spec fn edge_advice(e: (Seq<char>, Seq<char>)) -> Seq<char> {
    "  - Extract interface between '"@ + e.0 + "' and '"@ + e.1 + "'"@
}

/// Refactoring advice for a super-node of `size` units with weak edges `weak`.
pub open spec fn suggestions_for(size: nat, weak: Seq<(Seq<char>, Seq<char>)>) -> Seq<Seq<char>> {
    let s1 = seq!["NOTE: Suggestions are based on heuristic analysis (low in-degree edges)."@];
    let s2 = if size > 20 {
        s1.push("CRITICAL: This Super Node is very large. Consider architectural refactoring."@)
    } else {
        s1
    };
    let s3 = if weak.len() > 0 {
        s2.push(
            "Consider breaking "@ + decimal(weak.len()) + " weak edge(s) to simplify the cycle. [Confidence: Medium]"@,
        ) + weak.take(if weak.len() < 3 { weak.len() as int } else { 3 }).map_values(
            |e: (Seq<char>, Seq<char>)| edge_advice(e),
        )
    } else {
        s2
    };
    if size <= 5 {
        s3.push("This is a small cycle. Refactor all functions together atomically. [Confidence: High]"@)
    } else {
        s3
    }
}

/// The id pairs of `weak`.
pub open spec fn id_pairs(weak: Seq<(String, String)>) -> Seq<(Seq<char>, Seq<char>)> {
    weak.map_values(|e: (String, String)| (e.0@, e.1@))
}

/// Deterministic refactoring advice for a super-node of `size` units.
pub fn generate_refactoring_suggestions(size: usize, weak_edges: &Vec<(String, String)>) -> (r: Vec<
    String,
>)
    ensures
        r.deep_view() == suggestions_for(size as nat, id_pairs(weak_edges@)),
{
    let ghost weak = id_pairs(weak_edges@);
    let mut out: Vec<String> = Vec::new();
    out.push("NOTE: Suggestions are based on heuristic analysis (low in-degree edges).".to_owned());
    if size > 20 {
        out.push("CRITICAL: This Super Node is very large. Consider architectural refactoring.".to_owned());
    }
    let ghost s2 = out.deep_view();
    assert(s2 =~= (if size > 20 {
        seq!["NOTE: Suggestions are based on heuristic analysis (low in-degree edges)."@].push("CRITICAL: This Super Node is very large. Consider architectural refactoring."@)
    } else {
        seq!["NOTE: Suggestions are based on heuristic analysis (low in-degree edges)."@]
    }));
    if weak_edges.len() > 0 {
        let mut summary = "Consider breaking ".to_owned();
        let count = decimal_text(weak_edges.len());
        summary.append(count.as_str());
        summary.append(" weak edge(s) to simplify the cycle. [Confidence: Medium]");
        let ghost sum = summary@;
        assert(sum == "Consider breaking "@ + decimal(weak.len()) + " weak edge(s) to simplify the cycle. [Confidence: Medium]"@);
        out.push(summary);
        let ghost s3 = out.deep_view();
        assert(s3 =~= s2.push(sum));
        let shown: usize = if weak_edges.len() < 3 { weak_edges.len() } else { 3 };
        let mut i: usize = 0;
        while i < shown
            invariant
                i <= shown <= weak_edges.len(),
                shown == (if weak_edges.len() < 3 { weak_edges.len() } else { 3 }),
                weak == id_pairs(weak_edges@),
                out.deep_view() =~= s3 + weak.take(i as int).map_values(
                    |e: (Seq<char>, Seq<char>)| edge_advice(e),
                ),
            decreases shown - i,
        {
            let mut line = "  - Extract interface between '".to_owned();
            line.append(weak_edges[i].0.as_str());
            line.append("' and '");
            line.append(weak_edges[i].1.as_str());
            line.append("'");
            let ghost before = out.deep_view();
            out.push(line);
            proof {
                assert(weak[i as int] == (weak_edges@[i as int].0@, weak_edges@[i as int].1@));
                assert(weak.take(i + 1) =~= weak.take(i as int).push(weak[i as int]));
                assert(out.deep_view() =~= before.push(edge_advice(weak[i as int])));
            }
            i = i + 1;
        }
    }
    assert(out.deep_view() =~= (if weak.len() > 0 {
        s2.push(
            "Consider breaking "@ + decimal(weak.len()) + " weak edge(s) to simplify the cycle. [Confidence: Medium]"@,
        ) + weak.take(if weak.len() < 3 { weak.len() as int } else { 3 }).map_values(
            |e: (Seq<char>, Seq<char>)| edge_advice(e),
        )
    } else {
        s2
    }));
    if size <= 5 {
        out.push("This is a small cycle. Refactor all functions together atomically. [Confidence: High]".to_owned());
    }
    out
}

/// Analysis of one super-node.
pub struct CycleAnalysis {
    /// Ids of the units of the super-node.
    pub super_node: Vec<String>,
    pub size: usize,
    /// Weak edges, as (caller id, callee id).
    pub weak_edges: Vec<(String, String)>,
    pub refactoring_suggestions: Vec<String>,
}

/// Positions, among the first `c` components, of those with more than one unit.
pub open spec fn super_positions(sccs: Seq<Seq<usize>>, c: int) -> Seq<int>
    decreases c,
{
    if c <= 0 {
        Seq::empty()
    } else {
        let p = super_positions(sccs, c - 1);
        if sccs[c - 1].len() > 1 {
            p.push(c - 1)
        } else {
            p
        }
    }
}

/// `a` is the analysis of component `scc` of a graph with unit ids `ids` and edges `edges`.
pub open spec fn analysis_of(ids: Seq<String>, edges: Seq<(usize, usize)>, scc: Seq<usize>, a: CycleAnalysis) -> bool {
    let weak = weak_edges_of(edges, scc, scc.len() as int);
    &&& a.size == scc.len()
    &&& a.super_node.len() == scc.len()
    &&& forall|k: int| 0 <= k < scc.len() ==> #[trigger] a.super_node@[k]@ == ids[scc[k] as int]@
    &&& a.weak_edges.len() == weak.len()
    &&& forall|k: int|
        0 <= k < weak.len() ==> #[trigger] a.weak_edges@[k].0@ == ids[weak[k].0 as int]@
            && a.weak_edges@[k].1@ == ids[weak[k].1 as int]@
    &&& a.refactoring_suggestions.deep_view() == suggestions_for(scc.len() as nat, id_pairs(a.weak_edges@))
}

impl DependencyGraph {
    /// One analysis per super-node, in the order of the components.
    pub fn cycle_analyses(&self) -> (r: Vec<CycleAnalysis>)
        requires
            self.wf(),
        ensures
            r.len() == super_positions(self.sccs.deep_view(), self.sccs.len() as int).len(),
            forall|x: int|
                0 <= x < r.len() ==> analysis_of(
                    self.ids@,
                    self.edges@,
                    self.sccs.deep_view()[super_positions(self.sccs.deep_view(), self.sccs.len() as int)[x]],
                    #[trigger] r@[x],
                ),
    {
        let ghost sc = self.sccs.deep_view();
        let mut out: Vec<CycleAnalysis> = Vec::new();
        let mut c: usize = 0;
        while c < self.sccs.len()
            invariant
                self.wf(),
                sc == self.sccs.deep_view(),
                c <= self.sccs.len(),
                out.len() == super_positions(sc, c as int).len(),
                forall|x: int|
                    0 <= x < out.len() ==> analysis_of(
                        self.ids@,
                        self.edges@,
                        sc[super_positions(sc, c as int)[x]],
                        #[trigger] out@[x],
                    ),
            decreases self.sccs.len() - c,
        {
            let scc = &self.sccs[c];
            assert(scc@ == sc[c as int]);
            let ghost p = super_positions(sc, c as int);
            if scc.len() > 1 {
                let mut names: Vec<String> = Vec::new();
                let mut k: usize = 0;
                while k < scc.len()
                    invariant
                        self.wf(),
                        sc == self.sccs.deep_view(),
                        c < self.sccs.len(),
                        scc@ == sc[c as int],
                        k <= scc.len(),
                        names.len() == k,
                        forall|j: int| 0 <= j < k ==> #[trigger] names@[j]@ == self.ids@[scc@[j] as int]@,
                    decreases scc.len() - k,
                {
                    assert(sc[c as int][k as int] < self.ids.len());
                    names.push(self.ids[scc[k]].clone());
                    k = k + 1;
                }
                let weak = find_weak_edges(&self.edges, scc);
                proof {
                    assert forall|j: int| 0 <= j < weak.len() implies #[trigger] weak@[j].0 < self.ids.len() && weak@[j].1 < self.ids.len() by {
                        let x = choose|x: int| 0 <= x < self.edges.len() && self.edges@[x] == weak@[j];
                        assert(self.edges@[x].0 < self.ids.len());
                    }
                }
                let mut pairs: Vec<(String, String)> = Vec::new();
                let mut k: usize = 0;
                while k < weak.len()
                    invariant
                        k <= weak.len(),
                        weak@ == weak_edges_of(self.edges@, scc@, scc.len() as int),
                        forall|j: int| 0 <= j < weak.len() ==> #[trigger] weak@[j].0 < self.ids.len() && weak@[j].1 < self.ids.len(),
                        pairs.len() == k,
                        forall|j: int|
                            0 <= j < k ==> #[trigger] pairs@[j].0@ == self.ids@[weak@[j].0 as int]@
                                && pairs@[j].1@ == self.ids@[weak@[j].1 as int]@,
                    decreases weak.len() - k,
                {
                    let (a, b) = weak[k];
                    assert(weak@[k as int].0 < self.ids.len());
                    let ghost before = pairs@;
                    pairs.push((self.ids[a].clone(), self.ids[b].clone()));
                    assert(pairs@[k as int].0@ == self.ids@[weak@[k as int].0 as int]@);
                    assert forall|j: int| 0 <= j < k + 1 implies #[trigger] pairs@[j].0@ == self.ids@[weak@[j].0 as int]@
                        && pairs@[j].1@ == self.ids@[weak@[j].1 as int]@ by {
                        if j < k {
                            assert(pairs@[j] == before[j]);
                        }
                    }
                    k = k + 1;
                }
                let suggestions = generate_refactoring_suggestions(scc.len(), &pairs);
                let ghost before = out@;
                out.push(CycleAnalysis {
                    super_node: names,
                    size: scc.len(),
                    weak_edges: pairs,
                    refactoring_suggestions: suggestions,
                });
                proof {
                    let sp = super_positions(sc, c + 1);
                    assert(sp == p.push(c as int));
                    assert(analysis_of(self.ids@, self.edges@, sc[c as int], out@[out.len() - 1]));
                    assert forall|x: int| 0 <= x < out.len() implies analysis_of(
                        self.ids@,
                        self.edges@,
                        sc[sp[x]],
                        #[trigger] out@[x],
                    ) by {
                        if x < out.len() - 1 {
                            assert(out@[x] == before[x]);
                            assert(sp[x] == p[x]);
                        }
                    }
                }
            } else {
                assert(super_positions(sc, c + 1) == p);
            }
            c = c + 1;
        }
        out
    }
}

} // verus!
