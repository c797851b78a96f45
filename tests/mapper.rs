use c_transpile_kernel::analysis::{decimal_text, find_weak_edges, generate_refactoring_suggestions};
use c_transpile_kernel::mapper::{map_units, BuildOrder, DependencyGraph, Difficulty};
use c_transpile_kernel::unit::AtomicUnit;

fn unit(id: &str, deps: &[&str]) -> AtomicUnit {
    AtomicUnit::new(
        id.to_string(),
        format!("void {}(void) {{}}", id),
        deps.iter().map(|d| d.to_string()).collect(),
        Vec::new(),
    )
}

fn batch_ids(order: &BuildOrder) -> Vec<Vec<String>> {
    order
        .batches
        .iter()
        .map(|b| {
            let mut ids = b.units.clone();
            ids.sort();
            ids
        })
        .collect()
}

#[test]
fn acyclic_triangle() {
    let units = vec![unit("a", &["b"]), unit("b", &["c"]), unit("c", &[])];
    let order = map_units(&units);
    assert_eq!(batch_ids(&order), vec![vec!["c"], vec!["b"], vec!["a"]]);
    assert!(order.batches.iter().all(|b| !b.is_super_node && b.scc_size.is_none() && b.refactoring_difficulty.is_none()));
    assert_eq!(order.metadata.total_units, 3);
    assert_eq!(order.metadata.total_batches, 3);
    assert_eq!(order.metadata.super_nodes, 0);
    assert_eq!(order.metadata.largest_super_node, 0);
    let average = order.metadata.total_units as f64 / order.metadata.total_batches as f64;
    assert_eq!(average, 1.0);
}

#[test]
fn simple_cycle() {
    let units = vec![unit("a", &["b"]), unit("b", &["a"])];
    let order = map_units(&units);
    assert_eq!(batch_ids(&order), vec![vec!["a", "b"]]);
    let b = &order.batches[0];
    assert!(b.is_super_node);
    assert_eq!(b.scc_size, Some(2));
    assert_eq!(b.refactoring_difficulty, Some(Difficulty::Low));
    assert_eq!(b.refactoring_difficulty.unwrap().label(), "Low");
    assert_eq!(order.metadata.super_nodes, 1);
    assert_eq!(order.metadata.largest_super_node, 2);
}

#[test]
fn cycle_plus_tail() {
    let units = vec![unit("a", &["b"]), unit("b", &["a"]), unit("c", &["a"])];
    let order = map_units(&units);
    assert_eq!(batch_ids(&order), vec![vec!["a", "b"], vec!["c"]]);
    assert!(order.batches[0].is_super_node);
    assert!(!order.batches[1].is_super_node);
}

#[test]
fn unknown_dependency() {
    let units = vec![unit("a", &["missing_extern"])];
    let g = DependencyGraph::build(&units);
    assert!(g.edges.is_empty());
    let order = g.build_order();
    assert_eq!(batch_ids(&order), vec![vec!["a"]]);
    assert!(!order.batches[0].is_super_node);
}

#[test]
fn every_unit_in_exactly_one_batch() {
    let units = vec![
        unit("a", &["b", "d"]),
        unit("b", &["c"]),
        unit("c", &["a"]),
        unit("d", &["e"]),
        unit("e", &[]),
        unit("f", &["f"]),
    ];
    let order = map_units(&units);
    let mut all: Vec<String> = order.batches.iter().flat_map(|b| b.units.clone()).collect();
    all.sort();
    assert_eq!(all, vec!["a", "b", "c", "d", "e", "f"]);
    let batch_of = |id: &str| order.batches.iter().position(|b| b.units.iter().any(|u| u == id)).unwrap();
    for u in &units {
        for d in &u.dependencies {
            assert!(batch_of(d) <= batch_of(&u.id));
        }
    }
    assert_eq!(order.batches.len(), 4);
    assert_eq!(order.metadata.largest_super_node, 3);
}

#[test]
fn difficulty_thresholds() {
    assert_eq!(Difficulty::for_size(1), None);
    assert_eq!(Difficulty::for_size(2), Some(Difficulty::Low));
    assert_eq!(Difficulty::for_size(5), Some(Difficulty::Low));
    assert_eq!(Difficulty::for_size(6), Some(Difficulty::Medium));
    assert_eq!(Difficulty::for_size(10), Some(Difficulty::Medium));
    assert_eq!(Difficulty::for_size(11), Some(Difficulty::High));
    assert_eq!(Difficulty::for_size(20), Some(Difficulty::High));
    assert_eq!(Difficulty::for_size(21), Some(Difficulty::VeryHigh));
    assert_eq!(Difficulty::VeryHigh.label(), "Very High");
}

#[test]
fn large_cycle_is_very_high() {
    let n = 21;
    let units: Vec<AtomicUnit> = (0..n)
        .map(|i| {
            let next = format!("f{}", (i + 1) % n);
            unit(&format!("f{}", i), &[next.as_str()])
        })
        .collect();
    let order = map_units(&units);
    assert_eq!(order.batches.len(), 1);
    assert_eq!(order.batches[0].scc_size, Some(21));
    assert_eq!(order.batches[0].refactoring_difficulty, Some(Difficulty::VeryHigh));
}

#[test]
fn weak_edges_by_in_degree() {
    // 0 is entered from 1, 2 and 3; 1, 2, 3 are entered once each.
    let edges = vec![(0, 1), (1, 0), (2, 0), (3, 0), (0, 2), (0, 3), (0, 4)];
    let scc = vec![0, 1, 2, 3];
    let weak = find_weak_edges(&edges, &scc);
    assert_eq!(weak, vec![(0, 3), (0, 2), (0, 1)]);
}

#[test]
fn decimal_texts() {
    assert_eq!(decimal_text(0), "0");
    assert_eq!(decimal_text(7), "7");
    assert_eq!(decimal_text(42), "42");
    assert_eq!(decimal_text(1050), "1050");
}

#[test]
fn suggestions_small_cycle() {
    let weak = vec![
        ("a".to_string(), "b".to_string()),
        ("b".to_string(), "c".to_string()),
        ("c".to_string(), "d".to_string()),
        ("d".to_string(), "a".to_string()),
    ];
    let s = generate_refactoring_suggestions(4, &weak);
    assert_eq!(
        s,
        vec![
            "NOTE: Suggestions are based on heuristic analysis (low in-degree edges).",
            "Consider breaking 4 weak edge(s) to simplify the cycle. [Confidence: Medium]",
            "  - Extract interface between 'a' and 'b'",
            "  - Extract interface between 'b' and 'c'",
            "  - Extract interface between 'c' and 'd'",
            "This is a small cycle. Refactor all functions together atomically. [Confidence: High]",
        ]
    );
}

#[test]
fn suggestions_huge_cycle_without_weak_edges() {
    let s = generate_refactoring_suggestions(25, &Vec::new());
    assert_eq!(
        s,
        vec![
            "NOTE: Suggestions are based on heuristic analysis (low in-degree edges).",
            "CRITICAL: This Super Node is very large. Consider architectural refactoring.",
        ]
    );
}

#[test]
fn cycle_analysis_of_simple_cycle() {
    let units = vec![unit("a", &["b"]), unit("b", &["a"]), unit("c", &[])];
    let g = DependencyGraph::build(&units);
    let analyses = g.cycle_analyses();
    assert_eq!(analyses.len(), 1);
    let a = &analyses[0];
    assert_eq!(a.size, 2);
    let mut members = a.super_node.clone();
    members.sort();
    assert_eq!(members, vec!["a", "b"]);
    assert_eq!(a.weak_edges.len(), 2);
    assert_eq!(a.refactoring_suggestions.len(), 5);
}

#[test]
fn empty_input_gives_empty_order() {
    let order = map_units(&Vec::new());
    assert!(order.batches.is_empty());
    assert_eq!(order.metadata.total_units, 0);
    assert_eq!(order.metadata.total_batches, 0);
    assert_eq!(order.metadata.super_nodes, 0);
    assert_eq!(order.metadata.largest_super_node, 0);
}

#[test]
fn self_call_is_not_a_super_node() {
    let units = vec![unit("r", &["r"]), unit("s", &["r"])];
    let order = map_units(&units);
    assert_eq!(batch_ids(&order), vec![vec!["r"], vec!["s"]]);
    assert!(!order.batches[0].is_super_node);
    assert_eq!(order.batches[0].members, vec![0]);
}
