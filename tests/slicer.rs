use c_transpile_kernel::cparse::parse_source;
use c_transpile_kernel::registry::TypeRegistry;
use c_transpile_kernel::slicer::{slice_sources, slice_trees};

fn s(x: &str) -> String {
    x.to_string()
}

#[test]
fn slicer_closure() {
    let code = "typedef struct S { int x; } S;\nvoid f(S *p) { g(p); }\n";
    let units = slice_sources(&vec![(s("a.c"), s(code))]).unwrap();
    assert_eq!(units.len(), 1);
    let u = &units[0];
    assert_eq!(u.id, "f");
    assert_eq!(u.dependencies, vec!["g"]);
    assert_eq!(u.code, "void f(S *p) { g(p); }");
    assert!(u.required_headers.iter().any(|h| h.contains("struct S { int x; }")));
    assert!(u.required_headers.iter().all(|h| h.contains('{')));
}

#[test]
fn headers_resolve_across_files() {
    let header = "struct point { int x; int y; };\n#define LIMIT 10\n";
    let body = "#include \"point.h\"\nint norm(struct point *p) { return abs(p->x) + abs(p->y) + helper(); }\n";
    let units = slice_sources(&vec![(s("point.h"), s(header)), (s("norm.c"), s(body))]).unwrap();
    assert_eq!(units.len(), 1);
    assert_eq!(units[0].id, "norm");
    assert_eq!(units[0].dependencies, vec!["abs", "helper"]);
    assert_eq!(units[0].required_headers, vec!["struct point { int x; int y; }"]);
}

#[test]
fn no_duplicate_dependencies_or_headers() {
    let code = "typedef int T;\nT f(T a, T b) { g(a); g(b); h(); g(a); return a; }\n";
    let units = slice_sources(&vec![(s("t.c"), s(code))]).unwrap();
    assert_eq!(units[0].dependencies, vec!["g", "h"]);
    assert_eq!(units[0].required_headers, vec!["typedef int T;"]);
}

#[test]
fn functions_in_source_order() {
    let code = "int one(void) { return 1; }\nint two(void) { return one() + one(); }\n";
    let units = slice_sources(&vec![(s("x.c"), s(code))]).unwrap();
    let ids: Vec<String> = units.iter().map(|u| u.id.clone()).collect();
    assert_eq!(ids, vec!["one", "two"]);
    assert_eq!(units[1].dependencies, vec!["one"]);
    assert!(units[0].dependencies.is_empty());
}

#[test]
fn parsed_tree_is_flat_preorder() {
    let tree = parse_source(&s("int x;")).unwrap().unwrap();
    assert_eq!(tree.nodes[0].kind, "translation_unit");
    assert_eq!(tree.nodes[0].depth, 0);
    assert!(tree.nodes.iter().skip(1).all(|n| n.depth >= 1));
    assert!(tree.nodes.iter().any(|n| n.kind == "identifier" && n.text.as_deref() == Some("x")));
    let units = slice_trees(&vec![(s("x.c"), tree)]).unwrap();
    assert!(units.is_empty());
}

#[test]
fn registry_prefers_bodies_then_longer() {
    let mut r = TypeRegistry::new();
    r.register_type(s("S"), s("struct S"), s("a.h"));
    assert_eq!(r.get_type(&s("S")).unwrap(), "struct S");
    r.register_type(s("S"), s("struct S { int x; }"), s("b.h"));
    assert_eq!(r.get_type(&s("S")).unwrap(), "struct S { int x; }");
    r.register_type(s("S"), s("struct S_longer_forward_declaration"), s("c.h"));
    assert_eq!(r.get_type(&s("S")).unwrap(), "struct S { int x; }");
    r.register_type(s("S"), s("struct S { int x; int y; }"), s("d.h"));
    assert_eq!(r.get_type(&s("S")).unwrap(), "struct S { int x; int y; }");
    r.register_type(s("S"), s("struct S { int a; }"), s("e.h"));
    assert_eq!(r.get_type(&s("S")).unwrap(), "struct S { int x; int y; }");
    assert_eq!(r.type_count(), 1);
    assert!(r.get_type(&s("T")).is_none());
}

#[test]
fn registry_macros_first_wins() {
    let mut r = TypeRegistry::new();
    r.register_macro(s("N"), s("#define N 1"));
    r.register_macro(s("N"), s("#define N 2"));
    r.register_macro(s("M"), s("#define M 3"));
    assert_eq!(r.get_macro(&s("N")).unwrap(), "#define N 1");
    assert_eq!(r.get_macro(&s("M")).unwrap(), "#define M 3");
    assert_eq!(r.macro_count(), 2);
    r.register_include(s("a.c"), s("<stdio.h>"));
    r.register_include(s("a.c"), s("\"x.h\""));
    assert!(r.get_macro(&s("Q")).is_none());
}
