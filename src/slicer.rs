//! The slicer: harvests type, include and macro definitions from syntax trees,
//! and cuts each function definition into an atomic unit that carries the
//! definitions of the types it mentions.
use vstd::prelude::*;
use crate::registry::{offer_type, prefers, TypeRegistry};
use crate::syntax::{field_child, first_name, subtree_end, text_of, SyntaxTree, SyntaxNode};
use crate::text::{dedup, distinct, lemma_dedup_props, push_unique};
use crate::unit::AtomicUnit;
use crate::cparse::{parse_source, parsed_from, SliceError};

verus! {

/// The callee named by node `j`, when it is a call expression whose
/// `function` child has a text.
pub open spec fn call_target(nodes: Seq<SyntaxNode>, j: int) -> Option<Seq<char>> {
    if nodes[j].kind@ == "call_expression"@ {
        match field_child(nodes, j, "function"@) {
            Some(c) => text_of(nodes, c),
            None => None,
        }
    } else {
        None
    }
}

/// The type name that node `j` mentions, when it is a `type_identifier` with a text.
pub open spec fn type_mention(nodes: Seq<SyntaxNode>, j: int) -> Option<Seq<char>> {
    if nodes[j].kind@ == "type_identifier"@ {
        text_of(nodes, j)
    } else {
        None
    }
}

/// Callees named by the call expressions among positions `lo` up to `hi`, in order.
pub open spec fn call_targets(nodes: Seq<SyntaxNode>, lo: int, hi: int) -> Seq<Seq<char>>
    decreases hi - lo,
{
    if hi <= lo {
        Seq::empty()
    } else {
        let p = call_targets(nodes, lo, hi - 1);
        match call_target(nodes, hi - 1) {
            Some(t) => p.push(t),
            None => p,
        }
    }
}

/// Type names mentioned among positions `lo` up to `hi`, in order.
pub open spec fn type_mentions(nodes: Seq<SyntaxNode>, lo: int, hi: int) -> Seq<Seq<char>>
    decreases hi - lo,
{
    if hi <= lo {
        Seq::empty()
    } else {
        let p = type_mentions(nodes, lo, hi - 1);
        match type_mention(nodes, hi - 1) {
            Some(t) => p.push(t),
            None => p,
        }
    }
}

/// The definitions that `types` gives for the names of `names`, in order,
/// skipping names it does not know.
pub open spec fn definitions_of(types: Map<Seq<char>, Seq<char>>, names: Seq<Seq<char>>) -> Seq<
    Seq<char>,
>
    decreases names.len(),
{
    if names.len() == 0 {
        Seq::empty()
    } else {
        let p = definitions_of(types, names.drop_last());
        if types.contains_key(names.last()) {
            p.push(types[names.last()])
        } else {
            p
        }
    }
}

/// Callees of the function at node `i`, de-duplicated in first-seen order.
pub open spec fn unit_dependencies(nodes: Seq<SyntaxNode>, i: int) -> Seq<Seq<char>> {
    dedup(call_targets(nodes, i, subtree_end(nodes, i)))
}

/// Type names used by the function at node `i`, de-duplicated in first-seen order.
pub open spec fn unit_types(nodes: Seq<SyntaxNode>, i: int) -> Seq<Seq<char>> {
    dedup(type_mentions(nodes, i, subtree_end(nodes, i)))
}

/// Definition texts the function at node `i` needs, de-duplicated.
pub open spec fn unit_headers(nodes: Seq<SyntaxNode>, types: Map<Seq<char>, Seq<char>>, i: int) -> Seq<
    Seq<char>,
> {
    dedup(definitions_of(types, unit_types(nodes, i)))
}

/// Name of the function at node `i`: the first identifier of its declarator,
/// or of the whole node where it has no declarator.
pub open spec fn function_name(nodes: Seq<SyntaxNode>, i: int) -> Option<Seq<char>> {
    if nodes[i].kind@ == "function_definition"@ && field_child(nodes, i, "declarator"@) is Some {
        first_name(nodes, field_child(nodes, i, "declarator"@).unwrap(), false)
    } else {
        first_name(nodes, i, false)
    }
}

/// Id given to the function at node `i`.
pub open spec fn unit_id(nodes: Seq<SyntaxNode>, i: int) -> Seq<char> {
    match function_name(nodes, i) {
        Some(n) => n,
        None => "unknown_fn"@,
    }
}

/// Collects the callees and the mentioned type names of the subtree of node `i`.
pub fn extract_info(tree: &SyntaxTree, i: usize) -> (r: (Vec<String>, Vec<String>))
    requires
        i < tree.nodes.len(),
    ensures
        r.0.deep_view() == unit_dependencies(tree.nodes@, i as int),
        r.1.deep_view() == unit_types(tree.nodes@, i as int),
{
    let hi = tree.subtree_end(i);
    let mut deps: Vec<String> = Vec::new();
    let mut types: Vec<String> = Vec::new();
    let mut j: usize = i;
    let ghost nodes = tree.nodes@;
    while j < hi
        invariant
            i <= j <= hi <= tree.nodes.len(),
            nodes == tree.nodes@,
            hi == subtree_end(nodes, i as int),
            deps.deep_view() == dedup(call_targets(nodes, i as int, j as int)),
            types.deep_view() == dedup(type_mentions(nodes, i as int, j as int)),
        decreases hi - j,
    {
        if tree.kind_is(j, "call_expression") {
            match tree.field_text(j, "function") {
                Some(t) => {
                    proof {
                        reveal_strlit("call_expression");
                    }
                    let ghost p = call_targets(nodes, i as int, j as int);
                    assert(call_targets(nodes, i as int, j + 1) == p.push(t@));
                    assert(p.push(t@).drop_last() == p);
                    push_unique(&mut deps, t);
                },
                None => {},
            }
        }
        if tree.kind_is(j, "type_identifier") {
            match &tree.nodes[j].text {
                Some(t) => {
                    let ghost p = type_mentions(nodes, i as int, j as int);
                    assert(type_mentions(nodes, i as int, j + 1) == p.push(t@));
                    assert(p.push(t@).drop_last() == p);
                    push_unique(&mut types, t.clone());
                },
                None => {},
            }
        }
        j = j + 1;
    }
    (deps, types)
}

/// The definitions that `registry` knows for the names of `used`, each text once.
pub fn resolve_headers(registry: &TypeRegistry, used: &Vec<String>) -> (r: Vec<String>)
    requires
        registry.wf(),
    ensures
        r.deep_view() == dedup(definitions_of(registry.types_view(), used.deep_view())),
{
    let mut headers: Vec<String> = Vec::new();
    let mut k: usize = 0;
    let ghost types = registry.types_view();
    while k < used.len()
        invariant
            k <= used.len(),
            registry.wf(),
            types == registry.types_view(),
            headers.deep_view() == dedup(definitions_of(types, used.deep_view().take(k as int))),
        decreases used.len() - k,
    {
        let ghost p = used.deep_view().take(k as int);
        assert(used.deep_view().take(k + 1).drop_last() == p);
        assert(used.deep_view().take(k + 1).last() == used[k as int]@);
        match registry.get_type(&used[k]) {
            Some(def) => {
                let ghost q = definitions_of(types, p);
                assert(q.push(def@).drop_last() == q);
                push_unique(&mut headers, def.clone());
            },
            None => {},
        }
        k = k + 1;
    }
    assert(used.deep_view().take(used.len() as int) == used.deep_view());
    headers
}

/// Builds the atomic unit of the function definition at node `i`; `None`
/// when the node has no source text.
pub fn unit_of_function(tree: &SyntaxTree, registry: &TypeRegistry, i: usize) -> (r: Option<
    AtomicUnit,
>)
    requires
        i < tree.nodes.len(),
        registry.wf(),
    ensures
        r is Some <==> text_of(tree.nodes@, i as int) is Some,
        r matches Some(u) ==> unit_matches(tree.nodes@, registry.types_view(), i as int, u),
{
    let name = if tree.kind_is(i, "function_definition") {
        match tree.field_child(i, &"declarator".to_owned()) {
            Some(d) => tree.first_name(d, false),
            None => tree.first_name(i, false),
        }
    } else {
        tree.first_name(i, false)
    };
    let id = match name {
        Some(n) => n,
        None => "unknown_fn".to_owned(),
    };
    let code = match &tree.nodes[i].text {
        Some(t) => t.clone(),
        None => {
            return None;
        },
    };
    let (dependencies, used_types) = extract_info(tree, i);
    let required_headers = resolve_headers(registry, &used_types);
    Some(AtomicUnit::new(id, code, dependencies, required_headers))
}

/// Unit `u` is the one that the function at node `i` yields, given the type map `types`.
pub open spec fn unit_matches(
    nodes: Seq<SyntaxNode>,
    types: Map<Seq<char>, Seq<char>>,
    i: int,
    u: AtomicUnit,
) -> bool {
    &&& u.id@ == unit_id(nodes, i)
    &&& text_of(nodes, i) == Some(u.code@)
    &&& u.dependencies.deep_view() == unit_dependencies(nodes, i)
    &&& u.required_headers.deep_view() == unit_headers(nodes, types, i)
}

/// Positions of the function definitions among the first `hi` nodes, in order.
pub open spec fn function_positions(nodes: Seq<SyntaxNode>, hi: int) -> Seq<int>
    decreases hi,
{
    if hi <= 0 {
        Seq::empty()
    } else {
        let p = function_positions(nodes, hi - 1);
        if nodes[hi - 1].kind@ == "function_definition"@ {
            p.push(hi - 1)
        } else {
            p
        }
    }
}

/// Whether every function definition among the first `hi` nodes has a source text.
pub open spec fn functions_have_text(nodes: Seq<SyntaxNode>, hi: int) -> bool {
    forall|j: int|
        0 <= j < hi && #[trigger] nodes[j].kind@ == "function_definition"@ ==> text_of(nodes, j) is Some
}

/// Cuts every function definition of a file's syntax tree into an atomic
/// unit, in source order; `None` when a function definition has no source
/// text.
pub fn slice_file(tree: &SyntaxTree, registry: &TypeRegistry) -> (r: Option<Vec<AtomicUnit>>)
    requires
        registry.wf(),
    ensures
        r is Some <==> functions_have_text(tree.nodes@, tree.nodes@.len() as int),
        r matches Some(units) ==> {
            let pos = function_positions(tree.nodes@, tree.nodes@.len() as int);
            &&& units.len() == pos.len()
            &&& forall|k: int|
                0 <= k < units.len() ==> unit_matches(
                    tree.nodes@,
                    registry.types_view(),
                    #[trigger] pos[k],
                    units[k],
                )
        },
{
    let mut units: Vec<AtomicUnit> = Vec::new();
    let mut j: usize = 0;
    let ghost nodes = tree.nodes@;
    while j < tree.nodes.len()
        invariant
            j <= tree.nodes.len(),
            nodes == tree.nodes@,
            registry.wf(),
            functions_have_text(nodes, j as int),
            units.len() == function_positions(nodes, j as int).len(),
            forall|k: int|
                0 <= k < units.len() ==> unit_matches(
                    nodes,
                    registry.types_view(),
                    #[trigger] function_positions(nodes, j as int)[k],
                    units[k],
                ),
            forall|k: int|
                0 <= k < function_positions(nodes, j as int).len() ==> 0 <= #[trigger] function_positions(nodes, j as int)[k] < j,
        decreases tree.nodes.len() - j,
    {
        let ghost p = function_positions(nodes, j as int);
        if tree.kind_is(j, "function_definition") {
            match unit_of_function(tree, registry, j) {
                Some(u) => {
                    units.push(u);
                    assert(function_positions(nodes, j + 1) == p.push(j as int));
                },
                None => {
                    assert(!functions_have_text(nodes, nodes.len() as int));
                    return None;
                },
            }
        } else {
            assert(function_positions(nodes, j + 1) == p);
        }
        j = j + 1;
    }
    Some(units)
}

/// Whether node kind `k` is one of the aggregate specifiers.
pub open spec fn is_aggregate_kind(k: Seq<char>) -> bool {
    k == "struct_specifier"@ || k == "union_specifier"@ || k == "enum_specifier"@
}

/// The name under which the type node `j` registers, when it has one.
pub open spec fn registered_name(nodes: Seq<SyntaxNode>, j: int) -> Option<Seq<char>> {
    if is_aggregate_kind(nodes[j].kind@) {
        match field_child(nodes, j, "name"@) {
            Some(c) => text_of(nodes, c),
            None => None,
        }
    } else if nodes[j].kind@ == "type_definition"@ {
        match field_child(nodes, j, "declarator"@) {
            Some(c) => first_name(nodes, c, true),
            None => None,
        }
    } else {
        None
    }
}

/// The (name, definition) pair that node `j` offers to the type map.
pub open spec fn type_offer(nodes: Seq<SyntaxNode>, j: int) -> Option<(Seq<char>, Seq<char>)> {
    match (registered_name(nodes, j), text_of(nodes, j)) {
        (Some(n), Some(d)) => Some((n, d)),
        _ => None,
    }
}

/// The path text of node `j`, when it is an include directive.
pub open spec fn directive_path(nodes: Seq<SyntaxNode>, j: int) -> Option<Seq<char>> {
    if nodes[j].kind@ == "preproc_include"@ {
        match field_child(nodes, j, "path"@) {
            Some(c) => text_of(nodes, c),
            None => None,
        }
    } else {
        None
    }
}

/// The (name, definition) pair of node `j`, when it is a macro definition
/// whose name is an identifier.
pub open spec fn macro_offer(nodes: Seq<SyntaxNode>, j: int) -> Option<(Seq<char>, Seq<char>)> {
    if nodes[j].kind@ == "preproc_def"@ {
        match field_child(nodes, j, "name"@) {
            Some(c) => if nodes[c].kind@ == "identifier"@ {
                match (text_of(nodes, c), text_of(nodes, j)) {
                    (Some(n), Some(d)) => Some((n, d)),
                    _ => None,
                }
            } else {
                None
            },
            None => None,
        }
    } else {
        None
    }
}

/// The type map after the offers of the first `hi` nodes.
pub open spec fn harvest_types(m: Map<Seq<char>, Seq<char>>, nodes: Seq<SyntaxNode>, hi: int) -> Map<
    Seq<char>,
    Seq<char>,
>
    decreases hi,
{
    if hi <= 0 {
        m
    } else {
        let p = harvest_types(m, nodes, hi - 1);
        match type_offer(nodes, hi - 1) {
            Some((n, d)) => offer_type(p, n, d),
            None => p,
        }
    }
}

/// The map from type names to source files after the offers of the first
/// `hi` nodes of `file`, starting from type map `types` and source map
/// `sources`: a name takes `file` whenever its definition is replaced.
pub open spec fn harvest_sources(
    types: Map<Seq<char>, Seq<char>>,
    sources: Map<Seq<char>, Seq<char>>,
    file: Seq<char>,
    nodes: Seq<SyntaxNode>,
    hi: int,
) -> Map<Seq<char>, Seq<char>>
    decreases hi,
{
    if hi <= 0 {
        sources
    } else {
        let p = harvest_sources(types, sources, file, nodes, hi - 1);
        let t = harvest_types(types, nodes, hi - 1);
        match type_offer(nodes, hi - 1) {
            Some((n, d)) => if !t.contains_key(n) || prefers(d, t[n]) {
                p.insert(n, file)
            } else {
                p
            },
            None => p,
        }
    }
}

/// The macro map after the definitions of the first `hi` nodes; the first
/// definition of a name is kept.
pub open spec fn harvest_macros(m: Map<Seq<char>, Seq<char>>, nodes: Seq<SyntaxNode>, hi: int) -> Map<
    Seq<char>,
    Seq<char>,
>
    decreases hi,
{
    if hi <= 0 {
        m
    } else {
        let p = harvest_macros(m, nodes, hi - 1);
        match macro_offer(nodes, hi - 1) {
            Some((n, d)) => if p.contains_key(n) {
                p
            } else {
                p.insert(n, d)
            },
            None => p,
        }
    }
}

/// `m` with directive `d` appended to the list of `file`.
pub open spec fn add_directive(m: Map<Seq<char>, Seq<Seq<char>>>, file: Seq<char>, d: Seq<char>) -> Map<
    Seq<char>,
    Seq<Seq<char>>,
> {
    m.insert(
        file,
        if m.contains_key(file) {
            m[file].push(d)
        } else {
            seq![d]
        },
    )
}

/// The include map after the directives of the first `hi` nodes of `file`.
pub open spec fn harvest_directives(
    m: Map<Seq<char>, Seq<Seq<char>>>,
    file: Seq<char>,
    nodes: Seq<SyntaxNode>,
    hi: int,
) -> Map<Seq<char>, Seq<Seq<char>>>
    decreases hi,
{
    if hi <= 0 {
        m
    } else {
        let p = harvest_directives(m, file, nodes, hi - 1);
        match directive_path(nodes, hi - 1) {
            Some(d) => add_directive(p, file, d),
            None => p,
        }
    }
}

/// Registers every type definition, include directive and macro definition
/// of the syntax tree of `file`, in source order.
pub fn harvest_file(tree: &SyntaxTree, file: &String, registry: &mut TypeRegistry)
    requires
        old(registry).wf(),
    ensures
        final(registry).wf(),
        final(registry).types_view() == harvest_types(
            old(registry).types_view(),
            tree.nodes@,
            tree.nodes@.len() as int,
        ),
        final(registry).macros_view() == harvest_macros(
            old(registry).macros_view(),
            tree.nodes@,
            tree.nodes@.len() as int,
        ),
        final(registry).sources_view() == harvest_sources(
            old(registry).types_view(),
            old(registry).sources_view(),
            file@,
            tree.nodes@,
            tree.nodes@.len() as int,
        ),
        final(registry).includes_view() == harvest_directives(
            old(registry).includes_view(),
            file@,
            tree.nodes@,
            tree.nodes@.len() as int,
        ),
{
    let mut j: usize = 0;
    let ghost nodes = tree.nodes@;
    while j < tree.nodes.len()
        invariant
            j <= tree.nodes.len(),
            nodes == tree.nodes@,
            registry.wf(),
            registry.types_view() == harvest_types(old(registry).types_view(), nodes, j as int),
            registry.macros_view() == harvest_macros(old(registry).macros_view(), nodes, j as int),
            registry.sources_view() == harvest_sources(
                old(registry).types_view(),
                old(registry).sources_view(),
                file@,
                nodes,
                j as int,
            ),
            registry.includes_view() == harvest_directives(
                old(registry).includes_view(),
                file@,
                nodes,
                j as int,
            ),
        decreases tree.nodes.len() - j,
    {
        proof {
            reveal_strlit("preproc_include");
            reveal_strlit("preproc_def");
            reveal_strlit("struct_specifier");
            reveal_strlit("union_specifier");
            reveal_strlit("enum_specifier");
            reveal_strlit("type_definition");
        }
        if tree.kind_is(j, "preproc_include") {
            match tree.field_text(j, "path") {
                Some(d) => {
                    registry.register_include(file.clone(), d);
                },
                None => {},
            }
        }
        if tree.kind_is(j, "preproc_def") {
            match tree.field_child(j, &"name".to_owned()) {
                Some(c) => {
                    if tree.kind_is(c, "identifier") {
                        match (&tree.nodes[c].text, &tree.nodes[j].text) {
                            (Some(n), Some(d)) => {
                                registry.register_macro(n.clone(), d.clone());
                            },
                            _ => {},
                        }
                    }
                },
                None => {},
            }
        }
        {
            let name = if tree.kind_is(j, "struct_specifier") || tree.kind_is(j, "union_specifier")
                || tree.kind_is(j, "enum_specifier") {
                tree.field_text(j, "name")
            } else if tree.kind_is(j, "type_definition") {
                match tree.field_child(j, &"declarator".to_owned()) {
                    Some(c) => tree.first_name(c, true),
                    None => None,
                }
            } else {
                None
            };
            match (name, &tree.nodes[j].text) {
                (Some(n), Some(d)) => {
                    registry.register_type(n, d.clone(), file.clone());
                },
                _ => {},
            }
        }
        j = j + 1;
    }
}

proof fn lemma_mention_in_range(nodes: Seq<SyntaxNode>, lo: int, hi: int, j: int)
    requires
        lo <= j < hi,
        type_mention(nodes, j) is Some,
    ensures
        type_mentions(nodes, lo, hi).contains(type_mention(nodes, j).unwrap()),
    decreases hi - lo,
{
    let p = type_mentions(nodes, lo, hi - 1);
    if j == hi - 1 {
        assert(type_mentions(nodes, lo, hi).last() == type_mention(nodes, j).unwrap());
    } else {
        lemma_mention_in_range(nodes, lo, hi - 1, j);
        let k = choose|k: int| 0 <= k < p.len() && p[k] == type_mention(nodes, j).unwrap();
        match type_mention(nodes, hi - 1) {
            Some(t) => assert(p.push(t)[k] == p[k]),
            None => {},
        }
    }
}

proof fn lemma_definitions_cover(types: Map<Seq<char>, Seq<char>>, names: Seq<Seq<char>>, t: Seq<char>)
    requires
        names.contains(t),
        types.contains_key(t),
    ensures
        definitions_of(types, names).contains(types[t]),
    decreases names.len(),
{
    let p = definitions_of(types, names.drop_last());
    if names.last() == t {
        assert(definitions_of(types, names).last() == types[t]);
    } else {
        let k = choose|k: int| 0 <= k < names.len() && names[k] == t;
        assert(names.drop_last()[k] == t);
        lemma_definitions_cover(types, names.drop_last(), t);
        let m = choose|m: int| 0 <= m < p.len() && p[m] == types[t];
        if types.contains_key(names.last()) {
            assert(p.push(types[names.last()])[m] == p[m]);
        }
    }
}

/// Closure of a unit: every type name mentioned in the subtree of the
/// function at node `i` that the type map knows has its definition among the
/// unit's required headers.
pub proof fn lemma_unit_closed(nodes: Seq<SyntaxNode>, types: Map<Seq<char>, Seq<char>>, i: int, j: int)
    requires
        0 <= i <= j < subtree_end(nodes, i),
        type_mention(nodes, j) is Some,
        types.contains_key(type_mention(nodes, j).unwrap()),
    ensures
        unit_headers(nodes, types, i).contains(types[type_mention(nodes, j).unwrap()]),
{
    let t = type_mention(nodes, j).unwrap();
    lemma_mention_in_range(nodes, i, subtree_end(nodes, i), j);
    lemma_dedup_props(type_mentions(nodes, i, subtree_end(nodes, i)));
    lemma_definitions_cover(types, unit_types(nodes, i), t);
    lemma_dedup_props(definitions_of(types, unit_types(nodes, i)));
}

/// A unit lists no callee and no definition twice.
pub proof fn lemma_unit_distinct(nodes: Seq<SyntaxNode>, types: Map<Seq<char>, Seq<char>>, i: int)
    ensures
        distinct(unit_dependencies(nodes, i)),
        distinct(unit_headers(nodes, types, i)),
{
    lemma_dedup_props(call_targets(nodes, i, subtree_end(nodes, i)));
    lemma_dedup_props(definitions_of(types, unit_types(nodes, i)));
}

/// The type map after harvesting the first `k` files, from an empty map.
pub open spec fn types_of_files(files: Seq<(String, SyntaxTree)>, k: int) -> Map<Seq<char>, Seq<char>>
    decreases k,
{
    if k <= 0 {
        Map::empty()
    } else {
        let t = files[k - 1].1.nodes@;
        harvest_types(types_of_files(files, k - 1), t, t.len() as int)
    }
}

/// Number of function definitions in the first `k` files.
pub open spec fn functions_in_files(files: Seq<(String, SyntaxTree)>, k: int) -> int
    decreases k,
{
    if k <= 0 {
        0
    } else {
        let t = files[k - 1].1.nodes@;
        functions_in_files(files, k - 1) + function_positions(t, t.len() as int).len()
    }
}

/// Whether every function definition of the first `k` files has a source text.
pub open spec fn files_have_text(files: Seq<(String, SyntaxTree)>, k: int) -> bool {
    forall|f: int|
        0 <= f < k ==> functions_have_text(#[trigger] files[f].1.nodes@, files[f].1.nodes@.len() as int)
}

/// Function definitions of file `g` of `files`, in order.
pub open spec fn file_functions(files: Seq<(String, SyntaxTree)>, g: int) -> Seq<int> {
    function_positions(files[g].1.nodes@, files[g].1.nodes@.len() as int)
}

/// `units` are the units of the function definitions of the first `upto`
/// files, file by file and in source order, against type map `types`.
pub open spec fn units_of_files(
    files: Seq<(String, SyntaxTree)>,
    types: Map<Seq<char>, Seq<char>>,
    upto: int,
    units: Seq<AtomicUnit>,
) -> bool {
    &&& units.len() == functions_in_files(files, upto)
    &&& forall|g: int, p: int|
        0 <= g < upto && 0 <= p < file_functions(files, g).len() ==> unit_matches(
            files[g].1.nodes@,
            types,
            file_functions(files, g)[p],
            #[trigger] units[functions_in_files(files, g) + p],
        )
}

proof fn lemma_functions_in_files_mono(files: Seq<(String, SyntaxTree)>, a: int, b: int)
    requires
        0 <= a <= b,
    ensures
        functions_in_files(files, a) <= functions_in_files(files, b),
        a < b ==> functions_in_files(files, a) + file_functions(files, a).len() <= functions_in_files(files, b),
    decreases b - a,
{
    if a < b {
        lemma_functions_in_files_mono(files, a, b - 1);
        lemma_functions_in_files_mono(files, a + 1, b);
    }
}

/// The two passes of the slicer over parsed files (path, tree): first every
/// file's definitions are harvested into one registry, then every file's
/// functions are cut into units against it, file by file in order. `None`
/// when some function definition has no source text.
pub fn slice_trees(files: &Vec<(String, SyntaxTree)>) -> (r: Option<Vec<AtomicUnit>>)
    ensures
        r is Some <==> files_have_text(files@, files@.len() as int),
        r matches Some(units) ==> units_of_files(
            files@,
            types_of_files(files@, files@.len() as int),
            files@.len() as int,
            units@,
        ),
{
    let mut registry = TypeRegistry::new();
    let mut f: usize = 0;
    while f < files.len()
        invariant
            f <= files.len(),
            registry.wf(),
            registry.types_view() == types_of_files(files@, f as int),
        decreases files.len() - f,
    {
        harvest_file(&files[f].1, &files[f].0, &mut registry);
        f = f + 1;
    }
    let ghost types = registry.types_view();
    let mut units: Vec<AtomicUnit> = Vec::new();
    let mut f: usize = 0;
    while f < files.len()
        invariant
            f <= files.len(),
            registry.wf(),
            registry.types_view() == types,
            types == types_of_files(files@, files@.len() as int),
            files_have_text(files@, f as int),
            units_of_files(files@, types, f as int, units@),
        decreases files.len() - f,
    {
        match slice_file(&files[f].1, &registry) {
            Some(found) => {
                let ghost before = units@;
                let ghost pos = file_functions(files@, f as int);
                let mut found = found;
                let ghost fv = found@;
                units.append(&mut found);
                proof {
                    assert(units@ == before + fv);
                    assert forall|g: int, p: int|
                        0 <= g < f + 1 && 0 <= p < file_functions(files@, g).len() implies unit_matches(
                        files@[g].1.nodes@,
                        types,
                        file_functions(files@, g)[p],
                        #[trigger] units@[functions_in_files(files@, g) + p],
                    ) by {
                        if g < f {
                            lemma_functions_in_files_mono(files@, g, f as int);
                            lemma_functions_in_files_mono(files@, 0, g);
                            assert(functions_in_files(files@, g) + p < before.len());
                            assert(units@[functions_in_files(files@, g) + p] == before[functions_in_files(files@, g) + p]);
                        } else {
                            lemma_functions_in_files_mono(files@, 0, g);
                            assert(units@[functions_in_files(files@, g) + p] == units@[before.len() + p]);
                        }
                    }
                    assert forall|g: int| 0 <= g < f + 1 implies functions_have_text(
                        #[trigger] files@[g].1.nodes@,
                        files@[g].1.nodes@.len() as int,
                    ) by {}
                }
            },
            None => {
                return None;
            },
        }
        f = f + 1;
    }
    Some(units)
}

/// `trees` are the files (path, contents) of `files`, each with the syntax
/// tree of its C parse.
pub open spec fn parsed_files(files: Seq<(String, String)>, trees: Seq<(String, SyntaxTree)>) -> bool {
    &&& trees.len() == files.len()
    &&& forall|g: int|
        0 <= g < files.len() ==> (#[trigger] trees[g]).0@ == files[g].0@ && parsed_from(
            trees[g].1.nodes@,
            files[g].1@,
        )
}

/// The slicer over source files (path, contents): parses every file, then
/// slices the parsed files as `slice_trees` does.
pub fn slice_sources(files: &Vec<(String, String)>) -> (r: Result<Vec<AtomicUnit>, SliceError>)
    ensures
        r matches Ok(units) ==> exists|trees: Seq<(String, SyntaxTree)>|
            #[trigger] parsed_files(files@, trees) && files_have_text(trees, trees.len() as int)
                && units_of_files(trees, types_of_files(trees, trees.len() as int), trees.len() as int, units@),
        r matches Err(e) && e == SliceError::MissingFunctionText ==> exists|trees: Seq<(String, SyntaxTree)>|
            #[trigger] parsed_files(files@, trees) && !files_have_text(trees, trees.len() as int),
{
    let mut trees: Vec<(String, SyntaxTree)> = Vec::new();
    let mut f: usize = 0;
    while f < files.len()
        invariant
            f <= files.len(),
            trees.len() == f,
            forall|g: int|
                0 <= g < f ==> (#[trigger] trees@[g]).0@ == files@[g].0@ && parsed_from(
                    trees@[g].1.nodes@,
                    files@[g].1@,
                ),
        decreases files.len() - f,
    {
        match parse_source(&files[f].1) {
            Ok(Some(t)) => {
                trees.push((files[f].0.clone(), t));
            },
            Ok(None) => {
                return Err(SliceError::GrammarUnavailable);
            },
            Err(e) => {
                return Err(e);
            },
        }
        f = f + 1;
    }
    assert(parsed_files(files@, trees@));
    match slice_trees(&trees) {
        Some(units) => Ok(units),
        None => Err(SliceError::MissingFunctionText),
    }
}

} // verus!
