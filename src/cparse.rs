//! Parsing C text into a plain syntax tree with the tree-sitter C grammar.
use vstd::prelude::*;
use crate::conductor::opt_view;
use crate::syntax::{SyntaxNode, SyntaxTree};

verus! {

#[verifier::external_type_specification]
#[verifier::external_body]
pub struct ExTree(tree_sitter::Tree);

/// The nodes, in pre-order, of the tree that the tree-sitter C grammar gives
/// for `code`: kind, field under the parent, depth, start and end byte.
pub uninterp spec fn c_parse(code: Seq<char>) -> Seq<(Seq<char>, Option<Seq<char>>, nat, nat, nat)>;

/// The nodes, in pre-order, that a syntax tree holds: kind, field under the
/// parent, depth, start and end byte.
pub uninterp spec fn tree_nodes(t: tree_sitter::Tree) -> Seq<(Seq<char>, Option<Seq<char>>, nat, nat, nat)>;

/// Relies on tree_sitter::Parser::set_language with tree_sitter_c::LANGUAGE,
/// then tree_sitter::Parser::parse: `Err` when the grammar cannot be loaded;
/// with a language set and no timeout or cancellation, the parse gives the
/// tree of `code`.
#[verifier::external_body]
fn parse_c(code: &str) -> (r: Result<Option<tree_sitter::Tree>, ()>)
    ensures
        r matches Ok(o) ==> o matches Some(t) && tree_nodes(t) == c_parse(code@),
{
    let mut parser = tree_sitter::Parser::new();
    match parser.set_language(&tree_sitter_c::LANGUAGE.into()) {
        Ok(()) => Ok(parser.parse(code, None)),
        Err(_) => Err(()),
    }
}

/// Relies on tree_sitter::Node::descendant_count on the root node: the
/// number of nodes of the tree.
#[verifier::external_body]
fn node_count(t: &tree_sitter::Tree) -> (r: usize)
    ensures
        r == tree_nodes(*t).len(),
{
    t.root_node().descendant_count()
}

/// Relies on tree_sitter::TreeCursor::goto_descendant from a cursor at the
/// root, then the cursor's kind, field name, depth and byte range: the node
/// with pre-order position `k`.
#[verifier::external_body]
fn node_at(t: &tree_sitter::Tree, k: usize) -> (r: (String, Option<String>, u32, usize, usize))
    requires
        k < tree_nodes(*t).len(),
    ensures
        (r.0@, opt_view(r.1), r.2 as nat, r.3 as nat, r.4 as nat) == tree_nodes(*t)[k as int],
{
    let mut c = t.walk();
    c.goto_descendant(k);
    let n = c.node();
    (n.kind().to_string(), c.field_name().map(|f| f.to_string()), c.depth(), n.start_byte(), n.end_byte())
}

/// Whether bytes `start` up to `end` of `code` form a run of whole characters.
pub open spec fn whole_chars(code: Seq<char>, start: nat, end: nat) -> bool {
    let b = vstd::utf8::encode_utf8(code);
    start <= end <= b.len() && vstd::utf8::is_char_boundary(b, start as int)
        && vstd::utf8::is_char_boundary(b, end as int)
}

/// `text` is the text of bytes `start` up to `end` of `code`, or `None` when
/// those bytes are not whole characters.
pub open spec fn text_fits(text: Option<Seq<char>>, code: Seq<char>, start: nat, end: nat) -> bool {
    match text {
        Some(t) => whole_chars(code, start, end) && vstd::utf8::encode_utf8(t) == vstd::utf8::encode_utf8(
            code,
        ).subrange(start as int, end as int),
        None => !whole_chars(code, start, end),
    }
}

/// Relies on str::get: the text of bytes `start` up to `end`, `None` when the
/// range is out of bounds or does not fall on character boundaries.
#[verifier::external_body]
fn text_between(code: &str, start: usize, end: usize) -> (r: Option<String>)
    ensures
        text_fits(opt_view(r), code@, start as nat, end as nat),
{
    code.get(start..end).map(|t| t.to_string())
}

/// Node `n` is the parse node `p` of `code`, with its text.
pub open spec fn node_is(n: SyntaxNode, p: (Seq<char>, Option<Seq<char>>, nat, nat, nat), code: Seq<char>) -> bool {
    &&& n.kind@ == p.0
    &&& opt_view(n.field) == p.1
    &&& n.depth as nat == p.2
    &&& text_fits(opt_view(n.text), code, p.3, p.4)
}

/// `nodes` are the nodes of the C parse of `code`, in pre-order, with their texts.
pub open spec fn parsed_from(nodes: Seq<SyntaxNode>, code: Seq<char>) -> bool {
    &&& nodes.len() == c_parse(code).len()
    &&& forall|k: int| 0 <= k < nodes.len() ==> node_is(#[trigger] nodes[k], c_parse(code)[k], code)
}

/// Why a source set could not be sliced.
#[derive(Debug, PartialEq, Eq, Structural)]
pub enum SliceError {
    /// The C grammar could not be loaded.
    GrammarUnavailable,
    /// A function definition covers no valid source text.
    MissingFunctionText,
}

/// Parses C source text into its syntax tree in pre-order.
pub fn parse_source(code: &String) -> (r: Result<Option<SyntaxTree>, SliceError>)
    ensures
        r matches Ok(o) ==> o matches Some(t) && parsed_from(t.nodes@, code@),
        r matches Err(e) ==> e == SliceError::GrammarUnavailable,
{
    let tree = match parse_c(code.as_str()) {
        Err(()) => {
            return Err(SliceError::GrammarUnavailable);
        },
        Ok(None) => {
            return Ok(None);
        },
        Ok(Some(t)) => t,
    };
    let n = node_count(&tree);
    let mut nodes: Vec<SyntaxNode> = Vec::new();
    let mut k: usize = 0;
    while k < n
        invariant
            k <= n,
            n == tree_nodes(tree).len(),
            tree_nodes(tree) == c_parse(code@),
            nodes.len() == k,
            forall|j: int| 0 <= j < k ==> node_is(#[trigger] nodes@[j], c_parse(code@)[j], code@),
        decreases n - k,
    {
        let (kind, field, depth, start, end) = node_at(&tree, k);
        let node = SyntaxNode {
            kind,
            field,
            depth: depth as usize,
            text: text_between(code.as_str(), start, end),
        };
        nodes.push(node);
        k = k + 1;
    }
    Ok(Some(SyntaxTree { nodes }))
}

} // verus!
