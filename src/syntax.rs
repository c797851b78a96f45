//! A concrete syntax tree held as plain values: its nodes in pre-order, each
//! with its depth below the root. The subtree of a node is the run of nodes
//! after it that lie deeper than it; its children are those one level deeper.
use vstd::prelude::*;

verus! {

/// One node of a concrete syntax tree.
pub struct SyntaxNode {
    /// Grammar kind, such as `call_expression`.
    pub kind: String,
    /// Name of the field under which the node hangs from its parent.
    pub field: Option<String>,
    /// Distance from the root.
    pub depth: usize,
    /// Source text the node covers, when that range is valid text.
    pub text: Option<String>,
}

/// The nodes of a syntax tree in pre-order.
pub struct SyntaxTree {
    pub nodes: Vec<SyntaxNode>,
}

/// The text of node `j`, when it has one.
pub open spec fn text_of(nodes: Seq<SyntaxNode>, j: int) -> Option<Seq<char>> {
    match nodes[j].text {
        Some(t) => Some(t@),
        None => None,
    }
}

/// End (exclusive) of the subtree of node `i`, scanning from `j`.
pub open spec fn end_from(nodes: Seq<SyntaxNode>, i: int, j: int) -> int
    decreases nodes.len() - j,
{
    if j >= nodes.len() || j < 0 || nodes[j].depth <= nodes[i].depth {
        j
    } else {
        end_from(nodes, i, j + 1)
    }
}

/// End (exclusive) of the subtree of node `i`: node `i` and its descendants
/// occupy positions `i` up to this one.
pub open spec fn subtree_end(nodes: Seq<SyntaxNode>, i: int) -> int {
    end_from(nodes, i, i + 1)
}

/// First child of node `i`, at or after `j`, that hangs under field `f`.
pub open spec fn field_child_from(nodes: Seq<SyntaxNode>, i: int, f: Seq<char>, j: int) -> Option<int>
    decreases nodes.len() - j,
{
    if j >= nodes.len() || j < 0 || nodes[j].depth <= nodes[i].depth {
        None
    } else if nodes[j].depth == nodes[i].depth + 1 && nodes[j].field is Some
        && nodes[j].field.unwrap()@ == f {
        Some(j)
    } else {
        field_child_from(nodes, i, f, j + 1)
    }
}

/// First child of node `i` that hangs under field `f`.
pub open spec fn field_child(nodes: Seq<SyntaxNode>, i: int, f: Seq<char>) -> Option<int> {
    field_child_from(nodes, i, f, i + 1)
}

/// Whether node `j` names something: an `identifier`, or also a
/// `type_identifier` when `with_types` holds.
pub open spec fn is_name_node(nodes: Seq<SyntaxNode>, j: int, with_types: bool) -> bool {
    nodes[j].kind@ == "identifier"@ || (with_types && nodes[j].kind@ == "type_identifier"@)
}

/// Text of the first name node, in pre-order, among positions `j` up to `hi`.
pub open spec fn first_name_from(nodes: Seq<SyntaxNode>, j: int, hi: int, with_types: bool) -> Option<
    Seq<char>,
>
    decreases hi - j,
{
    if j >= hi || j < 0 || j >= nodes.len() {
        None
    } else if is_name_node(nodes, j, with_types) && text_of(nodes, j) is Some {
        text_of(nodes, j)
    } else {
        first_name_from(nodes, j + 1, hi, with_types)
    }
}

/// Text of the first name node in the subtree of node `i`, `i` included.
pub open spec fn first_name(nodes: Seq<SyntaxNode>, i: int, with_types: bool) -> Option<Seq<char>> {
    first_name_from(nodes, i, subtree_end(nodes, i), with_types)
}

impl SyntaxTree {
    /// End (exclusive) of the subtree of node `i`.
    pub fn subtree_end(&self, i: usize) -> (r: usize)
        requires
            i < self.nodes.len(),
        ensures
            r == subtree_end(self.nodes@, i as int),
            i < r <= self.nodes.len(),
    {
        let mut j: usize = i + 1;
        while j < self.nodes.len() && self.nodes[j].depth > self.nodes[i].depth
            invariant
                i < j <= self.nodes.len(),
                end_from(self.nodes@, i as int, j as int) == subtree_end(self.nodes@, i as int),
            decreases self.nodes.len() - j,
        {
            j = j + 1;
        }
        j
    }

    /// First child of node `i` under field `f`.
    pub fn field_child(&self, i: usize, f: &String) -> (r: Option<usize>)
        requires
            i < self.nodes.len(),
        ensures
            r matches Some(c) ==> c < self.nodes.len(),
            r.is_some() == field_child(self.nodes@, i as int, f@).is_some(),
            r matches Some(c) ==> field_child(self.nodes@, i as int, f@) == Some(c as int),
    {
        let mut j: usize = i + 1;
        while j < self.nodes.len() && self.nodes[j].depth > self.nodes[i].depth
            invariant
                i < j <= self.nodes.len(),
                field_child_from(self.nodes@, i as int, f@, j as int) == field_child(
                    self.nodes@,
                    i as int,
                    f@,
                ),
            decreases self.nodes.len() - j,
        {
            let n = &self.nodes[j];
            if n.depth - 1 == self.nodes[i].depth {
                match &n.field {
                    Some(g) => {
                        if *g == *f {
                            return Some(j);
                        }
                    },
                    None => {},
                }
            }
            j = j + 1;
        }
        None
    }

    /// Whether node `j` is of kind `k`.
    pub fn kind_is(&self, j: usize, k: &str) -> (r: bool)
        requires
            j < self.nodes.len(),
        ensures
            r == (self.nodes@[j as int].kind@ == k@),
    {
        self.nodes[j].kind == k.to_owned()
    }

    /// Text of the first name node in the subtree of `i`.
    pub fn first_name(&self, i: usize, with_types: bool) -> (r: Option<String>)
        requires
            i < self.nodes.len(),
        ensures
            r matches Some(t) ==> first_name(self.nodes@, i as int, with_types) == Some(t@),
            r is None ==> first_name(self.nodes@, i as int, with_types) is None,
    {
        let hi = self.subtree_end(i);
        let mut j: usize = i;
        while j < hi
            invariant
                i <= j <= hi <= self.nodes.len(),
                hi == subtree_end(self.nodes@, i as int),
                first_name_from(self.nodes@, j as int, hi as int, with_types) == first_name(
                    self.nodes@,
                    i as int,
                    with_types,
                ),
            decreases hi - j,
        {
            if self.kind_is(j, "identifier") || (with_types && self.kind_is(j, "type_identifier")) {
                match &self.nodes[j].text {
                    Some(t) => {
                        return Some(t.clone());
                    },
                    None => {},
                }
            }
            j = j + 1;
        }
        None
    }

    /// Text of the child of `i` under field `f`, when both exist.
    pub fn field_text(&self, i: usize, f: &str) -> (r: Option<String>)
        requires
            i < self.nodes.len(),
        ensures
            r matches Some(t) ==> field_child(self.nodes@, i as int, f@) matches Some(c) && text_of(
                self.nodes@,
                c,
            ) == Some(t@),
            r is None ==> !(field_child(self.nodes@, i as int, f@) matches Some(c) && text_of(
                self.nodes@,
                c,
            ) is Some),
    {
        match self.field_child(i, &f.to_owned()) {
            Some(c) => match &self.nodes[c].text {
                Some(t) => Some(t.clone()),
                None => None,
            },
            None => None,
        }
    }
}

} // verus!
