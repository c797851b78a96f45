//! The transpilation oracle and the verifier's report format.
use vstd::prelude::*;
use vstd::string::StringExecFns;
use crate::unit::AtomicUnit;

verus! {

/// A capability that translates an atomic unit into target-language source,
/// or fails with a message. Implementations must be safe to call concurrently.
pub trait LlmClient {
    fn transpile(&self, unit: &AtomicUnit) -> Result<String, String>;
}

/// A stand-in oracle that answers with a placeholder function.
pub struct MockLlmClient;

/// The dependency list as written in a placeholder: each id in double
/// quotes, separated by commas, in brackets.
pub open spec fn quoted_list(deps: Seq<Seq<char>>) -> Seq<char>
    decreases deps.len(),
{
    "["@ + quoted_items(deps) + "]"@
}

pub open spec fn quoted_items(deps: Seq<Seq<char>>) -> Seq<char>
    decreases deps.len(),
{
    if deps.len() == 0 {
        Seq::empty()
    } else if deps.len() == 1 {
        "\""@ + deps[0] + "\""@
    } else {
        quoted_items(deps.drop_last()) + ", \""@ + deps.last() + "\""@
    }
}

/// The placeholder translation of a unit with id `id` and dependencies `deps`.
pub open spec fn placeholder(id: Seq<char>, deps: Seq<Seq<char>>) -> Seq<char> {
    "// Transpiled from C function: "@ + id + "\n// Dependencies: "@ + quoted_list(deps) + "\n\nfn "@ + id
        + "() {\n    println!(\"Simulated Rust version of "@ + id + "\");\n}"@
}

impl MockLlmClient {
    /// The placeholder translation of `unit`.
    pub fn placeholder_for(unit: &AtomicUnit) -> (r: String)
        ensures
            r@ == placeholder(unit.id@, unit.dependencies.deep_view()),
    {
        let deps = &unit.dependencies;
        let mut items = String::new();
        let mut i: usize = 0;
        while i < deps.len()
            invariant
                i <= deps.len(),
                items@ == quoted_items(deps.deep_view().take(i as int)),
            decreases deps.len() - i,
        {
            let ghost before = items@;
            if i > 0 {
                items.append(", \"");
            } else {
                items.append("\"");
            }
            items.append(deps[i].as_str());
            items.append("\"");
            proof {
                let t = deps.deep_view().take(i + 1);
                assert(t.drop_last() == deps.deep_view().take(i as int));
                assert(t.last() == deps[i as int]@);
                if i == 0 {
                    assert(t.len() == 1);
                    assert(before == Seq::<char>::empty());
                    assert(items@ =~= "\""@ + t[0] + "\""@);
                } else {
                    assert(items@ =~= quoted_items(t.drop_last()) + ", \""@ + t.last() + "\""@);
                }
            }
            i = i + 1;
        }
        assert(deps.deep_view().take(deps.len() as int) =~= deps.deep_view());
        let mut out = "// Transpiled from C function: ".to_owned();
        out.append(unit.id.as_str());
        out.append("\n// Dependencies: [");
        out.append(items.as_str());
        out.append("]\n\nfn ");
        out.append(unit.id.as_str());
        out.append("() {\n    println!(\"Simulated Rust version of ");
        out.append(unit.id.as_str());
        out.append("\");\n}");
        proof {
            reveal_strlit("\n// Dependencies: [");
            reveal_strlit("\n// Dependencies: ");
            reveal_strlit("[");
            reveal_strlit("]\n\nfn ");
            reveal_strlit("]");
            reveal_strlit("\n\nfn ");
            assert(out@ =~= placeholder(unit.id@, unit.dependencies.deep_view()));
        }
        out
    }
}

impl LlmClient for MockLlmClient {
    fn transpile(&self, unit: &AtomicUnit) -> (r: Result<String, String>)
        ensures
            r matches Ok(s) && s@ == placeholder(unit.id@, unit.dependencies.deep_view()),
    {
        Ok(MockLlmClient::placeholder_for(unit))
    }
}

/// Checks translated code by compiling it; the compiling itself is done
/// outside the library.
pub struct Verifier;

impl Verifier {
    /// The error report of a failed compilation with error output `stderr`.
    pub fn failure_message(stderr: &String) -> (r: String)
        ensures
            r@ == "Compilation failed:\n"@ + stderr@,
    {
        let mut m = "Compilation failed:\n".to_owned();
        m.append(stderr.as_str());
        m
    }
}

} // verus!
