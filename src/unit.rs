//! The atomic unit: one C function together with the type context it needs.
use vstd::prelude::*;

verus! {

/// One C function made self-translatable.
pub struct AtomicUnit {
    /// Function name as parsed.
    pub id: String,
    /// Verbatim source text of the function definition.
    pub code: String,
    /// Callee identifiers, de-duplicated in first-seen order.
    pub dependencies: Vec<String>,
    /// Distinct definition texts of the types the function mentions.
    pub required_headers: Vec<String>,
}

impl AtomicUnit {
    pub fn new(
        id: String,
        code: String,
        dependencies: Vec<String>,
        required_headers: Vec<String>,
    ) -> (r: Self)
        ensures
            r.id@ == id@,
            r.code@ == code@,
            r.dependencies.deep_view() == dependencies.deep_view(),
            r.required_headers.deep_view() == required_headers.deep_view(),
    {
        AtomicUnit { id, code, dependencies, required_headers }
    }
}

impl Clone for AtomicUnit {
    fn clone(&self) -> (r: Self)
        ensures
            r.id@ == self.id@,
            r.code@ == self.code@,
            r.dependencies.deep_view() == self.dependencies.deep_view(),
            r.required_headers.deep_view() == self.required_headers.deep_view(),
    {
        AtomicUnit {
            id: self.id.clone(),
            code: self.code.clone(),
            dependencies: crate::text::clone_texts(&self.dependencies),
            required_headers: crate::text::clone_texts(&self.required_headers),
        }
    }
}

} // verus!
