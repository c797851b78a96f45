//! Kernel of a C-to-systems-language migration pipeline: a slicer that cuts C
//! sources into self-contained atomic units, a mapper that orders them into
//! dependency-respecting build batches, and the decision logic of the
//! conductor that drives each unit through transpilation and verification.
pub mod text;
pub mod unit;
pub mod registry;
pub mod syntax;
pub mod slicer;
pub mod cparse;
pub mod graph;
pub mod mapper;
pub mod analysis;
pub mod conductor;
pub mod oracle;
