//! Schema-guided JSON re-serialization: a JSON document is rendered against a
//! tree of type definitions that inject literal decoration text around the
//! nodes whose JSON type matches.

pub mod format;
pub mod schema;
pub mod value;

use vstd::prelude::*;

verus! {

/// The two ways a call can fail.
#[derive(Debug, Clone, Copy, PartialEq, Eq, Structural)]
pub enum FormatError {
    /// The schema text is not JSON, or does not describe a type definition.
    SchemaSyntax,
    /// The document text is not JSON.
    JsonSyntax,
}

} // verus!
