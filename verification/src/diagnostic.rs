//! Diagnostics that the semantic rules report.
use vstd::prelude::*;

verus! {

/// A problem found in a library: a code that names the rule, and a message.
pub struct SemanticDiagnostic {
    pub code: String,
    pub message: String,
}

impl SemanticDiagnostic {
    /// An error with the given code and message.
    pub fn error(code: &str, message: String) -> (d: SemanticDiagnostic)
        ensures
            d.code@ == code@,
            d.message@ == message@,
    {
        SemanticDiagnostic { code: code.to_owned(), message }
    }
}

} // verus!
