//! Shared declarations for the owner-suggestion workflow.

use vstd::prelude::*;

verus! {

/// Output format for suggestions.
#[derive(Debug, Clone, Copy, PartialEq, Eq, Structural)]
pub enum OutputFormat {
    /// Human-readable output with explanations.
    Human,
    /// Rule-file-compatible lines ready to copy.
    Codeowners,
    /// Machine-readable output for tooling.
    Json,
}

} // verus!
