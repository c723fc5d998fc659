use vstd::prelude::*;

verus! {

/// The two ways a repository operation can fail.
#[derive(Debug, Clone, PartialEq, Eq)]
pub enum RepositoryError {
    /// A keyed operation matched no record; carries the key that was looked for.
    NotFound(i32),
    /// Any other storage failure: connectivity, a violated constraint, exhaustion.
    Unexpected(String),
}

} // verus!
