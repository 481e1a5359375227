//! The error taxonomy shared by the pool and the factory.

use vstd::prelude::*;

verus! {

/// Why a call was rejected. Every rejection leaves the receiver unchanged.
#[derive(Clone, Copy, Debug, PartialEq, Eq, Structural)]
pub enum BrawlError {
    /// The caller is not permitted to perform the operation.
    Authorization,
    /// The operation is invalid in the current phase (for example, the pool
    /// is already finalized, or not finalized yet).
    State,
    /// The named option, or the caller's deposit, does not exist.
    NotFound,
    /// The attached value is non-positive or insufficient.
    Value,
    /// The derived sub-identity is not a well-formed account identifier.
    Identity,
}

impl BrawlError {
    /// A short description, for callers that report errors as text.
    pub fn message(&self) -> (r: &'static str)
        ensures
            r@.len() > 0,
    {
        proof {
            reveal_strlit("not permitted");
            reveal_strlit("invalid in the current phase");
            reveal_strlit("no such entry");
            reveal_strlit("insufficient or non-positive value");
            reveal_strlit("invalid account identifier");
        }
        match self {
            BrawlError::Authorization => "not permitted",
            BrawlError::State => "invalid in the current phase",
            BrawlError::NotFound => "no such entry",
            BrawlError::Value => "insufficient or non-positive value",
            BrawlError::Identity => "invalid account identifier",
        }
    }
}

} // verus!
