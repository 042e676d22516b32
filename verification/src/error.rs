//! Failure taxonomy of the ranking engine.

use vstd::prelude::*;

verus! {

/// The one fatal failure of a ranking call: the query vector and a document
/// row disagree on the vocabulary dimension. It is signalled to the caller
/// before any result is produced; there are no partial results.
#[derive(Clone, Copy, Debug, PartialEq, Eq, Structural)]
pub enum RankError {
    InvalidInput,
}

} // verus!
