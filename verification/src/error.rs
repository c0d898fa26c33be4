//! What the constructors that read text refuse.

use vstd::prelude::*;

verus! {

/// A text that a constructor could not take.
#[derive(Clone, Copy, Debug, PartialEq, Eq, Structural)]
pub enum InvalidInput {
    /// The text is not a regular expression that the engine compiles.
    Pattern,
    /// The text is not a JSON document.
    Json,
}

} // verus!
