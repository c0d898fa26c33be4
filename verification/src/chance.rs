//! Random draws, made by the `rand` crate with the generator of the calling
//! thread.
//!
//! A draw is not a function of its arguments: two calls may differ. What is
//! stated here holds of every outcome.

use vstd::prelude::*;
use rand::distr::{Alphanumeric, SampleString};
use rand::Rng;

verus! {

/// A letter of the English alphabet, in either case, or a digit.
pub open spec fn alphanumeric(c: char) -> bool {
    ('a' <= c && c <= 'z') || ('A' <= c && c <= 'Z') || ('0' <= c && c <= '9')
}

/// `Rng::random_range` on the half-open range from `low` to `high`: some number
/// of the range. The range must not be empty, or the call panics.
#[verifier::external_body]
pub(crate) fn draw_between(low: u128, high: u128) -> (drawn: u128)
    requires
        low < high,
    ensures
        low <= drawn < high,
{
    rand::rng().random_range(low..high)
}

/// `SampleString::sample_string` of `Alphanumeric`: a text of `len` characters,
/// each a letter or a digit.
#[verifier::external_body]
pub(crate) fn draw_text(len: usize) -> (drawn: String)
    ensures
        drawn@.len() == len,
        forall|i: int| 0 <= i < drawn@.len() ==> alphanumeric(#[trigger] drawn@[i]),
{
    Alphanumeric.sample_string(&mut rand::rng(), len)
}

} // verus!
