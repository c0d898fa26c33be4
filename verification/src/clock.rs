//! Time, counted in nanoseconds.
//!
//! An instant is the number of nanoseconds since an origin that the caller
//! picks, once, for all the instants it hands in. A span is a number of
//! nanoseconds too.

use vstd::prelude::*;
use core::time::Duration;

verus! {

/// Nanoseconds in a second.
pub const NANOS_PER_SECOND: u128 = 1_000_000_000;

/// The nanoseconds that a `Duration` holds.
pub uninterp spec fn duration_nanos(span: Duration) -> u128;

/// `Duration::as_nanos`: the whole span in nanoseconds.
pub assume_specification[ Duration::as_nanos ](span: &Duration) -> (nanos: u128)
    ensures
        nanos == duration_nanos(*span),
;

} // verus!
