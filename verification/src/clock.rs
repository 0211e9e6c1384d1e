//! The monotonic clock, as far as the pipeline needs it: a start mark and
//! the nanoseconds gone by since.

use std::time::Duration;
use std::time::Instant;
use vstd::prelude::*;

verus! {

#[verifier::external_type_specification]
#[verifier::external_body]
pub struct ExInstant(Instant);

/// `Instant::now`: the present moment of the monotonic clock. Nothing is
/// claimed of the value.
#[verifier::external_body]
pub(crate) fn now() -> (start: Instant) {
    Instant::now()
}

/// `Instant::elapsed`: the time gone by since `start`. Nothing is claimed
/// of the value.
#[verifier::external_body]
pub(crate) fn elapsed(start: &Instant) -> (gone: Duration) {
    start.elapsed()
}

/// `Duration::as_nanos`: the whole nanoseconds in `span`. Nothing is claimed
/// of the value.
#[verifier::external_body]
pub(crate) fn as_nanos(span: &Duration) -> (nanos: u128) {
    span.as_nanos()
}

/// The nanoseconds gone by since `start`, whatever the clock says.
pub(crate) fn nanos_since(start: &Instant) -> (nanos: u128) {
    let gone = elapsed(start);
    as_nanos(&gone)
}

} // verus!
