use vstd::prelude::*;

verus! {

/// std::time::Instant, carried through the board as an opaque value.
#[verifier::external_type_specification]
#[verifier::external_body]
pub struct ExInstant(std::time::Instant);

/// Relies on std::time::Instant::now: it reads the monotonic clock, so nothing
/// is promised of the value.
pub assume_specification[ std::time::Instant::now ]() -> std::time::Instant;

} // verus!
