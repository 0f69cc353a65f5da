use vstd::prelude::*;

verus! {

/// Relies on rand::random: a value drawn from the thread-local generator, of
/// which nothing can be promised.
pub assume_specification<T>[ rand::random::<T> ]() -> T
    where
        rand::distributions::Standard: rand::distributions::Distribution<T>,
;

/// Relies on rand::Rng::gen_range on the thread-local generator: a value in
/// `0..bound`, which is not empty.
#[verifier::external_body]
pub(crate) fn roll_below(bound: u8) -> (r: u8)
    requires
        bound > 0,
    ensures
        r < bound,
{
    rand::Rng::gen_range(&mut rand::thread_rng(), 0..bound)
}

} // verus!
