use vstd::prelude::*;

verus! {

/// Relies on rand's `thread_rng` and `Rng::gen_range` over `0..bound`: the
/// result lies in the half-open range, and the call panics only on an empty
/// range, which `requires` leaves out.
#[verifier::external_body]
pub(crate) fn random_index(bound: u32) -> (r: u32)
    requires
        bound > 0,
    ensures
        r < bound,
{
    rand::Rng::gen_range(&mut rand::thread_rng(), 0..bound)
}

} // verus!
