use vstd::prelude::*;

verus! {

/// Relies on `rand::random_range` over `0..bound`: it samples the
/// thread-local generator uniformly over the given range and panics only
/// when the range is empty, which `1 <= bound` rules out. Nothing more than
/// membership in the range can be promised of a random draw.
#[verifier::external_body]
pub(crate) fn next_in_range(bound: usize) -> (r: usize)
    requires
        1 <= bound,
    ensures
        r < bound,
{
    rand::random_range(0..bound)
}

} // verus!
