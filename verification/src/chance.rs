//! The one source of chance that the games draw from.

use vstd::prelude::*;
use rand::Rng;

verus! {

/// A random number from `low` up to, and not including, `high`.
///
/// This is `rand::thread_rng().gen_range(low..high)`. The call panics on an
/// empty range, which is why `low` has to be below `high`, and otherwise
/// returns a number of the range: that is all the contract claims. Nothing
/// is known of which number it is, and two calls may give two numbers. The
/// generator is seeded by the operating system when a thread first asks for
/// it.
#[verifier::external_body]
pub(crate) fn random_between(low: usize, high: usize) -> (number: usize)
    requires
        low < high,
    ensures
        low <= number < high,
{
    rand::thread_rng().gen_range(low..high)
}

} // verus!
