//! Random choice, as the crate `rand` provides it. Nothing in this file is
//! proved: each contract states what the source of `rand` shows.

use rand::ThreadRng;
use vstd::prelude::*;

verus! {

/// `rand::ThreadRng`, the random number generator that each thread owns. It
/// is carried from `rand::thread_rng` to `rand::sample` and never looked into.
#[verifier::external_type_specification]
#[verifier::external_body]
pub struct ExThreadRng(rand::ThreadRng);

/// `rand::thread_rng` hands out the generator of the calling thread. Nothing
/// is claimed of the generator.
pub assume_specification[ rand::thread_rng ]() -> (rng: rand::ThreadRng)
;

/// `rand::sample` on the numbers from zero up to, and without, `bound`: a
/// reservoir of `amount` places is filled with the first numbers of the range,
/// and each later number may take the place of one drawn before. So whatever
/// the generator yields, the numbers handed back are numbers of the range, no
/// number comes twice, and there are `amount` of them, or all of the range
/// where it has fewer. The reservoir is allocated at once, four bytes for each
/// place, which must not be more than an allocation may hold.
#[verifier::external_body]
#[allow(deprecated)]
pub(crate) fn sample_below(rng: &mut ThreadRng, bound: i32, amount: usize) -> (picked: Vec<i32>)
    requires
        amount * 4 <= isize::MAX,
    ensures
        picked@.len() == (if amount <= bound {
            amount as int
        } else if bound > 0 {
            bound as int
        } else {
            0
        }),
        forall|i: int| 0 <= i < picked@.len() ==> 0 <= #[trigger] picked@[i] < bound,
        picked@.no_duplicates(),
{
    rand::sample(rng, 0..bound, amount)
}

} // verus!
