//! The library's source of chance: the thread-local generator of the `rand`
//! crate. Everything here is believed, not proved; each contract states only
//! what holds of every draw.

use crate::symbol::Operator;
use rand::rngs::ThreadRng;
use rand::seq::IndexedRandom;
use rand::Rng;
use vstd::prelude::*;

verus! {

/// `rand::rngs::ThreadRng`, the handle to the thread-local generator. Its
/// state is hidden from the verifier.
#[verifier::external_type_specification]
#[verifier::external_body]
pub struct ExThreadRng(ThreadRng);

/// `rand::rng`: hands out a handle to the thread-local generator. Nothing is
/// claimed of the handle. The generator is seeded from the operating system
/// when a thread first asks for it, and the call fails where that source is
/// not to be had.
pub assume_specification[ rand::rng ]() -> (rng: ThreadRng);

/// `Rng::random_range` on the half-open range `low..high`: the value drawn
/// lies in the range. The call panics on an empty range, which the
/// precondition rules out.
#[verifier::external_body]
pub(crate) fn random_range(rng: &mut ThreadRng, low: i32, high: i32) -> (value: i32)
    requires
        low < high,
    ensures
        low <= value < high,
{
    rng.random_range(low..high)
}

/// `IndexedRandom::choose` on a slice of operators: `None` for an empty
/// slice, otherwise a reference to one of its elements.
#[verifier::external_body]
pub(crate) fn choose_operator<'a>(
    rng: &mut ThreadRng,
    operators: &'a Vec<Operator>,
) -> (chosen: Option<&'a Operator>)
    ensures
        operators@.len() == 0 ==> chosen is None,
        operators@.len() > 0 ==> chosen is Some && operators@.contains(*chosen->0),
{
    operators.choose(rng)
}

/// `rand::random::<u32>()`: a draw from the thread-local generator. Any
/// `u32` may come back.
#[verifier::external_body]
pub(crate) fn random_u32() -> u32 {
    rand::random::<u32>()
}

} // verus!
