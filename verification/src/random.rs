//! The random choices of the game, drawn from `rand`'s standard generator.
//!
//! Nothing here is proved: each function states what the `rand` crate
//! documents of the call it makes, and holds of every outcome.

use rand::rngs::StdRng;
use rand::seq::SliceRandom;
use rand::Rng;
use vstd::prelude::*;

verus! {

/// `rand::rngs::StdRng`, carried through the library as an opaque value.
#[verifier::external_type_specification]
#[verifier::external_body]
pub struct ExStdRng(StdRng);

/// `Rng::gen_range(0, bound)`: some number from 0 up to, not including,
/// `bound`. The call panics on an empty range, so `bound` must be positive.
#[verifier::external_body]
pub(crate) fn gen_below(rng: &mut StdRng, bound: u8) -> (n: u8)
    requires
        bound > 0,
    ensures
        n < bound,
{
    rng.gen_range(0, bound)
}

/// `SliceRandom::choose`: `None` for an empty list, else a copy of one of its
/// entries.
#[verifier::external_body]
pub(crate) fn choose_from<T: Copy>(items: &Vec<T>, rng: &mut StdRng) -> (picked: Option<T>)
    ensures
        items@.len() == 0 ==> picked is None,
        items@.len() > 0 ==> picked is Some && items@.contains(picked->0),
{
    items.choose(rng).copied()
}

} // verus!
