use vstd::prelude::*;

use rand::rngs::StdRng;
use rand::seq::SliceRandom;

use crate::cell::Cell;

verus! {

/// The seedable random number generator that every random choice draws
/// from.
#[verifier::external_type_specification]
#[verifier::external_body]
pub struct ExStdRng(StdRng);

/// Relies on rand's `SliceRandom::choose` for slices: `None` exactly when the
/// slice is empty, otherwise one of its elements.
#[verifier::external_body]
pub(crate) fn choose_cell(cells: &[Cell], rng: &mut StdRng) -> (r: Option<Cell>)
    ensures
        r is None <==> cells@.len() == 0,
        r matches Some(c) ==> cells@.contains(c),
{
    cells.choose(rng).copied()
}

} // verus!
