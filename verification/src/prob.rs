//! Uniform picks among candidates.

use crate::rng::draw_below;
use rand::rngs::StdRng;
use vstd::prelude::*;

verus! {

/// One of `candidates`, drawn uniformly by `rng`.
///
/// The list must not be empty: the draw of an index has no range to pick from.
/// The result is always present and is one of the candidates; which one is
/// left to the generator.
pub fn select<'a, T>(rng: &mut StdRng, candidates: &'a Vec<T>) -> (r: Option<&'a T>)
    requires
        candidates@.len() > 0,
    ensures
        r is Some,
        exists|i: int| 0 <= i < candidates@.len() && r == Some(&candidates@[i]),
{
    let index = draw_below(rng, candidates.len());
    let r = Some(&candidates[index]);
    assert(r == Some(&candidates@[index as int]));
    r
}

/// One element of the slice `candidates`, drawn uniformly by `rng`.
///
/// The slice must not be empty; which element comes back is left to the
/// generator.
pub fn select_array<'a, T>(rng: &mut StdRng, candidates: &'a [T]) -> (r: &'a T)
    requires
        candidates@.len() > 0,
    ensures
        exists|i: int| 0 <= i < candidates@.len() && *r == candidates@[i],
{
    let index = draw_below(rng, candidates.len());
    let r = &candidates[index];
    assert(*r == candidates@[index as int]);
    r
}

} // verus!
