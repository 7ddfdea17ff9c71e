//! Facts about sequences that several modules lean on.

use vstd::prelude::*;

verus! {

/// Filtering a sequence with one more element at its end keeps what the
/// shorter sequence kept, followed by that element when it passes.
pub proof fn lemma_filter_push<A>(s: Seq<A>, x: A, pred: spec_fn(A) -> bool)
    ensures
        s.push(x).filter(pred) == (if pred(x) { s.filter(pred).push(x) } else { s.filter(pred) }),
{
    reveal(Seq::filter);
    assert(s.push(x).drop_last() =~= s);
}

} // verus!
