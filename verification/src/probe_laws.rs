use crate::commands::{mismatch, Rejection};
use crate::probing::{same_dimensions, same_height, same_width, ProbedView};
use crate::stacking::Stack;
use vstd::prelude::*;

verus! {

/// Two known files of one width and one height fit every mode.
pub proof fn lemma_equal_pair_fits(first: ProbedView, second: ProbedView, stack: Stack)
    requires
        first.width == second.width,
        first.height == second.height,
        !first.is_unknown(),
        !second.is_unknown(),
    ensures
        same_width(seq![first, second]),
        same_height(seq![first, second]),
        same_dimensions(seq![first, second]),
        mismatch(stack, seq![first, second]) is None,
{
}

/// Two files that differ in width or in height do not fit a grid.
pub proof fn lemma_unequal_pair_fails(first: ProbedView, second: ProbedView)
    requires
        first.width != second.width || first.height != second.height,
    ensures
        !same_dimensions(seq![first, second]),
        mismatch(Stack::X, seq![first, second]) == Some(Rejection::MismatchedDimensions),
{
    let pair = seq![first, second];
    assert(pair[0] == first && pair[1] == second);
}

/// Fewer than two files fit every mode, known or not.
pub proof fn lemma_few_fit(probes: Seq<ProbedView>, stack: Stack)
    requires
        probes.len() < 2,
    ensures
        same_width(probes),
        same_height(probes),
        same_dimensions(probes),
        mismatch(stack, probes) is None,
{
}

/// A file of which nothing is known fits no other file.
pub proof fn lemma_unknown_never_fits(probes: Seq<ProbedView>, i: int, stack: Stack)
    requires
        probes.len() >= 2,
        0 <= i < probes.len(),
        probes[i].is_unknown(),
    ensures
        !same_width(probes),
        !same_height(probes),
        !same_dimensions(probes),
        mismatch(stack, probes) is Some,
{
}

} // verus!
