//! Pairing the coordinates of two axes into lattice points.

use vstd::prelude::*;

verus! {

/// The most pairs that `cartesian_product` is asked for at once.
pub const MAX_PAIRS: usize = 0x0FFF_FFFF;

/// Every pair of one item of `xs` and one item of `zs`: the pairs with the
/// first item of `xs` come first, and among them the items of `zs` run in
/// their own order.
pub open spec fn row_major_pairs(xs: Seq<i32>, zs: Seq<i32>) -> Seq<(i32, i32)> {
    Seq::new(
        xs.len() * zs.len(),
        |i: int| (xs[i / (zs.len() as int)], zs[i % (zs.len() as int)]),
    )
}

/// Calls `itertools::Itertools::cartesian_product` on the items of `xs` and
/// of `zs` and collects what it yields.
///
/// Trusted, not proved: the adaptor yields each item of `xs` paired with
/// every item of `zs` in turn, which is `row_major_pairs`, and nothing if
/// either side is empty. The bound keeps the collected pairs well inside
/// what one allocation can hold.
#[verifier::external_body]
pub(crate) fn cartesian_product(xs: &Vec<i32>, zs: &Vec<i32>) -> (pairs: Vec<(i32, i32)>)
    requires
        xs@.len() * zs@.len() <= MAX_PAIRS,
    ensures
        pairs@ == row_major_pairs(xs@, zs@),
{
    itertools::Itertools::cartesian_product(xs.iter().copied(), zs.iter().copied()).collect()
}

} // verus!
