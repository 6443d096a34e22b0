//! Enumeration of ordered pairs of vertex indices.
//!
//! The pairs come from `itertools`' cartesian product of a range of first
//! indices with the range of all second indices.  What the iterator still has
//! to yield is modelled as a sequence, and the two functions below say how the
//! iterator is made and advanced.

use vstd::prelude::*;
use itertools::Product;
use std::ops::Range;

verus! {

/// `itertools::Product`, the iterator that `cartesian_product` returns.
/// Nothing of its inside is visible here.
#[verifier::external_type_specification]
#[verifier::external_body]
#[verifier::reject_recursive_types(I)]
#[verifier::reject_recursive_types(J)]
pub struct ExProduct<I: Iterator, J>(itertools::Product<I, J>);

/// The pairs that the iterator has not yielded yet, in the order in which it
/// will yield them.
pub uninterp spec fn pending(it: Product<Range<usize>, Range<usize>>) -> Seq<(usize, usize)>;

/// All pairs `(i, j)` with `from <= i < to` and `j < n`, row by row, the
/// second index running fastest.
pub open spec fn index_grid(from: int, to: int, n: int) -> Seq<(usize, usize)> {
    Seq::new(((to - from) * n) as nat, |k: int| ((from + k / n) as usize, (k % n) as usize))
}

/// Calls `itertools::Itertools::cartesian_product` on `from..to` and `0..n`.
///
/// Trusted: the new iterator is about to yield every pair of a first index in
/// `from..to` and a second index below `n`, row by row, the second index
/// running fastest within a row.
#[verifier::external_body]
pub(crate) fn index_pairs(from: usize, to: usize, n: usize) -> (it: Product<
    Range<usize>,
    Range<usize>,
>)
    requires
        from <= to,
    ensures
        pending(it) == index_grid(from as int, to as int, n as int),
{
    itertools::Itertools::cartesian_product(from..to, 0..n)
}

/// Calls `Iterator::next` of `itertools::Product`.
///
/// Trusted: the iterator hands out the first pair it still had and keeps the
/// rest; once it has none left it returns `None` and stays empty.
#[verifier::external_body]
pub(crate) fn next_pair(it: &mut Product<Range<usize>, Range<usize>>) -> (r: Option<(usize, usize)>)
    ensures
        pending(*old(it)).len() == 0 ==> r is None && pending(*final(it)).len() == 0,
        pending(*old(it)).len() > 0 ==> r == Some(pending(*old(it))[0]) && pending(*final(it))
            == pending(*old(it)).skip(1),
{
    it.next()
}

} // verus!
