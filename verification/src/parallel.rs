//! Work handed to the worker pool.

use rayon::iter::{IntoParallelIterator, ParallelIterator};
use vstd::prelude::*;

verus! {

/// Applies `f` to every index below `n` on rayon's worker pool, by
/// `into_par_iter`, `map` and `collect` on the range `0..n`, and returns the
/// results in the order of the indices: the item at `i` is a result of `f` for `i`.
#[verifier::external_body]
pub(crate) fn par_collect<T: Send, F: Fn(usize) -> T + Sync + Send>(n: usize, f: F) -> (out: Vec<T>)
    requires
        forall|i: usize| i < n ==> call_requires(f, (i,)),
    ensures
        out@.len() == n,
        forall|i: int| 0 <= i < n ==> call_ensures(f, (i as usize,), #[trigger] out@[i]),
{
    (0..n).into_par_iter().map(f).collect()
}

} // verus!
