//! The wall clock and chance, as the stores and the control plane read them.
use vstd::prelude::*;
use rand::seq::SliceRandom;

verus! {

/// Milliseconds since the Unix epoch, from `SystemTime::now`. The value depends on the
/// clock, so nothing is stated of it.
#[verifier::external_body]
pub(crate) fn now_millis() -> (r: u64) {
    match std::time::SystemTime::now().duration_since(std::time::UNIX_EPOCH) {
        Ok(d) => d.as_millis() as u64,
        Err(_) => 0,
    }
}

/// True when `order` lists each of `0..n` exactly once.
pub open spec fn is_permutation_of_range(order: Seq<usize>, n: int) -> bool {
    &&& order.len() == n
    &&& forall|i: int| 0 <= i < n ==> #[trigger] order[i] < n
    &&& forall|i: int, j: int| 0 <= i < j < n ==> order[i] != order[j]
}

/// `SliceRandom::shuffle` (with `rand::rng()`) on the indices `0..n`. Whatever the random
/// order, it lists each index once.
#[verifier::external_body]
pub(crate) fn shuffled_indices(n: usize) -> (r: Vec<usize>)
    ensures
        is_permutation_of_range(r@, n as int),
{
    let mut v: Vec<usize> = (0..n).collect();
    v.shuffle(&mut rand::rng());
    v
}

/// `rand::random::<u32>()`: a number from the thread's random generator. It depends on
/// chance, so nothing is stated of it.
#[verifier::external_body]
pub(crate) fn random_u32() -> (r: u32) {
    rand::random::<u32>()
}

} // verus!
