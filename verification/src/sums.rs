//! Sums that cannot overflow.

use vstd::prelude::*;

verus! {

/// A sum of `i` numbers of at most 64 bits leaves room for one more in 128 bits.
pub proof fn lemma_room(i: usize, total: int)
    requires
        total <= i * u64::MAX,
    ensures
        total + u64::MAX <= u128::MAX,
        total + u64::MAX <= (i + 1) * u64::MAX,
        i * u64::MAX <= usize::MAX * u64::MAX,
        usize::MAX * u64::MAX + u64::MAX <= u128::MAX,
{
    assert(i * u64::MAX <= usize::MAX * u64::MAX) by (nonlinear_arith)
        requires
            i <= usize::MAX,
    ;
    assert(usize::MAX * u64::MAX + u64::MAX <= u128::MAX) by (nonlinear_arith)
        requires
            usize::MAX <= u64::MAX,
    ;
    assert(i * u64::MAX + u64::MAX == (i + 1) * u64::MAX) by (nonlinear_arith);
}

} // verus!
