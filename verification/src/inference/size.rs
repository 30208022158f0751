//! Sizes that may be too large for the machine.

use vstd::prelude::*;

verus! {

/// Whether `size` stands for `n`: by its value where `n` fits into a `usize`, else by `None`.
pub open spec fn denotes(size: Option<usize>, n: nat) -> bool {
    match size {
        Some(value) => value == n,
        None => n > usize::MAX,
    }
}

/// The product of a size and a factor.
pub fn times(size: Option<usize>, factor: usize) -> (product: Option<usize>)
    ensures
        forall|n: nat| #[trigger] denotes(size, n) ==> denotes(product, n * factor as nat),
{
    if factor == 0 {
        assert forall|n: nat| #[trigger] denotes(size, n) implies denotes(Some(0usize), n * factor as nat) by {
            assert(n * 0 == 0);
        }
        return Some(0);
    }
    match size {
        Some(value) => value.checked_mul(factor),
        None => {
            assert forall|n: nat| #[trigger] denotes(size, n) implies denotes(None, n * factor as nat) by {
                assert(n * factor >= n) by (nonlinear_arith)
                    requires
                        factor >= 1,
                ;
            }
            None
        },
    }
}

/// The sum of two sizes.
pub fn plus(a: Option<usize>, b: Option<usize>) -> (sum: Option<usize>)
    ensures
        forall|n: nat, m: nat| #[trigger] denotes(a, n) && #[trigger] denotes(b, m) ==> denotes(sum, n + m),
{
    match (a, b) {
        (Some(x), Some(y)) => x.checked_add(y),
        _ => None,
    }
}

/// The product of three factors.
pub fn product(a: usize, b: usize, c: usize) -> (size: Option<usize>)
    ensures
        denotes(size, a as nat * b as nat * c as nat),
{
    assert(denotes(Some(a), a as nat));
    let rows = times(Some(a), b);
    assert(denotes(rows, a as nat * b as nat));
    times(rows, c)
}

} // verus!
