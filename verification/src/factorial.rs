//! Factorials in `u64`, clamped to `u64::MAX` once the true value no longer fits.

use vstd::prelude::*;

verus! {

/// The product `1 * 2 * ... * n`; the empty product, for `n == 0`, is `1`.
pub open spec fn factorial(n: nat) -> nat
    decreases n,
{
    if n == 0 {
        1
    } else {
        n * factorial((n - 1) as nat)
    }
}

/// A natural number clamped to the range of `u64`.
pub open spec fn saturate(v: nat) -> u64 {
    if v > u64::MAX {
        u64::MAX
    } else {
        v as u64
    }
}

/// `n!` where it fits in a `u64`, and `u64::MAX` where it does not.
pub open spec fn saturating_factorial(n: nat) -> u64 {
    saturate(factorial(n))
}

/// `u64::saturating_mul` of std: the product of the two factors where it fits
/// in a `u64`, and `u64::MAX` where it does not.
pub assume_specification[ u64::saturating_mul ](x: u64, y: u64) -> (r: u64)
    ensures
        r == if x * y > u64::MAX { u64::MAX } else { (x * y) as u64 },
;

/// The factorial is at least `1` and never shrinks as its argument grows.
pub proof fn lemma_factorial_monotonic(m: nat, n: nat)
    requires
        m <= n,
    ensures
        1 <= factorial(m) <= factorial(n),
    decreases n,
{
    if n > 0 {
        let below = (n - 1) as nat;
        lemma_factorial_monotonic(if m == n { below } else { m }, below);
        assert(factorial(below) <= n * factorial(below)) by (nonlinear_arith)
            requires
                n >= 1,
        ;
    }
}

/// `20!` is the last factorial that fits in a `u64`.
pub proof fn lemma_factorial_fits_up_to_20(n: nat)
    ensures
        n <= 20 ==> factorial(n) <= u64::MAX,
        n >= 21 ==> factorial(n) > u64::MAX,
{
    assert(factorial(20) == 2432902008176640000 && factorial(21) == 51090942171709440000) by {
        reveal_with_fuel(factorial, 22);
    }
    if n <= 20 {
        lemma_factorial_monotonic(n, 20);
    } else {
        lemma_factorial_monotonic(21, n);
    }
}

/// Multiplying the clamped factorial of `n - 1` by `n`, again clamped, gives
/// the clamped factorial of `n`: once the running product has hit the ceiling
/// it stays there.
pub proof fn lemma_saturating_factorial_step(n: nat)
    requires
        1 <= n <= u64::MAX,
    ensures
        saturating_factorial(n) == saturate(saturating_factorial((n - 1) as nat) as nat * n),
{
    let before = factorial((n - 1) as nat);
    lemma_factorial_monotonic(0, (n - 1) as nat);
    assert(factorial(n) == before * n) by (nonlinear_arith)
        requires
            factorial(n) == n * before,
    ;
    if before > u64::MAX {
        assert(before * n >= before) by (nonlinear_arith)
            requires
                n >= 1,
        ;
        assert(u64::MAX as nat * n >= u64::MAX) by (nonlinear_arith)
            requires
                n >= 1,
        ;
    }
}

/// What `factorial_iter` returns: `n!` clamped to the range of `u64`.
pub open spec fn spec_factorial_iter(n: u32) -> u64 {
    saturating_factorial(n as nat)
}

/// What `factorial_rec` returns, as its recursion reads: `1` up to `n == 1`,
/// and above that the saturating product of `n` and the value for `n - 1`.
pub open spec fn spec_factorial_rec(n: u32) -> u64
    decreases n,
{
    if n <= 1 {
        1
    } else {
        saturate(spec_factorial_rec((n - 1) as u32) as nat * n as nat)
    }
}

/// The recursion of `factorial_rec` computes the clamped factorial.
pub proof fn lemma_factorial_rec_is_saturating_factorial(n: u32)
    ensures
        spec_factorial_rec(n) == saturating_factorial(n as nat),
    decreases n,
{
    if n <= 1 {
        assert(factorial(1) == 1 && factorial(0) == 1) by {
            reveal_with_fuel(factorial, 2);
        }
    } else {
        lemma_factorial_rec_is_saturating_factorial((n - 1) as u32);
        lemma_saturating_factorial_step(n as nat);
    }
}

/// The loop and the recursion return the same value on every input.
pub proof fn lemma_factorial_iter_equals_rec(n: u32)
    ensures
        factorial_iter(n) == factorial_rec(n),
{
    lemma_factorial_rec_is_saturating_factorial(n);
}

/// `n!`, computed by multiplying the factors `2..=n` into a running product
/// that saturates at `u64::MAX`.
#[verifier::when_used_as_spec(spec_factorial_iter)]
pub fn factorial_iter(n: u32) -> (r: u64)
    ensures
        r == saturating_factorial(n as nat),
        n <= 20 ==> r == factorial(n as nat),
        n >= 21 ==> r == u64::MAX,
{
    let mut acc: u64 = 1;
    let mut i: u32 = 1;
    proof {
        assert(factorial(1) == 1 && factorial(0) == 1) by {
            reveal_with_fuel(factorial, 2);
        }
    }
    while i < n
        invariant
            1 <= i,
            i <= n || i == 1,
            acc == saturating_factorial(i as nat),
        decreases n - i,
    {
        i = i + 1;
        proof {
            lemma_saturating_factorial_step(i as nat);
        }
        acc = acc.saturating_mul(i as u64);
    }
    proof {
        assert(factorial(0) == factorial(1)) by {
            reveal_with_fuel(factorial, 2);
        }
        lemma_factorial_fits_up_to_20(n as nat);
    }
    acc
}

/// `n!`, computed by recursive descent: `1` for `n <= 1`, else the saturating
/// product of `n` and the factorial of `n - 1`. The recursion is `n` deep.
#[verifier::when_used_as_spec(spec_factorial_rec)]
pub fn factorial_rec(n: u32) -> (r: u64)
    ensures
        r == spec_factorial_rec(n),
        r == saturating_factorial(n as nat),
        n <= 20 ==> r == factorial(n as nat),
        n >= 21 ==> r == u64::MAX,
    decreases n,
{
    proof {
        lemma_factorial_rec_is_saturating_factorial(n);
        lemma_factorial_fits_up_to_20(n as nat);
    }
    if n <= 1 {
        1
    } else {
        let prev = factorial_rec(n - 1);
        prev.saturating_mul(n as u64)
    }
}

} // verus!
