//! A linear congruential generator on 32-bit states, and the square matrices
//! drawn from it.
//!
//! The generator steps a state `x` to `x * 1664525 + 1013904223` modulo
//! `2^32`. A matrix takes one draw per entry, in row-major order. The draw `x`
//! of an entry stands for the centred value `x / (2^32 - 1) - 1/2`, which lies
//! between `-1/2` and `1/2`.

use vstd::prelude::*;

verus! {

/// The factor by which a state is multiplied in each step.
pub const LCG_MULTIPLIER: u32 = 1664525;

/// The amount added to a state in each step.
pub const LCG_INCREMENT: u32 = 1013904223;

/// The inverse of the multiplier modulo `2^32`:
/// `1664525 * 4276115653 == 1657219 * 2^32 + 1`.
pub const LCG_INVERSE_MULTIPLIER: u32 = 4276115653;

/// The state that follows `x`: sum and product wrap at `2^32`.
pub open spec fn lcg_next(x: u32) -> u32 {
    ((x * LCG_MULTIPLIER + LCG_INCREMENT) % 0x1_0000_0000) as u32
}

/// The state that `lcg_next` steps to `y`.
pub open spec fn lcg_prev(y: u32) -> u32 {
    (((y - LCG_INCREMENT) * LCG_INVERSE_MULTIPLIER) % 0x1_0000_0000) as u32
}

/// The state reached from `seed` after `steps` steps.
pub open spec fn lcg_state(seed: u32, steps: nat) -> u32
    decreases steps,
{
    if steps == 0 {
        seed
    } else {
        lcg_next(lcg_state(seed, (steps - 1) as nat))
    }
}

/// The draw behind the entry at `idx` of a matrix seeded with `seed`. The
/// seed is stepped once before the first entry, and once more for each entry,
/// so that the seed itself is never drawn.
pub open spec fn cell_draw(seed: u32, idx: int) -> u32 {
    lcg_state(seed, (idx + 2) as nat)
}

/// The draws of an `n` by `n` matrix seeded with `seed`, in row-major order.
pub open spec fn matrix_draws(n: nat, seed: u32) -> Seq<u32> {
    Seq::new(n * n, |idx: int| cell_draw(seed, idx))
}

/// A step can be undone: the generator walks a permutation of the states.
pub proof fn lemma_lcg_prev_undoes_next(x: u32)
    ensures
        lcg_prev(lcg_next(x)) == x,
{
    let wraps = (x * 1664525 + 1013904223) / 0x1_0000_0000;
    let y = lcg_next(x);
    assert(y == x * 1664525 + 1013904223 - wraps * 0x1_0000_0000);
    assert((y - 1013904223) * 4276115653 == x + (1657219 * x - 4276115653 * wraps)
        * 0x1_0000_0000);
}

/// No two states step to the same state.
pub proof fn lemma_lcg_next_injective(x: u32, y: u32)
    requires
        lcg_next(x) == lcg_next(y),
    ensures
        x == y,
{
    lemma_lcg_prev_undoes_next(x);
    lemma_lcg_prev_undoes_next(y);
}

/// Two seeds that differ are still apart after any number of steps.
pub proof fn lemma_distinct_seeds_distinct_states(first: u32, second: u32, steps: nat)
    requires
        first != second,
    ensures
        lcg_state(first, steps) != lcg_state(second, steps),
    decreases steps,
{
    if steps > 0 {
        lemma_distinct_seeds_distinct_states(first, second, (steps - 1) as nat);
        if lcg_state(first, steps) == lcg_state(second, steps) {
            lemma_lcg_next_injective(
                lcg_state(first, (steps - 1) as nat),
                lcg_state(second, (steps - 1) as nat),
            );
        }
    }
}

/// Matrices of one dimension drawn from two seeds that differ have the same
/// number of entries and differ in every one of them.
pub proof fn lemma_distinct_seeds_distinct_draws(n: nat, first: u32, second: u32)
    requires
        first != second,
    ensures
        matrix_draws(n, first).len() == matrix_draws(n, second).len(),
        forall|idx: int|
            0 <= idx < n * n ==> #[trigger] matrix_draws(n, first)[idx] != matrix_draws(
                n,
                second,
            )[idx],
        n > 0 ==> matrix_draws(n, first) != matrix_draws(n, second),
{
    assert forall|idx: int| 0 <= idx < n * n implies #[trigger] matrix_draws(n, first)[idx]
        != matrix_draws(n, second)[idx] by {
        lemma_distinct_seeds_distinct_states(first, second, (idx + 2) as nat);
    }
    if n > 0 {
        assert(0 < n * n) by (nonlinear_arith)
            requires
                n > 0,
        ;
        assert(matrix_draws(n, first)[0] != matrix_draws(n, second)[0]);
    }
}

/// The draws depend on the dimension and the seed alone: two matrices drawn
/// with the same dimension and the same seed are equal.
pub proof fn lemma_same_seed_same_draws(n: nat, seed: u32, first: Seq<u32>, second: Seq<u32>)
    requires
        first == matrix_draws(n, seed),
        second == matrix_draws(n, seed),
    ensures
        first == second,
{
}

/// One step of the generator.
pub fn lcg_step(x: u32) -> (next: u32)
    ensures
        next == lcg_next(x),
{
    x.wrapping_mul(LCG_MULTIPLIER).wrapping_add(LCG_INCREMENT)
}

/// The draws of an `n` by `n` matrix seeded with `seed`, in row-major order.
///
/// The buffer must fit in memory: `n * n` may not exceed `usize::MAX`.
pub fn make_rand_matrix(n: usize, seed: u32) -> (out: Vec<u32>)
    requires
        n * n <= usize::MAX,
    ensures
        out@ == matrix_draws(n as nat, seed),
{
    let size = n * n;
    let mut out: Vec<u32> = vec![0u32; size];
    let mut x = lcg_step(seed);
    assert(x == lcg_state(seed, 1)) by {
        reveal_with_fuel(lcg_state, 2);
    }
    for i in 0..size
        invariant
            size == n * n,
            out.len() == size,
            x == lcg_state(seed, (i + 1) as nat),
            forall|idx: int| 0 <= idx < i ==> out@[idx] == cell_draw(seed, idx),
    {
        x = lcg_step(x);
        out.set(i, x);
    }
    assert(out@ =~= matrix_draws(n as nat, seed));
    out
}

} // verus!
