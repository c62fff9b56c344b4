//! Matrices of `i64` entries: integers modulo `2^64`, for which the product
//! of two matrices is the product in the integers, reduced entry by entry.

use crate::layout::{lemma_cell_index, lemma_index_cell};
use crate::matrix::{
    both_accumulated, both_zero, is_matrix_product, is_partial_dot, single_valued, Scalar,
};
use vstd::prelude::*;

verus! {

/// The `i64` that differs from `v` by a multiple of `2^64`.
pub open spec fn wrapped(v: int) -> i64 {
    let low = v % 0x1_0000_0000_0000_0000;
    if low > i64::MAX {
        (low - 0x1_0000_0000_0000_0000) as i64
    } else {
        low as i64
    }
}

/// Reducing a term of a sum before the sum is reduced changes nothing.
pub proof fn lemma_wrapped_absorbs(v: int, w: int)
    ensures
        wrapped(v + wrapped(w)) == wrapped(v + w),
        wrapped(wrapped(w) + v) == wrapped(w + v),
{
    let low = w % 0x1_0000_0000_0000_0000;
    let turns = w / 0x1_0000_0000_0000_0000;
    assert(w == turns * 0x1_0000_0000_0000_0000 + low);
    let kept = wrapped(w) as int;
    assert(kept == low || kept == low - 0x1_0000_0000_0000_0000);
    let shift = (w - kept) / 0x1_0000_0000_0000_0000;
    assert(w + v == (kept + v) + shift * 0x1_0000_0000_0000_0000);
    assert((w + v) % 0x1_0000_0000_0000_0000 == (kept + v) % 0x1_0000_0000_0000_0000);
}

/// Integers modulo `2^64`, in two's complement: sums and products wrap.
impl Scalar for i64 {
    fn zero() -> (z: i64)
        ensures
            z == 0,
    {
        0
    }

    fn accumulate(acc: i64, x: i64, y: i64) -> (sum: i64)
        ensures
            sum == wrapped(acc + x * y),
    {
        let product = x.wrapping_mul(y);
        proof {
            lemma_wrapped_absorbs(acc as int, x * y);
        }
        acc.wrapping_add(product)
    }
}

/// The operations on `i64` entries are functions of their arguments.
pub proof fn lemma_integers_single_valued()
    ensures
        single_valued::<i64>(),
{
    assert forall|first: i64, second: i64| #[trigger]
        both_zero(first, second) implies first == second by {
        assert(first == 0 && second == 0);
    }
    assert forall|acc: i64, x: i64, y: i64, first: i64, second: i64| #[trigger]
        both_accumulated(acc, x, y, first, second) implies first == second by {
        assert(first == wrapped(acc + x * y) && second == wrapped(acc + x * y));
    }
}

/// The sum of the first `terms` products of row `row` of `a` with column
/// `col` of `b`, in the integers.
pub open spec fn exact_dot(a: Seq<i64>, b: Seq<i64>, n: int, row: int, col: int, terms: nat) -> int
    decreases terms,
{
    if terms == 0 {
        0
    } else {
        let k = terms - 1;
        exact_dot(a, b, n, row, col, k as nat) + a[row * n + k] * b[k * n + col]
    }
}

/// The product of two `n` by `n` integer matrices, each entry reduced
/// modulo `2^64`.
pub open spec fn integer_product(a: Seq<i64>, b: Seq<i64>, n: nat) -> Seq<i64> {
    Seq::new(
        n * n,
        |idx: int| wrapped(exact_dot(a, b, n as int, idx / (n as int), idx % (n as int), n)),
    )
}

/// On `i64` entries a sum of products is the sum in the integers, reduced
/// modulo `2^64`: wrapping at every step loses nothing more than that.
pub proof fn lemma_integer_dot(
    a: Seq<i64>,
    b: Seq<i64>,
    n: int,
    row: int,
    col: int,
    terms: nat,
    sum: i64,
)
    requires
        is_partial_dot(a, b, n, row, col, terms, sum),
    ensures
        sum == wrapped(exact_dot(a, b, n, row, col, terms)),
    decreases terms,
{
    if terms > 0 {
        let k = terms - 1;
        let prev = choose|prev: i64|
            is_partial_dot(a, b, n, row, col, k as nat, prev) && #[trigger] call_ensures(
                <i64 as Scalar>::accumulate,
                (prev, a[row * n + k], b[k * n + col]),
                sum,
            );
        lemma_integer_dot(a, b, n, row, col, k as nat, prev);
        let exact = exact_dot(a, b, n, row, col, k as nat);
        let term = a[row * n + k] * b[k * n + col];
        lemma_wrapped_absorbs(term, exact);
    }
}

/// What [`mat_mul`] returns for two `n` by `n` matrices of `i64` entries is
/// their product in the integers, each entry reduced modulo `2^64`.
pub proof fn lemma_integer_product(c: Seq<i64>, a: Seq<i64>, b: Seq<i64>, n: nat)
    requires
        is_matrix_product(c, a, b, n),
    ensures
        c == integer_product(a, b, n),
{
    assert forall|idx: int| 0 <= idx < n * n implies c[idx] == integer_product(a, b, n)[idx] by {
        lemma_integer_dot(a, b, n as int, idx / (n as int), idx % (n as int), n, c[idx]);
    }
    assert(c =~= integer_product(a, b, n));
}

/// The `n` by `n` identity matrix: ones on the diagonal, zeros elsewhere.
pub open spec fn identity_matrix(n: nat) -> Seq<i64> {
    Seq::new(
        n * n,
        |idx: int|
            if idx / (n as int) == idx % (n as int) {
                1i64
            } else {
                0i64
            },
    )
}

/// The sum of row `row` of the identity with a column of `m` is zero until
/// the diagonal is passed, and the entry of `m` in that row from then on.
proof fn lemma_identity_row_dot(m: Seq<i64>, n: nat, row: int, col: int, terms: nat)
    requires
        m.len() == n * n,
        0 <= row < n,
        0 <= col < n,
        terms <= n,
    ensures
        exact_dot(identity_matrix(n), m, n as int, row, col, terms) == if terms > row {
            m[row * n + col] as int
        } else {
            0
        },
    decreases terms,
{
    if terms > 0 {
        let k = terms - 1;
        lemma_identity_row_dot(m, n, row, col, k as nat);
        lemma_cell_index(n as int, row, k);
        let diagonal = identity_matrix(n)[row * n + k];
        assert(diagonal == if k == row { 1i64 } else { 0i64 });
        assert(diagonal * m[k * n + col] == if k == row { m[k * n + col] as int } else { 0 });
    }
}

/// The sum of a row of `m` with column `col` of the identity is zero until
/// the diagonal is passed, and the entry of `m` in that column from then on.
proof fn lemma_identity_column_dot(m: Seq<i64>, n: nat, row: int, col: int, terms: nat)
    requires
        m.len() == n * n,
        0 <= row < n,
        0 <= col < n,
        terms <= n,
    ensures
        exact_dot(m, identity_matrix(n), n as int, row, col, terms) == if terms > col {
            m[row * n + col] as int
        } else {
            0
        },
    decreases terms,
{
    if terms > 0 {
        let k = terms - 1;
        lemma_identity_column_dot(m, n, row, col, k as nat);
        lemma_cell_index(n as int, k, col);
        let diagonal = identity_matrix(n)[k * n + col];
        assert(diagonal == if k == col { 1i64 } else { 0i64 });
        assert(m[row * n + k] * diagonal == if k == col { m[row * n + k] as int } else { 0 });
    }
}

/// The identity is neutral on the left: what [`mat_mul`] returns for the
/// identity and an `n` by `n` matrix `m` of `i64` entries is `m` itself.
pub proof fn lemma_identity_times_matrix(c: Seq<i64>, m: Seq<i64>, n: nat)
    requires
        m.len() == n * n,
        is_matrix_product(c, identity_matrix(n), m, n),
    ensures
        c == m,
{
    assert forall|idx: int| 0 <= idx < n * n implies c[idx] == m[idx] by {
        let row = idx / (n as int);
        let col = idx % (n as int);
        lemma_index_cell(n as int, idx);
        lemma_identity_row_dot(m, n, row, col, n);
        lemma_integer_dot(identity_matrix(n), m, n as int, row, col, n, c[idx]);
    }
    assert(c =~= m);
}

/// The identity is neutral on the right: what [`mat_mul`] returns for an `n`
/// by `n` matrix `m` of `i64` entries and the identity is `m` itself.
pub proof fn lemma_matrix_times_identity(c: Seq<i64>, m: Seq<i64>, n: nat)
    requires
        m.len() == n * n,
        is_matrix_product(c, m, identity_matrix(n), n),
    ensures
        c == m,
{
    assert forall|idx: int| 0 <= idx < n * n implies c[idx] == m[idx] by {
        let row = idx / (n as int);
        let col = idx % (n as int);
        lemma_index_cell(n as int, idx);
        lemma_identity_column_dot(m, n, row, col, n);
        lemma_integer_dot(m, identity_matrix(n), n as int, row, col, n, c[idx]);
    }
    assert(c =~= m);
}

} // verus!
