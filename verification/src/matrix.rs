//! Dense square matrices held in flat row-major buffers, and their product.
//!
//! An `n` by `n` matrix is a buffer of `n * n` entries; the entry in row `row`
//! and column `col` stands at index `row * n + col`.

use crate::layout::{lemma_cell_index, lemma_index_cell};
use vstd::prelude::*;

verus! {

/// What a matrix product asks of the entries of a matrix: a zero to start
/// each sum from, and the step that adds one product to a running sum.
///
/// Nothing is asked of how the two operations behave. The contract of
/// [`mat_mul`] says which calls of them, on which arguments and in which
/// order, give each entry of the product; what that entry is then follows
/// from what the entry type states of its own operations.
pub trait Scalar: Copy {
    /// The value that every sum starts from.
    fn zero() -> Self;

    /// The running sum `acc` with the product of `x` and `y` added to it.
    fn accumulate(acc: Self, x: Self, y: Self) -> Self;
}

/// `sum` is what the entry type gives for the first `terms` products of row
/// `row` of `a` with column `col` of `b`, taken from the left: the sum starts
/// from `zero()`, and the product with contraction index `k` is added by the
/// `k + 1`-th call of `accumulate`.
pub open spec fn is_partial_dot<T: Scalar>(
    a: Seq<T>,
    b: Seq<T>,
    n: int,
    row: int,
    col: int,
    terms: nat,
    sum: T,
) -> bool
    decreases terms,
{
    if terms == 0 {
        call_ensures(T::zero, (), sum)
    } else {
        let k = terms - 1;
        exists|prev: T|
            is_partial_dot(a, b, n, row, col, k as nat, prev) && #[trigger] call_ensures(
                T::accumulate,
                (prev, a[row * n + k], b[k * n + col]),
                sum,
            )
    }
}

/// `c` is the product of the `n` by `n` matrices `a` and `b`, in row-major
/// order: it has `n * n` entries, and the one at `row * n + col` is the full
/// sum of row `row` of `a` with column `col` of `b`.
pub open spec fn is_matrix_product<T: Scalar>(c: Seq<T>, a: Seq<T>, b: Seq<T>, n: nat) -> bool {
    &&& c.len() == n * n
    &&& forall|idx: int|
        0 <= idx < n * n ==> is_partial_dot(
            a,
            b,
            n as int,
            idx / (n as int),
            idx % (n as int),
            n,
            #[trigger] c[idx],
        )
}

/// One more call of `accumulate`, on the next pair of entries, turns a sum of
/// `terms` products into a sum of `terms + 1`.
proof fn lemma_next_term<T: Scalar>(
    a: Seq<T>,
    b: Seq<T>,
    n: int,
    row: int,
    col: int,
    terms: nat,
    prev: T,
    sum: T,
)
    requires
        is_partial_dot(a, b, n, row, col, terms, prev),
        call_ensures(T::accumulate, (prev, a[row * n + terms], b[terms * n + col]), sum),
    ensures
        is_partial_dot(a, b, n, row, col, terms + 1, sum),
{
    let k = (terms + 1) - 1;
    assert(is_partial_dot(a, b, n, row, col, k as nat, prev));
    assert(call_ensures(T::accumulate, (prev, a[row * n + k], b[k * n + col]), sum));
}

/// How many terms the entry at `idx` holds when the loops of [`mat_mul`]
/// stand at row `i`, contraction index `k` and column `j`: rows above `i` are
/// finished, rows below are untouched, and in row `i` the columns before `j`
/// are one term ahead of the others.
spec fn terms_held(n: int, idx: int, i: int, k: int, j: int) -> nat {
    let row = idx / n;
    let col = idx % n;
    if row < i {
        n as nat
    } else if row > i {
        0
    } else if col < j {
        (k + 1) as nat
    } else {
        k as nat
    }
}

/// The buffer `c` as the loops of [`mat_mul`] have left it at `(i, k, j)`.
spec fn product_so_far<T: Scalar>(
    c: Seq<T>,
    a: Seq<T>,
    b: Seq<T>,
    n: int,
    i: int,
    k: int,
    j: int,
) -> bool {
    &&& c.len() == n * n
    &&& forall|idx: int|
        0 <= idx < n * n ==> is_partial_dot(
            a,
            b,
            n,
            idx / n,
            idx % n,
            terms_held(n, idx, i, k, j),
            #[trigger] c[idx],
        )
}

/// When the columns of row `i` have all received the term with contraction
/// index `k`, the loops stand at the first column of the next index.
proof fn lemma_column_pass_done<T: Scalar>(c: Seq<T>, a: Seq<T>, b: Seq<T>, n: int, i: int, k: int)
    requires
        0 <= n,
        product_so_far(c, a, b, n, i, k, n),
    ensures
        product_so_far(c, a, b, n, i, k + 1, 0),
{
    assert forall|idx: int| 0 <= idx < n * n implies terms_held(n, idx, i, k, n) == terms_held(
        n,
        idx,
        i,
        k + 1,
        0,
    ) by {
        lemma_index_cell(n, idx);
    }
}

/// When row `i` has received all its terms, the loops stand at the start of
/// the next row.
proof fn lemma_row_done<T: Scalar>(c: Seq<T>, a: Seq<T>, b: Seq<T>, n: int, i: int)
    requires
        0 <= n,
        product_so_far(c, a, b, n, i, n, 0),
    ensures
        product_so_far(c, a, b, n, i + 1, 0, 0),
{
    assert forall|idx: int| 0 <= idx < n * n implies terms_held(n, idx, i, n, 0) == terms_held(
        n,
        idx,
        i + 1,
        0,
        0,
    ) by {
        lemma_index_cell(n, idx);
    }
}

/// A buffer of `len` copies of one zero.
fn zero_matrix<T: Scalar>(len: usize) -> (c: Vec<T>)
    ensures
        c@.len() == len,
        forall|idx: int| 0 <= idx < len ==> call_ensures(T::zero, (), #[trigger] c@[idx]),
{
    let zero = T::zero();
    let mut c: Vec<T> = Vec::new();
    while c.len() < len
        invariant
            c.len() <= len,
            call_ensures(T::zero, (), zero),
            forall|idx: int| 0 <= idx < c.len() ==> c@[idx] == zero,
        decreases len - c.len(),
    {
        c.push(zero);
    }
    c
}

/// The product of two `n` by `n` matrices.
///
/// Where `a` or `b` does not hold exactly `n * n` entries the result is
/// empty. Otherwise it holds the `n * n` entries of the product, each one the
/// sum over the contraction index in rising order. The loops run over the
/// row, then the contraction index, then the column, so that both `b` and the
/// result are walked along their rows.
pub fn mat_mul<T: Scalar>(a: Vec<T>, b: Vec<T>, n: usize) -> (c: Vec<T>)
    ensures
        a@.len() == n * n && b@.len() == n * n ==> is_matrix_product(c@, a@, b@, n as nat),
        a@.len() != n * n || b@.len() != n * n ==> c@.len() == 0,
{
    let size = match n.checked_mul(n) {
        Some(size) => size,
        None => {
            assert(a.len() < n * n);
            return Vec::new();
        },
    };
    if a.len() != size || b.len() != size {
        return Vec::new();
    }
    let mut c = zero_matrix::<T>(size);
    proof {
        assert forall|idx: int| 0 <= idx < n * n implies terms_held(n as int, idx, 0, 0, 0)
            == 0 by {
            lemma_index_cell(n as int, idx);
        }
    }
    for i in 0..n
        invariant
            size == n * n,
            a.len() == size,
            b.len() == size,
            product_so_far(c@, a@, b@, n as int, i as int, 0, 0),
    {
        for k in 0..n
            invariant
                i < n,
                size == n * n,
                a.len() == size,
                b.len() == size,
                product_so_far(c@, a@, b@, n as int, i as int, k as int, 0),
        {
            proof {
                lemma_cell_index(n as int, i as int, k as int);
            }
            let aik = a[i * n + k];
            for j in 0..n
                invariant
                    i < n,
                    k < n,
                    size == n * n,
                    a.len() == size,
                    b.len() == size,
                    0 <= i * n + k < size,
                    aik == a@[i * n + k],
                    product_so_far(c@, a@, b@, n as int, i as int, k as int, j as int),
            {
                proof {
                    lemma_cell_index(n as int, i as int, j as int);
                    lemma_cell_index(n as int, k as int, j as int);
                }
                let ghost before = c@;
                let sum = T::accumulate(c[i * n + j], aik, b[k * n + j]);
                c.set(i * n + j, sum);
                proof {
                    assert forall|idx: int| 0 <= idx < n * n implies is_partial_dot(
                        a@,
                        b@,
                        n as int,
                        idx / (n as int),
                        idx % (n as int),
                        terms_held(n as int, idx, i as int, k as int, j + 1),
                        #[trigger] c@[idx],
                    ) by {
                        lemma_index_cell(n as int, idx);
                        if idx != i * n + j {
                            assert(c@[idx] == before[idx]);
                            assert(terms_held(n as int, idx, i as int, k as int, j + 1)
                                == terms_held(n as int, idx, i as int, k as int, j as int));
                        } else {
                            assert(terms_held(n as int, idx, i as int, k as int, j as int) == k);
                            assert(terms_held(n as int, idx, i as int, k as int, j + 1) == k + 1);
                            lemma_next_term(
                                a@,
                                b@,
                                n as int,
                                i as int,
                                j as int,
                                k as nat,
                                before[idx],
                                c@[idx],
                            );
                        }
                    }
                }
            }
            proof {
                lemma_column_pass_done(c@, a@, b@, n as int, i as int, k as int);
            }
        }
        proof {
            lemma_row_done(c@, a@, b@, n as int, i as int);
        }
    }
    proof {
        assert forall|idx: int| 0 <= idx < n * n implies terms_held(
            n as int,
            idx,
            n as int,
            0,
            0,
        ) == n by {
            lemma_index_cell(n as int, idx);
        }
    }
    c
}

/// In a product, the entry of row `row` and column `col` is the full sum of
/// that row of `a` with that column of `b`.
pub proof fn lemma_product_cell<T: Scalar>(
    c: Seq<T>,
    a: Seq<T>,
    b: Seq<T>,
    n: nat,
    row: int,
    col: int,
)
    requires
        is_matrix_product(c, a, b, n),
        0 <= row < n,
        0 <= col < n,
    ensures
        0 <= row * n + col < c.len(),
        is_partial_dot(a, b, n as int, row, col, n, c[row * n + col]),
{
    lemma_cell_index(n as int, row, col);
}

/// `first` and `second` are both what `zero()` may return.
pub open spec fn both_zero<T: Scalar>(first: T, second: T) -> bool {
    call_ensures(T::zero, (), first) && call_ensures(T::zero, (), second)
}

/// `first` and `second` are both what `accumulate(acc, x, y)` may return.
pub open spec fn both_accumulated<T: Scalar>(acc: T, x: T, y: T, first: T, second: T) -> bool {
    call_ensures(T::accumulate, (acc, x, y), first) && call_ensures(
        T::accumulate,
        (acc, x, y),
        second,
    )
}

/// The operations of `T` are functions: equal arguments give equal results.
pub open spec fn single_valued<T: Scalar>() -> bool {
    &&& forall|first: T, second: T| #[trigger] both_zero(first, second) ==> first == second
    &&& forall|acc: T, x: T, y: T, first: T, second: T| #[trigger]
        both_accumulated(acc, x, y, first, second) ==> first == second
}

/// With operations that are functions, a sum of products has one value.
pub proof fn lemma_partial_dot_is_unique<T: Scalar>(
    a: Seq<T>,
    b: Seq<T>,
    n: int,
    row: int,
    col: int,
    terms: nat,
    first: T,
    second: T,
)
    requires
        single_valued::<T>(),
        is_partial_dot(a, b, n, row, col, terms, first),
        is_partial_dot(a, b, n, row, col, terms, second),
    ensures
        first == second,
    decreases terms,
{
    if terms > 0 {
        let k = terms - 1;
        let before_first = choose|prev: T|
            is_partial_dot(a, b, n, row, col, k as nat, prev) && #[trigger] call_ensures(
                T::accumulate,
                (prev, a[row * n + k], b[k * n + col]),
                first,
            );
        let before_second = choose|prev: T|
            is_partial_dot(a, b, n, row, col, k as nat, prev) && #[trigger] call_ensures(
                T::accumulate,
                (prev, a[row * n + k], b[k * n + col]),
                second,
            );
        lemma_partial_dot_is_unique(a, b, n, row, col, k as nat, before_first, before_second);
        assert(both_accumulated(
            before_first,
            a[row * n + k],
            b[k * n + col],
            first,
            second,
        ));
    } else {
        assert(both_zero(first, second));
    }
}

/// With operations that are functions, two matrices have one product: what
/// [`mat_mul`] returns for them is the same on every call.
pub proof fn lemma_product_is_unique<T: Scalar>(
    first: Seq<T>,
    second: Seq<T>,
    a: Seq<T>,
    b: Seq<T>,
    n: nat,
)
    requires
        single_valued::<T>(),
        is_matrix_product(first, a, b, n),
        is_matrix_product(second, a, b, n),
    ensures
        first == second,
{
    assert forall|idx: int| 0 <= idx < n * n implies first[idx] == second[idx] by {
        lemma_partial_dot_is_unique(
            a,
            b,
            n as int,
            idx / (n as int),
            idx % (n as int),
            n,
            first[idx],
            second[idx],
        );
    }
    assert(first =~= second);
}

} // verus!
