//! The row-major layout of a square matrix in a flat buffer: the cell in row
//! `row` and column `col` of an `n` by `n` matrix stands at index
//! `row * n + col`.

use vstd::arithmetic::div_mod::{lemma_fundamental_div_mod, lemma_fundamental_div_mod_converse};
use vstd::prelude::*;

verus! {

/// The index of a cell lies within the buffer, and gives the cell back.
pub proof fn lemma_cell_index(n: int, row: int, col: int)
    requires
        0 <= row < n,
        0 <= col < n,
    ensures
        0 <= row * n <= row * n + col < n * n,
        (row * n + col) / n == row,
        (row * n + col) % n == col,
{
    assert(0 <= row * n && row * n + n <= n * n) by (nonlinear_arith)
        requires
            0 <= row < n,
    ;
    lemma_fundamental_div_mod_converse(row * n + col, n, row, col);
}

/// An index within the buffer is the index of one cell.
pub proof fn lemma_index_cell(n: int, idx: int)
    requires
        0 <= n,
        0 <= idx < n * n,
    ensures
        0 <= idx / n < n,
        0 <= idx % n < n,
        idx == (idx / n) * n + idx % n,
{
    assert(n > 0) by (nonlinear_arith)
        requires
            0 <= n,
            0 < n * n,
    ;
    lemma_fundamental_div_mod(idx, n);
    let q = idx / n;
    let r = idx % n;
    assert(0 <= r < n);
    assert(0 <= q < n && n * q == q * n) by (nonlinear_arith)
        requires
            0 <= r < n,
            0 <= n * q + r < n * n,
    ;
}

} // verus!
