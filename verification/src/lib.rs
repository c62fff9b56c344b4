//! Small numeric kernels: factorials that saturate at the top of `u64`,
//! dense square matrix products, and reproducible pseudo-random matrices.

pub mod factorial;
pub mod integer;
pub mod layout;
pub mod matrix;
pub mod random;

pub use factorial::{factorial_iter, factorial_rec};
pub use matrix::{mat_mul, Scalar};
pub use random::{lcg_step, make_rand_matrix};
