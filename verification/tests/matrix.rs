use rust_math::{mat_mul, Scalar};

/// A 64-bit float as a matrix entry, with the plain sum and product.
#[derive(Clone, Copy, Debug, PartialEq)]
struct Real(f64);

impl Scalar for Real {
    fn zero() -> Real {
        Real(0.0)
    }

    fn accumulate(acc: Real, x: Real, y: Real) -> Real {
        Real(acc.0 + x.0 * y.0)
    }
}

/// An entry whose sums depend on the order of their terms: each step
/// multiplies the running sum by 31 before it adds the product.
#[derive(Clone, Copy, Debug, PartialEq)]
struct Ordered(u64);

impl Scalar for Ordered {
    fn zero() -> Ordered {
        Ordered(7)
    }

    fn accumulate(acc: Ordered, x: Ordered, y: Ordered) -> Ordered {
        Ordered(acc.0.wrapping_mul(31).wrapping_add(x.0.wrapping_mul(y.0)))
    }
}

fn reals(values: &[f64]) -> Vec<Real> {
    values.iter().map(|v| Real(*v)).collect()
}

fn floats(values: Vec<Real>) -> Vec<f64> {
    values.into_iter().map(|r| r.0).collect()
}

fn real_product(a: &[f64], b: &[f64], n: usize) -> Vec<f64> {
    floats(mat_mul(reals(a), reals(b), n))
}

#[test]
fn mismatched_lengths_give_empty_result() {
    let a = vec![0.0; 4];
    let b = vec![0.0; 9];
    assert_eq!(real_product(&a, &b, 3).len(), 0);
    assert_eq!(real_product(&b, &a, 3).len(), 0);
    assert_eq!(real_product(&a, &a, 3).len(), 0);
    assert_eq!(mat_mul(vec![1i64; 4], vec![1i64; 9], 3), Vec::<i64>::new());
}

#[test]
fn mismatch_with_nonempty_buffers_and_zero_dimension() {
    assert_eq!(mat_mul(vec![1i64], vec![1i64], 0), Vec::<i64>::new());
    assert_eq!(mat_mul(vec![1i64, 2], vec![], 1), Vec::<i64>::new());
}

#[test]
fn dimension_whose_square_overflows_is_a_mismatch() {
    assert_eq!(mat_mul(vec![1i64; 4], vec![1i64; 4], usize::MAX), Vec::<i64>::new());
    assert_eq!(mat_mul(Vec::<i64>::new(), Vec::<i64>::new(), usize::MAX), Vec::<i64>::new());
}

#[test]
fn zero_dimension_is_a_valid_empty_product() {
    assert_eq!(real_product(&[], &[], 0), Vec::<f64>::new());
    assert_eq!(mat_mul(Vec::<i64>::new(), Vec::<i64>::new(), 0), Vec::<i64>::new());
}

#[test]
fn one_by_one_product() {
    assert_eq!(mat_mul(vec![6i64], vec![7i64], 1), vec![42]);
    assert_eq!(real_product(&[1.5], &[-2.0], 1), vec![-3.0]);
}

#[test]
fn two_by_two_product_is_exact() {
    let c = real_product(&[1.0, 2.0, 3.0, 4.0], &[5.0, 6.0, 7.0, 8.0], 2);
    assert_eq!(c, vec![19.0, 22.0, 43.0, 50.0]);
    let c = mat_mul(vec![1i64, 2, 3, 4], vec![5i64, 6, 7, 8], 2);
    assert_eq!(c, vec![19, 22, 43, 50]);
}

#[test]
fn product_is_not_commutative() {
    let c = mat_mul(vec![5i64, 6, 7, 8], vec![1i64, 2, 3, 4], 2);
    assert_eq!(c, vec![23, 34, 31, 46]);
}

#[test]
fn identity_times_matrix_is_matrix() {
    let identity = [1.0, 0.0, 0.0, 1.0];
    let m = [3.25, -1.5, 0.125, 7.0];
    let left = real_product(&identity, &m, 2);
    let right = real_product(&m, &identity, 2);
    for idx in 0..4 {
        assert!((left[idx] - m[idx]).abs() < 1e-12);
        assert!((right[idx] - m[idx]).abs() < 1e-12);
    }
    let m = vec![9i64, -4, i64::MAX, i64::MIN];
    assert_eq!(mat_mul(vec![1i64, 0, 0, 1], m.clone(), 2), m);
    assert_eq!(mat_mul(m.clone(), vec![1i64, 0, 0, 1], 2), m);
}

#[test]
fn three_by_three_product() {
    let a = vec![1i64, 2, 3, 4, 5, 6, 7, 8, 9];
    let b = vec![9i64, 8, 7, 6, 5, 4, 3, 2, 1];
    assert_eq!(mat_mul(a, b, 3), vec![30, 24, 18, 84, 69, 54, 138, 114, 90]);
    let a = [1.0, 2.0, 3.0, 4.0, 5.0, 6.0, 7.0, 8.0, 9.0];
    let b = [9.0, 8.0, 7.0, 6.0, 5.0, 4.0, 3.0, 2.0, 1.0];
    assert_eq!(
        real_product(&a, &b, 3),
        vec![30.0, 24.0, 18.0, 84.0, 69.0, 54.0, 138.0, 114.0, 90.0]
    );
}

#[test]
fn sums_run_over_the_contraction_index_in_rising_order() {
    // With these entries the order of the additions shows in the result:
    // (1e16 + 1) - 1e16 is 0 in 64-bit floats, while (1e16 - 1e16) + 1 is 1.
    let a = [1e16, 1.0, 0.0, 0.0];
    let b = [1.0, 0.0, 1.0, 0.0];
    assert_eq!(real_product(&a, &b, 2)[0], (0.0 + 1e16 * 1.0) + 1.0 * 1.0);
    let a = [1e16, -1e16, 1.0, 0.0, 0.0, 0.0, 0.0, 0.0, 0.0];
    let b = [1.0, 0.0, 0.0, 1.0, 0.0, 0.0, 1.0, 0.0, 0.0];
    assert_eq!(real_product(&a, &b, 3)[0], 1.0);
    let a = [1e16, 1.0, -1e16, 0.0, 0.0, 0.0, 0.0, 0.0, 0.0];
    assert_eq!(real_product(&a, &b, 3)[0], 0.0);
}

#[test]
fn integer_sums_and_products_wrap() {
    assert_eq!(mat_mul(vec![i64::MAX], vec![2i64], 1), vec![-2]);
    assert_eq!(
        mat_mul(vec![i64::MAX, 1, 0, 0], vec![1i64, 0, 1, 0], 2),
        vec![i64::MIN, 0, 0, 0]
    );
    assert_eq!(<i64 as Scalar>::zero(), 0);
    assert_eq!(<i64 as Scalar>::accumulate(3, 4, 5), 23);
}

#[test]
fn each_entry_is_folded_from_zero_in_rising_order() {
    let n = 3usize;
    let a: Vec<u64> = vec![2, 3, 5, 7, 11, 13, 17, 19, 23];
    let b: Vec<u64> = vec![29, 31, 37, 41, 43, 47, 53, 59, 61];
    let c = mat_mul(
        a.iter().map(|v| Ordered(*v)).collect(),
        b.iter().map(|v| Ordered(*v)).collect(),
        n,
    );
    assert_eq!(c.len(), 9);
    for row in 0..n {
        for col in 0..n {
            let mut sum = 7u64;
            for k in 0..n {
                sum = sum * 31 + a[row * n + k] * b[k * n + col];
            }
            assert_eq!(c[row * n + col], Ordered(sum));
        }
    }
    // Row 0 with column 0: ((7 * 31 + 2 * 29) * 31 + 3 * 41) * 31 + 5 * 53.
    assert_eq!(c[0], Ordered(268_353));
}

#[test]
fn product_is_the_same_on_every_call() {
    let a = vec![4i64, -7, 12, 9];
    let b = vec![-3i64, 8, 5, 6];
    assert_eq!(mat_mul(a.clone(), b.clone(), 2), mat_mul(a, b, 2));
    let a = [0.1, 0.2, 0.3, 0.4];
    let b = [0.5, 0.6, 0.7, 0.8];
    let first: Vec<u64> = real_product(&a, &b, 2).iter().map(|v| v.to_bits()).collect();
    let second: Vec<u64> = real_product(&a, &b, 2).iter().map(|v| v.to_bits()).collect();
    assert_eq!(first, second);
}
