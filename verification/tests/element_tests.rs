use simple_blas::array::element::Element;
use simple_blas::array::Array;
use simple_blas::array::ListError;
use simple_blas::array::fixed::Fixed;
use simple_blas::array::matrix_operations::Sqrt;

fn fx(n: i64, p: u32) -> Fixed {
    Fixed::from_frac(n, p)
}

#[test]
fn fixed_arithmetic_is_exact_on_decimals() {
    assert_eq!(fx(11, 1).add(fx(29, 1)), fx(4, 0));
    assert_eq!(fx(1, 0).div(fx(2, 0)), fx(5, 1));
    assert_eq!(fx(15, 1).mul(fx(-5, 1)), fx(-75, 2));
    assert_eq!(fx(3, 0).sub(fx(45, 1)), fx(-15, 1));
}

#[test]
fn fixed_sqrt_of_a_perfect_square_is_exact() {
    assert_eq!(fx(4, 0).sqrt(), fx(2, 0));
    assert_eq!(fx(225, 2).sqrt(), fx(15, 1));
    assert_eq!(fx(-1, 0).sqrt(), fx(0, 0));
}

#[test]
fn fixed_powi_matches_repeated_multiplication() {
    assert_eq!(fx(3, 0).powi(2), fx(9, 0));
    assert_eq!(fx(2, 0).powi(0), fx(1, 0));
    assert_eq!(fx(2, 0).powi(-1), fx(5, 1));
}

#[test]
fn integer_division_truncates() {
    assert_eq!(7i64.div(2), 3);
    assert_eq!((-7i64).div(2), -3);
    assert_eq!(5i64.div(0), 0);
}

#[test]
fn layout_independent_elementwise_results() {
    let rowm = Array::new_array_2d(vec![1i64, 2, 3, 4, 5, 6], (2, 3), true).unwrap();
    let colm = Array::new_array_2d(vec![1i64, 4, 2, 5, 3, 6], (2, 3), false).unwrap();
    assert_eq!(rowm, colm);

    let other_row = Array::new_array_2d(vec![10i64, 20, 30, 40, 50, 60], (2, 3), true).unwrap();
    let other_col = Array::new_array_2d(vec![10i64, 40, 20, 50, 30, 60], (2, 3), false).unwrap();

    let mut mixed = colm;
    mixed.madd(&other_row).unwrap();
    let mut plain = rowm;
    plain.madd(&other_col).unwrap();
    assert_eq!(mixed, plain);
    assert_eq!(
        plain,
        Array::new_array_2d(vec![11i64, 22, 33, 44, 55, 66], (2, 3), true).unwrap()
    );
}

#[test]
fn shape_mismatch_add_is_refused() {
    let mut a = Array::new_array_2d(vec![1i64, 2, 3, 4, 5, 6], (2, 3), true).unwrap();
    let b = Array::new_array_2d(vec![1i64, 2, 3, 4, 5, 6], (3, 2), true).unwrap();
    assert_eq!(a.madd(&b), Err(ListError::MismatchedDim));
    assert_eq!(
        a,
        Array::new_array_2d(vec![1i64, 2, 3, 4, 5, 6], (2, 3), true).unwrap()
    );
}
