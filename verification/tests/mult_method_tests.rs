use simple_blas::array::{Array, ListError};
use simple_blas::array::element::Element;
use simple_blas::array::fixed::Fixed;

fn fx(n: i64, p: u32) -> Fixed {
    Fixed::from_frac(n, p)
}

#[test]
fn mult_method_tests_mult_method_scalar() -> Result<(), ListError> {
    let mut scalar: Array<Fixed> = Array::new_scalar(fx(30178, 4));
    scalar.mult(fx(30178, 4))?;
    assert_eq!(scalar, Array::new_scalar(fx(910711684, 8)));
    Ok(())
}

#[test]
fn mult_method_array_1d() -> Result<(), ListError> {
    let a = vec![1i64, 2, 3];
    let mut arr_1d = Array::new_array_1d(a);
    arr_1d.mult(20)?;
    assert_eq!(arr_1d, Array::new_array_1d(vec![20i64, 40, 60]));

    let other_arr_1d = Array::new_array_1d(vec![1i64, 2, 3]);
    arr_1d.ele_mult(&other_arr_1d)?;
    assert_eq!(arr_1d, Array::new_array_1d(vec![20i64, 80, 180]));

    let other_arr_1d = Array::new_array_1d(vec![1i64, 2, 3, 4, 5, 6]);

    if let Err(err) = arr_1d.ele_mult(&other_arr_1d) {
        assert_eq!(err, ListError::DifferentLength1D)
    };

    Ok(())
}

#[test]
fn mult_method_array_2d_1() -> Result<(), ListError> {
    let mut arr1 = Array::new_array_2d(vec![1i64, 2, 3, 4, 5, 6], (2, 3), false)?;

    arr1.mult(-1)?;
    assert_eq!(
        arr1,
        Array::new_array_2d(vec![-1i64, -2, -3, -4, -5, -6], (2, 3), false)?
    );

    arr1.mult(-1)?;
    let arr2 = Array::new_array_2d(vec![1i64, 2, 3, 4, 5, 6], (2, 3), true)?;

    arr1.ele_mult(&arr2)?;

    assert_eq!(
        arr1,
        Array::new_array_2d(vec![1i64, 8, 6, 20, 15, 36], (2, 3), false)?
    );

    Ok(())
}
