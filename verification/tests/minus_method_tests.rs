use simple_blas::array::{Array, ListError};
use simple_blas::array::element::Element;
use simple_blas::array::fixed::Fixed;

fn fx(n: i64, p: u32) -> Fixed {
    Fixed::from_frac(n, p)
}

#[test]
fn minus_method_tests_minus_method_scalar() -> Result<(), ListError> {
    let mut scalar = Array::new_scalar(fx(1, 0));
    scalar.minus(fx(1, 0))?;
    assert_eq!(scalar, Array::new_scalar(fx(0, 0)));
    Ok(())
}

#[test]
fn minus_method_tests_minus_method_array_1d() -> Result<(), ListError> {
    let a = vec![1i64, 2, 3];
    let mut arr_1d: Array<i64> = Array::new_array_1d(a);
    let sclar = -1i64;

    arr_1d.minus(sclar)?;
    assert_eq!(arr_1d, Array::new_array_1d(vec![2i64, 3, 4]));

    let b = vec![-4i64, -5, -6];
    let other_arr_1d: Array<i64> = Array::new_array_1d(b);

    arr_1d.mminus(&other_arr_1d)?;
    assert_eq!(arr_1d, Array::new_array_1d(vec![6i64, 8, 10]));

    let other_arr_1d: Array<i64> = Array::new_array_1d(vec![1, 2, 3, 4, 5, 6]);
    if let Err(err) = arr_1d.mminus(&other_arr_1d) {
        assert_eq!(err, ListError::DifferentLength1D)
    };

    Ok(())
}

#[test]
fn minus_method_array_2d() -> Result<(), ListError> {
    let mut arr1 = Array::new_array_2d(vec![1i64, 2, 3, 4, 5, 6], (2, 3), false)?;

    let arr2 = Array::new_array_2d(vec![1i64, 2, 3, 4, 5, 6], (2, 3), true)?;

    arr1.mminus(&arr2)?;

    assert_eq!(arr1, Array::new_array_2d(vec![0i64, 1, 2, -2, -1, 0], (2, 3), true)?);

    Ok(())
}
