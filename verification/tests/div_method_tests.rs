use simple_blas::array::{Array, ListError};
use simple_blas::array::element::Element;
use simple_blas::array::fixed::Fixed;

fn fx(n: i64, p: u32) -> Fixed {
    Fixed::from_frac(n, p)
}

#[test]
fn div_method_tests_div_method_scalar() -> Result<(), ListError> {
    let mut scalar: Array<Fixed> = Array::new_scalar(fx(1, 0));

    scalar.div(fx(2, 0))?;
    assert_eq!(scalar, Array::new_scalar(fx(5, 1)));

    if let Err(error) = scalar.div(fx(0, 0)) {
        assert_eq!(error, ListError::DivisionByZero);
    };

    Ok(())
}

#[test]
fn div_method_array_1d() -> Result<(), ListError> {
    let mut arr_1d = Array::new_array_1d(vec![fx(11, 1), fx(12, 1), fx(13, 1)]);

    let other_arr_1d = Array::new_array_1d(vec![fx(22, 1), fx(24, 1), fx(26, 1)]);

    arr_1d.ele_div(&other_arr_1d)?;
    assert_eq!(arr_1d, Array::Array1D { arr: vec![fx(5, 1), fx(5, 1), fx(5, 1)] });

    arr_1d.div(fx(5, 1))?;
    assert_eq!(arr_1d, Array::Array1D { arr: vec![fx(1, 0), fx(1, 0), fx(1, 0)] });

    if let Err(err) = arr_1d.div(fx(0, 0)) {
        assert_eq!(err, ListError::DivisionByZero)
    }

    Ok(())
}

#[test]
fn div_method_array_2d_1() -> Result<(), ListError> {
    let mut arr1 = Array::new_array_2d(vec![1i64, 3, 5, 2, 4, 6], (2, 3), false)?;

    let arr2 = Array::new_array_2d(vec![2i64, 3, 4, 5, 6, 7], (2, 3), true)?;

    arr1.ele_div(&arr2)?;

    assert_eq!(arr1, Array::new_array_2d(vec![0i64, 1, 1, 0, 0, 0], (2, 3), true)?);

    Ok(())
}
