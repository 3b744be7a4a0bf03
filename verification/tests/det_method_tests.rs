use simple_blas::array::{Array, ListError};
use simple_blas::array::element::Element;
use simple_blas::array::fixed::Fixed;

fn fx(n: i64, p: u32) -> Fixed {
    Fixed::from_frac(n, p)
}

#[test]
fn det_method_tests_mat_det_array_2d_1() -> Result<(), ListError> {
    let arr1: Array<Fixed> = Array::new_array_2d(
        vec![fx(1, 0), fx(2, 0), fx(3, 0), fx(4, 0), fx(5, 0), fx(6, 0)],
        (2, 3),
        true,
    )?;

    if let Err(error) = arr1.mdet() {
        assert_eq!(error, ListError::MatrixDetDimError)
    };

    Ok(())
}

#[test]
fn det_method_tests_mat_det_array_2d_2() -> Result<(), ListError> {
    let arr1: Array<Fixed> = Array::new_array_2d(
        vec![fx(1, 0), fx(2, 0), fx(3, 0), fx(4, 0), fx(5, 0), fx(6, 0)],
        (2, 3),
        true,
    )?;

    if let Err(error) = arr1.mdet() {
        assert_eq!(error, ListError::MatrixDetDimError)
    };

    Ok(())
}

#[test]
fn det_method_tests_permutation_array_2d() -> Result<(), ListError> {
    let mut arr = Array::new_array_2d(vec![3i64, 4, 1, 2, -5, -6], (3, 2), true)?;

    let _p: Vec<(usize, usize)> = arr.permute()?;

    assert_eq!(arr, Array::new_array_2d(vec![-5i64, -6, 3, 4, 1, 2], (3, 2), true)?);

    Ok(())
}
