use simple_blas::array::{Array, ListError};
use simple_blas::array::element::Element;
use simple_blas::array::fixed::Fixed;

fn fx(n: i64, p: u32) -> Fixed {
    Fixed::from_frac(n, p)
}

#[test]
fn add_method_tests_add_method_scalar() -> Result<(), ListError> {
    let mut scalar = Array::new_scalar(fx(1, 0));
    scalar.add(fx(1, 0))?;
    assert_eq!(scalar, Array::new_scalar(fx(2, 0)));
    Ok(())
}

#[test]
fn add_method_array_1d() -> Result<(), ListError> {
    let a = vec![1i64, 2, 3];
    let mut arr_1d = Array::new_array_1d(a);
    let sclar = 1i64;

    arr_1d.add(sclar)?;
    assert_eq!(arr_1d, Array::new_array_1d(vec![2i64, 3, 4]));

    let b = vec![4i64, 5, 6];
    let other_arr_1d = Array::new_array_1d(b);

    arr_1d.madd(&other_arr_1d)?;
    assert_eq!(arr_1d, Array::new_array_1d(vec![6i64, 8, 10]));

    let other_arr_1d: Array<i64> = Array::new_array_1d(vec![1, 2, 3, 4, 5, 6]);
    if let Err(err) = arr_1d.madd(&other_arr_1d) {
        assert_eq!(err, ListError::DifferentLength1D)
    };

    Ok(())
}

#[test]
fn add_method_array_2d_1() {
    let mut arr1 = Array::Array2D { arr: vec![1i64, 2, 3, 4], nr: 2, nc: 2, put_val_by_row: true };

    let _ = arr1.add(1);

    assert_eq!(
        arr1,
        Array::Array2D { arr: vec![2i64, 4, 3, 5], nr: 2, nc: 2, put_val_by_row: false }
    )
}
