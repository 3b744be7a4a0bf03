use simple_blas::array::{Array, ListError};

#[test]
fn arr_2d_index() -> Result<(), ListError> {
    let mut arr = Array::new_array_2d(vec![1i64, 2, 3, 4, 5, 6], (1, 6), true)?;

    let v = arr.get_2d(0, 5);
    arr.set_2d(0, 5, v + 10000);

    assert_eq!(arr, Array::new_array_2d(vec![1i64, 2, 3, 4, 5, 10006], (1, 6), true)?);

    Ok(())
}

#[test]
fn arr_1d_index() {
    let arr = Array::new_array_1d(vec![0i64, 1, 2, 3]);
    let idx = 1_usize;
    assert_eq!(arr.get_1d(idx), 1);
}

#[test]
fn arr_1d_index_mut() {
    let mut arr = Array::new_array_1d(vec![0i64, 1, 2, 3]);
    let idx = 1_usize;
    assert_eq!(arr.get_1d(idx), 1);

    let v = arr.get_1d(idx);
    arr.set_1d(idx, v + 54087);
    assert_eq!(arr, Array::new_array_1d(vec![0i64, 54088, 2, 3]));
}

#[test]
fn scalar_index() {
    let mut scalar = Array::Scalar(1i64);
    assert_eq!(scalar.get_1d(0), 1);

    scalar.set_1d(0, 123);
    assert_eq!(scalar, Array::Scalar(123));
}
