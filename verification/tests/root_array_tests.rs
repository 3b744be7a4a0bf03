use simple_blas::{Array, ListError};
use simple_blas::array::element::Element;
use simple_blas::array::fixed::Fixed;

fn fx(n: i64, p: u32) -> Fixed {
    Fixed::from_frac(n, p)
}

#[test]
fn lib_new_a_scalar() {
    let result = Array::new_scalar(123i64);
    assert_eq!(result, Array::Scalar(123));
}

#[test]
fn lib_new_a_array_1d() {
    let arr1 = vec![1i64, 2, 3, 4, 5];
    let result = Array::new_array_1d(arr1);
    let other_arr = Array::Array1D { arr: vec![1i64, 2, 3, 4, 5] };
    assert_eq!(result, other_arr);

    let arr1 = vec![fx(1023, 3), fx(11123, 4)];
    let result = Array::new_array_1d(arr1);
    let other_arr = Array::Array1D { arr: vec![fx(1023, 3), fx(11123, 4)] };
    assert_eq!(result, other_arr);
}

#[test]
fn lib_compare_null_and_null() {
    let a: Array<i64> = Array::<i64>::new_null();
    let b: Array<i64> = Array::<i64>::new_null();
    assert_ne!(a, b);
}

#[test]
fn lib_compare_scalar_and_null() {
    assert_ne!(Array::Null, Array::Scalar(123i64));
}

#[test]
fn lib_compare_scalar_and_scalar() {
    assert_ne!(Array::Scalar(124i64), Array::Scalar(123i64));
}

#[test]
fn lib_add_method_scalar() -> Result<(), ListError> {
    let mut scalar = Array::new_scalar(fx(1, 0));
    let other_scalar = Array::new_scalar(fx(1, 0));
    scalar.add(&other_scalar)?;
    assert_eq!(scalar, Array::new_scalar(fx(2, 0)));
    Ok(())
}

#[test]
fn lib_add_method_array_1d() -> Result<(), ListError> {
    let a = vec![1i64, 2, 3];
    let b = vec![4i64, 5, 6];

    let mut arr_1d = Array::new_array_1d(a);
    let other_arr_1d = Array::new_array_1d(b);

    arr_1d.add(&other_arr_1d)?;
    assert_eq!(arr_1d, Array::new_array_1d(vec![5i64, 7, 9]));

    let sclar = Array::new_scalar(1i64);

    arr_1d.add(&sclar)?;
    assert_eq!(arr_1d, Array::new_array_1d(vec![6i64, 8, 10]));

    let other_arr_1d = Array::new_array_1d(vec![1i64, 2, 3, 4, 5, 6]);
    if let Err(err) = arr_1d.add(&other_arr_1d) {
        assert_eq!(err, ListError::DifferentLength1D)
    };

    Ok(())
}

#[test]
fn lib_minus_method_scalar() -> Result<(), ListError> {
    let mut scalar = Array::new_scalar(fx(1, 0));
    let other_scalar = Array::new_scalar(fx(1, 0));
    scalar.minus(&other_scalar)?;
    assert_eq!(scalar, Array::new_scalar(fx(0, 0)));
    Ok(())
}

#[test]
fn lib_minus_method_array_1d() -> Result<(), ListError> {
    Ok(())
}

#[test]
fn lib_mult_method_scalar() -> Result<(), ListError> {
    let mut scalar = Array::new_scalar(fx(30178, 4));
    let other_scalar = Array::new_scalar(fx(30178, 4));
    scalar.mult(&other_scalar)?;
    assert_eq!(scalar, Array::new_scalar(fx(910711684, 8)));
    Ok(())
}

#[test]
#[should_panic]
fn lib_div_method_scalar() {
    let mut scalar = Array::new_scalar(fx(1, 0));
    let mut other_scalar = Array::new_scalar(fx(0, 0));

    let _ = other_scalar.div(&scalar);
    assert_eq!(other_scalar, Array::new_scalar(fx(0, 0)));

    if let Err(error) = scalar.div(&other_scalar) {
        panic!("{:?}", error);
    };
}

#[test]
fn lib_mismatched_kinds_are_refused() {
    let mut scalar = Array::new_scalar(1i64);
    let arr_1d = Array::new_array_1d(vec![1i64, 2, 3]);
    assert_eq!(scalar.add(&arr_1d), Err(ListError::MismatchedTypes));
    assert_eq!(scalar.minus(&arr_1d), Err(ListError::MismatchedTypes));
    assert_eq!(scalar.mult(&arr_1d), Err(ListError::MismatchedTypes));
    assert_eq!(scalar.div(&arr_1d), Err(ListError::MismatchedTypes));
    assert_eq!(scalar, Array::new_scalar(1i64));
}
