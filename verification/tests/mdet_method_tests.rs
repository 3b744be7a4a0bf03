use simple_blas::array::{Array, ListError};
use simple_blas::array::element::Element;
use simple_blas::array::fixed::Fixed;

fn fx(n: i64, p: u32) -> Fixed {
    Fixed::from_frac(n, p)
}

fn fx_abs(v: Fixed) -> Fixed {
    Array::abs(v, fx(0, 0))
}

#[test]
fn mdet_method_tests_mat_det_array_2d_1() -> Result<(), ListError> {
    let arr1: Array<Fixed> = Array::new_array_2d(
        vec![fx(1, 0), fx(2, 0), fx(3, 0), fx(4, 0), fx(5, 0), fx(6, 0)],
        (2, 3),
        true,
    )?;

    if let Err(error) = arr1.mdet() {
        assert_eq!(error, ListError::MatrixDetDimError)
    };

    Ok(())
}

#[test]
fn mdet_method_tests_mat_det_array_2d_2() -> Result<(), ListError> {
    let arr1: Array<Fixed> = Array::new_array_2d(
        vec![fx(0, 0), fx(1, 0), fx(0, 0), fx(3, 0)],
        (2, 2),
        true,
    )?;

    let det: Fixed = arr1.mdet()?;
    let tol = fx(1, 10);

    assert!(fx_abs(det).lt(tol));

    Ok(())
}

#[test]
fn mat_det_array_2d_3() -> Result<(), ListError> {
    let arr1: Array<Fixed> = Array::new_array_2d(
        vec![
            fx(31, 0),
            fx(0, 0),
            fx(0, 0),
            fx(2, 0),
            fx(45, 0),
            fx(0, 0),
            fx(0, 0),
            fx(142, 1),
            fx(-9, 0),
        ],
        (3, 3),
        false,
    )?;

    let det: Fixed = arr1.mdet()?;
    let true_val: Fixed = fx(31, 0).mul(fx(45, 0)).mul(fx(-9, 0));
    let tol: Fixed = fx(1, 15);

    assert!(fx_abs(det.sub(true_val)).lt(tol));
    println!("{:?}", fx_abs(det.sub(true_val)));

    Ok(())
}

#[test]
fn mat_det_array_2d_4() -> Result<(), ListError> {
    let arr1: Array<Fixed> = Array::new_array_2d(
        vec![
            fx(1, 0),
            fx(4, 0),
            fx(7, 0),
            fx(2, 0),
            fx(5, 0),
            fx(8, 0),
            fx(3, 0),
            fx(6, 0),
            fx(9, 0),
        ],
        (3, 3),
        true,
    )?;

    let det: Fixed = arr1.mdet()?;
    let true_val: Fixed = fx(0, 0);
    let tol: Fixed = fx(1, 10);

    assert!(fx_abs(det.sub(true_val)).lt(tol));

    Ok(())
}

#[test]
fn mdet_method_tests_permutation_array_2d() -> Result<(), ListError> {
    let mut arr = Array::new_array_2d(vec![3i64, 4, 1, 2, -5, -6], (3, 2), true)?;

    let _p: Vec<(usize, usize)> = arr.permute()?;

    assert_eq!(arr, Array::new_array_2d(vec![-5i64, -6, 3, 4, 1, 2], (3, 2), true)?);

    Ok(())
}

#[test]
fn gaussian_eliminate_1() {
    let arr: Vec<Fixed> = vec![
        fx(1, 0),
        fx(2, 0),
        fx(3, 0),
        fx(4, 0),
        fx(5, 0),
        fx(6, 0),
        fx(7, 0),
        fx(8, 0),
    ];
    let mut arr = arr;
    let mut p: Vec<(usize, usize)> = vec![];

    Array::gaussian_eliminate(&mut arr, false, (4, 2), &mut p);
    let arr2: Vec<Fixed> = vec![
        fx(4, 0),
        fx(0, 0),
        fx(0, 0),
        fx(0, 0),
        fx(8, 0),
        fx(3, 0),
        fx(0, 0),
        fx(0, 0),
    ];
    assert_eq!(arr, arr2);
}

#[test]
fn gaussian_eliminate_2() {
    let arr: Vec<Fixed> = vec![
        fx(1, 0),
        fx(2, 0),
        fx(3, 0),
        fx(4, 0),
        fx(5, 0),
        fx(6, 0),
        fx(7, 0),
        fx(8, 0),
        fx(9, 0),
    ];
    let mut arr = arr;
    let mut p: Vec<(usize, usize)> = vec![];

    Array::gaussian_eliminate(&mut arr, false, (3, 3), &mut p);
    let arr2: Vec<Fixed> = vec![
        fx(3, 0),
        fx(0, 0),
        fx(0, 0),
        fx(6, 0),
        fx(2, 0),
        fx(0, 0),
        fx(9, 0),
        fx(4, 0),
        fx(0, 0),
    ];
    // The eliminations divide by three, which no rounding arithmetic
    // represents exactly, so the expected buffer is met within tolerance.
    let d = Array::dist_n1_vec_v1_v2(&arr, &arr2).unwrap();
    assert!(d.lt(fx(1, 10)));
}

#[test]
fn gaussian_eliminate_3() {
    let arr: Vec<Fixed> = vec![
        fx(1, 0),
        fx(2, 0),
        fx(3, 0),
        fx(4, 0),
        fx(5, 0),
        fx(6, 0),
        fx(7, 0),
        fx(8, 0),
    ];
    let mut arr = arr;
    let mut p: Vec<(usize, usize)> = vec![];

    Array::gaussian_eliminate(&mut arr, false, (2, 4), &mut p);
    let arr2: Vec<Fixed> = vec![
        fx(2, 0),
        fx(0, 0),
        fx(4, 0),
        fx(1, 0),
        fx(6, 0),
        fx(2, 0),
        fx(8, 0),
        fx(3, 0),
    ];
    assert_eq!(arr, arr2);
}

#[test]
fn mat_det_singular_exact_zero_pivot() -> Result<(), ListError> {
    let mut arr: Array<Fixed> = Array::new_array_2d(
        vec![fx(1, 0), fx(2, 0), fx(2, 0), fx(4, 0)],
        (2, 2),
        true,
    )?;

    let det: Fixed = arr.mdet()?;
    assert_eq!(det, fx(0, 0));

    if let Err(error) = arr.inv() {
        assert_eq!(error, ListError::SingularMat);
    } else {
        panic!("inverse of a singular matrix must be refused");
    }

    Ok(())
}

#[test]
fn permute_without_enough_columns_is_refused() -> Result<(), ListError> {
    let mut arr = Array::new_array_2d(vec![1i64, 2, 3, 4], (4, 1), true)?;
    if let Err(error) = arr.permute() {
        assert_eq!(error, ListError::MismatchedDim);
    } else {
        panic!("a leading position without a column must be refused");
    }
    assert_eq!(arr, Array::new_array_2d(vec![1i64, 2, 3, 4], (4, 1), true)?);
    Ok(())
}
