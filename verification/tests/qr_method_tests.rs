use simple_blas::array::{Array, ListError};
use simple_blas::array::element::Element;
use simple_blas::array::fixed::Fixed;

fn fx(n: i64, p: u32) -> Fixed {
    Fixed::from_frac(n, p)
}

#[test]
fn qr_arr_2d_1() {
    let arr = Array::Scalar(fx(1, 0));
    if let Err(error) = arr.mqr() {
        assert_eq!(error, ListError::MismatchedTypes);
    };
}

#[test]
fn qr_arr_2d_2() -> Result<(), ListError> {
    let arr = Array::new_array_2d(
        vec![fx(194, 0), fx(14, 0), fx(245, 0), fx(29, 0)],
        (2, 2),
        true,
    )?;

    let (mut q, r) = arr.mqr()?;

    q.mmult(&r)?;

    let dist = Array::compute_dist(&arr, &q)?;
    assert!(dist.lt(fx(1, 10)));

    Ok(())
}

#[test]
fn qr_arr_2d_3() -> Result<(), ListError> {
    let arr = Array::new_array_2d(
        vec![fx(101, 2), fx(202, 2), fx(303, 2), fx(-405, 2), fx(501, 2), fx(697, 2)],
        (2, 3),
        false,
    )?;

    let (mut q, r) = arr.mqr()?;

    q.mmult(&r)?;

    let dist = Array::compute_dist(&arr, &q)?;
    assert!(dist.lt(fx(1, 10)));

    Ok(())
}

#[test]
fn qr_arr_2d_4() -> Result<(), ListError> {
    let arr = Array::new_array_2d(
        vec![fx(101, 2), fx(202, 2), fx(303, 2), fx(-405, 2), fx(501, 2), fx(697, 2)],
        (3, 2),
        true,
    )?;

    let (mut q, r) = arr.mqr()?;

    q.mmult(&r)?;

    let dist = Array::compute_dist(&arr, &q)?;
    assert!(dist.lt(fx(1, 10)));
    Ok(())
}

#[test]
fn qr_householder_arr_2d_1() -> Result<(), ListError> {
    let arr = Array::new_array_2d(
        vec![fx(101, 2), fx(202, 2), fx(303, 2), fx(-405, 2), fx(501, 2), fx(697, 2)],
        (3, 2),
        true,
    )?;

    let (_q, _r) = arr.mqr_householder()?;
    Ok(())
}

#[test]
fn qr_householder_arr_2d_2() -> Result<(), ListError> {
    let arr = Array::new_array_2d(
        vec![fx(101, 2), fx(202, 2), fx(303, 2), fx(-405, 2), fx(501, 2), fx(697, 2)],
        (3, 2),
        true,
    )?;

    let (q, mut r) = arr.mqr_householder()?;
    Array::mq_factor_mult_mat_a(&q, &mut r)?;
    let d: Fixed = Array::compute_dist(&arr, &r)?;
    assert!(d.lt(fx(1, 10)));
    Ok(())
}

#[test]
fn qr_householder_arr_2d_3() -> Result<(), ListError> {
    let arr = Array::new_array_2d(
        vec![
            fx(1, 0),
            fx(19, 1),
            fx(2, 0),
            fx(21, 1),
            fx(3, 0),
            fx(33, 1),
            fx(4, 0),
            fx(45, 1),
        ],
        (4, 2),
        true,
    )?;

    let (mut q, mut r) = arr.mqr_householder()?;

    q.reverse();
    r.transpose()?;

    Array::mmat_a_mult_q_factor(&mut r, &q)?;

    r.transpose()?;

    let d: Fixed = Array::compute_dist(&arr, &r)?;
    println!("{:?}", d);
    assert!(d.lt(fx(1, 10)));
    Ok(())
}

#[test]
fn qr_householder_arr_2d_4() -> Result<(), ListError> {
    let arr = Array::new_array_2d(
        vec![fx(1, 0), fx(2, 0), fx(4, 0), fx(5, 0), fx(5, 0), fx(11, 0)],
        (3, 2),
        true,
    )?;

    let (_q, r) = arr.mqr_householder()?;
    println!("{:?}", r);

    Ok(())
}

#[test]
fn qr_householder_wide_is_refused() -> Result<(), ListError> {
    let arr = Array::new_array_2d(
        vec![fx(1, 0), fx(2, 0), fx(3, 0), fx(4, 0), fx(5, 0), fx(6, 0)],
        (2, 3),
        true,
    )?;
    if let Err(error) = arr.mqr_householder() {
        assert_eq!(error, ListError::MatrixQRHouseHolderDimError);
    } else {
        panic!("a wide Householder factorisation must be refused");
    }
    Ok(())
}

#[test]
fn reflector_test_1() -> Result<(), ListError> {
    let a_mat = vec![
        fx(-1, 0),
        fx(-1, 0),
        fx(1, 0),
        fx(1, 0),
        fx(3, 0),
        fx(3, 0),
        fx(-1, 0),
        fx(-1, 0),
        fx(5, 0),
        fx(1, 0),
        fx(3, 0),
        fx(7, 0),
    ];

    let dim: (usize, usize) = (4_usize, 3_usize);

    let (q_factor, mut r) = Array::qr_householder(&a_mat, dim, true)?;

    for q in q_factor.iter() {
        Array::reflector_mat_dot_mat(q, &mut r, dim, true);
    }

    let d = Array::dist_n2_vec_v1_v2(&a_mat, &r)?;
    println!("{:?}", d);
    assert!(d.lt(fx(1, 10)));
    Ok(())
}

#[test]
fn reflector_test_2() -> Result<(), ListError> {
    let a_mat = vec![
        fx(-115, 2),
        fx(-1210, 3),
        fx(133, 2),
        fx(154, 2),
        fx(3123, 3),
        fx(334, 2),
        fx(-122, 2),
        fx(-1076, 3),
        fx(509, 2),
        fx(106, 2),
        fx(3079, 3),
        fx(706, 2),
    ];

    let dim: (usize, usize) = (4_usize, 3_usize);

    let (q_factor, mut r) = Array::qr_householder(&a_mat, dim, true)?;

    for q in q_factor.iter() {
        Array::reflector_mat_dot_mat(q, &mut r, dim, true);
    }

    let d = Array::dist_n2_vec_v1_v2(&a_mat, &r)?;
    println!("{:?}", d);
    assert!(d.lt(fx(1, 10)));
    Ok(())
}

#[test]
fn qr_round_trip_householder_example() -> Result<(), ListError> {
    let a_mat = vec![
        fx(1, 0),
        fx(2, 0),
        fx(3, 0),
        fx(4, 0),
        fx(9, 0),
        fx(11, 0),
        fx(17, 0),
        fx(18, 0),
        fx(29, 0),
    ];

    let dim: (usize, usize) = (3, 3);

    let (q_factor, mut r) = Array::qr_householder(&a_mat, dim, true)?;

    for q in q_factor.iter() {
        Array::reflector_mat_dot_mat(q, &mut r, dim, true);
    }

    let d = Array::dist_n2_vec_v1_v2(&a_mat, &r)?;
    assert!(d.lt(fx(1, 10)));
    Ok(())
}

#[test]
fn u_tri_solve_non_square_is_refused() {
    let u: Vec<Fixed> = vec![fx(1, 0), fx(2, 0), fx(3, 0), fx(4, 0), fx(5, 0), fx(6, 0)];
    let b: Vec<Fixed> = vec![fx(1, 0), fx(1, 0)];
    let mut x: Vec<Fixed> = vec![fx(0, 0), fx(0, 0)];
    let res = Array::u_tri_solve(&u, &b, &mut x, (2, 3), true);
    assert_eq!(res, Err(ListError::NotSquareMat));
}

#[test]
fn qr_solve_recovers_a_solution() -> Result<(), ListError> {
    // A = Q R for A = [[2, 1], [0, 1]]; solve A x = [5, 1].
    let a = vec![fx(2, 0), fx(1, 0), fx(0, 0), fx(1, 0)];
    let (qm, rm) = Array::qr(&a, (2, 2), true);

    let b: Vec<Fixed> = vec![fx(5, 0), fx(1, 0)];
    let mut x: Vec<Fixed> = vec![fx(0, 0), fx(0, 0)];
    Array::qr_solve(&mut x, &qm, &rm, &b, (2, 2), (2, 2), true, true)?;

    let expected: Vec<Fixed> = vec![fx(2, 0), fx(1, 0)];
    let d = Array::dist_n2_vec_v1_v2(&x, &expected)?;
    assert!(d.lt(fx(1, 10)));

    let rm_wide: Vec<Fixed> = vec![fx(2, 0), fx(1, 0), fx(0, 0), fx(0, 0), fx(1, 0), fx(0, 0)];
    let mut x2: Vec<Fixed> = vec![fx(0, 0), fx(0, 0)];
    let res = Array::qr_solve(&mut x2, &qm, &rm_wide, &b, (2, 2), (2, 3), true, true);
    assert_eq!(res, Err(ListError::NotSquareMat));

    Ok(())
}

#[test]
fn dist_n1_checks_lengths() {
    let v1: Vec<Fixed> = vec![fx(1, 0), fx(5, 0)];
    let v2: Vec<Fixed> = vec![fx(2, 0), fx(3, 0)];
    assert_eq!(Array::dist_n1_vec_v1_v2(&v1, &v2), Ok(fx(3, 0)));

    let v3: Vec<Fixed> = vec![fx(1, 0)];
    assert_eq!(
        Array::dist_n1_vec_v1_v2(&v1, &v3),
        Err(ListError::DifferentLength1D)
    );
}
