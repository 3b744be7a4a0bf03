use simple_blas::array::{Array, ListError};
use simple_blas::array::element::Element;
use simple_blas::array::fixed::Fixed;
use simple_blas::array::matrix_operations::Sqrt;

fn fx(n: i64, p: u32) -> Fixed {
    Fixed::from_frac(n, p)
}

#[test]
fn minv_method_tests_inv_arr_2d_1() -> Result<(), ListError> {
    let mut arr = Array::new_array_2d(vec![fx(1, 0), fx(2, 0), fx(3, 0), fx(4, 0)], (2, 2), true)?;

    arr.minv()?;

    let real_inv = Array::new_array_2d(
        vec![fx(-2, 0), fx(1, 0), fx(15, 1), fx(-5, 1)],
        (2, 2),
        true,
    )?;

    let tol: Fixed = fx(1, 10);

    let diff: Fixed = Array::compute_dist(&arr, &real_inv)?;

    assert!(diff.lt(tol));

    Ok(())
}

#[test]
fn minv_method_tests_inv_arr_2d_2() -> Result<(), ListError> {
    let mut arr = Array::new_array_2d(
        vec![
            fx(111, 2),
            fx(2218, 2),
            fx(578, 2),
            fx(334, 2),
            fx(483, 2),
            fx(1149, 2),
            fx(-123, 2),
            fx(1407, 2),
            fx(1937, 2),
        ],
        (3, 3),
        false,
    )?;

    let arr2 = Array::new_array_2d(
        vec![
            fx(111, 2),
            fx(2218, 2),
            fx(578, 2),
            fx(334, 2),
            fx(483, 2),
            fx(1149, 2),
            fx(-123, 2),
            fx(1407, 2),
            fx(1937, 2),
        ],
        (3, 3),
        false,
    )?;

    arr.minv()?;
    arr.mmult(&arr2)?;

    let real_inv = Array::new_array_2d(
        vec![
            fx(1, 0),
            fx(0, 0),
            fx(0, 0),
            fx(0, 0),
            fx(1, 0),
            fx(0, 0),
            fx(0, 0),
            fx(0, 0),
            fx(1, 0),
        ],
        (3, 3),
        true,
    )?;

    let tol: Fixed = fx(1, 10);
    let diff: Fixed = Array::compute_dist(&arr, &real_inv)?;

    assert!(diff.lt(tol));

    Ok(())
}

#[test]
fn minv_method_plu_2d_arr() {
    let arr: Vec<Fixed> = vec![
        fx(2, 0),
        fx(4, 0),
        fx(7, 0),
        fx(2, 0),
        fx(5, 0),
        fx(8, 0),
        fx(3, 0),
        fx(6, 0),
        fx(9, 0),
    ];

    let mut arr = arr;
    let mut p: Vec<(usize, usize)> = vec![];
    let dim: (usize, usize) = (3, 3);

    Array::p_lu(&mut p, &mut arr, dim, true);

    println!("{:?}", p);
    println!("{:?}", arr);
}

#[test]
fn minv_method_plu_2d_arr_2() {
    let arr: Vec<Fixed> = vec![fx(1, 0), fx(0, 0), fx(3, 0), fx(4, 0)];

    let mut arr = arr;
    let mut p: Vec<(usize, usize)> = vec![];
    let dim: (usize, usize) = (2, 2);
    Array::p_lu(&mut p, &mut arr, dim, true);

    println!("{:?}", p);
    println!("{:?}", arr);
}

#[test]
fn minv_method_plu_solve_test() {
    let arr: Vec<Fixed> = vec![fx(1, 0), fx(0, 0), fx(3, 0), fx(4, 0)];

    let mut arr = arr;
    let mut p: Vec<(usize, usize)> = vec![];
    let dim: (usize, usize) = (2, 2);

    Array::p_lu(&mut p, &mut arr, dim, true);

    let lu: Vec<Fixed> = arr;
    let mut b: Vec<Fixed> = vec![fx(1, 0), fx(-1, 0)];
    let mut x: Vec<Fixed> = vec![fx(0, 0), fx(0, 0)];

    Array::p_lu_solve(&lu, &p, &mut b, &mut x, dim, true).unwrap();

    let mut dist: Fixed = fx(0, 0);
    let true_vec: Vec<Fixed> = vec![fx(1, 0), fx(-1, 0)];
    for i in 0..2 {
        dist = dist.add(x[i].sub(true_vec[i]).powi(2));
    }

    let dist = dist.sqrt();
    assert!(dist.lt(fx(1, 10)));

    assert_eq!(b, vec![fx(1, 0), fx(-1, 0)]);
}
