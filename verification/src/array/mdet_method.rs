//! Determinant via full-pivoting Gaussian elimination, the row-pivoting
//! elimination it shares with the LU factorisation, row permutation, and
//! the elementwise distance between two matrices.

use vstd::prelude::*;

use crate::array::element::Element;
use crate::array::lemma_idx_bound_all;
use crate::array::lemma_idx_inj;
use crate::array::lemma_rc_of;
use crate::array::lidx;
use crate::array::matrix_operations::sp_abs;
use crate::array::matrix_operations::sp_pivot_rc;
use crate::array::matrix_operations::sp_pivot_row;
use crate::array::matrix_operations::sp_swap_coord;
use crate::array::sp_idx;
use crate::array::sp_rc_of;
use crate::array::Array;
use crate::array::ListError;

verus! {

/// The factor that elimination of row `r2` against pivot row `k` uses.
pub open spec fn sp_elim_factor<T: Element>(
    a: Seq<T>,
    k: int,
    r2: int,
    dim: (int, int),
    by_row: bool,
) -> T {
    a[sp_idx(by_row, r2, k, dim)].div_spec(a[sp_idx(by_row, k, k, dim)])
}

/// The buffer after the rows `i1` and `j1` and the columns `i2` and `j2`
/// trade places (an index equal to its partner leaves that axis alone).
pub open spec fn sp_swap_rc<T>(
    a: Seq<T>,
    dim: (int, int),
    by_row: bool,
    i1: int,
    j1: int,
    i2: int,
    j2: int,
) -> Seq<T> {
    Seq::new(
        a.len(),
        |t: int|
            {
                let rc = sp_rc_of(by_row, t, dim);
                a[sp_idx(by_row, sp_swap_coord(rc.0, i1, j1), sp_swap_coord(rc.1, i2, j2), dim)]
            },
    )
}

/// The buffer after every row below `k` is eliminated against pivot row
/// `k`: each such row's pivot-column cell becomes zero (plus the
/// elimination factor when `store_l` keeps it as the packed L entry) and
/// its trailing columns are reduced by the factor times the pivot row.
pub open spec fn sp_elim_below<T: Element>(
    a: Seq<T>,
    k: int,
    dim: (int, int),
    by_row: bool,
    store_l: bool,
) -> Seq<T> {
    Seq::new(
        a.len(),
        |t: int|
            {
                let rc = sp_rc_of(by_row, t, dim);
                let r0 = rc.0;
                let c0 = rc.1;
                if r0 <= k {
                    a[t]
                } else {
                    let factor = sp_elim_factor(a, k, r0, dim, by_row);
                    if c0 == k {
                        if store_l {
                            T::zero_spec().add_spec(factor)
                        } else {
                            T::zero_spec()
                        }
                    } else if c0 > k {
                        a[sp_idx(by_row, r0, c0, dim)].sub_spec(
                            factor.mul_spec(a[sp_idx(by_row, k, c0, dim)]),
                        )
                    } else {
                        a[sp_idx(by_row, r0, c0, dim)]
                    }
                }
            },
    )
}

/// One row-pivoted elimination step at `k`: partial pivoting swaps the
/// best row up, then, unless the pivot is exactly `z`, every row below is
/// eliminated.
pub open spec fn sp_ge_step<T: Element>(
    a: Seq<T>,
    k: int,
    dim: (int, int),
    by_row: bool,
    z: T,
    store_l: bool,
) -> Seq<T> {
    let piv = sp_pivot_row(a, k, dim.0 - k, dim, by_row, z);
    let m = sp_swap_rc(a, dim, by_row, k, piv.0, 0, 0);
    if m[sp_idx(by_row, k, k, dim)] == z {
        m
    } else {
        sp_elim_below(m, k, dim, by_row, store_l)
    }
}

/// The swap that step `k` of the row-pivoted elimination appends to the
/// permutation record, if any.
pub open spec fn sp_ge_step_recs<T: Element>(
    a: Seq<T>,
    p: Seq<(usize, usize)>,
    k: int,
    dim: (int, int),
    by_row: bool,
    z: T,
) -> Seq<(usize, usize)> {
    let piv = sp_pivot_row(a, k, dim.0 - k, dim, by_row, z);
    if piv.0 == k {
        p
    } else {
        p.push((k as usize, piv.0 as usize))
    }
}

/// The buffer after `steps` steps of the row-pivoted elimination.
pub open spec fn sp_ge_run<T: Element>(
    a: Seq<T>,
    steps: int,
    dim: (int, int),
    by_row: bool,
    z: T,
    store_l: bool,
) -> Seq<T>
    decreases steps,
{
    if steps <= 0 {
        a
    } else {
        sp_ge_step(
            sp_ge_run(a, steps - 1, dim, by_row, z, store_l),
            steps - 1,
            dim,
            by_row,
            z,
            store_l,
        )
    }
}

/// The permutation record after `steps` steps of the row-pivoted
/// elimination.
pub open spec fn sp_ge_run_recs<T: Element>(
    a: Seq<T>,
    p: Seq<(usize, usize)>,
    steps: int,
    dim: (int, int),
    by_row: bool,
    z: T,
    store_l: bool,
) -> Seq<(usize, usize)>
    decreases steps,
{
    if steps <= 0 {
        p
    } else {
        sp_ge_step_recs(
            sp_ge_run(a, steps - 1, dim, by_row, z, store_l),
            sp_ge_run_recs(a, p, steps - 1, dim, by_row, z, store_l),
            steps - 1,
            dim,
            by_row,
            z,
        )
    }
}

/// One full-pivoted elimination step at `k`: the largest entry of the
/// trailing submatrix moves to `(k, k)` by one row swap and one column
/// swap, then rows below are eliminated unless the pivot is exactly `z`.
pub open spec fn sp_gerc_step<T: Element>(
    a: Seq<T>,
    k: int,
    dim: (int, int),
    by_row: bool,
    z: T,
) -> Seq<T> {
    let piv = sp_pivot_rc(a, k, dim.0 - k, dim, by_row, z);
    let m = sp_swap_rc(a, dim, by_row, k, piv.0.0, k, piv.0.1);
    if m[sp_idx(by_row, k, k, dim)] == z {
        m
    } else {
        sp_elim_below(m, k, dim, by_row, false)
    }
}

/// The row swap that step `k` of the full-pivoted elimination records.
pub open spec fn sp_gerc_step_recs_r<T: Element>(
    a: Seq<T>,
    pr: Seq<(usize, usize)>,
    k: int,
    dim: (int, int),
    by_row: bool,
    z: T,
) -> Seq<(usize, usize)> {
    let piv = sp_pivot_rc(a, k, dim.0 - k, dim, by_row, z);
    if piv.0.0 == k {
        pr
    } else {
        pr.push((k as usize, piv.0.0 as usize))
    }
}

/// The column swap that step `k` of the full-pivoted elimination records.
pub open spec fn sp_gerc_step_recs_c<T: Element>(
    a: Seq<T>,
    pc: Seq<(usize, usize)>,
    k: int,
    dim: (int, int),
    by_row: bool,
    z: T,
) -> Seq<(usize, usize)> {
    let piv = sp_pivot_rc(a, k, dim.0 - k, dim, by_row, z);
    if piv.0.1 == k {
        pc
    } else {
        pc.push((k as usize, piv.0.1 as usize))
    }
}

/// The buffer after `steps` steps of the full-pivoted elimination.
pub open spec fn sp_gerc_run<T: Element>(
    a: Seq<T>,
    steps: int,
    dim: (int, int),
    by_row: bool,
    z: T,
) -> Seq<T>
    decreases steps,
{
    if steps <= 0 {
        a
    } else {
        sp_gerc_step(sp_gerc_run(a, steps - 1, dim, by_row, z), steps - 1, dim, by_row, z)
    }
}

/// The row-swap record after `steps` steps of the full-pivoted
/// elimination.
pub open spec fn sp_gerc_run_recs_r<T: Element>(
    a: Seq<T>,
    pr: Seq<(usize, usize)>,
    steps: int,
    dim: (int, int),
    by_row: bool,
    z: T,
) -> Seq<(usize, usize)>
    decreases steps,
{
    if steps <= 0 {
        pr
    } else {
        sp_gerc_step_recs_r(
            sp_gerc_run(a, steps - 1, dim, by_row, z),
            sp_gerc_run_recs_r(a, pr, steps - 1, dim, by_row, z),
            steps - 1,
            dim,
            by_row,
            z,
        )
    }
}

/// The column-swap record after `steps` steps of the full-pivoted
/// elimination.
pub open spec fn sp_gerc_run_recs_c<T: Element>(
    a: Seq<T>,
    pc: Seq<(usize, usize)>,
    steps: int,
    dim: (int, int),
    by_row: bool,
    z: T,
) -> Seq<(usize, usize)>
    decreases steps,
{
    if steps <= 0 {
        pc
    } else {
        sp_gerc_step_recs_c(
            sp_gerc_run(a, steps - 1, dim, by_row, z),
            sp_gerc_run_recs_c(a, pc, steps - 1, dim, by_row, z),
            steps - 1,
            dim,
            by_row,
            z,
        )
    }
}

/// Product of the diagonal entries over indices `< k`, seeded with one.
pub open spec fn sp_diag_prod<T: Element>(a: Seq<T>, n: int, k: int) -> T
    decreases k,
{
    if k <= 0 {
        T::one_spec()
    } else {
        sp_diag_prod(a, n, k - 1).mul_spec(a[sp_idx(true, k - 1, k - 1, (n, n))])
    }
}

/// The sign a determinant owes to the recorded row and column swaps:
/// minus one for an odd total, one otherwise.
pub open spec fn sp_det_sign<T: Element>(nswaps: int) -> T {
    if nswaps % 2 == 1 {
        T::zero_spec().sub_spec(T::one_spec())
    } else {
        T::one_spec()
    }
}

/// What the determinant of an `n x n` buffer computes to: the signed
/// product of the diagonal of its full-pivoted elimination.
pub open spec fn sp_det_of<T: Element>(a: Seq<T>, n: int, by_row: bool) -> T {
    let lu = sp_gerc_run(a, n, (n, n), by_row, T::zero_spec());
    let prs = sp_gerc_run_recs_r(a, Seq::empty(), n, (n, n), by_row, T::zero_spec());
    let pcs = sp_gerc_run_recs_c(a, Seq::empty(), n, (n, n), by_row, T::zero_spec());
    sp_det_sign::<T>((prs.len() % 2 + pcs.len() % 2) as int).mul_spec(sp_diag_prod(lu, n, n))
}

impl<T: Element> Array<T> {
    /// Eliminates row `r2` against pivot row `r` with the given factor:
    /// zeroes the pivot-column cell and reduces the trailing columns.
    pub fn gaussian_eliminate_r(
        arr: &mut Vec<T>,
        r: usize,
        r2: usize,
        dim: (usize, usize),
        factor: T,
        by_row: bool,
    )
        requires
            old(arr)@.len() == dim.0 * dim.1,
            dim.0 * dim.1 <= usize::MAX,
            r < dim.0,
            r2 < dim.0,
            r != r2,
            r < dim.1,
        ensures
            final(arr)@.len() == old(arr)@.len(),
            forall|c0: int|
                0 <= c0 < dim.1 ==> final(arr)@[sp_idx(
                    by_row,
                    r2 as int,
                    c0,
                    (dim.0 as int, dim.1 as int),
                )] == (if c0 == r {
                    T::zero_spec()
                } else if c0 > r {
                    old(arr)@[sp_idx(by_row, r2 as int, c0, (dim.0 as int, dim.1 as int))].sub_spec(
                        factor.mul_spec(
                            old(arr)@[sp_idx(by_row, r as int, c0, (dim.0 as int, dim.1 as int))],
                        ),
                    )
                } else {
                    old(arr)@[sp_idx(by_row, r2 as int, c0, (dim.0 as int, dim.1 as int))]
                }),
            forall|r0: int, c0: int|
                0 <= r0 < dim.0 && 0 <= c0 < dim.1 && r0 != r2 ==> final(arr)@[sp_idx(
                    by_row,
                    r0,
                    c0,
                    (dim.0 as int, dim.1 as int),
                )] == old(arr)@[sp_idx(by_row, r0, c0, (dim.0 as int, dim.1 as int))],
    {
        let ghost dims = (dim.0 as int, dim.1 as int);
        proof {
            lemma_idx_inj(by_row, dims);
            lemma_idx_bound_all(by_row, dims);
        }
        let (_nr, nc) = dim;
        let kz = lidx(by_row, r2, r, dim);
        arr.set(kz, T::zero());
        let start_col = r + 1;
        let end_col = nc;
        Array::row_i_minus_frow_j(arr, factor, r2, r, dim, by_row, start_col, end_col);
    }

    /// Eliminates rows `r+1..` against pivot row `r`, after the pivot swap
    /// already happened; shared by the elimination drivers.
    #[verifier::loop_isolation(false)]
    fn eliminate_below(arr: &mut Vec<T>, r: usize, dim: (usize, usize), by_row: bool, store_l: bool)
        requires
            old(arr)@.len() == dim.0 * dim.1,
            dim.0 * dim.1 <= usize::MAX,
            r < dim.0,
            r < dim.1,
        ensures
            final(arr)@ == sp_elim_below(
                old(arr)@,
                r as int,
                (dim.0 as int, dim.1 as int),
                by_row,
                store_l,
            ),
    {
        let ghost dims = (dim.0 as int, dim.1 as int);
        let ghost m = arr@;
        proof {
            lemma_idx_inj(by_row, dims);
            lemma_idx_bound_all(by_row, dims);
            lemma_rc_of(by_row, dims);
        }
        let (nr, _nc) = dim;
        let kp = lidx(by_row, r, r, dim);
        let maxv = arr[kp];
        let mut r2: usize = r + 1;
        while r2 < nr
            invariant
                r + 1 <= r2 <= nr,
                arr@.len() == m.len(),
                forall|r0: int, c0: int|
                    0 <= r0 < dim.0 && 0 <= c0 < dim.1 && !(r < r0 < r2) ==> arr@[sp_idx(
                        by_row,
                        r0,
                        c0,
                        dims,
                    )] == m[sp_idx(by_row, r0, c0, dims)],
                forall|r0: int, c0: int|
                    r < r0 < r2 && 0 <= c0 < dim.1 ==> arr@[sp_idx(by_row, r0, c0, dims)]
                        == sp_elim_below(m, r as int, dims, by_row, store_l)[sp_idx(
                        by_row,
                        r0,
                        c0,
                        dims,
                    )],
            decreases nr - r2,
        {
            let kf = lidx(by_row, r2, r, dim);
            let factor = arr[kf].div(maxv);
            proof {
                assert(factor == sp_elim_factor(m, r as int, r2 as int, dims, by_row));
            }
            Array::gaussian_eliminate_r(arr, r, r2, dim, factor, by_row);
            if store_l {
                let kl = lidx(by_row, r2, r, dim);
                let v = arr[kl].add(factor);
                arr.set(kl, v);
            }
            r2 = r2 + 1;
        }
        proof {
            assert(arr@ =~= sp_elim_below(m, r as int, dims, by_row, store_l));
        }
    }

    /// Row-pivoted Gaussian elimination of the whole matrix to row echelon
    /// form, recording the row swaps in `p`.
    #[verifier::loop_isolation(false)]
    pub fn gaussian_eliminate(
        arr: &mut Vec<T>,
        by_row: bool,
        dim: (usize, usize),
        p: &mut Vec<(usize, usize)>,
    )
        requires
            old(arr)@.len() == dim.0 * dim.1,
            dim.0 * dim.1 <= usize::MAX,
            old(p)@.len() + dim.0 <= usize::MAX,
        ensures
            final(arr)@ == sp_ge_run(
                old(arr)@,
                vstd::math::min(dim.0 as int, dim.1 as int),
                (dim.0 as int, dim.1 as int),
                by_row,
                T::zero_spec(),
                false,
            ),
            final(p)@ == sp_ge_run_recs(
                old(arr)@,
                old(p)@,
                vstd::math::min(dim.0 as int, dim.1 as int),
                (dim.0 as int, dim.1 as int),
                by_row,
                T::zero_spec(),
                false,
            ),
    {
        Array::ge_driver(arr, by_row, dim, p, false);
    }

    /// The shared driver behind `gaussian_eliminate` and the packed LU
    /// factorisation: `store_l` decides whether the elimination factors
    /// stay behind in the pivot column.
    #[verifier::loop_isolation(false)]
    #[verifier::rlimit(100)]
    #[verifier::spinoff_prover]
    pub fn ge_driver(
        arr: &mut Vec<T>,
        by_row: bool,
        dim: (usize, usize),
        p: &mut Vec<(usize, usize)>,
        store_l: bool,
    )
        requires
            old(arr)@.len() == dim.0 * dim.1,
            dim.0 * dim.1 <= usize::MAX,
            old(p)@.len() + dim.0 <= usize::MAX,
        ensures
            final(arr)@.len() == old(arr)@.len(),
            final(arr)@ == sp_ge_run(
                old(arr)@,
                vstd::math::min(dim.0 as int, dim.1 as int),
                (dim.0 as int, dim.1 as int),
                by_row,
                T::zero_spec(),
                store_l,
            ),
            final(p)@ == sp_ge_run_recs(
                old(arr)@,
                old(p)@,
                vstd::math::min(dim.0 as int, dim.1 as int),
                (dim.0 as int, dim.1 as int),
                by_row,
                T::zero_spec(),
                store_l,
            ),
            forall|j: int|
                old(p)@.len() <= j < final(p)@.len() ==> (#[trigger] final(p)@[j]).0 < dim.0
                    && final(p)@[j].1 < dim.0,
    {
        let ghost dims = (dim.0 as int, dim.1 as int);
        proof {
            lemma_idx_inj(by_row, dims);
            lemma_idx_bound_all(by_row, dims);
            lemma_rc_of(by_row, dims);
        }
        let z = T::zero();
        let (nr, nc) = dim;
        let n: usize = if nr < nc {
            nr
        } else {
            nc
        };
        let mut r: usize = 0;
        while r < n
            invariant
                r <= n,
                arr@.len() == old(arr)@.len(),
                p@.len() <= old(p)@.len() + r,
                arr@ == sp_ge_run(old(arr)@, r as int, dims, by_row, T::zero_spec(), store_l),
                p@ == sp_ge_run_recs(
                    old(arr)@,
                    old(p)@,
                    r as int,
                    dims,
                    by_row,
                    T::zero_spec(),
                    store_l,
                ),
                forall|j: int|
                    old(p)@.len() <= j < p@.len() ==> (#[trigger] p@[j]).0 < dim.0 && p@[j].1
                        < dim.0,
            decreases n - r,
        {
            let ghost a_pre = arr@;
            let ghost p_pre = p@;
            Array::permute_r(arr, r, dim, z, p, by_row);
            let ghost piv = sp_pivot_row(a_pre, r as int, dims.0 - r, dims, by_row, z);
            proof {
                assert(arr@ =~= sp_swap_rc(a_pre, dims, by_row, r as int, piv.0, 0, 0));
            }
            let kp = lidx(by_row, r, r, dim);
            let maxv = arr[kp];
            if !maxv.eq_elem(z) {
                Array::eliminate_below(arr, r, dim, by_row, store_l);
            }
            proof {
                assert(arr@ == sp_ge_step(a_pre, r as int, dims, by_row, T::zero_spec(), store_l));
                assert(p@ == sp_ge_step_recs(a_pre, p_pre, r as int, dims, by_row, T::zero_spec()));
            }
            r = r + 1;
        }
    }
}

/// One row-pivoting permutation step at `k`, with no elimination.
pub open spec fn sp_perm_step<T: Element>(
    a: Seq<T>,
    k: int,
    dim: (int, int),
    by_row: bool,
    z: T,
) -> Seq<T> {
    let piv = sp_pivot_row(a, k, dim.0 - k, dim, by_row, z);
    sp_swap_rc(a, dim, by_row, k, piv.0, 0, 0)
}

/// The buffer after `steps` row-pivoting permutation steps.
pub open spec fn sp_perm_run<T: Element>(
    a: Seq<T>,
    steps: int,
    dim: (int, int),
    by_row: bool,
    z: T,
) -> Seq<T>
    decreases steps,
{
    if steps <= 0 {
        a
    } else {
        sp_perm_step(sp_perm_run(a, steps - 1, dim, by_row, z), steps - 1, dim, by_row, z)
    }
}

/// The swap record after `steps` row-pivoting permutation steps.
pub open spec fn sp_perm_run_recs<T: Element>(
    a: Seq<T>,
    p: Seq<(usize, usize)>,
    steps: int,
    dim: (int, int),
    by_row: bool,
    z: T,
) -> Seq<(usize, usize)>
    decreases steps,
{
    if steps <= 0 {
        p
    } else {
        sp_ge_step_recs(
            sp_perm_run(a, steps - 1, dim, by_row, z),
            sp_perm_run_recs(a, p, steps - 1, dim, by_row, z),
            steps - 1,
            dim,
            by_row,
            z,
        )
    }
}

/// Column-fold of `|a1(r, c) - a2(r, c)|` over `c < k`, continuing `seed`.
pub open spec fn sp_cd_row<T: Element>(
    a1: Seq<T>,
    a2: Seq<T>,
    seed: T,
    r: int,
    k: int,
    dim: (int, int),
    by1: bool,
    by2: bool,
) -> T
    decreases k,
{
    if k <= 0 {
        seed
    } else {
        sp_cd_row(a1, a2, seed, r, k - 1, dim, by1, by2).add_spec(
            sp_abs(
                a1[sp_idx(by1, r, k - 1, dim)].sub_spec(a2[sp_idx(by2, r, k - 1, dim)]),
                T::zero_spec(),
            ),
        )
    }
}

/// Row-by-row fold of the absolute elementwise distance over `k` rows.
pub open spec fn sp_cd_rows<T: Element>(
    a1: Seq<T>,
    a2: Seq<T>,
    k: int,
    dim: (int, int),
    by1: bool,
    by2: bool,
) -> T
    decreases k,
{
    if k <= 0 {
        T::zero_spec()
    } else {
        sp_cd_row(a1, a2, sp_cd_rows(a1, a2, k - 1, dim, by1, by2), k - 1, dim.1, dim, by1, by2)
    }
}

impl<T: Element> Array<T> {
    /// Full-pivoted Gaussian elimination to row echelon form, recording
    /// row swaps in `pr` and column swaps in `pc`.
    #[verifier::loop_isolation(false)]
    #[verifier::rlimit(100)]
    #[verifier::spinoff_prover]
    pub fn gaussian_eliminate_rc(
        arr: &mut Vec<T>,
        by_row: bool,
        dim: (usize, usize),
        pr: &mut Vec<(usize, usize)>,
        pc: &mut Vec<(usize, usize)>,
    )
        requires
            old(arr)@.len() == dim.0 * dim.1,
            dim.0 * dim.1 <= usize::MAX,
            old(pr)@.len() + dim.0 <= usize::MAX,
            old(pc)@.len() + dim.0 <= usize::MAX,
        ensures
            final(arr)@.len() == old(arr)@.len(),
            final(arr)@ == sp_gerc_run(
                old(arr)@,
                vstd::math::min(dim.0 as int, dim.1 as int),
                (dim.0 as int, dim.1 as int),
                by_row,
                T::zero_spec(),
            ),
            final(pr)@ == sp_gerc_run_recs_r(
                old(arr)@,
                old(pr)@,
                vstd::math::min(dim.0 as int, dim.1 as int),
                (dim.0 as int, dim.1 as int),
                by_row,
                T::zero_spec(),
            ),
            final(pc)@ == sp_gerc_run_recs_c(
                old(arr)@,
                old(pc)@,
                vstd::math::min(dim.0 as int, dim.1 as int),
                (dim.0 as int, dim.1 as int),
                by_row,
                T::zero_spec(),
            ),
    {
        let ghost dims = (dim.0 as int, dim.1 as int);
        proof {
            lemma_idx_inj(by_row, dims);
            lemma_idx_bound_all(by_row, dims);
            lemma_rc_of(by_row, dims);
        }
        let z = T::zero();
        let (nr, nc) = dim;
        let n: usize = if nr < nc {
            nr
        } else {
            nc
        };
        let mut r: usize = 0;
        while r < n
            invariant
                r <= n,
                arr@.len() == old(arr)@.len(),
                pr@.len() <= old(pr)@.len() + r,
                pc@.len() <= old(pc)@.len() + r,
                arr@ == sp_gerc_run(old(arr)@, r as int, dims, by_row, T::zero_spec()),
                pr@ == sp_gerc_run_recs_r(old(arr)@, old(pr)@, r as int, dims, by_row, T::zero_spec()),
                pc@ == sp_gerc_run_recs_c(old(arr)@, old(pc)@, r as int, dims, by_row, T::zero_spec()),
            decreases n - r,
        {
            let ghost a_pre = arr@;
            let ghost pr_pre = pr@;
            let ghost pc_pre = pc@;
            Array::permute_rc(arr, r, dim, z, pr, pc, by_row);
            let ghost piv = sp_pivot_rc(a_pre, r as int, dims.0 - r, dims, by_row, z);
            proof {
                assert(arr@ =~= sp_swap_rc(a_pre, dims, by_row, r as int, piv.0.0, r as int, piv.0.1));
            }
            let kp = lidx(by_row, r, r, dim);
            let maxv = arr[kp];
            if !maxv.eq_elem(z) {
                Array::eliminate_below(arr, r, dim, by_row, false);
            }
            proof {
                assert(arr@ == sp_gerc_step(a_pre, r as int, dims, by_row, T::zero_spec()));
                assert(pr@ == sp_gerc_step_recs_r(a_pre, pr_pre, r as int, dims, by_row, T::zero_spec()));
                assert(pc@ == sp_gerc_step_recs_c(a_pre, pc_pre, r as int, dims, by_row, T::zero_spec()));
            }
            r = r + 1;
        }
    }

    /// Determinant of a square buffer: eliminates with full pivoting and
    /// returns the swap-signed product of the resulting diagonal.
    #[verifier::loop_isolation(false)]
    pub fn gaussian_det(
        arr: &mut Vec<T>,
        pr: &mut Vec<(usize, usize)>,
        pc: &mut Vec<(usize, usize)>,
        n: usize,
        by_row: bool,
    ) -> (det: T)
        requires
            old(arr)@.len() == n * n,
            n * n <= usize::MAX,
            old(pr)@.len() + n <= usize::MAX,
            old(pc)@.len() + n <= usize::MAX,
        ensures
            final(arr)@ == sp_gerc_run(old(arr)@, n as int, (n as int, n as int), by_row, T::zero_spec()),
            final(pr)@ == sp_gerc_run_recs_r(old(arr)@, old(pr)@, n as int, (n as int, n as int), by_row, T::zero_spec()),
            final(pc)@ == sp_gerc_run_recs_c(old(arr)@, old(pc)@, n as int, (n as int, n as int), by_row, T::zero_spec()),
            det == sp_det_sign::<T>((final(pr)@.len() % 2 + final(pc)@.len() % 2) as int).mul_spec(
                sp_diag_prod(final(arr)@, n as int, n as int),
            ),
    {
        let dim = (n, n);
        Array::gaussian_eliminate_rc(arr, by_row, dim, pr, pc);
        let mut det = T::one();
        let mut i: usize = 0;
        while i < n
            invariant
                i <= n,
                det == sp_diag_prod(arr@, n as int, i as int),
            decreases n - i,
        {
            let k = lidx(true, i, i, dim);
            det = det.mul(arr[k]);
            i = i + 1;
        }
        let num_swp = (pr.len() % 2) + (pc.len() % 2);
        let sign = if num_swp % 2 == 1 {
            T::zero().sub(T::one())
        } else {
            T::one()
        };
        sign.mul(det)
    }

    /// Determinant of a square matrix; other shapes and variants are
    /// refused.
    pub fn mdet(&self) -> (r: Result<T, ListError>)
        requires
            self.wf(),
        ensures
            self is Array2D && self.m_nr() == self.m_nc() ==> r == Ok::<T, ListError>(
                sp_det_of(self.m_arr(), self.m_nr(), self.m_by_row()),
            ),
            self is Array2D && self.m_nr() != self.m_nc() ==> r == Err::<T, ListError>(
                ListError::MatrixDetDimError,
            ),
            !(self is Array2D) ==> r == Err::<T, ListError>(ListError::MismatchedTypes),
    {
        match self {
            Array::Array2D { arr, nr, nc, put_val_by_row } => {
                if *nr != *nc {
                    return Err(ListError::MatrixDetDimError);
                }
                let n = *nr;
                let len = arr.len();
                let mut arr1: Vec<T> = Vec::new();
                let mut i: usize = 0;
                while i < len
                    invariant
                        i <= len,
                        len == arr@.len(),
                        arr1@.len() == i,
                        forall|j: int| 0 <= j < i ==> arr1@[j] == arr@[j],
                    decreases len - i,
                {
                    arr1.push(arr[i]);
                    i = i + 1;
                }
                proof {
                    assert(arr1@ =~= arr@);
                }
                let mut pr: Vec<(usize, usize)> = Vec::new();
                let mut pc: Vec<(usize, usize)> = Vec::new();
                let det = Array::gaussian_det(&mut arr1, &mut pr, &mut pc, n, *put_val_by_row);
                Ok(det)
            },
            _ => Err(ListError::MismatchedTypes),
        }
    }

    /// Row-pivots every leading position of a matrix in place and returns
    /// the swap record.  A shape whose leading positions do not all carry
    /// a column (fewer than one row, or more rows than columns plus one)
    /// is refused with nothing written.
    #[verifier::loop_isolation(false)]
    #[verifier::rlimit(100)]
    pub fn permute(&mut self) -> (r: Result<Vec<(usize, usize)>, ListError>)
        requires
            old(self).wf(),
        ensures
            !((*old(self)) is Array2D) ==> r == Err::<Vec<(usize, usize)>, ListError>(
                ListError::MismatchedTypes,
            ) && (*final(self)) == (*old(self)),
            (*old(self)) is Array2D && !(old(self).m_nr() >= 1 && old(self).m_nr() - 1 <= old(
                self,
            ).m_nc()) ==> r == Err::<Vec<(usize, usize)>, ListError>(ListError::MismatchedDim)
                && (*final(self)) == (*old(self)),
            (*old(self)) is Array2D && old(self).m_nr() >= 1 && old(self).m_nr() - 1 <= old(
                self,
            ).m_nc() ==> {
                &&& (*final(self)) is Array2D
                &&& final(self).wf()
                &&& final(self).m_nr() == old(self).m_nr()
                &&& final(self).m_nc() == old(self).m_nc()
                &&& final(self).m_by_row() == old(self).m_by_row()
                &&& final(self).m_arr() == sp_perm_run(
                    old(self).m_arr(),
                    old(self).m_nr() - 1,
                    (old(self).m_nr(), old(self).m_nc()),
                    old(self).m_by_row(),
                    T::zero_spec(),
                )
                &&& r is Ok
                &&& r->Ok_0@ == sp_perm_run_recs(
                    old(self).m_arr(),
                    Seq::empty(),
                    old(self).m_nr() - 1,
                    (old(self).m_nr(), old(self).m_nc()),
                    old(self).m_by_row(),
                    T::zero_spec(),
                )
            },
    {
        match self {
            Array::Array2D { arr, nr, nc, put_val_by_row } => {
                let by_row = *put_val_by_row;
                let dim = (*nr, *nc);
                if dim.0 < 1 || dim.0 - 1 > dim.1 {
                    return Err(ListError::MismatchedDim);
                }
                let ghost dims = (dim.0 as int, dim.1 as int);
                let len = arr.len();
                proof {
                    lemma_idx_inj(by_row, dims);
                    lemma_idx_bound_all(by_row, dims);
                    lemma_rc_of(by_row, dims);
                }
                let mut p: Vec<(usize, usize)> = Vec::new();
                let z = T::zero();
                let ghost a0 = arr@;
                let mut r: usize = 0;
                while r < dim.0 - 1
                    invariant
                        r <= dim.0 - 1,
                        arr@.len() == a0.len(),
                        p@.len() <= r,
                        arr@ == sp_perm_run(a0, r as int, dims, by_row, T::zero_spec()),
                        p@ == sp_perm_run_recs(a0, Seq::empty(), r as int, dims, by_row, T::zero_spec()),
                    decreases dim.0 - 1 - r,
                {
                    let ghost a_pre = arr@;
                    let ghost p_pre = p@;
                    Array::permute_r(arr, r, dim, z, &mut p, by_row);
                    let ghost piv = sp_pivot_row(a_pre, r as int, dims.0 - r, dims, by_row, z);
                    proof {
                        assert(arr@ =~= sp_swap_rc(a_pre, dims, by_row, r as int, piv.0, 0, 0));
                        assert(arr@ == sp_perm_step(a_pre, r as int, dims, by_row, T::zero_spec()));
                        assert(p@ == sp_ge_step_recs(a_pre, p_pre, r as int, dims, by_row, T::zero_spec()));
                    }
                    r = r + 1;
                }
                Ok(p)
            },
            _ => Err(ListError::MismatchedTypes),
        }
    }

    /// Sum of absolute elementwise differences of two matrices of equal
    /// shape, each read through its own layout.
    #[verifier::loop_isolation(false)]
    pub fn compute_dist(arr1: &Self, arr2: &Self) -> (r: Result<T, ListError>)
        requires
            arr1.wf(),
            arr2.wf(),
        ensures
            arr1 is Array2D && arr2 is Array2D && arr1.m_nr() == arr2.m_nr() && arr1.m_nc()
                == arr2.m_nc() ==> r == Ok::<T, ListError>(
                sp_cd_rows(
                    arr1.m_arr(),
                    arr2.m_arr(),
                    arr1.m_nr(),
                    (arr1.m_nr(), arr1.m_nc()),
                    arr1.m_by_row(),
                    arr2.m_by_row(),
                ),
            ),
            arr1 is Array2D && arr2 is Array2D && !(arr1.m_nr() == arr2.m_nr() && arr1.m_nc()
                == arr2.m_nc()) ==> r == Err::<T, ListError>(ListError::MismatchedDim),
            !(arr1 is Array2D && arr2 is Array2D) ==> r == Err::<T, ListError>(
                ListError::MismatchedTypes,
            ),
    {
        match (arr1, arr2) {
            (
                Array::Array2D { arr: a1, nr, nc, put_val_by_row },
                Array::Array2D { arr: a2, nr: nr2, nc: nc2, put_val_by_row: put_val_by_row2 },
            ) => {
                if *nr != *nr2 || *nc != *nc2 {
                    return Err(ListError::MismatchedDim);
                }
                let dim = (*nr, *nc);
                let ghost dims = (dim.0 as int, dim.1 as int);
                let by1 = *put_val_by_row;
                let by2 = *put_val_by_row2;
                // Reading the lengths tells the verifier the buffers fit
                // in memory.
                let l1 = a1.len();
                let l2 = a2.len();
                proof {
                    lemma_idx_bound_all(by1, dims);
                    lemma_idx_bound_all(by2, dims);
                }
                let z = T::zero();
                let mut sum = T::zero();
                let mut r: usize = 0;
                while r < dim.0
                    invariant
                        r <= dim.0,
                        sum == sp_cd_rows(a1@, a2@, r as int, dims, by1, by2),
                    decreases dim.0 - r,
                {
                    let ghost seed = sum;
                    let mut c: usize = 0;
                    while c < dim.1
                        invariant
                            r < dim.0,
                            c <= dim.1,
                            sum == sp_cd_row(a1@, a2@, seed, r as int, c as int, dims, by1, by2),
                        decreases dim.1 - c,
                    {
                        let k1 = lidx(by1, r, c, dim);
                        let k2 = lidx(by2, r, c, dim);
                        sum = sum.add(Array::abs(a1[k1].sub(a2[k2]), z));
                        c = c + 1;
                    }
                    r = r + 1;
                }
                Ok(sum)
            },
            _ => Err(ListError::MismatchedTypes),
        }
    }
}

} // verus!
