//! Packed LU factorisation with partial pivoting, the triangular solvers
//! it feeds, and the in-place matrix inverse built from them.

use vstd::prelude::*;

use crate::array::element::Element;
use crate::array::lemma_idx_bound_all;
use crate::array::lemma_idx_inj;
use crate::array::lidx;
use crate::array::mdet_method::sp_ge_run;
use crate::array::mdet_method::sp_ge_run_recs;
use crate::array::sp_idx;
use crate::array::Array;
use crate::array::ListError;

verus! {

/// A buffer after the entries at one swap pair trade places.
pub open spec fn sp_swap1<T>(b: Seq<T>, ij: (usize, usize)) -> Seq<T> {
    b.update(ij.0 as int, b[ij.1 as int]).update(ij.1 as int, b[ij.0 as int])
}

/// A vector after the first `k` recorded swaps are applied in order.
pub open spec fn sp_apply_swaps<T>(b: Seq<T>, p: Seq<(usize, usize)>, k: int) -> Seq<T>
    decreases k,
{
    if k <= 0 {
        b
    } else {
        sp_swap1(sp_apply_swaps(b, p, k - 1), p[k - 1])
    }
}

/// A vector after the last `k` recorded swaps are applied in reverse
/// order, newest first.
pub open spec fn sp_unapply_swaps<T>(b: Seq<T>, p: Seq<(usize, usize)>, k: int) -> Seq<T>
    decreases k,
{
    if k <= 0 {
        b
    } else {
        sp_unapply_swaps(sp_swap1(b, p[k - 1]), p, k - 1)
    }
}

/// Swapping one pair twice restores the buffer.
pub proof fn lemma_swap1_involution<T>(b: Seq<T>, ij: (usize, usize))
    requires
        ij.0 < b.len(),
        ij.1 < b.len(),
    ensures
        sp_swap1(sp_swap1(b, ij), ij) =~= b,
{
}

/// Applying in-range swaps keeps the length.
pub proof fn lemma_apply_swaps_len<T>(b: Seq<T>, p: Seq<(usize, usize)>, k: int)
    requires
        forall|j: int| 0 <= j < k ==> (#[trigger] p[j]).0 < b.len() && p[j].1 < b.len(),
    ensures
        sp_apply_swaps(b, p, k).len() == b.len(),
    decreases k,
{
    if k > 0 {
        lemma_apply_swaps_len(b, p, k - 1);
    }
}

/// The forward-substitution solution holds one entry per solved row.
pub proof fn lemma_l_solve_len<T: Element>(
    l: Seq<T>,
    b: Seq<T>,
    dim: (int, int),
    by_row: bool,
    is_lu: bool,
    k: int,
)
    ensures
        sp_l_solve(l, b, dim, by_row, is_lu, k).len() == if k <= 0 {
            0
        } else {
            k
        },
    decreases k,
{
    if k > 0 {
        lemma_l_solve_len(l, b, dim, by_row, is_lu, k - 1);
    }
}

/// The back-substitution solution holds one entry per solved row.
pub proof fn lemma_u_solve_len<T: Element>(u: Seq<T>, b: Seq<T>, dim: (int, int), by_row: bool, k: int)
    ensures
        sp_u_solve(u, b, dim, by_row, k).len() == if k <= 0 {
            0
        } else {
            k
        },
    decreases k,
{
    if k > 0 {
        lemma_u_solve_len(u, b, dim, by_row, k - 1);
    }
}

/// Replaying the recorded swaps in reverse order undoes them.
pub proof fn lemma_swaps_roundtrip<T>(b: Seq<T>, p: Seq<(usize, usize)>, k: int)
    requires
        forall|j: int| 0 <= j < k ==> (#[trigger] p[j]).0 < b.len() && p[j].1 < b.len(),
    ensures
        sp_unapply_swaps(sp_apply_swaps(b, p, k), p, k) == b,
    decreases k,
{
    if k > 0 {
        lemma_swaps_roundtrip(b, p, k - 1);
        lemma_apply_swaps_len(b, p, k - 1);
        lemma_swap1_involution(sp_apply_swaps(b, p, k - 1), p[k - 1]);
        assert(sp_swap1(sp_apply_swaps(b, p, k), p[k - 1]) == sp_apply_swaps(b, p, k - 1));
    }
}

/// Fold of `l[r, i] * xs[i]` over `i < cnt`, from zero: the accumulated
/// part of one forward-substitution row.
pub open spec fn sp_ls_sum<T: Element>(
    l: Seq<T>,
    xs: Seq<T>,
    r: int,
    cnt: int,
    dim: (int, int),
    by_row: bool,
) -> T
    decreases cnt,
{
    if cnt <= 0 {
        T::zero_spec()
    } else {
        sp_ls_sum(l, xs, r, cnt - 1, dim, by_row).add_spec(
            l[sp_idx(by_row, r, cnt - 1, dim)].mul_spec(xs[cnt - 1]),
        )
    }
}

/// The first `k` entries of the forward-substitution solution of
/// `L x = b`: row `r` is `b[r]` minus the accumulated products, divided by
/// the diagonal unless the unit-diagonal packed-LU mode is on.
pub open spec fn sp_l_solve<T: Element>(
    l: Seq<T>,
    b: Seq<T>,
    dim: (int, int),
    by_row: bool,
    is_lu: bool,
    k: int,
) -> Seq<T>
    decreases k,
{
    if k <= 0 {
        Seq::empty()
    } else {
        let prev = sp_l_solve(l, b, dim, by_row, is_lu, k - 1);
        let r = k - 1;
        let sum = sp_ls_sum(l, prev, r, r, dim, by_row);
        let v = if is_lu {
            b[r].sub_spec(sum)
        } else {
            b[r].sub_spec(sum).div_spec(l[sp_idx(by_row, r, r, dim)])
        };
        prev.push(v)
    }
}

/// Fold of `u[r, r+j] * xs[j-1]` over the columns right of the diagonal:
/// the accumulated part of one back-substitution row, where `xs` holds the
/// already-solved trailing entries starting at row `r+1`.
pub open spec fn sp_us_sum<T: Element>(
    u: Seq<T>,
    xs: Seq<T>,
    r: int,
    cnt: int,
    dim: (int, int),
    by_row: bool,
) -> T
    decreases cnt,
{
    if cnt <= 0 {
        T::zero_spec()
    } else {
        sp_us_sum(u, xs, r, cnt - 1, dim, by_row).add_spec(
            u[sp_idx(by_row, r, r + cnt, dim)].mul_spec(xs[cnt - 1]),
        )
    }
}

/// The last `k` entries of the back-substitution solution of `U x = b`,
/// as a sequence whose entry `i` is the solution at row `dim.0 - k + i`.
pub open spec fn sp_u_solve<T: Element>(
    u: Seq<T>,
    b: Seq<T>,
    dim: (int, int),
    by_row: bool,
    k: int,
) -> Seq<T>
    decreases k,
{
    if k <= 0 {
        Seq::empty()
    } else {
        let prev = sp_u_solve(u, b, dim, by_row, k - 1);
        let r = dim.0 - k;
        let sum = sp_us_sum(u, prev, r, dim.1 - r - 1, dim, by_row);
        let v = b[r].sub_spec(sum).div_spec(u[sp_idx(by_row, r, r, dim)]);
        seq![v] + prev
    }
}

impl<T: Element> Array<T> {
    /// Packed LU factorisation with partial pivoting: the row-pivoted
    /// elimination that keeps each elimination factor below the diagonal,
    /// recording the row swaps in `p`.
    pub fn p_lu(p: &mut Vec<(usize, usize)>, arr: &mut Vec<T>, dim: (usize, usize), by_row: bool)
        requires
            old(arr)@.len() == dim.0 * dim.1,
            dim.0 * dim.1 <= usize::MAX,
            old(p)@.len() + dim.0 <= usize::MAX,
        ensures
            final(arr)@.len() == old(arr)@.len(),
            final(arr)@ == sp_ge_run(
                old(arr)@,
                vstd::math::min(dim.0 as int, dim.1 as int),
                (dim.0 as int, dim.1 as int),
                by_row,
                T::zero_spec(),
                true,
            ),
            final(p)@ == sp_ge_run_recs(
                old(arr)@,
                old(p)@,
                vstd::math::min(dim.0 as int, dim.1 as int),
                (dim.0 as int, dim.1 as int),
                by_row,
                T::zero_spec(),
                true,
            ),
            forall|j: int|
                old(p)@.len() <= j < final(p)@.len() ==> (#[trigger] final(p)@[j]).0 < dim.0
                    && final(p)@[j].1 < dim.0,
    {
        Array::ge_driver(arr, by_row, dim, p, true);
    }

    /// Forward substitution for `L x = b`; with `is_lu` the diagonal is
    /// taken as an implicit one, the packed-LU convention.
    #[verifier::loop_isolation(false)]
    pub fn l_tri_solve(
        l: &Vec<T>,
        b: &Vec<T>,
        x: &mut Vec<T>,
        dim: (usize, usize),
        by_row: bool,
        is_lu: bool,
    ) -> (res: Result<(), ListError>)
        requires
            l@.len() == dim.0 * dim.1,
            dim.0 * dim.1 <= usize::MAX,
            dim.0 == dim.1 ==> b@.len() >= dim.0 && old(x)@.len() >= dim.0,
        ensures
            res is Ok <==> dim.0 == dim.1,
            res is Err ==> final(x)@ == old(x)@ && res == Err::<(), ListError>(
                ListError::NotSquareMat,
            ),
            res is Ok ==> final(x)@.len() == old(x)@.len() && (forall|j: int|
                0 <= j < dim.0 ==> final(x)@[j] == sp_l_solve(
                    l@,
                    b@,
                    (dim.0 as int, dim.1 as int),
                    by_row,
                    is_lu,
                    dim.0 as int,
                )[j]) && (forall|j: int| dim.0 <= j < old(x)@.len() ==> final(x)@[j] == old(x)@[j]),
    {
        let (nr, nc) = dim;
        if nr != nc {
            return Err(ListError::NotSquareMat);
        }
        let ghost dims = (dim.0 as int, dim.1 as int);
        proof {
            lemma_idx_bound_all(by_row, dims);
        }
        let mut r: usize = 0;
        while r < nr
            invariant
                r <= nr,
                x@.len() == old(x)@.len(),
                sp_l_solve(l@, b@, dims, by_row, is_lu, r as int).len() == r as int,
                forall|j: int|
                    0 <= j < r ==> x@[j] == sp_l_solve(l@, b@, dims, by_row, is_lu, r as int)[j],
                forall|j: int| r <= j < old(x)@.len() ==> x@[j] == old(x)@[j],
            decreases nr - r,
        {
            let ghost prev = sp_l_solve(l@, b@, dims, by_row, is_lu, r as int);
            let mut sum = T::zero();
            let mut bi: usize = 0;
            while bi < r
                invariant
                    bi <= r,
                    sum == sp_ls_sum(l@, prev, r as int, bi as int, dims, by_row),
                decreases r - bi,
            {
                let k = lidx(by_row, r, bi, dim);
                sum = sum.add(l[k].mul(x[bi]));
                bi = bi + 1;
            }
            let v = if is_lu {
                b[r].sub(sum)
            } else {
                let kd = lidx(by_row, r, r, dim);
                b[r].sub(sum).div(l[kd])
            };
            x.set(r, v);
            proof {
                assert(sp_l_solve(l@, b@, dims, by_row, is_lu, r + 1) == prev.push(v));
            }
            r = r + 1;
        }
        Ok(())
    }

    /// Back substitution for `U x = b`.
    #[verifier::loop_isolation(false)]
    pub fn u_tri_solve(
        u: &Vec<T>,
        b: &Vec<T>,
        x: &mut Vec<T>,
        dim: (usize, usize),
        by_row: bool,
    ) -> (res: Result<(), ListError>)
        requires
            u@.len() == dim.0 * dim.1,
            dim.0 * dim.1 <= usize::MAX,
            dim.0 == dim.1 ==> b@.len() >= dim.0 && old(x)@.len() >= dim.0,
        ensures
            res is Ok <==> dim.0 == dim.1,
            res is Err ==> final(x)@ == old(x)@ && res == Err::<(), ListError>(
                ListError::NotSquareMat,
            ),
            res is Ok ==> final(x)@.len() == old(x)@.len() && (forall|j: int|
                0 <= j < dim.0 ==> final(x)@[j] == sp_u_solve(
                    u@,
                    b@,
                    (dim.0 as int, dim.1 as int),
                    by_row,
                    dim.0 as int,
                )[j]) && (forall|j: int| dim.0 <= j < old(x)@.len() ==> final(x)@[j] == old(x)@[j]),
    {
        let (nr, nc) = dim;
        if nr != nc {
            return Err(ListError::NotSquareMat);
        }
        let ghost dims = (dim.0 as int, dim.1 as int);
        proof {
            lemma_idx_bound_all(by_row, dims);
        }
        let mut r: usize = nr;
        while r > 0
            invariant
                r <= nr,
                x@.len() == old(x)@.len(),
                sp_u_solve(u@, b@, dims, by_row, (nr - r) as int).len() == nr - r,
                forall|j: int|
                    r <= j < nr ==> x@[j] == sp_u_solve(u@, b@, dims, by_row, (nr - r) as int)[j
                        - r],
                forall|j: int| 0 <= j < r ==> x@[j] == old(x)@[j],
                forall|j: int| nr <= j < old(x)@.len() ==> x@[j] == old(x)@[j],
            decreases r,
        {
            r = r - 1;
            let ghost prev = sp_u_solve(u@, b@, dims, by_row, (nr - r - 1) as int);
            let mut sum = T::zero();
            let mut fi: usize = r + 1;
            while fi < nc
                invariant
                    r + 1 <= fi <= nc,
                    sum == sp_us_sum(u@, prev, r as int, fi - r - 1, dims, by_row),
                decreases nc - fi,
            {
                let k = lidx(by_row, r, fi, dim);
                sum = sum.add(u[k].mul(x[fi]));
                fi = fi + 1;
            }
            let kd = lidx(by_row, r, r, dim);
            let v = b[r].sub(sum).div(u[kd]);
            x.set(r, v);
            proof {
                assert(sp_u_solve(u@, b@, dims, by_row, (nr - r) as int) == seq![v] + prev);
            }
        }
        Ok(())
    }

    /// Solves `L U x = P b` from a packed LU factor and its swap record:
    /// permutes a copy of `b`, forward- and back-substitutes, and hands
    /// `b` back unchanged.
    #[verifier::loop_isolation(false)]
    pub fn p_lu_solve(
        lu: &Vec<T>,
        p: &Vec<(usize, usize)>,
        b: &mut Vec<T>,
        x: &mut Vec<T>,
        dim: (usize, usize),
        by_row: bool,
    ) -> (res: Result<(), ListError>)
        requires
            lu@.len() == dim.0 * dim.1,
            dim.0 * dim.1 <= usize::MAX,
            old(b)@.len() >= dim.0,
            old(x)@.len() >= dim.0,
            forall|j: int| 0 <= j < p@.len() ==> (#[trigger] p@[j]).0 < old(b)@.len() && p@[j].1 < old(b)@.len(),
        ensures
            res is Ok <==> dim.0 == dim.1,
            final(b)@ == old(b)@,
            res is Err ==> final(x)@ == old(x)@ && res == Err::<(), ListError>(
                ListError::NotSquareMat,
            ),
            res is Ok ==> final(x)@.len() == old(x)@.len() && (forall|j: int|
                0 <= j < dim.0 ==> final(x)@[j] == sp_u_solve(
                    lu@,
                    sp_l_solve(
                        lu@,
                        sp_apply_swaps(old(b)@, p@, p@.len() as int),
                        (dim.0 as int, dim.1 as int),
                        by_row,
                        true,
                        dim.0 as int,
                    ) + Seq::new((old(b)@.len() - dim.0) as nat, |i: int| T::zero_spec()),
                    (dim.0 as int, dim.1 as int),
                    by_row,
                    dim.0 as int,
                )[j]) && (forall|j: int| dim.0 <= j < old(x)@.len() ==> final(x)@[j] == old(x)@[j]),
    {
        let (nr, nc) = dim;
        if nr != nc {
            return Err(ListError::NotSquareMat);
        }
        let plen = p.len();
        let mut k: usize = 0;
        while k < plen
            invariant
                k <= plen,
                b@.len() == old(b)@.len(),
                b@ == sp_apply_swaps(old(b)@, p@, k as int),
            decreases plen - k,
        {
            let (i, j) = p[k];
            let ti = b[i];
            let tj = b[j];
            b.set(i, tj);
            b.set(j, ti);
            proof {
                assert(b@ =~= sp_swap1(sp_apply_swaps(old(b)@, p@, k as int), p@[k as int]));
            }
            k = k + 1;
        }
        let ghost permuted = b@;
        let is_lu: bool = true;
        let mut y: Vec<T> = Vec::new();
        let blen = b.len();
        let mut i: usize = 0;
        while i < blen
            invariant
                i <= blen,
                y@.len() == i,
                forall|j: int| 0 <= j < i ==> y@[j] == T::zero_spec(),
            decreases blen - i,
        {
            y.push(T::zero());
            i = i + 1;
        }
        let ghost y0 = y@;
        match Array::l_tri_solve(lu, b, &mut y, dim, by_row, is_lu) {
            Ok(()) => (),
            Err(_) => {
                proof {
                    assert(false);
                }
            },
        }
        proof {
            lemma_l_solve_len(lu@, permuted, (dim.0 as int, dim.1 as int), by_row, true, dim.0 as int);
            assert(y@ =~= sp_l_solve(
                lu@,
                permuted,
                (dim.0 as int, dim.1 as int),
                by_row,
                true,
                dim.0 as int,
            ) + Seq::new((old(b)@.len() - dim.0) as nat, |i: int| T::zero_spec()));
        }
        match Array::u_tri_solve(lu, &y, x, dim, by_row) {
            Ok(()) => (),
            Err(_) => {
                proof {
                    assert(false);
                }
            },
        }
        let mut k: usize = plen;
        while k > 0
            invariant
                k <= plen,
                b@.len() == old(b)@.len(),
                sp_unapply_swaps(b@, p@, k as int) == sp_unapply_swaps(permuted, p@, plen as int),
            decreases k,
        {
            k = k - 1;
            let ghost b_pre = b@;
            let (i, j) = p[k];
            let ti = b[i];
            let tj = b[j];
            b.set(i, tj);
            b.set(j, ti);
            proof {
                assert(b@ =~= sp_swap1(b_pre, p@[k as int]));
            }
        }
        proof {
            lemma_swaps_roundtrip(old(b)@, p@, plen as int);
        }
        Ok(())
    }
}

/// Column `c` of the `n x n` identity matrix.
pub open spec fn sp_unit_col<T: Element>(c: int, n: int) -> Seq<T> {
    Seq::new(
        n as nat,
        |i: int|
            if i == c {
                T::one_spec()
            } else {
                T::zero_spec()
            },
    )
}

/// Column `c` of the inverse assembled from a packed LU factor and its
/// swap record: the permuted identity column, forward-substituted through
/// the implicit-unit L, then back-substituted through U.
pub open spec fn sp_inv_col<T: Element>(
    lu: Seq<T>,
    p: Seq<(usize, usize)>,
    c: int,
    n: int,
    by_row: bool,
) -> Seq<T> {
    sp_u_solve(
        lu,
        sp_l_solve(
            lu,
            sp_apply_swaps(sp_unit_col::<T>(c, n), p, p.len() as int),
            (n, n),
            by_row,
            true,
            n,
        ),
        (n, n),
        by_row,
        n,
    )
}

impl<T: Element> Array<T> {
    /// Inverts a square matrix in place through its packed LU
    /// factorisation, column by column of the identity.  A non-matrix is
    /// refused, as are a non-square shape and a singular factor (an exact
    /// zero on the eliminated diagonal); on any refusal the array is left
    /// unchanged.  In exact arithmetic the result times the input is the
    /// identity; over rounding arithmetic that identity holds within a
    /// tolerance, which the test suite checks at run time.
    #[verifier::loop_isolation(false)]
    #[verifier::rlimit(100)]
    #[verifier::spinoff_prover]
    pub fn inv(&mut self) -> (res: Result<(), ListError>)
        requires
            old(self).wf(),
        ensures
            !((*old(self)) is Array2D) ==> res == Err::<(), ListError>(ListError::MismatchedTypes)
                && (*final(self)) == (*old(self)),
            (*old(self)) is Array2D && old(self).m_nr() != old(self).m_nc() ==> res == Err::<
                (),
                ListError,
            >(ListError::MatrixInvDimError) && (*final(self)) == (*old(self)),
            (*old(self)) is Array2D && old(self).m_nr() == old(self).m_nc() ==> {
                let n = old(self).m_nr();
                let by_row = old(self).m_by_row();
                let lu = sp_ge_run(
                    old(self).m_arr(),
                    n,
                    (n, n),
                    by_row,
                    T::zero_spec(),
                    true,
                );
                let p = sp_ge_run_recs(
                    old(self).m_arr(),
                    Seq::empty(),
                    n,
                    (n, n),
                    by_row,
                    T::zero_spec(),
                    true,
                );
                if exists|i: int|
                    0 <= i < n && lu[#[trigger] sp_idx(by_row, i, i, (n, n))] == T::zero_spec() {
                    res == Err::<(), ListError>(ListError::SingularMat) && (*final(self)) == (*old(
                        self,
                    ))
                } else {
                    &&& res is Ok
                    &&& (*final(self)) is Array2D
                    &&& final(self).wf()
                    &&& final(self).m_nr() == n
                    &&& final(self).m_nc() == n
                    &&& final(self).m_by_row() == by_row
                    &&& forall|i: int, c: int|
                        0 <= i < n && 0 <= c < n ==> final(self).m_at(i, c) == sp_inv_col(
                            lu,
                            p,
                            c,
                            n,
                            by_row,
                        )[i]
                }
            },
    {
        match self {
            Array::Array2D { arr, nr, nc, put_val_by_row } => {
                if *nr != *nc {
                    return Err(ListError::MatrixInvDimError);
                }
                let n = *nr;
                let by_row = *put_val_by_row;
                let dim = (n, n);
                let ghost dims = (n as int, n as int);
                let len = arr.len();
                proof {
                    lemma_idx_inj(by_row, dims);
                    lemma_idx_bound_all(by_row, dims);
                }
                let mut lu: Vec<T> = Vec::new();
                let mut i: usize = 0;
                while i < len
                    invariant
                        i <= len,
                        len == arr@.len(),
                        lu@.len() == i,
                        forall|j: int| 0 <= j < i ==> lu@[j] == arr@[j],
                    decreases len - i,
                {
                    lu.push(arr[i]);
                    i = i + 1;
                }
                proof {
                    assert(lu@ =~= arr@);
                }
                let mut p: Vec<(usize, usize)> = Vec::new();
                Array::p_lu(&mut p, &mut lu, dim, by_row);
                let z = T::zero();
                let mut i: usize = 0;
                while i < n
                    invariant
                        i <= n,
                        forall|j: int|
                            0 <= j < i ==> lu@[#[trigger] sp_idx(by_row, j, j, dims)]
                                != T::zero_spec(),
                    decreases n - i,
                {
                    let kd = lidx(by_row, i, i, dim);
                    if lu[kd].eq_elem(z) {
                        proof {
                            let nn = old(self).m_nr();
                            let br = old(self).m_by_row();
                            let slu = sp_ge_run(
                                old(self).m_arr(),
                                nn,
                                (nn, nn),
                                br,
                                T::zero_spec(),
                                true,
                            );
                            assert(lu@ == slu);
                            assert(slu[sp_idx(br, i as int, i as int, (nn, nn))]
                                == T::zero_spec());
                            assert(exists|i0: int|
                                0 <= i0 < nn && slu[#[trigger] sp_idx(br, i0, i0, (nn, nn))]
                                    == T::zero_spec());
                        }
                        return Err(ListError::SingularMat);
                    }
                    i = i + 1;
                }
                let ghost a0 = arr@;
                let mut c: usize = 0;
                while c < n
                    invariant
                        c <= n,
                        arr@.len() == a0.len(),
                        lu@.len() == dims.0 * dims.1,
                        forall|j: int|
                            0 <= j < p@.len() ==> (#[trigger] p@[j]).0 < n && p@[j].1 < n,
                        forall|i0: int, c0: int|
                            0 <= i0 < n && 0 <= c0 < c ==> arr@[sp_idx(by_row, i0, c0, dims)]
                                == sp_inv_col(lu@, p@, c0, n as int, by_row)[i0],
                        forall|i0: int, c0: int|
                            0 <= i0 < n && c <= c0 < n ==> arr@[sp_idx(by_row, i0, c0, dims)]
                                == a0[sp_idx(by_row, i0, c0, dims)],
                    decreases n - c,
                {
                    let mut ei: Vec<T> = Vec::new();
                    let mut i2: usize = 0;
                    while i2 < n
                        invariant
                            i2 <= n,
                            ei@.len() == i2,
                            forall|j: int|
                                0 <= j < i2 ==> ei@[j] == sp_unit_col::<T>(c as int, n as int)[j],
                        decreases n - i2,
                    {
                        if i2 == c {
                            ei.push(T::one());
                        } else {
                            ei.push(T::zero());
                        }
                        i2 = i2 + 1;
                    }
                    proof {
                        assert(ei@ =~= sp_unit_col::<T>(c as int, n as int));
                    }
                    let ghost e0 = ei@;
                    let plen = p.len();
                    let mut k: usize = 0;
                    while k < plen
                        invariant
                            k <= plen,
                            ei@.len() == n,
                            ei@ == sp_apply_swaps(e0, p@, k as int),
                        decreases plen - k,
                    {
                        let ghost e_pre = ei@;
                        let (si, sj) = p[k];
                        let ti = ei[si];
                        let tj = ei[sj];
                        ei.set(si, tj);
                        ei.set(sj, ti);
                        proof {
                            assert(ei@ =~= sp_swap1(e_pre, p@[k as int]));
                        }
                        k = k + 1;
                    }
                    let mut yc: Vec<T> = Vec::new();
                    let mut i3: usize = 0;
                    while i3 < n
                        invariant
                            i3 <= n,
                            yc@.len() == i3,
                        decreases n - i3,
                    {
                        yc.push(T::zero());
                        i3 = i3 + 1;
                    }
                    match Array::l_tri_solve(&lu, &ei, &mut yc, dim, by_row, true) {
                        Ok(()) => (),
                        Err(_) => {
                            proof {
                                assert(false);
                            }
                        },
                    }
                    proof {
                        lemma_l_solve_len(lu@, ei@, dims, by_row, true, n as int);
                        assert(yc@ =~= sp_l_solve(lu@, ei@, dims, by_row, true, n as int));
                    }
                    let mut xc: Vec<T> = Vec::new();
                    let mut i4: usize = 0;
                    while i4 < n
                        invariant
                            i4 <= n,
                            xc@.len() == i4,
                        decreases n - i4,
                    {
                        xc.push(T::zero());
                        i4 = i4 + 1;
                    }
                    match Array::u_tri_solve(&lu, &yc, &mut xc, dim, by_row) {
                        Ok(()) => (),
                        Err(_) => {
                            proof {
                                assert(false);
                            }
                        },
                    }
                    proof {
                        lemma_u_solve_len(lu@, yc@, dims, by_row, n as int);
                        assert(xc@ =~= sp_u_solve(lu@, yc@, dims, by_row, n as int));
                        assert(xc@ == sp_inv_col(lu@, p@, c as int, n as int, by_row));
                    }
                    let mut i5: usize = 0;
                    while i5 < n
                        invariant
                            i5 <= n,
                            arr@.len() == a0.len(),
                            xc@ == sp_inv_col(lu@, p@, c as int, n as int, by_row),
                            xc@.len() == n,
                            forall|i0: int, c0: int|
                                0 <= i0 < n && 0 <= c0 < c ==> arr@[sp_idx(by_row, i0, c0, dims)]
                                    == sp_inv_col(lu@, p@, c0, n as int, by_row)[i0],
                            forall|i0: int|
                                0 <= i0 < i5 ==> arr@[sp_idx(by_row, i0, c as int, dims)]
                                    == xc@[i0],
                            forall|i0: int, c0: int|
                                0 <= i0 < n && c <= c0 < n && !(c0 == c && i0 < i5) ==> arr@[sp_idx(
                                    by_row,
                                    i0,
                                    c0,
                                    dims,
                                )] == a0[sp_idx(by_row, i0, c0, dims)],
                        decreases n - i5,
                    {
                        let kw = lidx(by_row, i5, c, dim);
                        arr.set(kw, xc[i5]);
                        i5 = i5 + 1;
                    }
                    c = c + 1;
                }
                Ok(())
            },
            _ => Err(ListError::MismatchedTypes),
        }
    }

    /// The second entry point to the in-place inverse; it shares the LU
    /// kernel with `inv`.
    pub fn minv(&mut self) -> (res: Result<(), ListError>)
        requires
            old(self).wf(),
        ensures
            !((*old(self)) is Array2D) ==> res == Err::<(), ListError>(ListError::MismatchedTypes)
                && (*final(self)) == (*old(self)),
            (*old(self)) is Array2D && old(self).m_nr() != old(self).m_nc() ==> res == Err::<
                (),
                ListError,
            >(ListError::MatrixInvDimError) && (*final(self)) == (*old(self)),
            (*old(self)) is Array2D && old(self).m_nr() == old(self).m_nc() ==> {
                let n = old(self).m_nr();
                let by_row = old(self).m_by_row();
                let lu = sp_ge_run(
                    old(self).m_arr(),
                    n,
                    (n, n),
                    by_row,
                    T::zero_spec(),
                    true,
                );
                let p = sp_ge_run_recs(
                    old(self).m_arr(),
                    Seq::empty(),
                    n,
                    (n, n),
                    by_row,
                    T::zero_spec(),
                    true,
                );
                if exists|i: int|
                    0 <= i < n && lu[#[trigger] sp_idx(by_row, i, i, (n, n))] == T::zero_spec() {
                    res == Err::<(), ListError>(ListError::SingularMat) && (*final(self)) == (*old(
                        self,
                    ))
                } else {
                    &&& res is Ok
                    &&& (*final(self)) is Array2D
                    &&& final(self).wf()
                    &&& final(self).m_nr() == n
                    &&& final(self).m_nc() == n
                    &&& final(self).m_by_row() == by_row
                    &&& forall|i: int, c: int|
                        0 <= i < n && 0 <= c < n ==> final(self).m_at(i, c) == sp_inv_col(
                            lu,
                            p,
                            c,
                            n,
                            by_row,
                        )[i]
                }
            },
    {
        self.inv()
    }
}

} // verus!
