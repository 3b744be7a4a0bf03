//! Real eigenvalue estimation by the shifted QR iteration: Wilkinson
//! shift from the trailing block, Householder QR of the shifted matrix,
//! and the reassembled product in reverse order.

use vstd::prelude::*;

use crate::array::element::Element;
use crate::array::lidx;
use crate::array::matrix_operations::sp_abs;
use crate::array::matrix_operations::Sqrt;
use crate::array::qr_method::sp_qf_rev;
use crate::array::qr_method::sp_qrh_r_run;
use crate::array::qr_method::sp_qrh_vec;
use crate::array::qr_method::sp_refl_apply;
use crate::array::sp_idx;
use crate::array::sp_rc_of;
use crate::array::Array;
use crate::array::ListError;

verus! {

/// Every strictly-lower entry is within the tolerance: the iteration's
/// convergence test.
pub open spec fn sp_eig_conv<T: Element>(a: Seq<T>, n: int, by: bool, mtol: T) -> bool {
    forall|r: int, c: int|
        1 <= r < n && 0 <= c < r ==> !mtol.lt_spec(
            sp_abs(a[#[trigger] sp_idx(by, r, c, (n, n))], T::zero_spec()),
        )
}

/// The Wilkinson shift: the eigenvalue of the trailing two-by-two block
/// closer to its last diagonal entry.
pub open spec fn sp_eig_shift<T: Element + Sqrt>(a: Seq<T>, n: int, by: bool) -> T {
    let z = T::zero_spec();
    let two = T::from_frac_spec(2, 0);
    let four = T::from_frac_spec(4, 0);
    let b11 = a[sp_idx(by, n - 2, n - 2, (n, n))];
    let b12 = a[sp_idx(by, n - 2, n - 1, (n, n))];
    let b21 = a[sp_idx(by, n - 1, n - 2, (n, n))];
    let b22 = a[sp_idx(by, n - 1, n - 1, (n, n))];
    let p2 = b11.sub_spec(b22).powi_spec(2).add_spec(four.mul_spec(b12).mul_spec(b21));
    let lambda1 = z.add_spec(b11.add_spec(b22).add_spec(p2.sqrt_spec()).div_spec(two));
    let lambda2 = z.add_spec(b11.add_spec(b22).sub_spec(p2.sqrt_spec()).div_spec(two));
    let d1 = sp_abs(lambda1.sub_spec(b22), z);
    let d2 = sp_abs(lambda2.sub_spec(b22), z);
    if d1.lt_spec(d2) {
        lambda1
    } else {
        lambda2
    }
}

/// The buffer with `s` subtracted from (or added back onto) the diagonal.
pub open spec fn sp_diag_shift<T: Element>(a: Seq<T>, s: T, n: int, by: bool, sub: bool) -> Seq<
    T,
> {
    Seq::new(
        a.len(),
        |t: int|
            {
                let rc = sp_rc_of(by, t, (n, n));
                if rc.0 == rc.1 {
                    if sub {
                        a[t].sub_spec(s)
                    } else {
                        a[t].add_spec(s)
                    }
                } else {
                    a[t]
                }
            },
    )
}

/// The buffer after the reflectors of the shifted matrix act on it from
/// the right, earliest column's reflector first.
pub open spec fn sp_eig_apply<T: Element + Sqrt>(
    shifted: Seq<T>,
    b: Seq<T>,
    cnt: int,
    n: int,
    by: bool,
) -> Seq<T>
    decreases cnt,
{
    if cnt <= 0 {
        b
    } else {
        sp_refl_apply(
            sp_qrh_vec(shifted, cnt - 1, (n, n), by),
            sp_eig_apply(shifted, b, cnt - 1, n, by),
            (n, n),
            !by,
        )
    }
}

/// One shifted QR iteration: shift the diagonal down, factor, reassemble
/// the factors in reverse order, and shift back up.
pub open spec fn sp_eig_step<T: Element + Sqrt>(a: Seq<T>, n: int, by: bool) -> Seq<T> {
    let s = sp_eig_shift(a, n, by);
    let shifted = sp_diag_shift(a, s, n, by, true);
    let rr = sp_qrh_r_run(shifted, n, (n, n), by);
    let rq = sp_eig_apply(shifted, rr, n, n, by);
    sp_diag_shift(rq, s, n, by, false)
}

/// The iterate after at most `iters` shifted QR steps, stopping at the
/// first converged state.
pub open spec fn sp_eig_run<T: Element + Sqrt>(
    a: Seq<T>,
    iters: int,
    n: int,
    by: bool,
    mtol: T,
) -> Seq<T>
    decreases iters,
{
    if iters <= 0 {
        a
    } else {
        let prev = sp_eig_run(a, iters - 1, n, by, mtol);
        if sp_eig_conv(prev, n, by, mtol) {
            prev
        } else {
            sp_eig_step(prev, n, by)
        }
    }
}

/// A converged state never moves again.
pub proof fn lemma_eig_run_stable<T: Element + Sqrt>(
    a: Seq<T>,
    k0: int,
    k: int,
    n: int,
    by: bool,
    mtol: T,
)
    requires
        0 <= k0 <= k,
        sp_eig_conv(sp_eig_run(a, k0, n, by, mtol), n, by, mtol),
    ensures
        sp_eig_run(a, k, n, by, mtol) == sp_eig_run(a, k0, n, by, mtol),
    decreases k,
{
    if k > k0 {
        lemma_eig_run_stable(a, k0, k - 1, n, by, mtol);
    }
}

impl<T: Element + Sqrt> Array<T> {
    /// Decides the convergence test over the strictly-lower triangle.
    #[verifier::loop_isolation(false)]
    fn eig_converged(a: &Vec<T>, n: usize, by: bool, mtol: T) -> (r: bool)
        requires
            a@.len() == n * n,
            n * n <= usize::MAX,
        ensures
            r == sp_eig_conv(a@, n as int, by, mtol),
    {
        let z = T::zero();
        let mut row: usize = 1;
        while row < n
            invariant
                1 <= row <= n || (row == 1 && n == 0),
                forall|r0: int, c0: int|
                    1 <= r0 < row && 0 <= c0 < r0 ==> !mtol.lt_spec(
                        sp_abs(a@[#[trigger] sp_idx(by, r0, c0, (n as int, n as int))], T::zero_spec()),
                    ),
            decreases n - row,
        {
            let mut col: usize = 0;
            while col < row
                invariant
                    row < n,
                    col <= row,
                    forall|c0: int|
                        0 <= c0 < col ==> !mtol.lt_spec(
                            sp_abs(
                                a@[#[trigger] sp_idx(by, row as int, c0, (n as int, n as int))],
                                T::zero_spec(),
                            ),
                        ),
                decreases row - col,
            {
                let k = lidx(by, row, col, (n, n));
                if mtol.lt(Array::abs(a[k], z)) {
                    return false;
                }
                col = col + 1;
            }
            row = row + 1;
        }
        true
    }

    /// Real eigenvalue estimates of a square matrix by shifted QR
    /// iteration, with an optional iteration budget (defaulting to one
    /// hundred) and subdiagonal tolerance (defaulting to `10^-15`).  The
    /// diagonal of the final iterate comes back; for a matrix with
    /// complex eigenvalues the iteration need not settle and the numbers
    /// carry no meaning.
    #[verifier::loop_isolation(false)]
    #[verifier::rlimit(100)]
    #[verifier::spinoff_prover]
    pub fn eigen_values(
        ma: &Vec<T>,
        dim: (usize, usize),
        by_row: bool,
        max_iter: Option<usize>,
        max_tol: Option<T>,
    ) -> (res: Result<Vec<T>, ListError>)
        requires
            ma@.len() == dim.0 * dim.1,
            dim.0 * dim.1 <= usize::MAX,
        ensures
            res is Ok <==> dim.0 == dim.1,
            dim.0 != dim.1 ==> res == Err::<Vec<T>, ListError>(ListError::EigenMismatchedDim),
            dim.0 == dim.1 ==> {
                let n_iter = if max_iter is Some {
                    max_iter->0 as int
                } else {
                    100
                };
                let mtol = if max_tol is Some {
                    max_tol->0
                } else {
                    T::from_frac_spec(1, 15)
                };
                let fin = sp_eig_run(ma@, n_iter, dim.0 as int, by_row, mtol);
                &&& res is Ok
                &&& res->Ok_0@.len() == dim.0
                &&& forall|i: int|
                    0 <= i < dim.0 ==> res->Ok_0@[i] == fin[#[trigger] sp_idx(
                        by_row,
                        i,
                        i,
                        (dim.0 as int, dim.0 as int),
                    )]
            },
    {
        let (nr, nc) = dim;
        if nr != nc {
            return Err(ListError::EigenMismatchedDim);
        }
        let n = nr;
        let ghost nn = n as int;
        let len = ma.len();
        let mut mat_a: Vec<T> = Vec::new();
        let mut i: usize = 0;
        while i < len
            invariant
                i <= len,
                len == ma@.len(),
                mat_a@.len() == i,
                forall|j: int| 0 <= j < i ==> mat_a@[j] == ma@[j],
            decreases len - i,
        {
            mat_a.push(ma[i]);
            i = i + 1;
        }
        proof {
            assert(mat_a@ =~= ma@);
        }
        let n_iter: usize = if let Some(ni) = max_iter {
            ni
        } else {
            100
        };
        let mtol: T = if let Some(mt) = max_tol {
            mt
        } else {
            T::from_frac(1, 15)
        };
        let z = T::zero();
        let two = T::from_frac(2, 0);
        let four = T::from_frac(4, 0);
        let mut iter: usize = 0;
        let mut stopped = false;
        while iter < n_iter && !stopped
            invariant
                iter <= n_iter,
                mat_a@.len() == n * n,
                mat_a@ == sp_eig_run(ma@, iter as int, nn, by_row, mtol),
                stopped ==> sp_eig_conv(mat_a@, nn, by_row, mtol),
            decreases n_iter - iter, 1int - (if stopped { 1int } else { 0int }),
        {
            let ghost prev = mat_a@;
            if Array::eig_converged(&mat_a, n, by_row, mtol) {
                stopped = true;
                proof {
                    lemma_eig_run_stable(ma@, iter as int, iter + 1, nn, by_row, mtol);
                }
            } else {
                proof {
                    assert(!sp_eig_conv(prev, nn, by_row, mtol));
                    assert(n >= 2) by {
                        if n < 2 {
                            assert(sp_eig_conv(prev, nn, by_row, mtol));
                        }
                    }
                }
                let k11 = lidx(by_row, n - 2, n - 2, (n, n));
                let k12 = lidx(by_row, n - 2, n - 1, (n, n));
                let k21 = lidx(by_row, n - 1, n - 2, (n, n));
                let k22 = lidx(by_row, n - 1, n - 1, (n, n));
                let b11 = mat_a[k11];
                let b12 = mat_a[k12];
                let b21 = mat_a[k21];
                let b22 = mat_a[k22];
                let p2 = b11.sub(b22).powi(2).add(four.mul(b12).mul(b21));
                let lambda1 = z.add(b11.add(b22).add(p2.sqrt()).div(two));
                let lambda2 = z.add(b11.add(b22).sub(p2.sqrt()).div(two));
                let d1 = Array::abs(lambda1.sub(b22), z);
                let d2 = Array::abs(lambda2.sub(b22), z);
                let s = if d1.lt(d2) {
                    lambda1
                } else {
                    lambda2
                };
                proof {
                    assert(s == sp_eig_shift(prev, nn, by_row));
                }
                Array::eig_shift_diag(&mut mat_a, s, n, by_row, true);
                let ghost shifted = mat_a@;
                let qr_out = match Array::qr_householder(&mat_a, (n, n), by_row) {
                    Ok(out) => out,
                    Err(_) => {
                        proof {
                            assert(false);
                        }
                        return Err(ListError::EigenMismatchedDim);
                    },
                };
                let (q, mut r) = qr_out;
                proof {
                    assert forall|i0: int|
                        0 <= i0 < q@.len() implies 1 <= (#[trigger] q@[i0])@.len() <= nn by {
                        assert(q@[i0]@ == sp_qrh_vec(shifted, nn - 1 - i0, (nn, nn), by_row));
                    }
                }
                Array::ma_dot_q_factor(&mut r, (n, n), by_row, &q);
                proof {
                    lemma_qf_rev_matches_eig(
                        q@,
                        shifted,
                        sp_qrh_r_run(shifted, nn, (nn, nn), by_row),
                        q@.len() as int,
                        nn,
                        by_row,
                    );
                }
                mat_a = r;
                Array::eig_shift_diag(&mut mat_a, s, n, by_row, false);
                proof {
                    assert(mat_a@ == sp_eig_step(prev, nn, by_row));
                }
            }
            iter = iter + 1;
        }
        proof {
            if stopped {
                lemma_eig_run_stable(ma@, iter as int, n_iter as int, nn, by_row, mtol);
            }
        }
        let mut vals: Vec<T> = Vec::new();
        let mut i: usize = 0;
        while i < n
            invariant
                i <= n,
                vals@.len() == i,
                mat_a@.len() == n * n,
                mat_a@ == sp_eig_run(ma@, n_iter as int, nn, by_row, mtol),
                forall|j: int|
                    0 <= j < i ==> vals@[j] == mat_a@[#[trigger] sp_idx(by_row, j, j, (nn, nn))],
            decreases n - i,
        {
            let k = lidx(by_row, i, i, (n, n));
            vals.push(mat_a[k]);
            i = i + 1;
        }
        Ok(vals)
    }

    /// Shifts the diagonal by `s`, down or back up.
    #[verifier::loop_isolation(false)]
    fn eig_shift_diag(a: &mut Vec<T>, s: T, n: usize, by: bool, sub: bool)
        requires
            old(a)@.len() == n * n,
            n * n <= usize::MAX,
        ensures
            final(a)@ == sp_diag_shift(old(a)@, s, n as int, by, sub),
    {
        let ghost dims = (n as int, n as int);
        proof {
            crate::array::lemma_idx_inj(by, dims);
            crate::array::lemma_idx_bound_all(by, dims);
            crate::array::lemma_rc_of(by, dims);
        }
        let mut i: usize = 0;
        while i < n
            invariant
                i <= n,
                a@.len() == old(a)@.len(),
                forall|j: int|
                    0 <= j < i ==> a@[sp_idx(by, j, j, dims)] == (if sub {
                        old(a)@[sp_idx(by, j, j, dims)].sub_spec(s)
                    } else {
                        old(a)@[sp_idx(by, j, j, dims)].add_spec(s)
                    }),
                forall|r0: int, c0: int|
                    0 <= r0 < n && 0 <= c0 < n && !(r0 == c0 && r0 < i) ==> a@[sp_idx(
                        by,
                        r0,
                        c0,
                        dims,
                    )] == old(a)@[sp_idx(by, r0, c0, dims)],
            decreases n - i,
        {
            let k = lidx(by, i, i, (n, n));
            let v = if sub {
                a[k].sub(s)
            } else {
                a[k].add(s)
            };
            a.set(k, v);
            i = i + 1;
        }
        proof {
            assert(a@ =~= sp_diag_shift(old(a)@, s, n as int, by, sub));
        }
    }

    /// The eigenvalue entry point of the tagged type; it holds no
    /// behaviour of its own, and the free kernel `eigen_values` does the
    /// work.
    pub fn meig() {
    }
}

/// Replaying a reflector list that mirrors the shifted matrix's columns
/// in reverse order equals the direct column-order fold.
pub proof fn lemma_qf_rev_matches_eig<T: Element + Sqrt>(
    qs: Seq<Vec<T>>,
    shifted: Seq<T>,
    b: Seq<T>,
    cnt: int,
    n: int,
    by: bool,
)
    requires
        qs.len() == n,
        0 <= cnt <= n,
        forall|i0: int|
            0 <= i0 < n ==> (#[trigger] qs[i0])@ == sp_qrh_vec(shifted, n - 1 - i0, (n, n), by),
    ensures
        sp_qf_rev(qs, b, cnt, (n, n), !by) == sp_eig_apply(shifted, b, cnt, n, by),
    decreases cnt,
{
    if cnt > 0 {
        lemma_qf_rev_matches_eig(qs, shifted, b, cnt - 1, n, by);
    }
}

/// The subcolumn of column `c` strictly below the first subdiagonal row.
pub open spec fn sp_hess_subcol<T>(a: Seq<T>, c: int, n: int, by: bool) -> Seq<T> {
    Seq::new((n - c - 1) as nat, |i: int| a[sp_idx(by, c + 1 + i, c, (n, n))])
}

/// The reflector the Hessenberg reduction takes from column `c`: the
/// Householder vector of the strictly-subdiagonal part, or the zero
/// vector when it is numerically degenerate.
pub open spec fn sp_hess_refl<T: Element + Sqrt>(a: Seq<T>, c: int, n: int, by: bool) -> Seq<T> {
    let y = sp_hess_subcol(a, c, n, by);
    if crate::array::qr_method::sp_refl_degenerate(y) {
        Seq::new(y.len(), |i: int| T::zero_spec())
    } else {
        crate::array::qr_method::sp_reflector_vec(y)
    }
}

/// One Hessenberg step at column `c`: the similarity transform
/// `H A H`, applied as a left reflection followed by the same reflection
/// on the transposed view.
pub open spec fn sp_hess_step<T: Element + Sqrt>(a: Seq<T>, c: int, n: int, by: bool) -> Seq<T> {
    let v = sp_hess_refl(a, c, n, by);
    let left = sp_refl_apply(v, a, (n, n), by);
    sp_refl_apply(v, left, (n, n), !by)
}

/// The buffer after the first `steps` Hessenberg steps.
pub open spec fn sp_hess_run<T: Element + Sqrt>(a: Seq<T>, steps: int, n: int, by: bool) -> Seq<T>
    decreases steps,
{
    if steps <= 0 {
        a
    } else {
        sp_hess_step(sp_hess_run(a, steps - 1, n, by), steps - 1, n, by)
    }
}

/// The reflector produced at Hessenberg step `j`.
pub open spec fn sp_hess_vec<T: Element + Sqrt>(a: Seq<T>, j: int, n: int, by: bool) -> Seq<T> {
    sp_hess_refl(sp_hess_run(a, j, n, by), j, n, by)
}

impl<T: Element + Sqrt> Array<T> {
    /// Reduces a square matrix towards upper Hessenberg form in place by
    /// two-sided Householder reflections, and returns the reflectors in
    /// the order they were produced.
    #[verifier::loop_isolation(false)]
    #[verifier::rlimit(100)]
    #[verifier::spinoff_prover]
    pub fn hessenberg(ma: &mut Vec<T>, dim: (usize, usize), by_row: bool) -> (res: Result<
        Vec<Vec<T>>,
        ListError,
    >)
        requires
            old(ma)@.len() == dim.0 * dim.1,
            dim.0 * dim.1 <= usize::MAX,
        ensures
            res is Ok <==> dim.0 == dim.1,
            dim.0 != dim.1 ==> res == Err::<Vec<Vec<T>>, ListError>(ListError::NotSquareMat)
                && final(ma)@ == old(ma)@,
            dim.0 == dim.1 ==> {
                let n = dim.0 as int;
                let steps = if n >= 2 {
                    n - 2
                } else {
                    0
                };
                &&& res is Ok
                &&& final(ma)@ == sp_hess_run(old(ma)@, steps, n, by_row)
                &&& res->Ok_0@.len() == steps
                &&& forall|j: int|
                    0 <= j < steps ==> (#[trigger] res->Ok_0@[j])@ == sp_hess_vec(
                        old(ma)@,
                        j,
                        n,
                        by_row,
                    )
            },
    {
        let (nr, nc) = dim;
        if nr != nc {
            return Err(ListError::NotSquareMat);
        }
        let n = nr;
        let ghost nn = n as int;
        let mut q_factor: Vec<Vec<T>> = Vec::new();
        if n >= 2 {
            let z = T::zero();
            let mut c: usize = 0;
            while c < n - 2
                invariant
                    c <= n - 2,
                    n >= 2,
                    ma@.len() == n * n,
                    ma@ == sp_hess_run(old(ma)@, c as int, nn, by_row),
                    q_factor@.len() == c,
                    forall|j: int|
                        0 <= j < c ==> (#[trigger] q_factor@[j])@ == sp_hess_vec(
                            old(ma)@,
                            j,
                            nn,
                            by_row,
                        ),
                decreases n - 2 - c,
            {
                let ghost a_pre = ma@;
                let sub_len = n - c - 1;
                let mut refl: Vec<T> = Vec::new();
                let mut v1: Vec<T> = Vec::new();
                let mut i2: usize = 0;
                proof {
                    crate::array::lemma_idx_bound_all(by_row, (nn, nn));
                }
                while i2 < sub_len
                    invariant
                        i2 <= sub_len,
                        c + 1 + sub_len <= n,
                        refl@.len() == i2,
                        v1@.len() == i2,
                        forall|j: int| 0 <= j < i2 ==> refl@[j] == T::zero_spec(),
                        forall|j: int|
                            0 <= j < i2 ==> v1@[j] == ma@[sp_idx(
                                by_row,
                                c + 1 + j,
                                c as int,
                                (nn, nn),
                            )],
                    decreases sub_len - i2,
                {
                    refl.push(z);
                    let kv = lidx(by_row, c + 1 + i2, c, (n, n));
                    v1.push(ma[kv]);
                    i2 = i2 + 1;
                }
                proof {
                    assert(v1@ =~= sp_hess_subcol(ma@, c as int, nn, by_row));
                }
                match Array::reflector(&v1, &mut refl) {
                    Ok(()) => {
                        proof {
                            assert(refl@ == sp_hess_refl(a_pre, c as int, nn, by_row));
                        }
                    },
                    Err(_) => {
                        proof {
                            assert(refl@ =~= sp_hess_refl(a_pre, c as int, nn, by_row));
                        }
                    },
                }
                Array::reflector_mat_dot_mat(&refl, ma, (n, n), by_row);
                Array::reflector_mat_dot_mat(&refl, ma, (n, n), !by_row);
                q_factor.push(refl);
                proof {
                    assert(ma@ == sp_hess_step(a_pre, c as int, nn, by_row));
                    assert(ma@ == sp_hess_run(old(ma)@, c + 1, nn, by_row));
                }
                c = c + 1;
            }
        }
        Ok(q_factor)
    }
}

} // verus!
