//! QR factorisations and what they feed on: vector norms, Householder
//! reflectors stored implicitly, their application to a trailing
//! submatrix, and the solvers that run through an orthonormal factor.

use vstd::prelude::*;

use crate::array::element::Element;
use crate::array::lemma_idx_bound_all;
use crate::array::lemma_idx_inj;
use crate::array::lemma_rc_of;
use crate::array::lidx;
use crate::array::matrix_operations::Sqrt;
use crate::array::sp_idx;
use crate::array::sp_rc_of;
use crate::array::Array;
use crate::array::ListError;

verus! {

/// Fold of squares of the first `k` entries, seeded with the first square.
pub open spec fn sp_sumsq_acc<T: Element>(v: Seq<T>, k: int) -> T
    decreases k,
{
    if k <= 1 {
        v[0].mul_spec(v[0])
    } else {
        sp_sumsq_acc(v, k - 1).add_spec(v[k - 1].mul_spec(v[k - 1]))
    }
}

/// What `norm_2` returns: the square root of the accumulated squares.
pub open spec fn sp_norm2<T: Element + Sqrt>(v: Seq<T>) -> T {
    sp_sumsq_acc(v, v.len() as int).sqrt_spec()
}

/// Fold of squared differences over `i < k`, from zero.
pub open spec fn sp_dist2_acc<T: Element + Sqrt>(v1: Seq<T>, v2: Seq<T>, k: int) -> T
    decreases k,
{
    if k <= 0 {
        T::zero_spec()
    } else {
        sp_dist2_acc(v1, v2, k - 1).add_spec(v1[k - 1].sub_spec(v2[k - 1]).powi_spec(2))
    }
}

/// The sign factor a reflector takes from the leading entry of `y`.
pub open spec fn sp_refl_sign<T: Element>(y: Seq<T>) -> T {
    if y[0].lt_spec(T::zero_spec()) {
        T::from_frac_spec(-1, 0)
    } else {
        T::from_frac_spec(1, 0)
    }
}

/// The norm of the unnormalised reflector: the stabilised
/// `sqrt(2 * |y| * (|y| + |y[0]|))` formula.
pub open spec fn sp_refl_wnorm<T: Element + Sqrt>(y: Seq<T>) -> T {
    let y_norm2 = sp_norm2(y);
    let sign = sp_refl_sign(y);
    let y1_abs = sign.mul_spec(y[0]);
    T::from_frac_spec(2, 0).mul_spec(y_norm2).mul_spec(y_norm2.add_spec(y1_abs)).sqrt_spec()
}

/// A reflector is degenerate when its norm falls below `10^-20`.
pub open spec fn sp_refl_degenerate<T: Element + Sqrt>(y: Seq<T>) -> bool {
    sp_refl_wnorm(y).lt_spec(T::from_frac_spec(1, 20))
}

/// The normalised Householder reflector of `y`.
pub open spec fn sp_reflector_vec<T: Element + Sqrt>(y: Seq<T>) -> Seq<T> {
    let w = sp_refl_wnorm(y);
    Seq::new(
        y.len(),
        |i: int|
            if i == 0 {
                y[0].add_spec(sp_refl_sign(y).mul_spec(sp_norm2(y))).div_spec(w)
            } else {
                y[i].div_spec(w)
            },
    )
}

/// Fold of `v1[i] * a[k+i, c]` over the trailing rows of column `c`.
pub open spec fn sp_hcol_sum<T: Element>(
    v1: Seq<T>,
    a: Seq<T>,
    c: int,
    k: int,
    cnt: int,
    dim: (int, int),
    by_row: bool,
) -> T
    decreases cnt,
{
    if cnt <= 0 {
        T::zero_spec()
    } else {
        sp_hcol_sum(v1, a, c, k, cnt - 1, dim, by_row).add_spec(
            v1[cnt - 1].mul_spec(a[sp_idx(by_row, k + cnt - 1, c, dim)]),
        )
    }
}

/// The buffer after the reflector `v1` acts on the trailing submatrix:
/// with `k = dim.0 - v1.len()`, every entry at row and column `k` or
/// later loses twice its column's reflector weight times its reflector
/// entry, and rows and columns before `k` are left untouched.
pub open spec fn sp_refl_apply<T: Element>(
    v1: Seq<T>,
    a: Seq<T>,
    dim: (int, int),
    by_row: bool,
) -> Seq<T> {
    let k = dim.0 - v1.len();
    Seq::new(
        a.len(),
        |t: int|
            {
                let rc = sp_rc_of(by_row, t, dim);
                if rc.0 >= k && rc.1 >= k {
                    let sum = sp_hcol_sum(v1, a, rc.1, k, v1.len() as int, dim, by_row);
                    a[t].sub_spec(
                        T::from_frac_spec(2, 0).mul_spec(sum).mul_spec(v1[rc.0 - k]),
                    )
                } else {
                    a[t]
                }
            },
    )
}

impl<T: Element + Sqrt> Array<T> {
    /// Euclidean norm of a nonempty vector.
    #[verifier::loop_isolation(false)]
    pub fn norm_2(v1: &Vec<T>) -> (r: T)
        requires
            v1@.len() >= 1,
        ensures
            r == sp_norm2(v1@),
    {
        let mut d = v1[0].mul(v1[0]);
        let mut i: usize = 1;
        while i < v1.len()
            invariant
                1 <= i <= v1@.len(),
                d == sp_sumsq_acc(v1@, i as int),
            decreases v1@.len() - i,
        {
            d = d.add(v1[i].mul(v1[i]));
            i = i + 1;
        }
        d.sqrt()
    }

    /// Euclidean distance between two vectors of equal length.
    #[verifier::loop_isolation(false)]
    pub fn dist_n2_vec_v1_v2(v1: &Vec<T>, v2: &Vec<T>) -> (res: Result<T, ListError>)
        ensures
            res is Ok <==> v1@.len() == v2@.len(),
            v1@.len() == v2@.len() ==> res == Ok::<T, ListError>(
                sp_dist2_acc(v1@, v2@, v1@.len() as int).sqrt_spec(),
            ),
            v1@.len() != v2@.len() ==> res == Err::<T, ListError>(ListError::DifferentLength1D),
    {
        let mut sum = T::zero();
        let length = v1.len();
        if length != v2.len() {
            return Err(ListError::DifferentLength1D);
        }
        let mut i: usize = 0;
        while i < length
            invariant
                i <= length,
                sum == sp_dist2_acc(v1@, v2@, i as int),
            decreases length - i,
        {
            let val = v1[i].sub(v2[i]);
            sum = sum.add(val.powi(2));
            i = i + 1;
        }
        Ok(sum.sqrt())
    }

    /// Builds the Householder reflector of `y` into `reflector`, or
    /// reports a numerically degenerate one, leaving the output alone.
    #[verifier::loop_isolation(false)]
    pub fn reflector(y: &Vec<T>, reflector: &mut Vec<T>) -> (res: Result<(), ListError>)
        requires
            y@.len() >= 1,
            old(reflector)@.len() == y@.len(),
        ensures
            res is Ok <==> !sp_refl_degenerate(y@),
            res is Err ==> final(reflector)@ == old(reflector)@ && res == Err::<(), ListError>(
                ListError::ReflectorZeroLength,
            ),
            res is Ok ==> final(reflector)@ == sp_reflector_vec(y@),
    {
        let y_norm2 = Array::norm_2(y);
        let z = T::zero();
        let sign_y1 = if y[0].lt(z) {
            T::from_frac(-1, 0)
        } else {
            T::from_frac(1, 0)
        };
        let y1_abs = sign_y1.mul(y[0]);
        let w_norm2 = T::from_frac(2, 0).mul(y_norm2).mul(y_norm2.add(y1_abs));
        let w_norm2 = w_norm2.sqrt();
        if w_norm2.lt(T::from_frac(1, 20)) {
            return Err(ListError::ReflectorZeroLength);
        }
        let v0 = y[0].add(sign_y1.mul(y_norm2)).div(w_norm2);
        reflector.set(0, v0);
        let mut i: usize = 1;
        while i < y.len()
            invariant
                1 <= i <= y@.len(),
                reflector@.len() == y@.len(),
                forall|j: int| 0 <= j < i ==> reflector@[j] == sp_reflector_vec(y@)[j],
                forall|j: int| i <= j < y@.len() ==> reflector@[j] == old(reflector)@[j],
            decreases y@.len() - i,
        {
            let v = y[i].div(w_norm2);
            reflector.set(i, v);
            i = i + 1;
        }
        proof {
            assert(reflector@ =~= sp_reflector_vec(y@));
        }
        Ok(())
    }

    /// Applies the reflection `I - 2 v v^T` to the trailing submatrix of
    /// `ma` in place, touching only the rows and columns from index
    /// `dim.0 - v1.len()` onward.
    #[verifier::loop_isolation(false)]
    #[verifier::rlimit(100)]
    pub fn reflector_mat_dot_mat(v1: &Vec<T>, ma: &mut Vec<T>, dim: (usize, usize), by_row: bool)
        requires
            old(ma)@.len() == dim.0 * dim.1,
            dim.0 * dim.1 <= usize::MAX,
            1 <= v1@.len() <= dim.0,
        ensures
            final(ma)@ == sp_refl_apply(v1@, old(ma)@, (dim.0 as int, dim.1 as int), by_row),
    {
        let ghost dims = (dim.0 as int, dim.1 as int);
        proof {
            lemma_idx_inj(by_row, dims);
            lemma_idx_bound_all(by_row, dims);
            lemma_rc_of(by_row, dims);
        }
        let (nr, nc) = dim;
        let k: usize = nr - v1.len();
        let two = T::from_frac(2, 0);
        let mut c: usize = k;
        while c < nc
            invariant
                k <= c,
                c <= nc || c == k,
                ma@.len() == old(ma)@.len(),
                forall|r0: int, c0: int|
                    0 <= r0 < dim.0 && 0 <= c0 < dim.1 && !(k <= c0 < c && r0 >= k) ==> ma@[sp_idx(
                        by_row,
                        r0,
                        c0,
                        dims,
                    )] == old(ma)@[sp_idx(by_row, r0, c0, dims)],
                forall|r0: int, c0: int|
                    k <= c0 < c && k <= r0 < dim.0 ==> ma@[sp_idx(by_row, r0, c0, dims)] == old(
                        ma,
                    )@[sp_idx(by_row, r0, c0, dims)].sub_spec(
                        T::from_frac_spec(2, 0).mul_spec(
                            sp_hcol_sum(v1@, old(ma)@, c0, k as int, v1@.len() as int, dims, by_row),
                        ).mul_spec(v1@[r0 - k]),
                    ),
            decreases nc - c,
        {
            let mut sum = T::zero();
            let mut r: usize = k;
            while r < nr
                invariant
                    k <= r <= nr,
                    sum == sp_hcol_sum(v1@, old(ma)@, c as int, k as int, (r - k) as int, dims, by_row),
                decreases nr - r,
            {
                let km = lidx(by_row, r, c, dim);
                sum = sum.add(v1[r - k].mul(ma[km]));
                r = r + 1;
            }
            let mut r: usize = k;
            while r < nr
                invariant
                    k <= r <= nr,
                    c < nc,
                    ma@.len() == old(ma)@.len(),
                    sum == sp_hcol_sum(v1@, old(ma)@, c as int, k as int, v1@.len() as int, dims, by_row),
                    forall|r0: int, c0: int|
                        0 <= r0 < dim.0 && 0 <= c0 < dim.1 && !(k <= c0 < c && r0 >= k) && !(c0
                            == c && k <= r0 < r) ==> ma@[sp_idx(by_row, r0, c0, dims)] == old(
                            ma,
                        )@[sp_idx(by_row, r0, c0, dims)],
                    forall|r0: int, c0: int|
                        k <= c0 < c && k <= r0 < dim.0 ==> ma@[sp_idx(by_row, r0, c0, dims)]
                            == old(ma)@[sp_idx(by_row, r0, c0, dims)].sub_spec(
                            T::from_frac_spec(2, 0).mul_spec(
                                sp_hcol_sum(v1@, old(ma)@, c0, k as int, v1@.len() as int, dims, by_row),
                            ).mul_spec(v1@[r0 - k]),
                        ),
                    forall|r0: int|
                        k <= r0 < r ==> ma@[sp_idx(by_row, r0, c as int, dims)] == old(ma)@[sp_idx(
                            by_row,
                            r0,
                            c as int,
                            dims,
                        )].sub_spec(
                            T::from_frac_spec(2, 0).mul_spec(
                                sp_hcol_sum(v1@, old(ma)@, c as int, k as int, v1@.len() as int, dims, by_row),
                            ).mul_spec(v1@[r0 - k]),
                        ),
                decreases nr - r,
            {
                let km = lidx(by_row, r, c, dim);
                let v = ma[km].sub(two.mul(sum).mul(v1[r - k]));
                ma.set(km, v);
                r = r + 1;
            }
            c = c + 1;
        }
        proof {
            assert(ma@ =~= sp_refl_apply(v1@, old(ma)@, dims, by_row));
        }
    }
}

/// The subcolumn of column `c` from the diagonal down.
pub open spec fn sp_subcol<T>(a: Seq<T>, c: int, dim: (int, int), by_row: bool) -> Seq<T> {
    Seq::new((dim.0 - c) as nat, |i: int| a[sp_idx(by_row, c + i, c, dim)])
}

/// The reflector column `c` contributes: the Householder vector of its
/// trailing subcolumn, or the zero vector when that reflector is
/// numerically degenerate.
pub open spec fn sp_qrh_refl<T: Element + Sqrt>(
    a: Seq<T>,
    c: int,
    dim: (int, int),
    by_row: bool,
) -> Seq<T> {
    let y = sp_subcol(a, c, dim, by_row);
    if sp_refl_degenerate(y) {
        Seq::new(y.len(), |i: int| T::zero_spec())
    } else {
        sp_reflector_vec(y)
    }
}

/// The working buffer after the first `c` columns of the Householder
/// factorisation are reduced; for `c = dim.1` this is the R factor.
pub open spec fn sp_qrh_r_run<T: Element + Sqrt>(
    a: Seq<T>,
    c: int,
    dim: (int, int),
    by_row: bool,
) -> Seq<T>
    decreases c,
{
    if c <= 0 {
        a
    } else {
        let prev = sp_qrh_r_run(a, c - 1, dim, by_row);
        sp_refl_apply(sp_qrh_refl(prev, c - 1, dim, by_row), prev, dim, by_row)
    }
}

/// The reflector produced while reducing column `j`.
pub open spec fn sp_qrh_vec<T: Element + Sqrt>(
    a: Seq<T>,
    j: int,
    dim: (int, int),
    by_row: bool,
) -> Seq<T> {
    sp_qrh_refl(sp_qrh_r_run(a, j, dim, by_row), j, dim, by_row)
}

/// The buffer after the first `cnt` stored reflectors act on it in list
/// order.
pub open spec fn sp_qf_fwd<T: Element>(
    qs: Seq<Vec<T>>,
    a: Seq<T>,
    cnt: int,
    dim: (int, int),
    by_row: bool,
) -> Seq<T>
    decreases cnt,
{
    if cnt <= 0 {
        a
    } else {
        sp_refl_apply(qs[cnt - 1]@, sp_qf_fwd(qs, a, cnt - 1, dim, by_row), dim, by_row)
    }
}

/// The buffer after the last `cnt` stored reflectors act on it newest
/// first.
pub open spec fn sp_qf_rev<T: Element>(
    qs: Seq<Vec<T>>,
    a: Seq<T>,
    cnt: int,
    dim: (int, int),
    by_row: bool,
) -> Seq<T>
    decreases cnt,
{
    if cnt <= 0 {
        a
    } else {
        sp_refl_apply(qs[qs.len() - cnt]@, sp_qf_rev(qs, a, cnt - 1, dim, by_row), dim, by_row)
    }
}

/// The `n x n` identity matrix, row-major.
pub open spec fn sp_identity<T: Element>(n: int) -> Seq<T> {
    Seq::new(
        (n * n) as nat,
        |t: int|
            {
                let rc = sp_rc_of(true, t, (n, n));
                if rc.0 == rc.1 {
                    T::one_spec()
                } else {
                    T::zero_spec()
                }
            },
    )
}

impl<T: Element + Sqrt> Array<T> {
    /// Householder QR of a tall matrix: reduces column after column in a
    /// working copy, collecting one reflector per column, and returns the
    /// reflector list (last computed first) together with the fully
    /// reduced buffer, the R factor.  A numerically degenerate column
    /// contributes the zero reflector — an identity transform — and the
    /// factorisation never aborts.  In exact arithmetic, replaying the
    /// returned reflectors against R restores the input; over rounding
    /// arithmetic that reconstruction holds within a tolerance, a bound
    /// no exact contract can state, which the test suite checks at run
    /// time.
    #[verifier::loop_isolation(false)]
    pub fn qr_householder(ma: &Vec<T>, dim: (usize, usize), by_row: bool) -> (res: Result<
        (Vec<Vec<T>>, Vec<T>),
        ListError,
    >)
        requires
            ma@.len() == dim.0 * dim.1,
            dim.0 * dim.1 <= usize::MAX,
            dim.1 <= dim.0,
        ensures
            res is Ok,
            res->Ok_0.1@.len() == ma@.len(),
            res->Ok_0.1@ == sp_qrh_r_run(
                ma@,
                dim.1 as int,
                (dim.0 as int, dim.1 as int),
                by_row,
            ),
            res->Ok_0.0@.len() == dim.1,
            forall|i: int|
                0 <= i < dim.1 ==> (#[trigger] res->Ok_0.0@[i])@ == sp_qrh_vec(
                    ma@,
                    dim.1 - 1 - i,
                    (dim.0 as int, dim.1 as int),
                    by_row,
                ),
    {
        let ghost dims = (dim.0 as int, dim.1 as int);
        proof {
            lemma_idx_bound_all(by_row, dims);
        }
        let (nr, nc) = dim;
        let len = ma.len();
        let mut a_mat: Vec<T> = Vec::new();
        let mut i: usize = 0;
        while i < len
            invariant
                i <= len,
                len == ma@.len(),
                a_mat@.len() == i,
                forall|j: int| 0 <= j < i ==> a_mat@[j] == ma@[j],
            decreases len - i,
        {
            a_mat.push(ma[i]);
            i = i + 1;
        }
        proof {
            assert(a_mat@ =~= ma@);
        }
        let mut q_factor: Vec<Vec<T>> = Vec::new();
        let z = T::zero();
        let mut c: usize = 0;
        while c < nc
            invariant
                c <= nc,
                a_mat@.len() == ma@.len(),
                a_mat@ == sp_qrh_r_run(ma@, c as int, dims, by_row),
                q_factor@.len() == c,
                forall|j: int|
                    0 <= j < c ==> (#[trigger] q_factor@[j])@ == sp_qrh_vec(ma@, j, dims, by_row),
            decreases nc - c,
        {
            let sub_len = nr - c;
            let mut refl: Vec<T> = Vec::new();
            let mut v1: Vec<T> = Vec::new();
            let mut i2: usize = 0;
            while i2 < sub_len
                invariant
                    i2 <= sub_len,
                    refl@.len() == i2,
                    v1@.len() == i2,
                    forall|j: int| 0 <= j < i2 ==> refl@[j] == T::zero_spec(),
                    forall|j: int|
                        0 <= j < i2 ==> v1@[j] == a_mat@[sp_idx(by_row, c + j, c as int, dims)],
                decreases sub_len - i2,
            {
                refl.push(z);
                let kv = lidx(by_row, c + i2, c, dim);
                v1.push(a_mat[kv]);
                i2 = i2 + 1;
            }
            proof {
                assert(v1@ =~= sp_subcol(a_mat@, c as int, dims, by_row));
            }
            match Array::reflector(&v1, &mut refl) {
                Ok(()) => {
                    proof {
                        assert(refl@ == sp_qrh_refl(a_mat@, c as int, dims, by_row));
                    }
                },
                Err(_) => {
                    proof {
                        assert(refl@ =~= sp_qrh_refl(a_mat@, c as int, dims, by_row));
                    }
                },
            }
            let ghost a_pre = a_mat@;
            Array::reflector_mat_dot_mat(&refl, &mut a_mat, dim, by_row);
            q_factor.push(refl);
            proof {
                assert(a_mat@ == sp_qrh_r_run(ma@, c + 1, dims, by_row));
            }
            c = c + 1;
        }
        let mut rev: Vec<Vec<T>> = Vec::new();
        let ghost full = q_factor@;
        proof {
            assert(forall|j: int|
                0 <= j < nc ==> (#[trigger] full[j])@ == sp_qrh_vec(ma@, j, dims, by_row));
        }
        loop
            invariant
                rev@.len() + q_factor@.len() == nc,
                forall|j: int| 0 <= j < q_factor@.len() ==> q_factor@[j] == full[j],
                forall|j: int|
                    0 <= j < rev@.len() ==> (#[trigger] rev@[j])@ == sp_qrh_vec(
                        ma@,
                        nc - 1 - j,
                        dims,
                        by_row,
                    ),
            decreases q_factor@.len(),
        {
            match q_factor.pop() {
                Some(v) => {
                    proof {
                        assert(v == full[q_factor@.len() as int]);
                        assert(v@ == sp_qrh_vec(ma@, q_factor@.len() as int, dims, by_row));
                    }
                    rev.push(v);
                },
                None => {
                    break ;
                },
            }
        }
        Ok((rev, a_mat))
    }

    /// Replays a stored reflector list against `ma`: in list order, or
    /// newest first when `transpose` asks for the transposed action.
    #[verifier::loop_isolation(false)]
    pub fn q_factor_dot_ma(
        q_factor: &Vec<Vec<T>>,
        ma: &mut Vec<T>,
        dim: (usize, usize),
        by_row: bool,
        transpose: bool,
    )
        requires
            old(ma)@.len() == dim.0 * dim.1,
            dim.0 * dim.1 <= usize::MAX,
            forall|i: int|
                0 <= i < q_factor@.len() ==> 1 <= (#[trigger] q_factor@[i])@.len() <= dim.0,
        ensures
            final(ma)@.len() == old(ma)@.len(),
            final(ma)@ == if transpose {
                sp_qf_rev(
                    q_factor@,
                    old(ma)@,
                    q_factor@.len() as int,
                    (dim.0 as int, dim.1 as int),
                    by_row,
                )
            } else {
                sp_qf_fwd(
                    q_factor@,
                    old(ma)@,
                    q_factor@.len() as int,
                    (dim.0 as int, dim.1 as int),
                    by_row,
                )
            },
    {
        let ghost dims = (dim.0 as int, dim.1 as int);
        let n = q_factor.len();
        if transpose {
            let mut done: usize = 0;
            while done < n
                invariant
                    done <= n,
                    n == q_factor@.len(),
                    ma@.len() == old(ma)@.len(),
                    ma@ == sp_qf_rev(q_factor@, old(ma)@, done as int, dims, by_row),
                decreases n - done,
            {
                let q = &q_factor[n - 1 - done];
                Array::reflector_mat_dot_mat(q, ma, dim, by_row);
                done = done + 1;
            }
        } else {
            let mut done: usize = 0;
            while done < n
                invariant
                    done <= n,
                    n == q_factor@.len(),
                    ma@.len() == old(ma)@.len(),
                    ma@ == sp_qf_fwd(q_factor@, old(ma)@, done as int, dims, by_row),
                decreases n - done,
            {
                let q = &q_factor[done];
                Array::reflector_mat_dot_mat(q, ma, dim, by_row);
                done = done + 1;
            }
        }
    }

    /// The reflector-based right-multiply: replays the stored reflector
    /// list, newest first, against the transposed view of `ma`; each
    /// reflection touches only its trailing block.
    pub fn ma_dot_q_factor(
        ma: &mut Vec<T>,
        dim: (usize, usize),
        by_row: bool,
        q_factor: &Vec<Vec<T>>,
    )
        requires
            old(ma)@.len() == dim.0 * dim.1,
            dim.0 * dim.1 <= usize::MAX,
            forall|i: int|
                0 <= i < q_factor@.len() ==> 1 <= (#[trigger] q_factor@[i])@.len() <= dim.1,
        ensures
            final(ma)@.len() == old(ma)@.len(),
            final(ma)@ == sp_qf_rev(
                q_factor@,
                old(ma)@,
                q_factor@.len() as int,
                (dim.1 as int, dim.0 as int),
                !by_row,
            ),
    {
        let (nr, nc) = dim;
        let dimt = (nc, nr);
        let by_row_t = !by_row;
        Array::q_factor_dot_ma(q_factor, ma, dimt, by_row_t, true);
    }

    /// Materialises the orthogonal factor from a reflector list by
    /// replaying it against the identity.
    #[verifier::loop_isolation(false)]
    pub fn get_qm(q_factor: &Vec<Vec<T>>, n: usize) -> (qm: Vec<T>)
        requires
            n * n <= usize::MAX,
            forall|i: int|
                0 <= i < q_factor@.len() ==> 1 <= (#[trigger] q_factor@[i])@.len() <= n,
        ensures
            qm@ == sp_qf_fwd(
                q_factor@,
                sp_identity::<T>(n as int),
                q_factor@.len() as int,
                (n as int, n as int),
                true,
            ),
    {
        let ghost dims = (n as int, n as int);
        proof {
            lemma_rc_of(true, dims);
            lemma_idx_bound_all(true, dims);
        }
        let total = n * n;
        let mut qm: Vec<T> = Vec::new();
        let mut r: usize = 0;
        while r < n
            invariant
                r <= n,
                qm@.len() == r * n,
                r * n <= n * n,
                forall|j: int| 0 <= j < r * n ==> qm@[j] == sp_identity::<T>(n as int)[j],
            decreases n - r,
        {
            let mut c: usize = 0;
            while c < n
                invariant
                    r < n,
                    c <= n,
                    qm@.len() == r * n + c,
                    r * n + c <= n * n,
                    forall|j: int| 0 <= j < r * n + c ==> qm@[j] == sp_identity::<T>(n as int)[j],
                decreases n - c,
            {
                let k = lidx(true, r, c, (n, n));
                proof {
                    assert(k == r * n + c);
                }
                if r == c {
                    qm.push(T::one());
                } else {
                    qm.push(T::zero());
                }
                c = c + 1;
            }
            proof {
                assert((r + 1) * n == r * n + n) by (nonlinear_arith);
            }
            r = r + 1;
        }
        proof {
            assert(qm@ =~= sp_identity::<T>(n as int));
        }
        Array::q_factor_dot_ma(q_factor, &mut qm, (n, n), true, false);
        qm
    }

    /// Solves `Q x = b` for an orthonormal square `Q` by applying its
    /// transpose.
    pub fn q_solve(qm: &Vec<T>, b: &Vec<T>, res: &mut Vec<T>, dimq: (usize, usize), by_row: bool)
        requires
            qm@.len() == dimq.0 * dimq.1,
            dimq.0 * dimq.1 <= usize::MAX,
            b@.len() == dimq.0,
            old(res)@.len() >= dimq.1,
        ensures
            final(res)@.len() == old(res)@.len(),
            forall|j: int| dimq.1 <= j < old(res)@.len() ==> final(res)@[j] == old(res)@[j],
            forall|r: int|
                0 <= r < dimq.1 ==> final(res)@[r] == crate::array::matrix_operations::sp_mv_sum(
                    qm@,
                    b@,
                    r,
                    dimq.0 as int,
                    (dimq.1 as int, dimq.0 as int),
                    !by_row,
                ),
    {
        let (nr, nc) = dimq;
        let dimqt = (nc, nr);
        let by_row_t = !by_row;
        proof {
            assert(dimq.1 * dimq.0 == dimq.0 * dimq.1) by (nonlinear_arith);
        }
        Array::mat_a_dot_vec_b(qm, b, res, dimqt, by_row_t);
    }

    /// Solves `Q R x = b`: applies the transposed orthonormal factor and
    /// back-substitutes through `R`.  A non-square `Q`, a non-square `R`,
    /// and an `R` too narrow to hold the projected right-hand side are
    /// each refused with nothing written.
    pub fn qr_solve(
        res: &mut Vec<T>,
        qm: &Vec<T>,
        rm: &Vec<T>,
        b: &Vec<T>,
        dimq: (usize, usize),
        dimr: (usize, usize),
        by_row_q: bool,
        by_row_r: bool,
    ) -> (r: Result<(), ListError>)
        requires
            qm@.len() == dimq.0 * dimq.1,
            dimq.0 * dimq.1 <= usize::MAX,
            rm@.len() == dimr.0 * dimr.1,
            dimr.0 * dimr.1 <= usize::MAX,
            b@.len() == dimq.0,
            dimr.0 == dimr.1 ==> old(res)@.len() >= dimr.0,
        ensures
            r is Ok <==> dimq.0 == dimq.1 && dimq.1 <= dimr.1 && dimr.0 == dimr.1,
            r is Err ==> final(res)@ == old(res)@ && r == Err::<(), ListError>(
                ListError::NotSquareMat,
            ),
            r is Ok ==> {
                let y = Seq::new(
                    dimr.1 as nat,
                    |i: int|
                        if i < dimq.1 {
                            crate::array::matrix_operations::sp_mv_sum(
                                qm@,
                                b@,
                                i,
                                dimq.0 as int,
                                (dimq.1 as int, dimq.0 as int),
                                !by_row_q,
                            )
                        } else {
                            T::zero_spec()
                        },
                );
                final(res)@.len() == old(res)@.len() && (forall|j: int|
                    0 <= j < dimr.0 ==> final(res)@[j]
                        == crate::array::inv_method::sp_u_solve(
                        rm@,
                        y,
                        (dimr.0 as int, dimr.1 as int),
                        by_row_r,
                        dimr.0 as int,
                    )[j]) && (forall|j: int|
                    dimr.0 <= j < old(res)@.len() ==> final(res)@[j] == old(res)@[j])
            },
    {
        let (nr_q, nc_q) = dimq;
        if nr_q != nc_q {
            return Err(ListError::NotSquareMat);
        }
        if dimr.1 < dimq.1 {
            return Err(ListError::NotSquareMat);
        }
        let mut y: Vec<T> = Vec::new();
        let mut i: usize = 0;
        while i < dimr.1
            invariant
                i <= dimr.1,
                y@.len() == i,
                forall|j: int| 0 <= j < i ==> y@[j] == T::zero_spec(),
            decreases dimr.1 - i,
        {
            y.push(T::zero());
            i = i + 1;
        }
        Array::q_solve(qm, b, &mut y, dimq, by_row_q);
        let out = Array::u_tri_solve(rm, &y, res, dimr, by_row_r);
        proof {
            assert(y@ =~= Seq::new(
                dimr.1 as nat,
                |i: int|
                    if i < dimq.1 {
                        crate::array::matrix_operations::sp_mv_sum(
                            qm@,
                            b@,
                            i,
                            dimq.0 as int,
                            (dimq.1 as int, dimq.0 as int),
                            !by_row_q,
                        )
                    } else {
                        T::zero_spec()
                    },
            ));
        }
        out
    }
}

/// Fold of `qm[i, c2] * a[i, c]` over `i < cnt`: one projection
/// coefficient of the classical Gram-Schmidt pass.
pub open spec fn sp_gs_dot<T: Element>(
    qm: Seq<T>,
    a: Seq<T>,
    c2: int,
    c: int,
    cnt: int,
    dimq: (int, int),
    dima: (int, int),
    by: bool,
) -> T
    decreases cnt,
{
    if cnt <= 0 {
        T::zero_spec()
    } else {
        sp_gs_dot(qm, a, c2, c, cnt - 1, dimq, dima, by).add_spec(
            qm[sp_idx(by, cnt - 1, c2, dimq)].mul_spec(a[sp_idx(by, cnt - 1, c, dima)]),
        )
    }
}

/// The R buffer after column `c` above the diagonal receives its
/// projection coefficients.
pub open spec fn sp_gs_rm_dots<T: Element>(
    qm: Seq<T>,
    rm: Seq<T>,
    a: Seq<T>,
    c: int,
    dimq: (int, int),
    dimr: (int, int),
    dima: (int, int),
    by: bool,
) -> Seq<T> {
    Seq::new(
        rm.len(),
        |t: int|
            {
                let rc = sp_rc_of(by, t, dimr);
                if rc.1 == c && 0 <= rc.0 < c {
                    sp_gs_dot(qm, a, rc.0, c, dimq.0, dimq, dima, by)
                } else {
                    rm[t]
                }
            },
    )
}

/// Entry `i` of column `c` after the first `cnt` projections are
/// subtracted from the copied source column.
pub open spec fn sp_gs_colval<T: Element>(
    qm: Seq<T>,
    a: Seq<T>,
    rm1: Seq<T>,
    c: int,
    i: int,
    cnt: int,
    dimq: (int, int),
    dimr: (int, int),
    dima: (int, int),
    by: bool,
) -> T
    decreases cnt,
{
    if cnt <= 0 {
        a[sp_idx(by, i, c, dima)]
    } else {
        sp_gs_colval(qm, a, rm1, c, i, cnt - 1, dimq, dimr, dima, by).sub_spec(
            rm1[sp_idx(by, cnt - 1, c, dimr)].mul_spec(qm[sp_idx(by, i, cnt - 1, dimq)]),
        )
    }
}

/// Fold of squares of the fully projected column entries over `i < cnt`.
pub open spec fn sp_gs_sumsq<T: Element>(
    qm: Seq<T>,
    a: Seq<T>,
    rm1: Seq<T>,
    c: int,
    cnt: int,
    dimq: (int, int),
    dimr: (int, int),
    dima: (int, int),
    by: bool,
) -> T
    decreases cnt,
{
    if cnt <= 0 {
        T::zero_spec()
    } else {
        let v = sp_gs_colval(qm, a, rm1, c, cnt - 1, c, dimq, dimr, dima, by);
        sp_gs_sumsq(qm, a, rm1, c, cnt - 1, dimq, dimr, dima, by).add_spec(v.mul_spec(v))
    }
}

/// Fold of squares of the leading source column over `r < cnt`.
pub open spec fn sp_gs_sumsq0<T: Element>(a: Seq<T>, cnt: int, dima: (int, int), by: bool) -> T
    decreases cnt,
{
    if cnt <= 0 {
        T::zero_spec()
    } else {
        let v = a[sp_idx(by, cnt - 1, 0, dima)];
        sp_gs_sumsq0(a, cnt - 1, dima, by).add_spec(v.mul_spec(v))
    }
}

/// The Gram-Schmidt state after the leading column is normalised into Q
/// and its length recorded in R.
pub open spec fn sp_gs_init<T: Element + Sqrt>(
    a: Seq<T>,
    dimq: (int, int),
    dimr: (int, int),
    dima: (int, int),
    by: bool,
) -> (Seq<T>, Seq<T>) {
    let length = sp_gs_sumsq0(a, dimq.0, dima, by).sqrt_spec();
    let qm = Seq::new(
        (dimq.0 * dimq.1) as nat,
        |t: int|
            {
                let rc = sp_rc_of(by, t, dimq);
                if rc.1 == 0 {
                    a[sp_idx(by, rc.0, 0, dima)].div_spec(length)
                } else {
                    T::zero_spec()
                }
            },
    );
    let rm = Seq::new((dimr.0 * dimr.1) as nat, |t: int| T::zero_spec()).update(
        sp_idx(by, 0, 0, dimr),
        length,
    );
    (qm, rm)
}

/// One Gram-Schmidt column: project onto the finished columns, subtract
/// the projections, normalise, and record the residual length.
pub open spec fn sp_gs_step<T: Element + Sqrt>(
    qm: Seq<T>,
    rm: Seq<T>,
    a: Seq<T>,
    c: int,
    dimq: (int, int),
    dimr: (int, int),
    dima: (int, int),
    by: bool,
) -> (Seq<T>, Seq<T>) {
    let rm1 = sp_gs_rm_dots(qm, rm, a, c, dimq, dimr, dima, by);
    let length = sp_gs_sumsq(qm, a, rm1, c, dimq.0, dimq, dimr, dima, by).sqrt_spec();
    let qm1 = Seq::new(
        qm.len(),
        |t: int|
            {
                let rc = sp_rc_of(by, t, dimq);
                if rc.1 == c {
                    sp_gs_colval(qm, a, rm1, c, rc.0, c, dimq, dimr, dima, by).div_spec(length)
                } else {
                    qm[t]
                }
            },
    );
    let rm2 = rm1.update(sp_idx(by, c, c, dimr), length);
    (qm1, rm2)
}

/// The Gram-Schmidt state after the first `c` columns.
pub open spec fn sp_gs_run<T: Element + Sqrt>(
    a: Seq<T>,
    c: int,
    dimq: (int, int),
    dimr: (int, int),
    dima: (int, int),
    by: bool,
) -> (Seq<T>, Seq<T>)
    decreases c,
{
    if c <= 1 {
        sp_gs_init(a, dimq, dimr, dima, by)
    } else {
        let prev = sp_gs_run(a, c - 1, dimq, dimr, dima, by);
        sp_gs_step(prev.0, prev.1, a, c - 1, dimq, dimr, dima, by)
    }
}

/// Column `c` of the source matrix as a vector.
pub open spec fn sp_acol<T>(a: Seq<T>, c: int, dima: (int, int), by: bool) -> Seq<T> {
    Seq::new(dima.0 as nat, |i: int| a[sp_idx(by, i, c, dima)])
}

impl<T: Element + Sqrt> Array<T> {
    /// The leading Gram-Schmidt column: copies, measures and normalises
    /// column zero into the zeroed factors.
    #[verifier::loop_isolation(false)]
    #[verifier::rlimit(100)]
    fn gs_col0(
        arr: &Vec<T>,
        qm: &mut Vec<T>,
        rm: &mut Vec<T>,
        dimq: (usize, usize),
        dimr: (usize, usize),
        dima: (usize, usize),
        by: bool,
    )
        requires
            arr@.len() == dima.0 * dima.1,
            dima.0 * dima.1 <= usize::MAX,
            old(qm)@.len() == dimq.0 * dimq.1,
            dimq.0 * dimq.1 <= usize::MAX,
            old(rm)@.len() == dimr.0 * dimr.1,
            dimr.0 * dimr.1 <= usize::MAX,
            dimq.0 == dima.0,
            dimq.0 >= 1,
            dimq.1 >= 1,
            dima.1 >= 1,
            dimr.0 >= 1,
            dimr.1 >= 1,
            forall|j: int| 0 <= j < old(qm)@.len() ==> old(qm)@[j] == T::zero_spec(),
            forall|j: int| 0 <= j < old(rm)@.len() ==> old(rm)@[j] == T::zero_spec(),
        ensures
            final(qm)@ == sp_gs_init::<T>(
                arr@,
                (dimq.0 as int, dimq.1 as int),
                (dimr.0 as int, dimr.1 as int),
                (dima.0 as int, dima.1 as int),
                by,
            ).0,
            final(rm)@ == sp_gs_init::<T>(
                arr@,
                (dimq.0 as int, dimq.1 as int),
                (dimr.0 as int, dimr.1 as int),
                (dima.0 as int, dima.1 as int),
                by,
            ).1,
    {
        let ghost dq = (dimq.0 as int, dimq.1 as int);
        let ghost dr = (dimr.0 as int, dimr.1 as int);
        let ghost da = (dima.0 as int, dima.1 as int);
        proof {
            lemma_idx_inj(by, dq);
            lemma_idx_bound_all(by, dq);
            lemma_idx_bound_all(by, da);
            lemma_idx_inj(by, dr);
            lemma_idx_bound_all(by, dr);
            lemma_rc_of(by, dq);
            lemma_rc_of(by, dr);
        }
        let nr = dimq.0;
        let mut sum = T::zero();
        let mut r: usize = 0;
        while r < nr
            invariant
                r <= nr,
                qm@.len() == old(qm)@.len(),
                sum == sp_gs_sumsq0(arr@, r as int, da, by),
                forall|r0: int|
                    0 <= r0 < r ==> qm@[sp_idx(by, r0, 0, dq)] == arr@[sp_idx(by, r0, 0, da)],
                forall|r0: int, c0: int|
                    0 <= r0 < dimq.0 && 0 <= c0 < dimq.1 && !(c0 == 0 && r0 < r) ==> qm@[sp_idx(
                        by,
                        r0,
                        c0,
                        dq,
                    )] == T::zero_spec(),
            decreases nr - r,
        {
            let ka = lidx(by, r, 0, dima);
            let val = arr[ka];
            let kq = lidx(by, r, 0, dimq);
            qm.set(kq, val);
            sum = sum.add(val.mul(val));
            r = r + 1;
        }
        let length = sum.sqrt();
        let mut r: usize = 0;
        while r < nr
            invariant
                r <= nr,
                qm@.len() == old(qm)@.len(),
                forall|r0: int|
                    0 <= r0 < r ==> qm@[sp_idx(by, r0, 0, dq)] == arr@[sp_idx(
                        by,
                        r0,
                        0,
                        da,
                    )].div_spec(length),
                forall|r0: int|
                    r <= r0 < dimq.0 ==> qm@[sp_idx(by, r0, 0, dq)] == arr@[sp_idx(
                        by,
                        r0,
                        0,
                        da,
                    )],
                forall|r0: int, c0: int|
                    0 <= r0 < dimq.0 && 1 <= c0 < dimq.1 ==> qm@[sp_idx(by, r0, c0, dq)]
                        == T::zero_spec(),
            decreases nr - r,
        {
            let kq = lidx(by, r, 0, dimq);
            let v = qm[kq].div(length);
            qm.set(kq, v);
            r = r + 1;
        }
        let kr = lidx(by, 0, 0, dimr);
        rm.set(kr, length);
        proof {
            assert(qm@ =~= sp_gs_init::<T>(arr@, dq, dr, da, by).0);
            assert(rm@ =~= sp_gs_init::<T>(arr@, dq, dr, da, by).1);
        }
    }

}

/// Entry `i` of the working column `c` after subtracting the first `cnt`
/// projections, phrased over the buffer that already holds the copied
/// source column.
pub open spec fn sp_sub_run<T: Element>(
    q0: Seq<T>,
    rmv: Seq<T>,
    c: int,
    i: int,
    cnt: int,
    dq: (int, int),
    dr: (int, int),
    by: bool,
) -> T
    decreases cnt,
{
    if cnt <= 0 {
        q0[sp_idx(by, i, c, dq)]
    } else {
        sp_sub_run(q0, rmv, c, i, cnt - 1, dq, dr, by).sub_spec(
            rmv[sp_idx(by, cnt - 1, c, dr)].mul_spec(q0[sp_idx(by, i, cnt - 1, dq)]),
        )
    }
}

/// Fold of squares of column `c` over `i < cnt`, from zero.
pub open spec fn sp_col_sumsq<T: Element>(q: Seq<T>, c: int, cnt: int, dq: (int, int), by: bool) -> T
    decreases cnt,
{
    if cnt <= 0 {
        T::zero_spec()
    } else {
        let v = q[sp_idx(by, cnt - 1, c, dq)];
        sp_col_sumsq(q, c, cnt - 1, dq, by).add_spec(v.mul_spec(v))
    }
}

/// After the copy pass, running the subtractions over the working buffer
/// computes the same values as the column recurrence over the original
/// factors.
pub proof fn lemma_sub_run_is_colval<T: Element>(
    q0: Seq<T>,
    qmb: Seq<T>,
    a: Seq<T>,
    rmv: Seq<T>,
    c: int,
    i: int,
    cnt: int,
    dq: (int, int),
    dr: (int, int),
    da: (int, int),
    by: bool,
)
    requires
        q0[sp_idx(by, i, c, dq)] == a[sp_idx(by, i, c, da)],
        forall|r0: int, c0: int|
            0 <= r0 < dq.0 && 0 <= c0 < c ==> q0[#[trigger] sp_idx(by, r0, c0, dq)] == qmb[sp_idx(
                by,
                r0,
                c0,
                dq,
            )],
        0 <= i < dq.0,
        0 <= cnt <= c,
        c < dq.1,
    ensures
        sp_sub_run(q0, rmv, c, i, cnt, dq, dr, by) == sp_gs_colval(
            qmb,
            a,
            rmv,
            c,
            i,
            cnt,
            dq,
            dr,
            da,
            by,
        ),
    decreases cnt,
{
    if cnt > 0 {
        lemma_sub_run_is_colval(q0, qmb, a, rmv, c, i, cnt - 1, dq, dr, da, by);
    }
}

/// A fold of squares over entries that match the column recurrence equals
/// the recurrence's own fold of squares.
pub proof fn lemma_col_sumsq_match<T: Element>(
    q: Seq<T>,
    qmb: Seq<T>,
    a: Seq<T>,
    rmv: Seq<T>,
    c: int,
    cnt: int,
    dq: (int, int),
    dr: (int, int),
    da: (int, int),
    by: bool,
)
    requires
        forall|r0: int|
            0 <= r0 < cnt ==> q[#[trigger] sp_idx(by, r0, c, dq)] == sp_gs_colval(
                qmb,
                a,
                rmv,
                c,
                r0,
                c,
                dq,
                dr,
                da,
                by,
            ),
    ensures
        sp_col_sumsq(q, c, cnt, dq, by) == sp_gs_sumsq(qmb, a, rmv, c, cnt, dq, dr, da, by),
    decreases cnt,
{
    if cnt > 0 {
        lemma_col_sumsq_match(q, qmb, a, rmv, c, cnt - 1, dq, dr, da, by);
    }
}

impl<T: Element + Sqrt> Array<T> {
    /// Writes the projection coefficients of column `c` into `rm`.
    #[verifier::loop_isolation(false)]
    fn gs_dots(
        arr: &Vec<T>,
        qm: &Vec<T>,
        rm: &mut Vec<T>,
        c: usize,
        dimq: (usize, usize),
        dimr: (usize, usize),
        dima: (usize, usize),
        by: bool,
    )
        requires
            arr@.len() == dima.0 * dima.1,
            dima.0 * dima.1 <= usize::MAX,
            qm@.len() == dimq.0 * dimq.1,
            dimq.0 * dimq.1 <= usize::MAX,
            old(rm)@.len() == dimr.0 * dimr.1,
            dimr.0 * dimr.1 <= usize::MAX,
            dimq.0 == dima.0,
            1 <= c < dimq.1,
            c < dimr.0,
            c < dimr.1,
            c < dima.1,
        ensures
            final(rm)@ == sp_gs_rm_dots(
                qm@,
                old(rm)@,
                arr@,
                c as int,
                (dimq.0 as int, dimq.1 as int),
                (dimr.0 as int, dimr.1 as int),
                (dima.0 as int, dima.1 as int),
                by,
            ),
    {
        let ghost dq = (dimq.0 as int, dimq.1 as int);
        let ghost dr = (dimr.0 as int, dimr.1 as int);
        let ghost da = (dima.0 as int, dima.1 as int);
        proof {
            lemma_idx_bound_all(by, dq);
            lemma_idx_bound_all(by, da);
            lemma_idx_inj(by, dr);
            lemma_idx_bound_all(by, dr);
            lemma_rc_of(by, dr);
        }
        let mut c2: usize = 0;
        while c2 < c
            invariant
                c2 <= c,
                rm@.len() == old(rm)@.len(),
                forall|c0: int|
                    0 <= c0 < c2 ==> rm@[sp_idx(by, c0, c as int, dr)] == sp_gs_dot(
                        qm@,
                        arr@,
                        c0,
                        c as int,
                        dq.0,
                        dq,
                        da,
                        by,
                    ),
                forall|r0: int, c0: int|
                    0 <= r0 < dimr.0 && 0 <= c0 < dimr.1 && !(c0 == c && r0 < c2) ==> rm@[sp_idx(
                        by,
                        r0,
                        c0,
                        dr,
                    )] == old(rm)@[sp_idx(by, r0, c0, dr)],
            decreases c - c2,
        {
            let mut sum = T::zero();
            let mut i: usize = 0;
            while i < dimq.0
                invariant
                    i <= dimq.0,
                    sum == sp_gs_dot(qm@, arr@, c2 as int, c as int, i as int, dq, da, by),
                decreases dimq.0 - i,
            {
                let kq = lidx(by, i, c2, dimq);
                let ka = lidx(by, i, c, dima);
                sum = sum.add(qm[kq].mul(arr[ka]));
                i = i + 1;
            }
            let kr = lidx(by, c2, c, dimr);
            rm.set(kr, sum);
            c2 = c2 + 1;
        }
        proof {
            assert(rm@ =~= sp_gs_rm_dots(qm@, old(rm)@, arr@, c as int, dq, dr, da, by));
        }
    }

    /// Copies the source column `c` into the working factor.
    #[verifier::loop_isolation(false)]
    fn gs_copy_col(
        arr: &Vec<T>,
        qm: &mut Vec<T>,
        c: usize,
        dimq: (usize, usize),
        dima: (usize, usize),
        by: bool,
    )
        requires
            arr@.len() == dima.0 * dima.1,
            dima.0 * dima.1 <= usize::MAX,
            old(qm)@.len() == dimq.0 * dimq.1,
            dimq.0 * dimq.1 <= usize::MAX,
            dimq.0 == dima.0,
            c < dimq.1,
            c < dima.1,
        ensures
            final(qm)@.len() == old(qm)@.len(),
            forall|r0: int|
                0 <= r0 < dimq.0 ==> final(qm)@[sp_idx(
                    by,
                    r0,
                    c as int,
                    (dimq.0 as int, dimq.1 as int),
                )] == arr@[sp_idx(by, r0, c as int, (dima.0 as int, dima.1 as int))],
            forall|r0: int, c0: int|
                0 <= r0 < dimq.0 && 0 <= c0 < dimq.1 && c0 != c ==> final(qm)@[sp_idx(
                    by,
                    r0,
                    c0,
                    (dimq.0 as int, dimq.1 as int),
                )] == old(qm)@[sp_idx(by, r0, c0, (dimq.0 as int, dimq.1 as int))],
    {
        let ghost dq = (dimq.0 as int, dimq.1 as int);
        let ghost da = (dima.0 as int, dima.1 as int);
        proof {
            lemma_idx_inj(by, dq);
            lemma_idx_bound_all(by, dq);
            lemma_idx_bound_all(by, da);
        }
        let mut i: usize = 0;
        while i < dimq.0
            invariant
                i <= dimq.0,
                qm@.len() == old(qm)@.len(),
                forall|r0: int|
                    0 <= r0 < i ==> qm@[sp_idx(by, r0, c as int, dq)] == arr@[sp_idx(
                        by,
                        r0,
                        c as int,
                        da,
                    )],
                forall|r0: int, c0: int|
                    0 <= r0 < dimq.0 && 0 <= c0 < dimq.1 && !(c0 == c && r0 < i) ==> qm@[sp_idx(
                        by,
                        r0,
                        c0,
                        dq,
                    )] == old(qm)@[sp_idx(by, r0, c0, dq)],
            decreases dimq.0 - i,
        {
            let ka = lidx(by, i, c, dima);
            let v = arr[ka];
            let kq = lidx(by, i, c, dimq);
            qm.set(kq, v);
            i = i + 1;
        }
    }

    /// Subtracts each projection from the working column.
    #[verifier::loop_isolation(false)]
    #[verifier::rlimit(100)]
    fn gs_subtract(qm: &mut Vec<T>, rm: &Vec<T>, c: usize, dimq: (usize, usize), dimr: (usize, usize), by: bool)
        requires
            old(qm)@.len() == dimq.0 * dimq.1,
            dimq.0 * dimq.1 <= usize::MAX,
            rm@.len() == dimr.0 * dimr.1,
            dimr.0 * dimr.1 <= usize::MAX,
            c < dimq.1,
            c < dimr.0,
            c < dimr.1,
        ensures
            final(qm)@.len() == old(qm)@.len(),
            forall|r0: int|
                0 <= r0 < dimq.0 ==> final(qm)@[sp_idx(
                    by,
                    r0,
                    c as int,
                    (dimq.0 as int, dimq.1 as int),
                )] == sp_sub_run(
                    old(qm)@,
                    rm@,
                    c as int,
                    r0,
                    c as int,
                    (dimq.0 as int, dimq.1 as int),
                    (dimr.0 as int, dimr.1 as int),
                    by,
                ),
            forall|r0: int, c0: int|
                0 <= r0 < dimq.0 && 0 <= c0 < dimq.1 && c0 != c ==> final(qm)@[sp_idx(
                    by,
                    r0,
                    c0,
                    (dimq.0 as int, dimq.1 as int),
                )] == old(qm)@[sp_idx(by, r0, c0, (dimq.0 as int, dimq.1 as int))],
    {
        let ghost dq = (dimq.0 as int, dimq.1 as int);
        let ghost dr = (dimr.0 as int, dimr.1 as int);
        proof {
            lemma_idx_inj(by, dq);
            lemma_idx_bound_all(by, dq);
            lemma_idx_bound_all(by, dr);
        }
        let mut c2: usize = 0;
        while c2 < c
            invariant
                c2 <= c,
                qm@.len() == old(qm)@.len(),
                forall|r0: int|
                    0 <= r0 < dimq.0 ==> qm@[sp_idx(by, r0, c as int, dq)] == sp_sub_run(
                        old(qm)@,
                        rm@,
                        c as int,
                        r0,
                        c2 as int,
                        dq,
                        dr,
                        by,
                    ),
                forall|r0: int, c0: int|
                    0 <= r0 < dimq.0 && 0 <= c0 < dimq.1 && c0 != c ==> qm@[sp_idx(by, r0, c0, dq)]
                        == old(qm)@[sp_idx(by, r0, c0, dq)],
            decreases c - c2,
        {
            let krf = lidx(by, c2, c, dimr);
            let factor = rm[krf];
            let mut i: usize = 0;
            while i < dimq.0
                invariant
                    i <= dimq.0,
                    c2 < c,
                    qm@.len() == old(qm)@.len(),
                    forall|r0: int|
                        0 <= r0 < i ==> qm@[sp_idx(by, r0, c as int, dq)] == sp_sub_run(
                            old(qm)@,
                            rm@,
                            c as int,
                            r0,
                            c2 + 1,
                            dq,
                            dr,
                            by,
                        ),
                    forall|r0: int|
                        i <= r0 < dimq.0 ==> qm@[sp_idx(by, r0, c as int, dq)] == sp_sub_run(
                            old(qm)@,
                            rm@,
                            c as int,
                            r0,
                            c2 as int,
                            dq,
                            dr,
                            by,
                        ),
                    forall|r0: int, c0: int|
                        0 <= r0 < dimq.0 && 0 <= c0 < dimq.1 && c0 != c ==> qm@[sp_idx(
                            by,
                            r0,
                            c0,
                            dq,
                        )] == old(qm)@[sp_idx(by, r0, c0, dq)],
                decreases dimq.0 - i,
            {
                let kq = lidx(by, i, c, dimq);
                let kq2 = lidx(by, i, c2, dimq);
                let v = qm[kq].sub(factor.mul(qm[kq2]));
                proof {
                    assert(qm@[kq2 as int] == old(qm)@[sp_idx(by, i as int, c2 as int, dq)]);
                    assert(qm@[kq as int] == sp_sub_run(
                        old(qm)@,
                        rm@,
                        c as int,
                        i as int,
                        c2 as int,
                        dq,
                        dr,
                        by,
                    ));
                    assert(v == sp_sub_run(old(qm)@, rm@, c as int, i as int, c2 + 1, dq, dr, by));
                }
                qm.set(kq, v);
                i = i + 1;
            }
            c2 = c2 + 1;
        }
    }

    /// Measures and normalises the working column, returning its length.
    #[verifier::loop_isolation(false)]
    fn gs_normalize(qm: &mut Vec<T>, c: usize, dimq: (usize, usize), by: bool) -> (length: T)
        requires
            old(qm)@.len() == dimq.0 * dimq.1,
            dimq.0 * dimq.1 <= usize::MAX,
            c < dimq.1,
        ensures
            length == sp_col_sumsq(
                old(qm)@,
                c as int,
                dimq.0 as int,
                (dimq.0 as int, dimq.1 as int),
                by,
            ).sqrt_spec(),
            final(qm)@.len() == old(qm)@.len(),
            forall|r0: int|
                0 <= r0 < dimq.0 ==> final(qm)@[sp_idx(
                    by,
                    r0,
                    c as int,
                    (dimq.0 as int, dimq.1 as int),
                )] == old(qm)@[sp_idx(by, r0, c as int, (dimq.0 as int, dimq.1 as int))].div_spec(
                    length,
                ),
            forall|r0: int, c0: int|
                0 <= r0 < dimq.0 && 0 <= c0 < dimq.1 && c0 != c ==> final(qm)@[sp_idx(
                    by,
                    r0,
                    c0,
                    (dimq.0 as int, dimq.1 as int),
                )] == old(qm)@[sp_idx(by, r0, c0, (dimq.0 as int, dimq.1 as int))],
    {
        let ghost dq = (dimq.0 as int, dimq.1 as int);
        proof {
            lemma_idx_inj(by, dq);
            lemma_idx_bound_all(by, dq);
        }
        let mut sum = T::zero();
        let mut i: usize = 0;
        while i < dimq.0
            invariant
                i <= dimq.0,
                sum == sp_col_sumsq(qm@, c as int, i as int, dq, by),
            decreases dimq.0 - i,
        {
            let kq = lidx(by, i, c, dimq);
            let v = qm[kq];
            sum = sum.add(v.mul(v));
            i = i + 1;
        }
        let length = sum.sqrt();
        let mut i: usize = 0;
        while i < dimq.0
            invariant
                i <= dimq.0,
                qm@.len() == old(qm)@.len(),
                forall|r0: int|
                    0 <= r0 < i ==> qm@[sp_idx(by, r0, c as int, dq)] == old(qm)@[sp_idx(
                        by,
                        r0,
                        c as int,
                        dq,
                    )].div_spec(length),
                forall|r0: int, c0: int|
                    0 <= r0 < dimq.0 && 0 <= c0 < dimq.1 && !(c0 == c && r0 < i) ==> qm@[sp_idx(
                        by,
                        r0,
                        c0,
                        dq,
                    )] == old(qm)@[sp_idx(by, r0, c0, dq)],
            decreases dimq.0 - i,
        {
            let kq = lidx(by, i, c, dimq);
            let v = qm[kq].div(length);
            qm.set(kq, v);
            i = i + 1;
        }
        length
    }

    /// One later Gram-Schmidt column: projection coefficients, projection
    /// subtraction, normalisation, and the recorded residual length.
    #[verifier::loop_isolation(false)]
    #[verifier::rlimit(100)]
    #[verifier::spinoff_prover]
    fn gs_col(
        arr: &Vec<T>,
        qm: &mut Vec<T>,
        rm: &mut Vec<T>,
        c: usize,
        dimq: (usize, usize),
        dimr: (usize, usize),
        dima: (usize, usize),
        by: bool,
    )
        requires
            arr@.len() == dima.0 * dima.1,
            dima.0 * dima.1 <= usize::MAX,
            old(qm)@.len() == dimq.0 * dimq.1,
            dimq.0 * dimq.1 <= usize::MAX,
            old(rm)@.len() == dimr.0 * dimr.1,
            dimr.0 * dimr.1 <= usize::MAX,
            dimq.0 == dima.0,
            dimq.0 >= 1,
            1 <= c < dimq.1,
            c < dimr.0,
            c < dimr.1,
            c < dima.1,
        ensures
            final(qm)@ == sp_gs_step::<T>(
                old(qm)@,
                old(rm)@,
                arr@,
                c as int,
                (dimq.0 as int, dimq.1 as int),
                (dimr.0 as int, dimr.1 as int),
                (dima.0 as int, dima.1 as int),
                by,
            ).0,
            final(rm)@ == sp_gs_step::<T>(
                old(qm)@,
                old(rm)@,
                arr@,
                c as int,
                (dimq.0 as int, dimq.1 as int),
                (dimr.0 as int, dimr.1 as int),
                (dima.0 as int, dima.1 as int),
                by,
            ).1,
    {
        let ghost dq = (dimq.0 as int, dimq.1 as int);
        let ghost dr = (dimr.0 as int, dimr.1 as int);
        let ghost da = (dima.0 as int, dima.1 as int);
        let ghost qmb = qm@;
        let ghost rmb = rm@;
        proof {
            lemma_idx_inj(by, dq);
            lemma_idx_bound_all(by, dq);
            lemma_idx_bound_all(by, da);
            lemma_idx_inj(by, dr);
            lemma_idx_bound_all(by, dr);
            lemma_rc_of(by, dq);
            lemma_rc_of(by, dr);
        }
        Array::gs_dots(arr, qm, rm, c, dimq, dimr, dima, by);
        let ghost rm1 = rm@;
        Array::gs_copy_col(arr, qm, c, dimq, dima, by);
        let ghost q0 = qm@;
        Array::gs_subtract(qm, rm, c, dimq, dimr, by);
        proof {
            assert forall|r0: int| 0 <= r0 < dimq.0 implies qm@[sp_idx(by, r0, c as int, dq)]
                == sp_gs_colval(qmb, arr@, rm1, c as int, r0, c as int, dq, dr, da, by) by {
                lemma_sub_run_is_colval(
                    q0,
                    qmb,
                    arr@,
                    rm1,
                    c as int,
                    r0,
                    c as int,
                    dq,
                    dr,
                    da,
                    by,
                );
            }
            lemma_col_sumsq_match(qm@, qmb, arr@, rm1, c as int, dq.0, dq, dr, da, by);
        }
        let length = Array::gs_normalize(qm, c, dimq, by);
        let krd = lidx(by, c, c, dimr);
        rm.set(krd, length);
        proof {
            assert(qm@ =~= sp_gs_step::<T>(qmb, rmb, arr@, c as int, dq, dr, da, by).0);
            assert(rm@ =~= sp_gs_step::<T>(qmb, rmb, arr@, c as int, dq, dr, da, by).1);
        }
    }
}

impl<T: Element + Sqrt> Array<T> {
    /// Classical Gram-Schmidt QR: builds the orthonormal factor
    /// (`dim.0 x min(dim.0, dim.1)`) and the upper-triangular factor
    /// (`min(dim.0, dim.1) x dim.1`) column by column; for a wide matrix
    /// the columns beyond the rank are solved through the square
    /// orthonormal factor instead.
    #[verifier::loop_isolation(false)]
    #[verifier::rlimit(100)]
    #[verifier::spinoff_prover]
    pub fn qr(arr: &Vec<T>, dim: (usize, usize), by_row: bool) -> (res: (Vec<T>, Vec<T>))
        requires
            arr@.len() == dim.0 * dim.1,
            dim.0 * dim.1 <= usize::MAX,
            dim.0 >= 1,
            dim.1 >= 1,
        ensures
            ({
                let n = vstd::math::min(dim.0 as int, dim.1 as int);
                let dq = (dim.0 as int, n);
                let dr = (n, dim.1 as int);
                let da = (dim.0 as int, dim.1 as int);
                let base = sp_gs_run::<T>(arr@, n, dq, dr, da, by_row);
                &&& res.0@ == base.0
                &&& res.1@ == (if dim.0 < dim.1 {
                    Seq::new(
                        base.1.len(),
                        |t: int|
                            {
                                let rc = sp_rc_of(by_row, t, dr);
                                if rc.1 >= n {
                                    crate::array::matrix_operations::sp_mv_sum(
                                        base.0,
                                        sp_acol(arr@, rc.1, da, by_row),
                                        rc.0,
                                        dq.0,
                                        (dq.1, dq.0),
                                        !by_row,
                                    )
                                } else {
                                    base.1[t]
                                }
                            },
                    )
                } else {
                    base.1
                })
            }),
    {
        let (nr, nc) = dim;
        let n: usize = if nr < nc {
            nr
        } else {
            nc
        };
        let dimq = (nr, n);
        let dimr = (n, nc);
        let ghost dq = (nr as int, n as int);
        let ghost dr = (n as int, nc as int);
        let ghost da = (nr as int, nc as int);
        proof {
            assert(nr * n <= nr * nc && n * nc <= nr * nc) by (nonlinear_arith)
                requires
                    n <= nc,
                    n <= nr,
                    nr >= 1,
                    nc >= 1,
            ;
            lemma_idx_bound_all(by_row, dr);
            lemma_idx_inj(by_row, dr);
            lemma_rc_of(by_row, dr);
            lemma_idx_bound_all(by_row, da);
        }
        let qlen = nr * n;
        let rlen = n * nc;
        let mut qm: Vec<T> = Vec::new();
        let mut i: usize = 0;
        while i < qlen
            invariant
                i <= qlen,
                qm@.len() == i,
                forall|j: int| 0 <= j < i ==> qm@[j] == T::zero_spec(),
            decreases qlen - i,
        {
            qm.push(T::zero());
            i = i + 1;
        }
        let mut rm: Vec<T> = Vec::new();
        let mut i: usize = 0;
        while i < rlen
            invariant
                i <= rlen,
                rm@.len() == i,
                forall|j: int| 0 <= j < i ==> rm@[j] == T::zero_spec(),
            decreases rlen - i,
        {
            rm.push(T::zero());
            i = i + 1;
        }
        Array::gs_col0(arr, &mut qm, &mut rm, dimq, dimr, dim, by_row);
        let mut c: usize = 1;
        while c < n
            invariant
                1 <= c <= n || (c == 1 && n == 1),
                qm@.len() == dimq.0 * dimq.1,
                rm@.len() == dimr.0 * dimr.1,
                qm@ == sp_gs_run::<T>(arr@, c as int, dq, dr, da, by_row).0,
                rm@ == sp_gs_run::<T>(arr@, c as int, dq, dr, da, by_row).1,
            decreases n - c,
        {
            Array::gs_col(arr, &mut qm, &mut rm, c, dimq, dimr, dim, by_row);
            c = c + 1;
        }
        let ghost base = sp_gs_run::<T>(arr@, n as int, dq, dr, da, by_row);
        if nr < nc {
            let mut c: usize = n;
            while c < nc
                invariant
                    n <= c <= nc,
                    nr == n,
                    nr < nc,
                    qm@ == base.0,
                    rm@.len() == dimr.0 * dimr.1,
                    forall|r0: int, c0: int|
                        0 <= r0 < dimr.0 && n <= c0 < c ==> rm@[sp_idx(by_row, r0, c0, dr)]
                            == crate::array::matrix_operations::sp_mv_sum(
                            base.0,
                            sp_acol(arr@, c0, da, by_row),
                            r0,
                            dq.0,
                            (dq.1, dq.0),
                            !by_row,
                        ),
                    forall|r0: int, c0: int|
                        0 <= r0 < dimr.0 && 0 <= c0 < dimr.1 && !(n <= c0 < c) ==> rm@[sp_idx(
                            by_row,
                            r0,
                            c0,
                            dr,
                        )] == base.1[sp_idx(by_row, r0, c0, dr)],
                decreases nc - c,
            {
                Array::gs_wide_col(arr, &qm, &mut rm, c, dimq, dimr, dim, by_row);
                c = c + 1;
            }
            proof {
                assert(rm@ =~= Seq::new(
                    base.1.len(),
                    |t: int|
                        {
                            let rc = sp_rc_of(by_row, t, dr);
                            if rc.1 >= n {
                                crate::array::matrix_operations::sp_mv_sum(
                                    base.0,
                                    sp_acol(arr@, rc.1, da, by_row),
                                    rc.0,
                                    dq.0,
                                    (dq.1, dq.0),
                                    !by_row,
                                )
                            } else {
                                base.1[t]
                            }
                        },
                ));
            }
        }
        (qm, rm)
    }
}

impl<T: Element + Sqrt> Array<T> {
    /// Solves one beyond-rank column of a wide matrix through the square
    /// orthonormal factor and writes it into the R factor.
    #[verifier::loop_isolation(false)]
    #[verifier::rlimit(100)]
    fn gs_wide_col(
        arr: &Vec<T>,
        qm: &Vec<T>,
        rm: &mut Vec<T>,
        c: usize,
        dimq: (usize, usize),
        dimr: (usize, usize),
        dima: (usize, usize),
        by_row: bool,
    )
        requires
            arr@.len() == dima.0 * dima.1,
            dima.0 * dima.1 <= usize::MAX,
            qm@.len() == dimq.0 * dimq.1,
            dimq.0 * dimq.1 <= usize::MAX,
            old(rm)@.len() == dimr.0 * dimr.1,
            dimr.0 * dimr.1 <= usize::MAX,
            dimq.0 == dima.0,
            dimq.0 == dimq.1,
            dimr.0 == dimq.0,
            c < dimr.1,
            c < dima.1,
        ensures
            final(rm)@.len() == old(rm)@.len(),
            forall|r0: int|
                0 <= r0 < dimr.0 ==> final(rm)@[sp_idx(
                    by_row,
                    r0,
                    c as int,
                    (dimr.0 as int, dimr.1 as int),
                )] == crate::array::matrix_operations::sp_mv_sum(
                    qm@,
                    sp_acol(arr@, c as int, (dima.0 as int, dima.1 as int), by_row),
                    r0,
                    dimq.0 as int,
                    (dimq.1 as int, dimq.0 as int),
                    !by_row,
                ),
            forall|r0: int, c0: int|
                0 <= r0 < dimr.0 && 0 <= c0 < dimr.1 && c0 != c ==> final(rm)@[sp_idx(
                    by_row,
                    r0,
                    c0,
                    (dimr.0 as int, dimr.1 as int),
                )] == old(rm)@[sp_idx(by_row, r0, c0, (dimr.0 as int, dimr.1 as int))],
    {
        let ghost dq = (dimq.0 as int, dimq.1 as int);
        let ghost dr = (dimr.0 as int, dimr.1 as int);
        let ghost da = (dima.0 as int, dima.1 as int);
        proof {
            lemma_idx_inj(by_row, dr);
            lemma_idx_bound_all(by_row, dr);
            lemma_idx_bound_all(by_row, da);
        }
        let nr = dimq.0;
        let mut b: Vec<T> = Vec::new();
        let mut i2: usize = 0;
        while i2 < nr
            invariant
                i2 <= nr,
                b@.len() == i2,
                forall|j: int| 0 <= j < i2 ==> b@[j] == arr@[sp_idx(by_row, j, c as int, da)],
            decreases nr - i2,
        {
            let ka = lidx(by_row, i2, c, dima);
            b.push(arr[ka]);
            i2 = i2 + 1;
        }
        proof {
            assert(b@ =~= sp_acol(arr@, c as int, da, by_row));
        }
        let mut res: Vec<T> = Vec::new();
        let mut i3: usize = 0;
        while i3 < nr
            invariant
                i3 <= nr,
                res@.len() == i3,
            decreases nr - i3,
        {
            res.push(T::zero());
            i3 = i3 + 1;
        }
        Array::q_solve(qm, &b, &mut res, dimq, by_row);
        let mut i4: usize = 0;
        while i4 < nr
            invariant
                i4 <= nr,
                rm@.len() == old(rm)@.len(),
                res@.len() == nr,
                forall|j: int|
                    0 <= j < nr ==> res@[j] == crate::array::matrix_operations::sp_mv_sum(
                        qm@,
                        sp_acol(arr@, c as int, da, by_row),
                        j,
                        dq.0,
                        (dq.1, dq.0),
                        !by_row,
                    ),
                forall|r0: int|
                    0 <= r0 < i4 ==> rm@[sp_idx(by_row, r0, c as int, dr)] == res@[r0],
                forall|r0: int, c0: int|
                    0 <= r0 < dimr.0 && 0 <= c0 < dimr.1 && !(c0 == c && r0 < i4) ==> rm@[sp_idx(
                        by_row,
                        r0,
                        c0,
                        dr,
                    )] == old(rm)@[sp_idx(by_row, r0, c0, dr)],
            decreases nr - i4,
        {
            let kr = lidx(by_row, i4, c, dimr);
            rm.set(kr, res[i4]);
            i4 = i4 + 1;
        }
        proof {
            assert forall|r0: int| 0 <= r0 < dimr.0 implies rm@[sp_idx(
                by_row,
                r0,
                c as int,
                dr,
            )] == crate::array::matrix_operations::sp_mv_sum(
                qm@,
                sp_acol(arr@, c as int, da, by_row),
                r0,
                dq.0,
                (dq.1, dq.0),
                !by_row,
            ) by {
                assert(rm@[sp_idx(by_row, r0, c as int, dr)] == res@[r0]);
            }
        }
    }
}

impl<T: Element + Sqrt> Array<T> {
    /// Gram-Schmidt QR of a matrix: hands back the orthonormal and
    /// upper-triangular factors as matrices in the source layout.  In
    /// exact arithmetic the product of the factors is the input; over
    /// rounding arithmetic that round trip holds within a tolerance,
    /// which the test suite checks at run time.
    pub fn mqr(&self) -> (res: Result<(Array<T>, Array<T>), ListError>)
        requires
            self.wf(),
            self is Array2D ==> self.m_nr() >= 1 && self.m_nc() >= 1,
        ensures
            !(self is Array2D) ==> res == Err::<(Array<T>, Array<T>), ListError>(
                ListError::MismatchedTypes,
            ),
            self is Array2D ==> {
                let n = vstd::math::min(self.m_nr(), self.m_nc());
                &&& res is Ok
                &&& res->Ok_0.0 is Array2D
                &&& res->Ok_0.0.m_nr() == self.m_nr()
                &&& res->Ok_0.0.m_nc() == n
                &&& res->Ok_0.0.m_by_row() == self.m_by_row()
                &&& res->Ok_0.1 is Array2D
                &&& res->Ok_0.1.m_nr() == n
                &&& res->Ok_0.1.m_nc() == self.m_nc()
                &&& res->Ok_0.1.m_by_row() == self.m_by_row()
                &&& ({
                    let dq = (self.m_nr(), n);
                    let dr = (n, self.m_nc());
                    let da = (self.m_nr(), self.m_nc());
                    let base = sp_gs_run::<T>(self.m_arr(), n, dq, dr, da, self.m_by_row());
                    res->Ok_0.0.m_arr() == base.0 && res->Ok_0.1.m_arr() == (if self.m_nr()
                        < self.m_nc() {
                        Seq::new(
                            base.1.len(),
                            |t: int|
                                {
                                    let rc = sp_rc_of(self.m_by_row(), t, dr);
                                    if rc.1 >= n {
                                        crate::array::matrix_operations::sp_mv_sum(
                                            base.0,
                                            sp_acol(self.m_arr(), rc.1, da, self.m_by_row()),
                                            rc.0,
                                            dq.0,
                                            (dq.1, dq.0),
                                            !self.m_by_row(),
                                        )
                                    } else {
                                        base.1[t]
                                    }
                                },
                        )
                    } else {
                        base.1
                    })
                })
            },
    {
        match self {
            Array::Array2D { arr, nr, nc, put_val_by_row } => {
                let dim = (*nr, *nc);
                // Reading the length tells the verifier the buffer fits in memory.
                let l = arr.len();
                let (nr0, nc0) = dim;
                let n = if nr0 < nc0 {
                    nr0
                } else {
                    nc0
                };
                let (q, r) = Array::qr(arr, dim, *put_val_by_row);
                proof {
                    assert(nr0 * n <= nr0 * nc0 && n * nc0 <= nr0 * nc0) by (nonlinear_arith)
                        requires
                            n <= nc0,
                            n <= nr0,
                            nr0 >= 1,
                            nc0 >= 1,
                    ;
                }
                let qa = Array::Array2D { arr: q, nr: nr0, nc: n, put_val_by_row: *put_val_by_row };
                let ra = Array::Array2D { arr: r, nr: n, nc: nc0, put_val_by_row: *put_val_by_row };
                Ok((qa, ra))
            },
            _ => Err(ListError::MismatchedTypes),
        }
    }

    /// Householder QR of a tall matrix: the reflector list and the R
    /// factor as a matrix in the source layout.
    pub fn mqr_householder(&self) -> (res: Result<(Vec<Vec<T>>, Array<T>), ListError>)
        requires
            self.wf(),
        ensures
            !(self is Array2D) ==> res == Err::<(Vec<Vec<T>>, Array<T>), ListError>(
                ListError::MismatchedTypes,
            ),
            self is Array2D && self.m_nr() < self.m_nc() ==> res == Err::<
                (Vec<Vec<T>>, Array<T>),
                ListError,
            >(ListError::MatrixQRHouseHolderDimError),
            self is Array2D && self.m_nr() >= self.m_nc() ==> {
                let dims = (self.m_nr(), self.m_nc());
                &&& res is Ok
                &&& res->Ok_0.0@.len() == self.m_nc()
                &&& (forall|i: int|
                    0 <= i < self.m_nc() ==> (#[trigger] res->Ok_0.0@[i])@ == sp_qrh_vec(
                        self.m_arr(),
                        self.m_nc() - 1 - i,
                        dims,
                        self.m_by_row(),
                    ))
                &&& res->Ok_0.1 is Array2D
                &&& res->Ok_0.1.m_nr() == self.m_nr()
                &&& res->Ok_0.1.m_nc() == self.m_nc()
                &&& res->Ok_0.1.m_by_row() == self.m_by_row()
                &&& res->Ok_0.1.m_arr() == sp_qrh_r_run(
                    self.m_arr(),
                    self.m_nc(),
                    dims,
                    self.m_by_row(),
                )
            },
    {
        match self {
            Array::Array2D { arr, nr, nc, put_val_by_row } => {
                let dim = (*nr, *nc);
                let by_row = *put_val_by_row;
                if *nr < *nc {
                    return Err(ListError::MatrixQRHouseHolderDimError);
                }
                // Reading the length tells the verifier the buffer fits in memory.
                let l = arr.len();
                let out = match Array::qr_householder(arr, dim, by_row) {
                    Ok(out) => out,
                    Err(_) => {
                        proof {
                            assert(false);
                        }
                        return Err(ListError::MatrixQRHouseHolderDimError);
                    },
                };
                let (q_factor, r) = out;
                let ra = Array::Array2D {
                    arr: r,
                    nr: dim.0,
                    nc: dim.1,
                    put_val_by_row: by_row,
                };
                Ok((q_factor, ra))
            },
            _ => Err(ListError::MismatchedTypes),
        }
    }

    /// The reflector-based left-multiply: replays a stored reflector
    /// list against a matrix in list order; each reflection touches only
    /// its trailing block.
    pub fn mq_factor_mult_mat_a(q_factor: &Vec<Vec<T>>, ma: &mut Self) -> (res: Result<
        (),
        ListError,
    >)
        requires
            old(ma).wf(),
            forall|i: int|
                0 <= i < q_factor@.len() ==> 1 <= (#[trigger] q_factor@[i])@.len() <= old(
                    ma,
                ).m_nr(),
        ensures
            !((*old(ma)) is Array2D) ==> res == Err::<(), ListError>(ListError::MismatchedTypes)
                && crate::array::sp_array_same(*final(ma), *old(ma)),
            (*old(ma)) is Array2D ==> {
                &&& res is Ok
                &&& (*final(ma)) is Array2D
                &&& final(ma).wf()
                &&& final(ma).m_nr() == old(ma).m_nr()
                &&& final(ma).m_nc() == old(ma).m_nc()
                &&& final(ma).m_by_row() == old(ma).m_by_row()
                &&& final(ma).m_arr() == sp_qf_fwd(
                    q_factor@,
                    old(ma).m_arr(),
                    q_factor@.len() as int,
                    (old(ma).m_nr(), old(ma).m_nc()),
                    old(ma).m_by_row(),
                )
            },
    {
        match ma {
            Array::Array2D { arr, nr, nc, put_val_by_row } => {
                let dim = (*nr, *nc);
                // Reading the length tells the verifier the buffer fits in memory.
                let l = arr.len();
                Array::q_factor_dot_ma(q_factor, arr, dim, *put_val_by_row, false);
                Ok(())
            },
            _ => Err(ListError::MismatchedTypes),
        }
    }

    /// The reflector-based right-multiply on the tagged type: replays a
    /// stored reflector list against the transposed view of the matrix.
    pub fn mmat_a_mult_q_factor(ma: &mut Self, q_factor: &Vec<Vec<T>>) -> (res: Result<
        (),
        ListError,
    >)
        requires
            old(ma).wf(),
            forall|i: int|
                0 <= i < q_factor@.len() ==> 1 <= (#[trigger] q_factor@[i])@.len() <= old(
                    ma,
                ).m_nc(),
        ensures
            !((*old(ma)) is Array2D) ==> res == Err::<(), ListError>(ListError::MismatchedTypes)
                && crate::array::sp_array_same(*final(ma), *old(ma)),
            (*old(ma)) is Array2D ==> {
                &&& res is Ok
                &&& (*final(ma)) is Array2D
                &&& final(ma).wf()
                &&& final(ma).m_nr() == old(ma).m_nr()
                &&& final(ma).m_nc() == old(ma).m_nc()
                &&& final(ma).m_by_row() == old(ma).m_by_row()
                &&& final(ma).m_arr() == sp_qf_rev(
                    q_factor@,
                    old(ma).m_arr(),
                    q_factor@.len() as int,
                    (old(ma).m_nc(), old(ma).m_nr()),
                    !old(ma).m_by_row(),
                )
            },
    {
        match ma {
            Array::Array2D { arr, nr, nc, put_val_by_row } => {
                let dim = (*nr, *nc);
                // Reading the length tells the verifier the buffer fits in memory.
                let l = arr.len();
                Array::ma_dot_q_factor(arr, dim, *put_val_by_row, q_factor);
                Ok(())
            },
            _ => Err(ListError::MismatchedTypes),
        }
    }
}

impl<T: Element> Array<T> {
    /// Transposes a matrix in place by exchanging its dimensions and
    /// flipping the layout tag; the buffer itself stays put.
    pub fn transpose(&mut self) -> (res: Result<(), ListError>)
        ensures
            !((*old(self)) is Array2D) ==> res == Err::<(), ListError>(ListError::MismatchedTypes)
                && crate::array::sp_array_same(*final(self), *old(self)),
            (*old(self)) is Array2D ==> {
                &&& res is Ok
                &&& (*final(self)) is Array2D
                &&& final(self).m_arr() == old(self).m_arr()
                &&& final(self).m_nr() == old(self).m_nc()
                &&& final(self).m_nc() == old(self).m_nr()
                &&& final(self).m_by_row() == !old(self).m_by_row()
            },
    {
        match self {
            Array::Array2D { arr, nr, nc, put_val_by_row } => {
                let t = *nr;
                *nr = *nc;
                *nc = t;
                *put_val_by_row = !*put_val_by_row;
                Ok(())
            },
            _ => Err(ListError::MismatchedTypes),
        }
    }
}

} // verus!
