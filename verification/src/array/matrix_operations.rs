//! Shared numerical kernels: magnitude, row and column operations,
//! elementwise arithmetic, matrix products, and distances.  Every kernel
//! works on a flat buffer plus explicit dimensions and a layout tag, so
//! operands of different layouts cooperate.

use vstd::prelude::*;

use crate::array::element::Element;
use crate::array::lemma_idx_bound_all;
use crate::array::lemma_idx_inj;
use crate::array::lidx;
use crate::array::sp_idx;
use crate::array::Array;
use crate::array::ListError;

verus! {

/// The extra operations square-root-based kernels need from an element
/// type, with their specification-level account.
pub trait Sqrt: Sized + Copy {
    /// What `sqrt` returns.
    spec fn sqrt_spec(self) -> Self;

    /// What `powi` returns.
    spec fn powi_spec(self, n: int) -> Self;

    fn sqrt(self) -> (r: Self)
        ensures
            r == self.sqrt_spec(),
    ;

    fn powi(self, n: i32) -> (r: Self)
        ensures
            r == self.powi_spec(n as int),
    ;
}

/// Magnitude of `val` relative to the zero value `z`.
pub open spec fn sp_abs<T: Element>(val: T, z: T) -> T {
    if val.lt_spec(z) {
        z.sub_spec(val)
    } else {
        val
    }
}

impl<T: Element> Array<T> {
    /// Magnitude of `val`, using `z` as the zero value.
    pub fn abs(val: T, z: T) -> (r: T)
        ensures
            r == sp_abs(val, z),
    {
        if val.lt(z) {
            return z.sub(val);
        }
        val
    }

    /// Swaps rows `i` and `j` within columns `[begin_col, end_col)`.
    #[verifier::loop_isolation(false)]
    pub fn swap_r_ij(
        arr: &mut Vec<T>,
        i: usize,
        j: usize,
        begin_col: usize,
        end_col: usize,
        by_row: bool,
        dim: (usize, usize),
    )
        requires
            old(arr)@.len() == dim.0 * dim.1,
            dim.0 * dim.1 <= usize::MAX,
            i < dim.0,
            j < dim.0,
            begin_col <= end_col <= dim.1,
        ensures
            final(arr)@.len() == old(arr)@.len(),
            forall|c: int|
                begin_col <= c < end_col ==> final(arr)@[sp_idx(
                    by_row,
                    i as int,
                    c,
                    (dim.0 as int, dim.1 as int),
                )] == old(arr)@[sp_idx(by_row, j as int, c, (dim.0 as int, dim.1 as int))],
            forall|c: int|
                begin_col <= c < end_col ==> final(arr)@[sp_idx(
                    by_row,
                    j as int,
                    c,
                    (dim.0 as int, dim.1 as int),
                )] == old(arr)@[sp_idx(by_row, i as int, c, (dim.0 as int, dim.1 as int))],
            forall|r: int, c: int|
                0 <= r < dim.0 && 0 <= c < dim.1 && !((r == i || r == j) && begin_col <= c
                    < end_col) ==> final(arr)@[sp_idx(by_row, r, c, (dim.0 as int, dim.1 as int))] == old(
                    arr,
                )@[sp_idx(by_row, r, c, (dim.0 as int, dim.1 as int))],
    {
        let ghost dims = (dim.0 as int, dim.1 as int);
        proof {
            lemma_idx_inj(by_row, dims);
            lemma_idx_bound_all(by_row, dims);
        }
        let mut c = begin_col;
        while c < end_col
            invariant
                begin_col <= c <= end_col,
                arr@.len() == old(arr)@.len(),
                forall|c0: int|
                    begin_col <= c0 < c ==> arr@[sp_idx(by_row, i as int, c0, dims)] == old(
                        arr,
                    )@[sp_idx(by_row, j as int, c0, dims)],
                forall|c0: int|
                    begin_col <= c0 < c ==> arr@[sp_idx(by_row, j as int, c0, dims)] == old(
                        arr,
                    )@[sp_idx(by_row, i as int, c0, dims)],
                forall|r0: int, c0: int|
                    0 <= r0 < dim.0 && 0 <= c0 < dim.1 && !((r0 == i || r0 == j) && begin_col <= c0
                        < c) ==> arr@[sp_idx(by_row, r0, c0, dims)] == old(arr)@[sp_idx(
                        by_row,
                        r0,
                        c0,
                        dims,
                    )],
            decreases end_col - c,
        {
            let k1 = lidx(by_row, i, c, dim);
            let k2 = lidx(by_row, j, c, dim);
            let t1 = arr[k1];
            let t2 = arr[k2];
            arr.set(k1, t2);
            arr.set(k2, t1);
            c = c + 1;
        }
    }

    /// Swaps columns `i` and `j` within rows `[begin_row, end_row)`.
    #[verifier::loop_isolation(false)]
    pub fn swap_c_ij(
        arr: &mut Vec<T>,
        i: usize,
        j: usize,
        begin_row: usize,
        end_row: usize,
        by_row: bool,
        dim: (usize, usize),
    )
        requires
            old(arr)@.len() == dim.0 * dim.1,
            dim.0 * dim.1 <= usize::MAX,
            i < dim.1,
            j < dim.1,
            begin_row <= end_row <= dim.0,
        ensures
            final(arr)@.len() == old(arr)@.len(),
            forall|r: int|
                begin_row <= r < end_row ==> final(arr)@[sp_idx(
                    by_row,
                    r,
                    i as int,
                    (dim.0 as int, dim.1 as int),
                )] == old(arr)@[sp_idx(by_row, r, j as int, (dim.0 as int, dim.1 as int))],
            forall|r: int|
                begin_row <= r < end_row ==> final(arr)@[sp_idx(
                    by_row,
                    r,
                    j as int,
                    (dim.0 as int, dim.1 as int),
                )] == old(arr)@[sp_idx(by_row, r, i as int, (dim.0 as int, dim.1 as int))],
            forall|r: int, c: int|
                0 <= r < dim.0 && 0 <= c < dim.1 && !((c == i || c == j) && begin_row <= r
                    < end_row) ==> final(arr)@[sp_idx(by_row, r, c, (dim.0 as int, dim.1 as int))] == old(
                    arr,
                )@[sp_idx(by_row, r, c, (dim.0 as int, dim.1 as int))],
    {
        let ghost dims = (dim.0 as int, dim.1 as int);
        proof {
            lemma_idx_inj(by_row, dims);
            lemma_idx_bound_all(by_row, dims);
        }
        let mut r = begin_row;
        while r < end_row
            invariant
                begin_row <= r <= end_row,
                arr@.len() == old(arr)@.len(),
                forall|r0: int|
                    begin_row <= r0 < r ==> arr@[sp_idx(by_row, r0, i as int, dims)] == old(
                        arr,
                    )@[sp_idx(by_row, r0, j as int, dims)],
                forall|r0: int|
                    begin_row <= r0 < r ==> arr@[sp_idx(by_row, r0, j as int, dims)] == old(
                        arr,
                    )@[sp_idx(by_row, r0, i as int, dims)],
                forall|r0: int, c0: int|
                    0 <= r0 < dim.0 && 0 <= c0 < dim.1 && !((c0 == i || c0 == j) && begin_row <= r0
                        < r) ==> arr@[sp_idx(by_row, r0, c0, dims)] == old(arr)@[sp_idx(
                        by_row,
                        r0,
                        c0,
                        dims,
                    )],
            decreases end_row - r,
        {
            let k1 = lidx(by_row, r, i, dim);
            let k2 = lidx(by_row, r, j, dim);
            let t1 = arr[k1];
            let t2 = arr[k2];
            arr.set(k1, t2);
            arr.set(k2, t1);
            r = r + 1;
        }
    }

    /// Row operation: adds `factor` times row `j` onto row `i`, over columns
    /// `[start_col, end_col)`.
    #[verifier::loop_isolation(false)]
    pub fn row_i_add_frow_j(
        arr: &mut Vec<T>,
        factor: T,
        i: usize,
        j: usize,
        dim: (usize, usize),
        by_row: bool,
        start_col: usize,
        end_col: usize,
    )
        requires
            old(arr)@.len() == dim.0 * dim.1,
            dim.0 * dim.1 <= usize::MAX,
            i < dim.0,
            j < dim.0,
            i != j,
            start_col <= end_col <= dim.1,
        ensures
            final(arr)@.len() == old(arr)@.len(),
            forall|c: int|
                start_col <= c < end_col ==> final(arr)@[sp_idx(
                    by_row,
                    i as int,
                    c,
                    (dim.0 as int, dim.1 as int),
                )] == old(arr)@[sp_idx(by_row, i as int, c, (dim.0 as int, dim.1 as int))].add_spec(
                    factor.mul_spec(
                        old(arr)@[sp_idx(by_row, j as int, c, (dim.0 as int, dim.1 as int))],
                    ),
                ),
            forall|r: int, c: int|
                0 <= r < dim.0 && 0 <= c < dim.1 && !(r == i && start_col <= c < end_col)
                    ==> final(arr)@[sp_idx(by_row, r, c, (dim.0 as int, dim.1 as int))] == old(
                    arr,
                )@[sp_idx(by_row, r, c, (dim.0 as int, dim.1 as int))],
    {
        let ghost dims = (dim.0 as int, dim.1 as int);
        proof {
            lemma_idx_inj(by_row, dims);
            lemma_idx_bound_all(by_row, dims);
        }
        let mut k = start_col;
        while k < end_col
            invariant
                start_col <= k <= end_col,
                arr@.len() == old(arr)@.len(),
                forall|c0: int|
                    start_col <= c0 < k ==> arr@[sp_idx(by_row, i as int, c0, dims)] == old(
                        arr,
                    )@[sp_idx(by_row, i as int, c0, dims)].add_spec(
                        factor.mul_spec(old(arr)@[sp_idx(by_row, j as int, c0, dims)]),
                    ),
                forall|r0: int, c0: int|
                    0 <= r0 < dim.0 && 0 <= c0 < dim.1 && !(r0 == i && start_col <= c0 < k)
                        ==> arr@[sp_idx(by_row, r0, c0, dims)] == old(arr)@[sp_idx(
                        by_row,
                        r0,
                        c0,
                        dims,
                    )],
            decreases end_col - k,
        {
            let ki = lidx(by_row, i, k, dim);
            let kj = lidx(by_row, j, k, dim);
            let v = arr[ki].add(factor.mul(arr[kj]));
            arr.set(ki, v);
            k = k + 1;
        }
    }

    /// Row operation: subtracts `factor` times row `j` from row `i`, over
    /// columns `[start_col, end_col)`.
    #[verifier::loop_isolation(false)]
    pub fn row_i_minus_frow_j(
        arr: &mut Vec<T>,
        factor: T,
        i: usize,
        j: usize,
        dim: (usize, usize),
        by_row: bool,
        start_col: usize,
        end_col: usize,
    )
        requires
            old(arr)@.len() == dim.0 * dim.1,
            dim.0 * dim.1 <= usize::MAX,
            i < dim.0,
            j < dim.0,
            i != j,
            start_col <= end_col <= dim.1,
        ensures
            final(arr)@.len() == old(arr)@.len(),
            forall|c: int|
                start_col <= c < end_col ==> final(arr)@[sp_idx(
                    by_row,
                    i as int,
                    c,
                    (dim.0 as int, dim.1 as int),
                )] == old(arr)@[sp_idx(by_row, i as int, c, (dim.0 as int, dim.1 as int))].sub_spec(
                    factor.mul_spec(
                        old(arr)@[sp_idx(by_row, j as int, c, (dim.0 as int, dim.1 as int))],
                    ),
                ),
            forall|r: int, c: int|
                0 <= r < dim.0 && 0 <= c < dim.1 && !(r == i && start_col <= c < end_col)
                    ==> final(arr)@[sp_idx(by_row, r, c, (dim.0 as int, dim.1 as int))] == old(
                    arr,
                )@[sp_idx(by_row, r, c, (dim.0 as int, dim.1 as int))],
    {
        let ghost dims = (dim.0 as int, dim.1 as int);
        proof {
            lemma_idx_inj(by_row, dims);
            lemma_idx_bound_all(by_row, dims);
        }
        let mut k = start_col;
        while k < end_col
            invariant
                start_col <= k <= end_col,
                arr@.len() == old(arr)@.len(),
                forall|c0: int|
                    start_col <= c0 < k ==> arr@[sp_idx(by_row, i as int, c0, dims)] == old(
                        arr,
                    )@[sp_idx(by_row, i as int, c0, dims)].sub_spec(
                        factor.mul_spec(old(arr)@[sp_idx(by_row, j as int, c0, dims)]),
                    ),
                forall|r0: int, c0: int|
                    0 <= r0 < dim.0 && 0 <= c0 < dim.1 && !(r0 == i && start_col <= c0 < k)
                        ==> arr@[sp_idx(by_row, r0, c0, dims)] == old(arr)@[sp_idx(
                        by_row,
                        r0,
                        c0,
                        dims,
                    )],
            decreases end_col - k,
        {
            let ki = lidx(by_row, i, k, dim);
            let kj = lidx(by_row, j, k, dim);
            let v = arr[ki].sub(factor.mul(arr[kj]));
            arr.set(ki, v);
            k = k + 1;
        }
    }
}

/// Fold-left sum of products `m1[r, i] * m2[i, c]` over `i < k`, starting
/// from zero: one entry of a matrix product.
pub open spec fn sp_mm_sum<T: Element>(
    m1: Seq<T>,
    m2: Seq<T>,
    r: int,
    c: int,
    k: int,
    d1: (int, int),
    d2: (int, int),
    by1: bool,
    by2: bool,
) -> T
    decreases k,
{
    if k <= 0 {
        T::zero_spec()
    } else {
        sp_mm_sum(m1, m2, r, c, k - 1, d1, d2, by1, by2).add_spec(
            m1[sp_idx(by1, r, k - 1, d1)].mul_spec(m2[sp_idx(by2, k - 1, c, d2)]),
        )
    }
}

/// Fold-left dot product of two vectors over `i < k`, seeded with the
/// product of the first entries.
pub open spec fn sp_dot1<T: Element>(va: Seq<T>, vb: Seq<T>, k: int) -> T
    decreases k,
{
    if k <= 1 {
        va[0].mul_spec(vb[0])
    } else {
        sp_dot1(va, vb, k - 1).add_spec(va[k - 1].mul_spec(vb[k - 1]))
    }
}

/// Fold-left sum of `am[r, i] * b[i]` over `i < k`, starting from zero.
pub open spec fn sp_mv_sum<T: Element>(
    am: Seq<T>,
    b: Seq<T>,
    r: int,
    k: int,
    dim: (int, int),
    by_row: bool,
) -> T
    decreases k,
{
    if k <= 0 {
        T::zero_spec()
    } else {
        sp_mv_sum(am, b, r, k - 1, dim, by_row).add_spec(
            am[sp_idx(by_row, r, k - 1, dim)].mul_spec(b[k - 1]),
        )
    }
}

/// Fold-left sum of `am[i, c] * b[i]` over `i < k`, starting from zero.
pub open spec fn sp_vm_sum<T: Element>(
    am: Seq<T>,
    b: Seq<T>,
    c: int,
    k: int,
    dim: (int, int),
    by_row: bool,
) -> T
    decreases k,
{
    if k <= 0 {
        T::zero_spec()
    } else {
        sp_vm_sum(am, b, c, k - 1, dim, by_row).add_spec(
            am[sp_idx(by_row, k - 1, c, dim)].mul_spec(b[k - 1]),
        )
    }
}

/// Fold-left sum of `|v1[i] - v2[i]|` over `i < k`, starting from zero.
pub open spec fn sp_dist1_sum<T: Element>(v1: Seq<T>, v2: Seq<T>, k: int) -> T
    decreases k,
{
    if k <= 0 {
        T::zero_spec()
    } else {
        sp_dist1_sum(v1, v2, k - 1).add_spec(
            sp_abs(v1[k - 1].sub_spec(v2[k - 1]), T::zero_spec()),
        )
    }
}

impl<T: Element> Array<T> {
    /// Adds the scalar `s` onto every element.
    #[verifier::loop_isolation(false)]
    pub fn self_add_scalar_s(arr: &mut Vec<T>, s: T)
        ensures
            final(arr)@.len() == old(arr)@.len(),
            forall|j: int|
                0 <= j < old(arr)@.len() ==> final(arr)@[j] == old(arr)@[j].add_spec(s),
    {
        let n = arr.len();
        let mut i: usize = 0;
        while i < n
            invariant
                i <= n,
                arr@.len() == n,
                forall|j: int| 0 <= j < i ==> arr@[j] == old(arr)@[j].add_spec(s),
                forall|j: int| i <= j < n ==> arr@[j] == old(arr)@[j],
            decreases n - i,
        {
            let v = arr[i].add(s);
            arr.set(i, v);
            i = i + 1;
        }
    }

    /// Subtracts the scalar `s` from every element.
    #[verifier::loop_isolation(false)]
    pub fn self_minus_scalar_s(arr: &mut Vec<T>, s: T)
        ensures
            final(arr)@.len() == old(arr)@.len(),
            forall|j: int|
                0 <= j < old(arr)@.len() ==> final(arr)@[j] == old(arr)@[j].sub_spec(s),
    {
        let n = arr.len();
        let mut i: usize = 0;
        while i < n
            invariant
                i <= n,
                arr@.len() == n,
                forall|j: int| 0 <= j < i ==> arr@[j] == old(arr)@[j].sub_spec(s),
                forall|j: int| i <= j < n ==> arr@[j] == old(arr)@[j],
            decreases n - i,
        {
            let v = arr[i].sub(s);
            arr.set(i, v);
            i = i + 1;
        }
    }

    /// Multiplies every element by the scalar `s`.
    #[verifier::loop_isolation(false)]
    pub fn self_mult_scalar_s(arr: &mut Vec<T>, s: T)
        ensures
            final(arr)@.len() == old(arr)@.len(),
            forall|j: int|
                0 <= j < old(arr)@.len() ==> final(arr)@[j] == old(arr)@[j].mul_spec(s),
    {
        let n = arr.len();
        let mut i: usize = 0;
        while i < n
            invariant
                i <= n,
                arr@.len() == n,
                forall|j: int| 0 <= j < i ==> arr@[j] == old(arr)@[j].mul_spec(s),
                forall|j: int| i <= j < n ==> arr@[j] == old(arr)@[j],
            decreases n - i,
        {
            let v = arr[i].mul(s);
            arr.set(i, v);
            i = i + 1;
        }
    }

    /// Divides every element by the scalar `s`; a zero `s` is refused
    /// before anything is written.
    #[verifier::loop_isolation(false)]
    pub fn self_div_scalar_s(arr: &mut Vec<T>, s: T) -> (res: Result<(), ListError>)
        ensures
            res is Ok <==> s != T::zero_spec(),
            res is Err ==> final(arr)@ == old(arr)@ && res == Err::<(), ListError>(
                ListError::DivisionByZero,
            ),
            res is Ok ==> final(arr)@.len() == old(arr)@.len() && (forall|j: int|
                0 <= j < old(arr)@.len() ==> final(arr)@[j] == old(arr)@[j].div_spec(s)),
    {
        if s.eq_elem(T::zero()) {
            return Err(ListError::DivisionByZero);
        }
        let n = arr.len();
        let mut i: usize = 0;
        while i < n
            invariant
                i <= n,
                arr@.len() == n,
                forall|j: int| 0 <= j < i ==> arr@[j] == old(arr)@[j].div_spec(s),
                forall|j: int| i <= j < n ==> arr@[j] == old(arr)@[j],
            decreases n - i,
        {
            let v = arr[i].div(s);
            arr.set(i, v);
            i = i + 1;
        }
        Ok(())
    }

    /// Adds the vector `v2` elementwise; lengths must agree.
    #[verifier::loop_isolation(false)]
    pub fn self_add_vec_v2(arr: &mut Vec<T>, v2: &Vec<T>) -> (res: Result<(), ListError>)
        ensures
            res is Ok <==> old(arr)@.len() == v2@.len(),
            res is Err ==> final(arr)@ == old(arr)@ && res == Err::<(), ListError>(
                ListError::DifferentLength1D,
            ),
            res is Ok ==> final(arr)@.len() == old(arr)@.len() && (forall|j: int|
                0 <= j < old(arr)@.len() ==> final(arr)@[j] == old(arr)@[j].add_spec(v2@[j])),
    {
        let n = arr.len();
        if n != v2.len() {
            return Err(ListError::DifferentLength1D);
        }
        let mut i: usize = 0;
        while i < n
            invariant
                i <= n,
                arr@.len() == n,
                forall|j: int| 0 <= j < i ==> arr@[j] == old(arr)@[j].add_spec(v2@[j]),
                forall|j: int| i <= j < n ==> arr@[j] == old(arr)@[j],
            decreases n - i,
        {
            let v = arr[i].add(v2[i]);
            arr.set(i, v);
            i = i + 1;
        }
        Ok(())
    }

    /// Subtracts the vector `v2` elementwise; lengths must agree.
    #[verifier::loop_isolation(false)]
    pub fn self_minus_vec_v2(arr: &mut Vec<T>, v2: &Vec<T>) -> (res: Result<(), ListError>)
        ensures
            res is Ok <==> old(arr)@.len() == v2@.len(),
            res is Err ==> final(arr)@ == old(arr)@ && res == Err::<(), ListError>(
                ListError::DifferentLength1D,
            ),
            res is Ok ==> final(arr)@.len() == old(arr)@.len() && (forall|j: int|
                0 <= j < old(arr)@.len() ==> final(arr)@[j] == old(arr)@[j].sub_spec(v2@[j])),
    {
        let n = arr.len();
        if n != v2.len() {
            return Err(ListError::DifferentLength1D);
        }
        let mut i: usize = 0;
        while i < n
            invariant
                i <= n,
                arr@.len() == n,
                forall|j: int| 0 <= j < i ==> arr@[j] == old(arr)@[j].sub_spec(v2@[j]),
                forall|j: int| i <= j < n ==> arr@[j] == old(arr)@[j],
            decreases n - i,
        {
            let v = arr[i].sub(v2[i]);
            arr.set(i, v);
            i = i + 1;
        }
        Ok(())
    }

    /// Multiplies by the vector `v2` elementwise; lengths must agree.
    #[verifier::loop_isolation(false)]
    pub fn self_ele_mult_vec_v2(arr: &mut Vec<T>, v2: &Vec<T>) -> (res: Result<(), ListError>)
        ensures
            res is Ok <==> old(arr)@.len() == v2@.len(),
            res is Err ==> final(arr)@ == old(arr)@ && res == Err::<(), ListError>(
                ListError::DifferentLength1D,
            ),
            res is Ok ==> final(arr)@.len() == old(arr)@.len() && (forall|j: int|
                0 <= j < old(arr)@.len() ==> final(arr)@[j] == old(arr)@[j].mul_spec(v2@[j])),
    {
        let n = arr.len();
        if n != v2.len() {
            return Err(ListError::DifferentLength1D);
        }
        let mut i: usize = 0;
        while i < n
            invariant
                i <= n,
                arr@.len() == n,
                forall|j: int| 0 <= j < i ==> arr@[j] == old(arr)@[j].mul_spec(v2@[j]),
                forall|j: int| i <= j < n ==> arr@[j] == old(arr)@[j],
            decreases n - i,
        {
            let v = arr[i].mul(v2[i]);
            arr.set(i, v);
            i = i + 1;
        }
        Ok(())
    }

    /// Divides by the vector `v2` elementwise.  The lengths must agree and
    /// every entry of `v2` must be nonzero; either failure is reported
    /// before anything is written.
    #[verifier::loop_isolation(false)]
    pub fn self_ele_div_vec_v2(arr: &mut Vec<T>, v2: &Vec<T>) -> (res: Result<(), ListError>)
        ensures
            res is Err ==> final(arr)@ == old(arr)@,
            old(arr)@.len() != v2@.len() ==> res == Err::<(), ListError>(
                ListError::DifferentLength1D,
            ),
            old(arr)@.len() == v2@.len() && (exists|j: int|
                0 <= j < v2@.len() && v2@[j] == T::zero_spec()) ==> res == Err::<(), ListError>(
                ListError::DivisionByZero,
            ),
            res is Ok <==> old(arr)@.len() == v2@.len() && (forall|j: int|
                0 <= j < v2@.len() ==> v2@[j] != T::zero_spec()),
            res is Ok ==> final(arr)@.len() == old(arr)@.len() && (forall|j: int|
                0 <= j < old(arr)@.len() ==> final(arr)@[j] == old(arr)@[j].div_spec(v2@[j])),
    {
        let n = arr.len();
        if n != v2.len() {
            return Err(ListError::DifferentLength1D);
        }
        let z = T::zero();
        let mut i: usize = 0;
        while i < n
            invariant
                i <= n,
                forall|j: int| 0 <= j < i ==> v2@[j] != T::zero_spec(),
            decreases n - i,
        {
            if v2[i].eq_elem(z) {
                return Err(ListError::DivisionByZero);
            }
            i = i + 1;
        }
        let mut i: usize = 0;
        while i < n
            invariant
                i <= n,
                arr@.len() == n,
                forall|j: int| 0 <= j < i ==> arr@[j] == old(arr)@[j].div_spec(v2@[j]),
                forall|j: int| i <= j < n ==> arr@[j] == old(arr)@[j],
            decreases n - i,
        {
            let v = arr[i].div(v2[i]);
            arr.set(i, v);
            i = i + 1;
        }
        Ok(())
    }
}

impl<T: Element> Array<T> {
    /// Elementwise matrix update: combines each logical entry of `arr` with
    /// the matching entry of `other`, each resolved through its own layout.
    /// Shapes must agree.
    #[verifier::loop_isolation(false)]
    pub fn self_add_mat_m(
        arr: &mut Vec<T>,
        other: &Vec<T>,
        dim1: (usize, usize),
        dim2: (usize, usize),
        by_row1: bool,
        by_row2: bool,
    ) -> (res: Result<(), ListError>)
        requires
            old(arr)@.len() == dim1.0 * dim1.1,
            dim1.0 * dim1.1 <= usize::MAX,
            other@.len() == dim2.0 * dim2.1,
            dim2.0 * dim2.1 <= usize::MAX,
        ensures
            res is Ok <==> dim1 == dim2,
            res is Err ==> final(arr)@ == old(arr)@ && res == Err::<(), ListError>(
                ListError::MismatchedDim,
            ),
            res is Ok ==> final(arr)@.len() == old(arr)@.len() && (forall|r: int, c: int|
                0 <= r < dim1.0 && 0 <= c < dim1.1 ==> final(arr)@[sp_idx(
                    by_row1,
                    r,
                    c,
                    (dim1.0 as int, dim1.1 as int),
                )] == old(arr)@[sp_idx(by_row1, r, c, (dim1.0 as int, dim1.1 as int))].add_spec(
                    other@[sp_idx(by_row2, r, c, (dim2.0 as int, dim2.1 as int))],
                )),
    {
        if dim1.0 != dim2.0 || dim1.1 != dim2.1 {
            return Err(ListError::MismatchedDim);
        }
        let ghost dims = (dim1.0 as int, dim1.1 as int);
        proof {
            lemma_idx_inj(by_row1, dims);
            lemma_idx_bound_all(by_row1, dims);
            lemma_idx_bound_all(by_row2, dims);
        }
        let mut r: usize = 0;
        while r < dim1.0
            invariant
                r <= dim1.0,
                arr@.len() == old(arr)@.len(),
                forall|r0: int, c0: int|
                    0 <= r0 < r && 0 <= c0 < dim1.1 ==> arr@[sp_idx(by_row1, r0, c0, dims)] == old(
                        arr,
                    )@[sp_idx(by_row1, r0, c0, dims)].add_spec(
                        other@[sp_idx(by_row2, r0, c0, dims)],
                    ),
                forall|r0: int, c0: int|
                    0 <= r0 < dim1.0 && 0 <= c0 < dim1.1 && r0 >= r ==> arr@[sp_idx(
                        by_row1,
                        r0,
                        c0,
                        dims,
                    )] == old(arr)@[sp_idx(by_row1, r0, c0, dims)],
            decreases dim1.0 - r,
        {
            let mut c: usize = 0;
            while c < dim1.1
                invariant
                    r < dim1.0,
                    c <= dim1.1,
                    arr@.len() == old(arr)@.len(),
                    forall|r0: int, c0: int|
                        0 <= r0 < r && 0 <= c0 < dim1.1 ==> arr@[sp_idx(by_row1, r0, c0, dims)]
                            == old(arr)@[sp_idx(by_row1, r0, c0, dims)].add_spec(
                            other@[sp_idx(by_row2, r0, c0, dims)],
                        ),
                    forall|c0: int|
                        0 <= c0 < c ==> arr@[sp_idx(by_row1, r as int, c0, dims)] == old(
                            arr,
                        )@[sp_idx(by_row1, r as int, c0, dims)].add_spec(
                            other@[sp_idx(by_row2, r as int, c0, dims)],
                        ),
                    forall|r0: int, c0: int|
                        0 <= r0 < dim1.0 && 0 <= c0 < dim1.1 && (r0 > r || (r0 == r && c0 >= c))
                            ==> arr@[sp_idx(by_row1, r0, c0, dims)] == old(arr)@[sp_idx(
                            by_row1,
                            r0,
                            c0,
                            dims,
                        )],
                decreases dim1.1 - c,
            {
                let k1 = lidx(by_row1, r, c, dim1);
                let k2 = lidx(by_row2, r, c, dim2);
                let v = arr[k1].add(other[k2]);
                arr.set(k1, v);
                c = c + 1;
            }
            r = r + 1;
        }
        Ok(())
    }

    /// Elementwise matrix subtraction, layout-aware; shapes must agree.
    #[verifier::loop_isolation(false)]
    pub fn self_minus_mat_m(
        arr: &mut Vec<T>,
        other: &Vec<T>,
        dim1: (usize, usize),
        dim2: (usize, usize),
        by_row1: bool,
        by_row2: bool,
    ) -> (res: Result<(), ListError>)
        requires
            old(arr)@.len() == dim1.0 * dim1.1,
            dim1.0 * dim1.1 <= usize::MAX,
            other@.len() == dim2.0 * dim2.1,
            dim2.0 * dim2.1 <= usize::MAX,
        ensures
            res is Ok <==> dim1 == dim2,
            res is Err ==> final(arr)@ == old(arr)@ && res == Err::<(), ListError>(
                ListError::MismatchedDim,
            ),
            res is Ok ==> final(arr)@.len() == old(arr)@.len() && (forall|r: int, c: int|
                0 <= r < dim1.0 && 0 <= c < dim1.1 ==> final(arr)@[sp_idx(
                    by_row1,
                    r,
                    c,
                    (dim1.0 as int, dim1.1 as int),
                )] == old(arr)@[sp_idx(by_row1, r, c, (dim1.0 as int, dim1.1 as int))].sub_spec(
                    other@[sp_idx(by_row2, r, c, (dim2.0 as int, dim2.1 as int))],
                )),
    {
        if dim1.0 != dim2.0 || dim1.1 != dim2.1 {
            return Err(ListError::MismatchedDim);
        }
        let ghost dims = (dim1.0 as int, dim1.1 as int);
        proof {
            lemma_idx_inj(by_row1, dims);
            lemma_idx_bound_all(by_row1, dims);
            lemma_idx_bound_all(by_row2, dims);
        }
        let mut r: usize = 0;
        while r < dim1.0
            invariant
                r <= dim1.0,
                arr@.len() == old(arr)@.len(),
                forall|r0: int, c0: int|
                    0 <= r0 < r && 0 <= c0 < dim1.1 ==> arr@[sp_idx(by_row1, r0, c0, dims)] == old(
                        arr,
                    )@[sp_idx(by_row1, r0, c0, dims)].sub_spec(
                        other@[sp_idx(by_row2, r0, c0, dims)],
                    ),
                forall|r0: int, c0: int|
                    0 <= r0 < dim1.0 && 0 <= c0 < dim1.1 && r0 >= r ==> arr@[sp_idx(
                        by_row1,
                        r0,
                        c0,
                        dims,
                    )] == old(arr)@[sp_idx(by_row1, r0, c0, dims)],
            decreases dim1.0 - r,
        {
            let mut c: usize = 0;
            while c < dim1.1
                invariant
                    r < dim1.0,
                    c <= dim1.1,
                    arr@.len() == old(arr)@.len(),
                    forall|r0: int, c0: int|
                        0 <= r0 < r && 0 <= c0 < dim1.1 ==> arr@[sp_idx(by_row1, r0, c0, dims)]
                            == old(arr)@[sp_idx(by_row1, r0, c0, dims)].sub_spec(
                            other@[sp_idx(by_row2, r0, c0, dims)],
                        ),
                    forall|c0: int|
                        0 <= c0 < c ==> arr@[sp_idx(by_row1, r as int, c0, dims)] == old(
                            arr,
                        )@[sp_idx(by_row1, r as int, c0, dims)].sub_spec(
                            other@[sp_idx(by_row2, r as int, c0, dims)],
                        ),
                    forall|r0: int, c0: int|
                        0 <= r0 < dim1.0 && 0 <= c0 < dim1.1 && (r0 > r || (r0 == r && c0 >= c))
                            ==> arr@[sp_idx(by_row1, r0, c0, dims)] == old(arr)@[sp_idx(
                            by_row1,
                            r0,
                            c0,
                            dims,
                        )],
                decreases dim1.1 - c,
            {
                let k1 = lidx(by_row1, r, c, dim1);
                let k2 = lidx(by_row2, r, c, dim2);
                let v = arr[k1].sub(other[k2]);
                arr.set(k1, v);
                c = c + 1;
            }
            r = r + 1;
        }
        Ok(())
    }

    /// Elementwise matrix multiplication, layout-aware; shapes must agree.
    #[verifier::loop_isolation(false)]
    pub fn self_ele_mult_mat_m(
        arr: &mut Vec<T>,
        other: &Vec<T>,
        dim1: (usize, usize),
        dim2: (usize, usize),
        by_row1: bool,
        by_row2: bool,
    ) -> (res: Result<(), ListError>)
        requires
            old(arr)@.len() == dim1.0 * dim1.1,
            dim1.0 * dim1.1 <= usize::MAX,
            other@.len() == dim2.0 * dim2.1,
            dim2.0 * dim2.1 <= usize::MAX,
        ensures
            res is Ok <==> dim1 == dim2,
            res is Err ==> final(arr)@ == old(arr)@ && res == Err::<(), ListError>(
                ListError::MismatchedDim,
            ),
            res is Ok ==> final(arr)@.len() == old(arr)@.len() && (forall|r: int, c: int|
                0 <= r < dim1.0 && 0 <= c < dim1.1 ==> final(arr)@[sp_idx(
                    by_row1,
                    r,
                    c,
                    (dim1.0 as int, dim1.1 as int),
                )] == old(arr)@[sp_idx(by_row1, r, c, (dim1.0 as int, dim1.1 as int))].mul_spec(
                    other@[sp_idx(by_row2, r, c, (dim2.0 as int, dim2.1 as int))],
                )),
    {
        if dim1.0 != dim2.0 || dim1.1 != dim2.1 {
            return Err(ListError::MismatchedDim);
        }
        let ghost dims = (dim1.0 as int, dim1.1 as int);
        proof {
            lemma_idx_inj(by_row1, dims);
            lemma_idx_bound_all(by_row1, dims);
            lemma_idx_bound_all(by_row2, dims);
        }
        let mut r: usize = 0;
        while r < dim1.0
            invariant
                r <= dim1.0,
                arr@.len() == old(arr)@.len(),
                forall|r0: int, c0: int|
                    0 <= r0 < r && 0 <= c0 < dim1.1 ==> arr@[sp_idx(by_row1, r0, c0, dims)] == old(
                        arr,
                    )@[sp_idx(by_row1, r0, c0, dims)].mul_spec(
                        other@[sp_idx(by_row2, r0, c0, dims)],
                    ),
                forall|r0: int, c0: int|
                    0 <= r0 < dim1.0 && 0 <= c0 < dim1.1 && r0 >= r ==> arr@[sp_idx(
                        by_row1,
                        r0,
                        c0,
                        dims,
                    )] == old(arr)@[sp_idx(by_row1, r0, c0, dims)],
            decreases dim1.0 - r,
        {
            let mut c: usize = 0;
            while c < dim1.1
                invariant
                    r < dim1.0,
                    c <= dim1.1,
                    arr@.len() == old(arr)@.len(),
                    forall|r0: int, c0: int|
                        0 <= r0 < r && 0 <= c0 < dim1.1 ==> arr@[sp_idx(by_row1, r0, c0, dims)]
                            == old(arr)@[sp_idx(by_row1, r0, c0, dims)].mul_spec(
                            other@[sp_idx(by_row2, r0, c0, dims)],
                        ),
                    forall|c0: int|
                        0 <= c0 < c ==> arr@[sp_idx(by_row1, r as int, c0, dims)] == old(
                            arr,
                        )@[sp_idx(by_row1, r as int, c0, dims)].mul_spec(
                            other@[sp_idx(by_row2, r as int, c0, dims)],
                        ),
                    forall|r0: int, c0: int|
                        0 <= r0 < dim1.0 && 0 <= c0 < dim1.1 && (r0 > r || (r0 == r && c0 >= c))
                            ==> arr@[sp_idx(by_row1, r0, c0, dims)] == old(arr)@[sp_idx(
                            by_row1,
                            r0,
                            c0,
                            dims,
                        )],
                decreases dim1.1 - c,
            {
                let k1 = lidx(by_row1, r, c, dim1);
                let k2 = lidx(by_row2, r, c, dim2);
                let v = arr[k1].mul(other[k2]);
                arr.set(k1, v);
                c = c + 1;
            }
            r = r + 1;
        }
        Ok(())
    }
}

impl<T: Element> Array<T> {
    /// Elementwise matrix division, layout-aware.  The shapes must agree
    /// and every entry of `other` must be nonzero; either failure is
    /// reported before anything is written.
    #[verifier::loop_isolation(false)]
    pub fn self_ele_div_mat_m(
        arr: &mut Vec<T>,
        other: &Vec<T>,
        dim1: (usize, usize),
        dim2: (usize, usize),
        by_row1: bool,
        by_row2: bool,
    ) -> (res: Result<(), ListError>)
        requires
            old(arr)@.len() == dim1.0 * dim1.1,
            dim1.0 * dim1.1 <= usize::MAX,
            other@.len() == dim2.0 * dim2.1,
            dim2.0 * dim2.1 <= usize::MAX,
        ensures
            res is Err ==> final(arr)@ == old(arr)@,
            dim1 != dim2 ==> res == Err::<(), ListError>(ListError::MismatchedDim),
            dim1 == dim2 && (exists|j: int|
                0 <= j < other@.len() && other@[j] == T::zero_spec()) ==> res == Err::<
                (),
                ListError,
            >(ListError::DivisionByZero),
            res is Ok <==> dim1 == dim2 && (forall|j: int|
                0 <= j < other@.len() ==> other@[j] != T::zero_spec()),
            res is Ok ==> final(arr)@.len() == old(arr)@.len() && (forall|r: int, c: int|
                0 <= r < dim1.0 && 0 <= c < dim1.1 ==> final(arr)@[sp_idx(
                    by_row1,
                    r,
                    c,
                    (dim1.0 as int, dim1.1 as int),
                )] == old(arr)@[sp_idx(by_row1, r, c, (dim1.0 as int, dim1.1 as int))].div_spec(
                    other@[sp_idx(by_row2, r, c, (dim2.0 as int, dim2.1 as int))],
                )),
    {
        if dim1.0 != dim2.0 || dim1.1 != dim2.1 {
            return Err(ListError::MismatchedDim);
        }
        let z = T::zero();
        let n = other.len();
        let mut j: usize = 0;
        while j < n
            invariant
                j <= n,
                forall|j0: int| 0 <= j0 < j ==> other@[j0] != T::zero_spec(),
            decreases n - j,
        {
            if other[j].eq_elem(z) {
                return Err(ListError::DivisionByZero);
            }
            j = j + 1;
        }
        let ghost dims = (dim1.0 as int, dim1.1 as int);
        proof {
            lemma_idx_inj(by_row1, dims);
            lemma_idx_bound_all(by_row1, dims);
            lemma_idx_bound_all(by_row2, dims);
        }
        let mut r: usize = 0;
        while r < dim1.0
            invariant
                r <= dim1.0,
                arr@.len() == old(arr)@.len(),
                forall|r0: int, c0: int|
                    0 <= r0 < r && 0 <= c0 < dim1.1 ==> arr@[sp_idx(by_row1, r0, c0, dims)] == old(
                        arr,
                    )@[sp_idx(by_row1, r0, c0, dims)].div_spec(
                        other@[sp_idx(by_row2, r0, c0, dims)],
                    ),
                forall|r0: int, c0: int|
                    0 <= r0 < dim1.0 && 0 <= c0 < dim1.1 && r0 >= r ==> arr@[sp_idx(
                        by_row1,
                        r0,
                        c0,
                        dims,
                    )] == old(arr)@[sp_idx(by_row1, r0, c0, dims)],
            decreases dim1.0 - r,
        {
            let mut c: usize = 0;
            while c < dim1.1
                invariant
                    r < dim1.0,
                    c <= dim1.1,
                    arr@.len() == old(arr)@.len(),
                    forall|r0: int, c0: int|
                        0 <= r0 < r && 0 <= c0 < dim1.1 ==> arr@[sp_idx(by_row1, r0, c0, dims)]
                            == old(arr)@[sp_idx(by_row1, r0, c0, dims)].div_spec(
                            other@[sp_idx(by_row2, r0, c0, dims)],
                        ),
                    forall|c0: int|
                        0 <= c0 < c ==> arr@[sp_idx(by_row1, r as int, c0, dims)] == old(
                            arr,
                        )@[sp_idx(by_row1, r as int, c0, dims)].div_spec(
                            other@[sp_idx(by_row2, r as int, c0, dims)],
                        ),
                    forall|r0: int, c0: int|
                        0 <= r0 < dim1.0 && 0 <= c0 < dim1.1 && (r0 > r || (r0 == r && c0 >= c))
                            ==> arr@[sp_idx(by_row1, r0, c0, dims)] == old(arr)@[sp_idx(
                            by_row1,
                            r0,
                            c0,
                            dims,
                        )],
                decreases dim1.1 - c,
            {
                let k1 = lidx(by_row1, r, c, dim1);
                let k2 = lidx(by_row2, r, c, dim2);
                let v = arr[k1].div(other[k2]);
                arr.set(k1, v);
                c = c + 1;
            }
            r = r + 1;
        }
        Ok(())
    }

    /// One matrix product: writes `m1 * m2` row-major into `res`, reading
    /// each operand through its own layout.
    #[verifier::loop_isolation(false)]
    pub fn mat_m1_mat_mult_mat_m2(
        res: &mut Vec<T>,
        m1: &Vec<T>,
        m2: &Vec<T>,
        new_dim: (usize, usize),
        ni: usize,
        by_row_m1: bool,
        by_row_m2: bool,
    )
        requires
            old(res)@.len() == new_dim.0 * new_dim.1,
            new_dim.0 * new_dim.1 <= usize::MAX,
            m1@.len() == new_dim.0 * ni,
            new_dim.0 * ni <= usize::MAX,
            m2@.len() == ni * new_dim.1,
            ni * new_dim.1 <= usize::MAX,
        ensures
            final(res)@.len() == old(res)@.len(),
            forall|r: int, c: int|
                0 <= r < new_dim.0 && 0 <= c < new_dim.1 ==> final(res)@[sp_idx(true, 
                    r,
                    c,
                    (new_dim.0 as int, new_dim.1 as int),
                )] == sp_mm_sum(
                    m1@,
                    m2@,
                    r,
                    c,
                    ni as int,
                    (new_dim.0 as int, ni as int),
                    (ni as int, new_dim.1 as int),
                    by_row_m1,
                    by_row_m2,
                ),
    {
        let ghost dims = (new_dim.0 as int, new_dim.1 as int);
        let ghost d1 = (new_dim.0 as int, ni as int);
        let ghost d2 = (ni as int, new_dim.1 as int);
        proof {
            lemma_idx_inj(true, dims);
            lemma_idx_bound_all(true, dims);
            lemma_idx_bound_all(by_row_m1, d1);
            lemma_idx_bound_all(by_row_m2, d2);
        }
        let mut r: usize = 0;
        while r < new_dim.0
            invariant
                r <= new_dim.0,
                res@.len() == old(res)@.len(),
                forall|r0: int, c0: int|
                    0 <= r0 < r && 0 <= c0 < new_dim.1 ==> res@[sp_idx(true, r0, c0, dims)] == sp_mm_sum(
                        m1@,
                        m2@,
                        r0,
                        c0,
                        ni as int,
                        d1,
                        d2,
                        by_row_m1,
                        by_row_m2,
                    ),
            decreases new_dim.0 - r,
        {
            let mut c: usize = 0;
            while c < new_dim.1
                invariant
                    r < new_dim.0,
                    c <= new_dim.1,
                    res@.len() == old(res)@.len(),
                    forall|r0: int, c0: int|
                        0 <= r0 < r && 0 <= c0 < new_dim.1 ==> res@[sp_idx(true, r0, c0, dims)]
                            == sp_mm_sum(
                            m1@,
                            m2@,
                            r0,
                            c0,
                            ni as int,
                            d1,
                            d2,
                            by_row_m1,
                            by_row_m2,
                        ),
                    forall|c0: int|
                        0 <= c0 < c ==> res@[sp_idx(true, r as int, c0, dims)] == sp_mm_sum(
                            m1@,
                            m2@,
                            r as int,
                            c0,
                            ni as int,
                            d1,
                            d2,
                            by_row_m1,
                            by_row_m2,
                        ),
                decreases new_dim.1 - c,
            {
                let mut sum = T::zero();
                let mut i: usize = 0;
                while i < ni
                    invariant
                        i <= ni,
                        sum == sp_mm_sum(
                            m1@,
                            m2@,
                            r as int,
                            c as int,
                            i as int,
                            d1,
                            d2,
                            by_row_m1,
                            by_row_m2,
                        ),
                    decreases ni - i,
                {
                    let k1 = lidx(by_row_m1, r, i, (new_dim.0, ni));
                    let k2 = lidx(by_row_m2, i, c, (ni, new_dim.1));
                    sum = sum.add(m1[k1].mul(m2[k2]));
                    i = i + 1;
                }
                let k = lidx(true, r, c, new_dim);
                res.set(k, sum);
                c = c + 1;
            }
            r = r + 1;
        }
    }

    /// Dot product of two vectors of equal, nonzero length.
    #[verifier::loop_isolation(false)]
    pub fn vec_a_dot_vec_b(va: &Vec<T>, vb: &Vec<T>) -> (r: T)
        requires
            va@.len() == vb@.len(),
            va@.len() >= 1,
        ensures
            r == sp_dot1(va@, vb@, va@.len() as int),
    {
        let valen = va.len();
        let mut sum = va[0].mul(vb[0]);
        let mut i: usize = 1;
        while i < valen
            invariant
                1 <= i <= valen,
                sum == sp_dot1(va@, vb@, i as int),
            decreases valen - i,
        {
            sum = sum.add(va[i].mul(vb[i]));
            i = i + 1;
        }
        sum
    }

    /// Matrix-vector product: `res[r] = sum_i am[r, i] * b[i]`.
    #[verifier::loop_isolation(false)]
    pub fn mat_a_dot_vec_b(
        am: &Vec<T>,
        b: &Vec<T>,
        res: &mut Vec<T>,
        dim: (usize, usize),
        by_row: bool,
    )
        requires
            am@.len() == dim.0 * dim.1,
            dim.0 * dim.1 <= usize::MAX,
            b@.len() == dim.1,
            old(res)@.len() >= dim.0,
        ensures
            final(res)@.len() == old(res)@.len(),
            forall|j: int| dim.0 <= j < old(res)@.len() ==> final(res)@[j] == old(res)@[j],
            forall|r: int|
                0 <= r < dim.0 ==> final(res)@[r] == sp_mv_sum(
                    am@,
                    b@,
                    r,
                    dim.1 as int,
                    (dim.0 as int, dim.1 as int),
                    by_row,
                ),
    {
        let ghost dims = (dim.0 as int, dim.1 as int);
        proof {
            lemma_idx_bound_all(by_row, dims);
        }
        let mut r: usize = 0;
        while r < dim.0
            invariant
                r <= dim.0,
                res@.len() == old(res)@.len(),
                forall|j: int| r <= j < old(res)@.len() ==> res@[j] == old(res)@[j],
                forall|r0: int|
                    0 <= r0 < r ==> res@[r0] == sp_mv_sum(am@, b@, r0, dim.1 as int, dims, by_row),
            decreases dim.0 - r,
        {
            let mut sum = T::zero();
            let mut i: usize = 0;
            while i < dim.1
                invariant
                    i <= dim.1,
                    sum == sp_mv_sum(am@, b@, r as int, i as int, dims, by_row),
                decreases dim.1 - i,
            {
                let k = lidx(by_row, r, i, dim);
                sum = sum.add(am[k].mul(b[i]));
                i = i + 1;
            }
            res.set(r, sum);
            r = r + 1;
        }
    }

    /// Vector-matrix product: `res[c] = sum_i am[i, c] * b[i]`.
    #[verifier::loop_isolation(false)]
    pub fn vec_b_dot_mat_a(
        am: &Vec<T>,
        b: &Vec<T>,
        res: &mut Vec<T>,
        dim: (usize, usize),
        by_row: bool,
    )
        requires
            am@.len() == dim.0 * dim.1,
            dim.0 * dim.1 <= usize::MAX,
            b@.len() == dim.0,
            old(res)@.len() >= dim.1,
        ensures
            final(res)@.len() == old(res)@.len(),
            forall|j: int| dim.1 <= j < old(res)@.len() ==> final(res)@[j] == old(res)@[j],
            forall|c: int|
                0 <= c < dim.1 ==> final(res)@[c] == sp_vm_sum(
                    am@,
                    b@,
                    c,
                    dim.0 as int,
                    (dim.0 as int, dim.1 as int),
                    by_row,
                ),
    {
        let ghost dims = (dim.0 as int, dim.1 as int);
        proof {
            lemma_idx_bound_all(by_row, dims);
        }
        let mut c: usize = 0;
        while c < dim.1
            invariant
                c <= dim.1,
                res@.len() == old(res)@.len(),
                forall|j: int| c <= j < old(res)@.len() ==> res@[j] == old(res)@[j],
                forall|c0: int|
                    0 <= c0 < c ==> res@[c0] == sp_vm_sum(am@, b@, c0, dim.0 as int, dims, by_row),
            decreases dim.1 - c,
        {
            let mut sum = T::zero();
            let mut i: usize = 0;
            while i < dim.0
                invariant
                    i <= dim.0,
                    sum == sp_vm_sum(am@, b@, c as int, i as int, dims, by_row),
                decreases dim.0 - i,
            {
                let k = lidx(by_row, i, c, dim);
                sum = sum.add(am[k].mul(b[i]));
                i = i + 1;
            }
            res.set(c, sum);
            c = c + 1;
        }
    }

    /// Sum of absolute differences of two vectors of equal length.
    #[verifier::loop_isolation(false)]
    pub fn dist_n1_vec_v1_v2(v1: &Vec<T>, v2: &Vec<T>) -> (res: Result<T, ListError>)
        ensures
            res is Ok <==> v1@.len() == v2@.len(),
            v1@.len() == v2@.len() ==> res == Ok::<T, ListError>(
                sp_dist1_sum(v1@, v2@, v1@.len() as int),
            ),
            v1@.len() != v2@.len() ==> res == Err::<T, ListError>(ListError::DifferentLength1D),
    {
        let z = T::zero();
        let mut sum = z;
        let length = v1.len();
        if length != v2.len() {
            return Err(ListError::DifferentLength1D);
        }
        let mut i: usize = 0;
        while i < length
            invariant
                i <= length,
                sum == sp_dist1_sum(v1@, v2@, i as int),
            decreases length - i,
        {
            sum = sum.add(Array::abs(v1[i].sub(v2[i]), z));
            i = i + 1;
        }
        Ok(sum)
    }
}

/// The row holding the largest-magnitude entry of column `r` among rows
/// `r..r+k`, scanned upward with the earliest maximum kept, paired with
/// that magnitude.
pub open spec fn sp_pivot_row<T: Element>(
    a: Seq<T>,
    r: int,
    k: int,
    dim: (int, int),
    by_row: bool,
    z: T,
) -> (int, T)
    decreases k,
{
    if k <= 1 {
        (r, sp_abs(a[sp_idx(by_row, r, r, dim)], z))
    } else {
        let prev = sp_pivot_row(a, r, k - 1, dim, by_row, z);
        let v = sp_abs(a[sp_idx(by_row, r + k - 1, r, dim)], z);
        if prev.1.lt_spec(v) {
            (r + k - 1, v)
        } else {
            prev
        }
    }
}

/// Scans columns `r..r+w` of one row against a running best candidate,
/// keeping the earlier entry on ties.
pub open spec fn sp_scan_row_from<T: Element>(
    a: Seq<T>,
    row: int,
    r: int,
    w: int,
    prev: ((int, int), T),
    dim: (int, int),
    by_row: bool,
    z: T,
) -> ((int, int), T)
    decreases w,
{
    if w <= 0 {
        prev
    } else {
        let q = sp_scan_row_from(a, row, r, w - 1, prev, dim, by_row, z);
        let v = sp_abs(a[sp_idx(by_row, row, r + w - 1, dim)], z);
        if q.1.lt_spec(v) {
            ((row, r + w - 1), v)
        } else {
            q
        }
    }
}

/// The coordinates of the largest-magnitude entry of the trailing
/// submatrix rooted at `(r, r)`, scanned row by row over `k` rows with the
/// earliest maximum kept, paired with that magnitude.
pub open spec fn sp_pivot_rc<T: Element>(
    a: Seq<T>,
    r: int,
    k: int,
    dim: (int, int),
    by_row: bool,
    z: T,
) -> ((int, int), T)
    decreases k,
{
    if k <= 0 {
        ((r, r), sp_abs(a[sp_idx(by_row, r, r, dim)], z))
    } else {
        sp_scan_row_from(a, r + k - 1, r, dim.1 - r, sp_pivot_rc(a, r, k - 1, dim, by_row, z), dim, by_row, z)
    }
}

/// Where coordinate `x` goes when `i` and `j` trade places.
pub open spec fn sp_swap_coord(x: int, i: int, j: int) -> int {
    if x == i {
        j
    } else if x == j {
        i
    } else {
        x
    }
}

impl<T: Element> Array<T> {
    /// Partial pivoting at step `r`: finds the largest-magnitude entry of
    /// column `r` at or below the diagonal, swaps its row up to row `r`,
    /// and records the swap.
    #[verifier::loop_isolation(false)]
    pub fn permute_r(
        arr: &mut Vec<T>,
        r: usize,
        dim: (usize, usize),
        z: T,
        p: &mut Vec<(usize, usize)>,
        by_row: bool,
    )
        requires
            old(arr)@.len() == dim.0 * dim.1,
            dim.0 * dim.1 <= usize::MAX,
            r < dim.0,
            r < dim.1,
            old(p)@.len() < usize::MAX,
        ensures
            final(arr)@.len() == old(arr)@.len(),
            ({
                let piv = sp_pivot_row(
                    old(arr)@,
                    r as int,
                    dim.0 - r,
                    (dim.0 as int, dim.1 as int),
                    by_row,
                    z,
                );
                &&& 0 <= piv.0 < dim.0
                &&& (forall|r0: int, c0: int|
                    0 <= r0 < dim.0 && 0 <= c0 < dim.1 ==> final(arr)@[sp_idx(
                        by_row,
                        r0,
                        c0,
                        (dim.0 as int, dim.1 as int),
                    )] == old(arr)@[sp_idx(
                        by_row,
                        sp_swap_coord(r0, r as int, piv.0),
                        c0,
                        (dim.0 as int, dim.1 as int),
                    )])
                &&& final(p)@ == if piv.0 == r as int {
                    old(p)@
                } else {
                    old(p)@.push((r, piv.0 as usize))
                }
            }),
    {
        let ghost dims = (dim.0 as int, dim.1 as int);
        proof {
            lemma_idx_inj(by_row, dims);
            lemma_idx_bound_all(by_row, dims);
        }
        let (nr, nc) = dim;
        let mut maxr = r;
        let k0 = lidx(by_row, r, r, dim);
        let mut maxv = Array::abs(arr[k0], z);
        let mut i: usize = 1;
        while i < nr - r
            invariant
                1 <= i <= nr - r,
                r <= maxr < dim.0,
                (maxr as int, maxv) == sp_pivot_row(arr@, r as int, i as int, dims, by_row, z),
            decreases nr - r - i,
        {
            let k1 = lidx(by_row, r + i, r, dim);
            let val1 = Array::abs(arr[k1], z);
            if maxv.lt(val1) {
                maxr = r + i;
                maxv = val1;
            }
            i = i + 1;
        }
        if r != maxr {
            Array::swap_r_ij(arr, r, maxr, 0, nc, by_row, dim);
            p.push((r, maxr));
        }
    }

    /// Full pivoting at step `r`: finds the largest-magnitude entry of the
    /// trailing submatrix, swaps its row and column up to `(r, r)`, and
    /// records each swap that happened.
    #[verifier::loop_isolation(false)]
    pub fn permute_rc(
        arr: &mut Vec<T>,
        r: usize,
        dim: (usize, usize),
        z: T,
        pr: &mut Vec<(usize, usize)>,
        pc: &mut Vec<(usize, usize)>,
        by_row: bool,
    )
        requires
            old(arr)@.len() == dim.0 * dim.1,
            dim.0 * dim.1 <= usize::MAX,
            r < dim.0,
            r < dim.1,
            old(pr)@.len() < usize::MAX,
            old(pc)@.len() < usize::MAX,
        ensures
            final(arr)@.len() == old(arr)@.len(),
            ({
                let piv = sp_pivot_rc(
                    old(arr)@,
                    r as int,
                    dim.0 - r,
                    (dim.0 as int, dim.1 as int),
                    by_row,
                    z,
                );
                &&& 0 <= piv.0.0 < dim.0
                &&& 0 <= piv.0.1 < dim.1
                &&& (forall|r0: int, c0: int|
                    0 <= r0 < dim.0 && 0 <= c0 < dim.1 ==> final(arr)@[sp_idx(
                        by_row,
                        r0,
                        c0,
                        (dim.0 as int, dim.1 as int),
                    )] == old(arr)@[sp_idx(
                        by_row,
                        sp_swap_coord(r0, r as int, piv.0.0),
                        sp_swap_coord(c0, r as int, piv.0.1),
                        (dim.0 as int, dim.1 as int),
                    )])
                &&& final(pr)@ == if piv.0.0 == r as int {
                    old(pr)@
                } else {
                    old(pr)@.push((r, piv.0.0 as usize))
                }
                &&& final(pc)@ == if piv.0.1 == r as int {
                    old(pc)@
                } else {
                    old(pc)@.push((r, piv.0.1 as usize))
                }
            }),
    {
        let ghost dims = (dim.0 as int, dim.1 as int);
        proof {
            lemma_idx_inj(by_row, dims);
            lemma_idx_bound_all(by_row, dims);
        }
        let (nr, nc) = dim;
        let mut maxr = r;
        let mut maxc = r;
        let k0 = lidx(by_row, r, r, dim);
        let mut maxv = Array::abs(arr[k0], z);
        let mut ri: usize = 0;
        while ri < nr - r
            invariant
                0 <= ri <= nr - r,
                r <= maxr < dim.0,
                r <= maxc < dim.1,
                ((maxr as int, maxc as int), maxv) == sp_pivot_rc(
                    arr@,
                    r as int,
                    ri as int,
                    dims,
                    by_row,
                    z,
                ),
            decreases nr - r - ri,
        {
            let mut ci: usize = 0;
            while ci < nc - r
                invariant
                    0 <= ci <= nc - r,
                    r <= maxr < dim.0,
                    r <= maxc < dim.1,
                    ((maxr as int, maxc as int), maxv) == sp_scan_row_from(
                        arr@,
                        (r + ri) as int,
                        r as int,
                        ci as int,
                        sp_pivot_rc(arr@, r as int, ri as int, dims, by_row, z),
                        dims,
                        by_row,
                        z,
                    ),
                decreases nc - r - ci,
            {
                let k1 = lidx(by_row, r + ri, r + ci, dim);
                let val1 = Array::abs(arr[k1], z);
                if maxv.lt(val1) {
                    maxr = r + ri;
                    maxc = r + ci;
                    maxv = val1;
                }
                ci = ci + 1;
            }
            ri = ri + 1;
        }
        let ghost mid = arr@;
        if r != maxr {
            Array::swap_r_ij(arr, r, maxr, 0, nc, by_row, dim);
            pr.push((r, maxr));
        }
        let ghost after_row = arr@;
        if r != maxc {
            Array::swap_c_ij(arr, r, maxc, 0, nr, by_row, dim);
            pc.push((r, maxc));
        }
    }
}

/// Layout independence of the elementwise kernels: when two buffers of
/// each operand hold the same logical matrix — one under an arbitrary
/// layout, one row-major — the elementwise sum, difference, product and
/// quotient of logical entries agree everywhere with the both-row-major
/// computation.  The elementwise kernels' contracts each pin the entry at
/// `(r, c)` to exactly the left operand's logical entry combined with the
/// right operand's, so any mix of layouts yields the same logical result.
pub proof fn lemma_layout_independence<T: Element>(
    a1: Seq<T>,
    b1: Seq<T>,
    a2: Seq<T>,
    b2: Seq<T>,
    dim: (int, int),
    by_a: bool,
    by_b: bool,
)
    requires
        forall|r: int, c: int|
            0 <= r < dim.0 && 0 <= c < dim.1 ==> a1[#[trigger] sp_idx(by_a, r, c, dim)]
                == a2[sp_idx(true, r, c, dim)],
        forall|r: int, c: int|
            0 <= r < dim.0 && 0 <= c < dim.1 ==> b1[#[trigger] sp_idx(by_b, r, c, dim)]
                == b2[sp_idx(true, r, c, dim)],
    ensures
        forall|r: int, c: int|
            0 <= r < dim.0 && 0 <= c < dim.1 ==> a1[#[trigger] sp_idx(by_a, r, c, dim)].add_spec(
                b1[sp_idx(by_b, r, c, dim)],
            ) == a2[sp_idx(true, r, c, dim)].add_spec(b2[sp_idx(true, r, c, dim)]),
        forall|r: int, c: int|
            0 <= r < dim.0 && 0 <= c < dim.1 ==> a1[#[trigger] sp_idx(by_a, r, c, dim)].sub_spec(
                b1[sp_idx(by_b, r, c, dim)],
            ) == a2[sp_idx(true, r, c, dim)].sub_spec(b2[sp_idx(true, r, c, dim)]),
        forall|r: int, c: int|
            0 <= r < dim.0 && 0 <= c < dim.1 ==> a1[#[trigger] sp_idx(by_a, r, c, dim)].mul_spec(
                b1[sp_idx(by_b, r, c, dim)],
            ) == a2[sp_idx(true, r, c, dim)].mul_spec(b2[sp_idx(true, r, c, dim)]),
        forall|r: int, c: int|
            0 <= r < dim.0 && 0 <= c < dim.1 ==> a1[#[trigger] sp_idx(by_a, r, c, dim)].div_spec(
                b1[sp_idx(by_b, r, c, dim)],
            ) == a2[sp_idx(true, r, c, dim)].div_spec(b2[sp_idx(true, r, c, dim)]),
{
}

} // verus!
