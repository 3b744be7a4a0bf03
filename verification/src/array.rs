//! The tagged array type with matrix support, and the flat-buffer indexing
//! helpers shared by every kernel.

use vstd::prelude::*;

pub mod add_method;
pub mod convert_method;
pub mod div_method;
pub mod eigen_method;
pub mod element;
pub mod fixed;
pub mod inv_method;
pub mod matrix_operations;
pub mod mdet_method;
pub mod minus_method;
pub mod mmult_method;
pub mod mult_method;
pub mod qr_method;

use crate::array::element::Element;

verus! {

/// Flat offset of entry `(r, c)` in a row-major buffer with dimensions `dim`.
pub open spec fn sp_idxr(r: int, c: int, dim: (int, int)) -> int {
    r * dim.1 + c
}

/// Flat offset of entry `(r, c)` in a column-major buffer with dimensions `dim`.
pub open spec fn sp_idxc(r: int, c: int, dim: (int, int)) -> int {
    c * dim.0 + r
}

/// Flat offset of entry `(r, c)` under the layout tag `by_row`.
pub open spec fn sp_idx(by_row: bool, r: int, c: int, dim: (int, int)) -> int {
    if by_row {
        sp_idxr(r, c, dim)
    } else {
        sp_idxc(r, c, dim)
    }
}

pub fn idxr(r: usize, c: usize, dim: (usize, usize)) -> (k: usize)
    requires
        r < dim.0,
        c < dim.1,
        dim.0 * dim.1 <= usize::MAX,
    ensures
        k == sp_idxr(r as int, c as int, (dim.0 as int, dim.1 as int)),
        k < dim.0 * dim.1,
{
    proof {
        lemma_idx_bound(r as int, c as int, (dim.0 as int, dim.1 as int));
    }
    r * dim.1 + c
}

pub fn idxc(r: usize, c: usize, dim: (usize, usize)) -> (k: usize)
    requires
        r < dim.0,
        c < dim.1,
        dim.0 * dim.1 <= usize::MAX,
    ensures
        k == sp_idxc(r as int, c as int, (dim.0 as int, dim.1 as int)),
        k < dim.0 * dim.1,
{
    proof {
        lemma_idx_bound(r as int, c as int, (dim.0 as int, dim.1 as int));
    }
    c * dim.0 + r
}

/// Offset of `(r, c)` under the layout tag `by_row`; every kernel routes its
/// element accesses through this, so operands of different layouts mix freely.
pub fn lidx(by_row: bool, r: usize, c: usize, dim: (usize, usize)) -> (k: usize)
    requires
        r < dim.0,
        c < dim.1,
        dim.0 * dim.1 <= usize::MAX,
    ensures
        k == sp_idx(by_row, r as int, c as int, (dim.0 as int, dim.1 as int)),
        k < dim.0 * dim.1,
{
    if by_row {
        idxr(r, c, dim)
    } else {
        idxc(r, c, dim)
    }
}

/// Both layout offsets land inside the `nr * nc` buffer and are injective
/// over the in-range index pairs.
pub proof fn lemma_idx_bound(r: int, c: int, dim: (int, int))
    requires
        0 <= r < dim.0,
        0 <= c < dim.1,
    ensures
        0 <= sp_idxr(r, c, dim) < dim.0 * dim.1,
        0 <= sp_idxc(r, c, dim) < dim.0 * dim.1,
{
    assert(r * dim.1 + c < dim.0 * dim.1) by (nonlinear_arith)
        requires
            0 <= r < dim.0,
            0 <= c < dim.1,
    ;
    assert(c * dim.0 + r < dim.0 * dim.1) by (nonlinear_arith)
        requires
            0 <= r < dim.0,
            0 <= c < dim.1,
    ;
    assert(r * dim.1 >= 0) by (nonlinear_arith)
        requires
            0 <= r,
            0 <= dim.1,
    ;
    assert(c * dim.0 >= 0) by (nonlinear_arith)
        requires
            0 <= c,
            0 <= dim.0,
    ;
}

/// The index pair that the flat offset `t` holds under the layout tag
/// `by_row`: the inverse of `sp_idx`.
pub open spec fn sp_rc_of(by_row: bool, t: int, dim: (int, int)) -> (int, int) {
    if by_row {
        (t / dim.1, t % dim.1)
    } else {
        (t % dim.0, t / dim.0)
    }
}

/// Over a `dim.0 * dim.1` buffer, `sp_rc_of` inverts `sp_idx` in both
/// directions: every flat offset holds exactly one in-range index pair.
pub proof fn lemma_rc_of(by_row: bool, dim: (int, int))
    requires
        dim.0 >= 0,
        dim.1 >= 0,
    ensures
        forall|t: int|
            0 <= t < dim.0 * dim.1 ==> {
                let rc = #[trigger] sp_rc_of(by_row, t, dim);
                0 <= rc.0 < dim.0 && 0 <= rc.1 < dim.1 && sp_idx(by_row, rc.0, rc.1, dim) == t
            },
        forall|r: int, c: int|
            0 <= r < dim.0 && 0 <= c < dim.1 ==> sp_rc_of(
                by_row,
                #[trigger] sp_idx(by_row, r, c, dim),
                dim,
            ) == (r, c),
{
    assert forall|t: int| 0 <= t < dim.0 * dim.1 implies {
        let rc = #[trigger] sp_rc_of(by_row, t, dim);
        0 <= rc.0 < dim.0 && 0 <= rc.1 < dim.1 && sp_idx(by_row, rc.0, rc.1, dim) == t
    } by {
        let d = if by_row {
            dim.1
        } else {
            dim.0
        };
        let n = if by_row {
            dim.0
        } else {
            dim.1
        };
        assert(d > 0 && n > 0) by (nonlinear_arith)
            requires
                0 <= t < dim.0 * dim.1,
                dim.0 >= 0,
                dim.1 >= 0,
                (d == dim.0 && n == dim.1) || (d == dim.1 && n == dim.0),
        ;
        vstd::arithmetic::div_mod::lemma_fundamental_div_mod(t, d);
        assert(0 <= t % d < d);
        assert(t / d < n) by (nonlinear_arith)
            requires
                t == d * (t / d) + (t % d),
                0 <= t % d,
                t < n * d || t < d * n,
                d > 0,
                t / d >= 0,
        ;
        assert(t / d >= 0) by (nonlinear_arith)
            requires
                t >= 0,
                d > 0,
                t == d * (t / d) + (t % d),
                t % d < d,
        ;
    }
    assert forall|r: int, c: int| 0 <= r < dim.0 && 0 <= c < dim.1 implies sp_rc_of(
        by_row,
        #[trigger] sp_idx(by_row, r, c, dim),
        dim,
    ) == (r, c) by {
        if by_row {
            vstd::arithmetic::div_mod::lemma_fundamental_div_mod_converse(
                r * dim.1 + c,
                dim.1,
                r,
                c,
            );
        } else {
            vstd::arithmetic::div_mod::lemma_fundamental_div_mod_converse(
                c * dim.0 + r,
                dim.0,
                c,
                r,
            );
        }
    }
}

/// Every in-range index pair lands inside the `dim.0 * dim.1` buffer.
pub proof fn lemma_idx_bound_all(by_row: bool, dim: (int, int))
    ensures
        forall|r: int, c: int|
            0 <= r < dim.0 && 0 <= c < dim.1 ==> 0 <= #[trigger] sp_idx(by_row, r, c, dim) < dim.0
                * dim.1,
{
    assert forall|r: int, c: int| 0 <= r < dim.0 && 0 <= c < dim.1 implies 0 <= #[trigger] sp_idx(
        by_row,
        r,
        c,
        dim,
    ) < dim.0 * dim.1 by {
        lemma_idx_bound(r, c, dim);
    }
}

/// Distinct in-range index pairs land on distinct flat offsets, under
/// either layout.
pub proof fn lemma_idx_inj(by_row: bool, dim: (int, int))
    ensures
        forall|r1: int, c1: int, r2: int, c2: int|
            0 <= r1 < dim.0 && 0 <= c1 < dim.1 && 0 <= r2 < dim.0 && 0 <= c2 < dim.1 && (r1 != r2
                || c1 != c2) ==> #[trigger] sp_idx(by_row, r1, c1, dim) != #[trigger] sp_idx(
                by_row,
                r2,
                c2,
                dim,
            ),
{
    assert forall|r1: int, c1: int, r2: int, c2: int|
        0 <= r1 < dim.0 && 0 <= c1 < dim.1 && 0 <= r2 < dim.0 && 0 <= c2 < dim.1 && (r1 != r2 || c1
            != c2) implies #[trigger] sp_idx(by_row, r1, c1, dim) != #[trigger] sp_idx(
        by_row,
        r2,
        c2,
        dim,
    ) by {
        assert(r1 * dim.1 + c1 != r2 * dim.1 + c2) by (nonlinear_arith)
            requires
                0 <= c1 < dim.1,
                0 <= c2 < dim.1,
                r1 != r2 || c1 != c2,
        ;
        assert(c1 * dim.0 + r1 != c2 * dim.0 + r2) by (nonlinear_arith)
            requires
                0 <= r1 < dim.0,
                0 <= r2 < dim.0,
                r1 != r2 || c1 != c2,
        ;
    }
}

/// The tagged array: nothing, one value, a vector, or a matrix held as a
/// flat buffer with explicit dimensions and a layout tag.
#[derive(Debug)]
pub enum Array<T> {
    Null,
    Scalar(T),
    Array1D { arr: Vec<T> },
    Array2D { arr: Vec<T>, nr: usize, nc: usize, put_val_by_row: bool },
}

impl<T> Array<T> {
    /// The matrix buffer; empty for other variants.
    pub open spec fn m_arr(self) -> Seq<T> {
        match self {
            Array::Array2D { arr, .. } => arr@,
            _ => Seq::empty(),
        }
    }

    /// The vector contents; empty for other variants.
    pub open spec fn v_arr(self) -> Seq<T> {
        match self {
            Array::Array1D { arr } => arr@,
            _ => Seq::empty(),
        }
    }

    /// The matrix row count; zero for other variants.
    pub open spec fn m_nr(self) -> int {
        match self {
            Array::Array2D { nr, .. } => nr as int,
            _ => 0,
        }
    }

    /// The matrix column count; zero for other variants.
    pub open spec fn m_nc(self) -> int {
        match self {
            Array::Array2D { nc, .. } => nc as int,
            _ => 0,
        }
    }

    /// The matrix layout tag; row-major for other variants.
    pub open spec fn m_by_row(self) -> bool {
        match self {
            Array::Array2D { put_val_by_row, .. } => put_val_by_row,
            _ => true,
        }
    }

    /// A matrix is well formed when its buffer holds exactly one element
    /// per logical entry.
    pub open spec fn wf(self) -> bool {
        match self {
            Array::Array2D { arr, nr, nc, .. } => arr@.len() == nr * nc,
            _ => true,
        }
    }

    /// The logical matrix entry at `(r, c)`, resolved through the layout tag.
    pub open spec fn m_at(self, r: int, c: int) -> T {
        self.m_arr()[sp_idx(self.m_by_row(), r, c, (self.m_nr(), self.m_nc()))]
    }
}

/// What the two-dimensional constructor turns a signed dimension request
/// into: a negative count asks for that many rows (or columns) with the
/// other dimension inferred from the buffer length.
pub open spec fn sp_dims_from(dim: (int, int), len: int) -> (int, int) {
    if dim.0 < 0 {
        (-dim.0, len / -dim.0)
    } else if dim.1 < 0 {
        (len / -dim.1, -dim.1)
    } else {
        (dim.0, dim.1)
    }
}

/// Everything that can go wrong in an array operation.
#[derive(Debug, PartialEq, Eq, Structural)]
pub enum ListError {
    DivisionByZero,
    MismatchedTypes,
    DifferentLength1D,
    MismatchedDim,
    MatrixDetDimError,
    MatrixInvDimError,
    MatrixMultMismatchedDim,
    MatrixQRHouseHolderDimError,
    EigenMismatchedDim,
    SingularMat,
    NotSquareMat,
    ReflectorZeroLength,
}

impl<T: Element> Array<T> {
    pub fn new_null() -> (r: Self)
        ensures
            r == Array::<T>::Null,
    {
        Self::Null
    }

    pub fn new_scalar(val: T) -> (r: Self)
        ensures
            r == Array::Scalar(val),
    {
        Self::Scalar(val)
    }

    pub fn new_array_1d(arr: Vec<T>) -> (r: Self)
        ensures
            r == (Array::Array1D { arr }),
    {
        Self::Array1D { arr }
    }

    /// Builds a matrix over `arr`, inferring a dimension when it is asked
    /// for by a negative count, and refusing a buffer whose length does not
    /// match the dimensions.
    pub fn new_array_2d(arr: Vec<T>, dim: (isize, isize), put_val_by_row: bool) -> (r: Result<
        Self,
        ListError,
    >)
        ensures
            ({
                let d = sp_dims_from((dim.0 as int, dim.1 as int), arr@.len() as int);
                if d.0 * d.1 == arr@.len() {
                    r == Ok::<Self, ListError>(
                        Array::Array2D {
                            arr,
                            nr: d.0 as usize,
                            nc: d.1 as usize,
                            put_val_by_row,
                        },
                    )
                } else {
                    r == Err::<Self, ListError>(ListError::MismatchedDim)
                }
            }),
    {
        let len = arr.len();
        let mut nr: usize = 0;
        let mut nc: usize = 0;
        if dim.0 < 0 {
            nr = neg_isize_as_usize(dim.0);
            nc = arr.len() / nr;
        } else if dim.1 < 0 {
            nc = neg_isize_as_usize(dim.1);
            nr = arr.len() / nc;
        } else {
            nr = dim.0 as usize;
            nc = dim.1 as usize;
        }
        let fits = match nr.checked_mul(nc) {
            Some(p) => p == len,
            None => false,
        };
        if !fits {
            return Err(ListError::MismatchedDim);
        }
        Ok(Array::Array2D { arr, nr, nc, put_val_by_row })
    }

    /// The element at `i` of a scalar (index zero) or of a vector; the
    /// caller answers for the variant and the bound.
    pub fn get_1d(&self, i: usize) -> (v: T)
        requires
            match self {
                Array::Scalar(_) => i == 0,
                Array::Array1D { arr } => i < arr@.len(),
                _ => false,
            },
        ensures
            match self {
                Array::Scalar(x) => v == x,
                Array::Array1D { arr } => v == arr@[i as int],
                _ => false,
            },
    {
        match self {
            Array::Scalar(val) => *val,
            Array::Array1D { arr } => arr[i],
            _ => unreached(),
        }
    }

    /// Writes the element at `i` of a scalar (index zero) or of a vector.
    pub fn set_1d(&mut self, i: usize, val: T)
        requires
            match (*old(self)) {
                Array::Scalar(_) => i == 0,
                Array::Array1D { arr } => i < arr@.len(),
                _ => false,
            },
        ensures
            match (*old(self)) {
                Array::Scalar(_) => (*final(self)) == Array::Scalar(val),
                Array::Array1D { arr } => (*final(self)) is Array1D && (*final(self)).v_arr()
                    == arr@.update(i as int, val),
                _ => false,
            },
    {
        match self {
            Array::Scalar(x) => {
                *x = val;
            },
            Array::Array1D { arr } => {
                arr.set(i, val);
            },
            _ => {
                proof {
                    assert(false);
                }
            },
        }
    }

    /// The logical matrix entry at `(r, c)`.
    pub fn get_2d(&self, r: usize, c: usize) -> (v: T)
        requires
            self is Array2D,
            self.wf(),
            r < self.m_nr(),
            c < self.m_nc(),
        ensures
            v == self.m_at(r as int, c as int),
    {
        match self {
            Array::Array2D { arr, nr, nc, put_val_by_row } => {
                // Reading the length tells the verifier the buffer fits in memory.
                let l = arr.len();
                assert(l == (*nr) * (*nc));
                let k = lidx(*put_val_by_row, r, c, (*nr, *nc));
                arr[k]
            },
            _ => unreached(),
        }
    }

    /// Writes the logical matrix entry at `(r, c)`.
    pub fn set_2d(&mut self, r: usize, c: usize, val: T)
        requires
            (*old(self)) is Array2D,
            (*old(self)).wf(),
            r < (*old(self)).m_nr(),
            c < (*old(self)).m_nc(),
        ensures
            (*final(self)) is Array2D,
            (*final(self)).wf(),
            (*final(self)).m_nr() == (*old(self)).m_nr(),
            (*final(self)).m_nc() == (*old(self)).m_nc(),
            (*final(self)).m_by_row() == (*old(self)).m_by_row(),
            (*final(self)).m_arr() == (*old(self)).m_arr().update(
                sp_idx(
                    (*old(self)).m_by_row(),
                    r as int,
                    c as int,
                    ((*old(self)).m_nr(), (*old(self)).m_nc()),
                ),
                val,
            ),
    {
        match self {
            Array::Array2D { arr, nr, nc, put_val_by_row } => {
                // Reading the length tells the verifier the buffer fits in memory.
                let l = arr.len();
                assert(l == (*nr) * (*nc));
                let k = lidx(*put_val_by_row, r, c, (*nr, *nc));
                arr.set(k, val);
            },
            _ => {
                proof {
                    assert(false);
                }
            },
        }
    }
}

/// The arrays are the same variant with the same contents, compared at
/// the view level.
pub open spec fn sp_array_same<T>(a: Array<T>, b: Array<T>) -> bool {
    match (a, b) {
        (Array::Null, Array::Null) => true,
        (Array::Scalar(x), Array::Scalar(y)) => x == y,
        (Array::Array1D { .. }, Array::Array1D { .. }) => a.v_arr() == b.v_arr(),
        (Array::Array2D { .. }, Array::Array2D { .. }) => a.m_arr() == b.m_arr() && a.m_nr()
            == b.m_nr() && a.m_nc() == b.m_nc() && a.m_by_row() == b.m_by_row(),
        _ => false,
    }
}

/// Two buffers hold the same elements.
pub open spec fn sp_arr_eq<T>(a: Seq<T>, b: Seq<T>) -> bool {
    a.len() == b.len() && (forall|i: int| 0 <= i < a.len() ==> a[i] == b[i])
}

/// When arrays compare equal: never against `Null` (even two `Null`s
/// differ, a nothing being equal to nothing), value equality for
/// scalars and vectors, and for matrices dimension equality plus buffer
/// equality under one layout or logical-entry equality across layouts.
/// Matrices of different layouts whose buffers do not match their
/// dimensions compare unequal.
pub open spec fn sp_array_eq<T>(a: Array<T>, b: Array<T>) -> bool {
    match (a, b) {
        (_, Array::Null) => false,
        (Array::Null, _) => false,
        (Array::Scalar(x), Array::Scalar(y)) => x == y,
        (Array::Array1D { .. }, Array::Array1D { .. }) => sp_arr_eq(a.v_arr(), b.v_arr()),
        (Array::Array2D { .. }, Array::Array2D { .. }) => {
            &&& a.m_nr() == b.m_nr()
            &&& a.m_nc() == b.m_nc()
            &&& if a.m_by_row() == b.m_by_row() {
                sp_arr_eq(a.m_arr(), b.m_arr())
            } else {
                a.wf() && b.wf() && (forall|r: int, c: int|
                    0 <= r < a.m_nr() && 0 <= c < a.m_nc() ==> a.m_at(r, c) == b.m_at(r, c))
            }
        },
        _ => false,
    }
}

/// Elementwise comparison of two buffers.
fn eq_vec<T: Element>(a: &Vec<T>, b: &Vec<T>) -> (r: bool)
    ensures
        r == sp_arr_eq(a@, b@),
{
    if a.len() != b.len() {
        return false;
    }
    let n = a.len();
    let mut i: usize = 0;
    while i < n
        invariant
            i <= n,
            n == a@.len() == b@.len(),
            forall|j: int| 0 <= j < i ==> a@[j] == b@[j],
        decreases n - i,
    {
        if !a[i].eq_elem(b[i]) {
            return false;
        }
        i = i + 1;
    }
    true
}

/// The executable comparison behind `==` on arrays.
pub fn array_eq<T: Element>(a: &Array<T>, b: &Array<T>) -> (r: bool)
    ensures
        r == sp_array_eq(*a, *b),
{
    match (a, b) {
            (_, Array::Null) => false,
            (Array::Null, _) => false,
            (Array::Scalar(x), Array::Scalar(y)) => x.eq_elem(*y),
            (Array::Array1D { arr: arr1 }, Array::Array1D { arr: arr2 }) => eq_vec(arr1, arr2),
            (
                Array::Array2D { arr: arr1, nr: nr1, nc: nc1, put_val_by_row: by_row1 },
                Array::Array2D { arr: arr2, nr: nr2, nc: nc2, put_val_by_row: by_row2 },
            ) => {
                if *nr1 != *nr2 || *nc1 != *nc2 {
                    proof {
                        assert(a.m_nr() == *nr1 as int);
                        assert(b.m_nr() == *nr2 as int);
                        assert(a.m_nc() == *nc1 as int);
                        assert(b.m_nc() == *nc2 as int);
                        assert(!sp_array_eq(*a, *b));
                    }
                    return false;
                }
                if *by_row1 == *by_row2 {
                    return eq_vec(arr1, arr2);
                }
                // Reading the lengths tells the verifier the buffers fit
                // in memory.
                let l1 = arr1.len();
                let l2 = arr2.len();
                let wf_both = match nr1.checked_mul(*nc1) {
                    Some(p) => l1 == p && l2 == p,
                    None => false,
                };
                if !wf_both {
                    return false;
                }
                let dim = (*nr1, *nc1);
                let mut r: usize = 0;
                while r < dim.0
                    invariant
                        r <= dim.0,
                        dim.0 * dim.1 <= usize::MAX,
                        a.m_arr() == arr1@ && b.m_arr() == arr2@,
                        a.m_nr() == dim.0 as int && a.m_nc() == dim.1 as int,
                        b.m_nr() == dim.0 as int && b.m_nc() == dim.1 as int,
                        a.m_by_row() == *by_row1 && b.m_by_row() == *by_row2,
                        *by_row1 != *by_row2,
                        arr1@.len() == dim.0 * dim.1,
                        arr2@.len() == dim.0 * dim.1,
                        forall|r0: int, c0: int|
                            0 <= r0 < r && 0 <= c0 < dim.1 ==> a.m_at(r0, c0) == b.m_at(
                                r0,
                                c0,
                            ),
                    decreases dim.0 - r,
                {
                    let mut c: usize = 0;
                    while c < dim.1
                        invariant
                            r < dim.0,
                            c <= dim.1,
                            dim.0 * dim.1 <= usize::MAX,
                            a.m_arr() == arr1@ && b.m_arr() == arr2@,
                            a.m_nr() == dim.0 as int && a.m_nc() == dim.1 as int,
                            b.m_nr() == dim.0 as int && b.m_nc() == dim.1 as int,
                            a.m_by_row() == *by_row1 && b.m_by_row() == *by_row2,
                            *by_row1 != *by_row2,
                            arr1@.len() == dim.0 * dim.1,
                            arr2@.len() == dim.0 * dim.1,
                            forall|r0: int, c0: int|
                                0 <= r0 < r && 0 <= c0 < dim.1 ==> a.m_at(r0, c0) == b.m_at(
                                    r0,
                                    c0,
                                ),
                            forall|c0: int|
                                0 <= c0 < c ==> a.m_at(r as int, c0) == b.m_at(
                                    r as int,
                                    c0,
                                ),
                        decreases dim.1 - c,
                    {
                        let k1 = lidx(*by_row1, r, c, dim);
                        let k2 = lidx(*by_row2, r, c, dim);
                        if !arr1[k1].eq_elem(arr2[k2]) {
                            proof {
                                assert(a.m_at(r as int, c as int) == arr1@[k1 as int]);
                                assert(b.m_at(r as int, c as int) == arr2@[k2 as int]);
                            }
                            return false;
                        }
                        c = c + 1;
                    }
                    r = r + 1;
                }
                true
            },
            _ => false,
        }
}

impl<T: Element> PartialEq for Array<T> {
    fn eq(&self, other: &Self) -> (r: bool) {
        array_eq(self, other)
    }
}

impl<T: Element> vstd::std_specs::cmp::PartialEqSpecImpl for Array<T> {
    open spec fn obeys_eq_spec() -> bool {
        true
    }

    open spec fn eq_spec(&self, other: &Self) -> bool {
        sp_array_eq(*self, *other)
    }
}

/// Magnitude of a negative `isize` as a `usize`, computed without overflow.
fn neg_isize_as_usize(x: isize) -> (m: usize)
    requires
        x < 0,
    ensures
        m as int == -(x as int),
{
    let t: isize = -(x + 1);
    (t as usize) + 1
}

} // verus!
