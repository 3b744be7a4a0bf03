//! Matrix multiplication entry points: the serial product and the
//! row-parallel variant, which must agree with it exactly.

use vstd::prelude::*;

use rayon::iter::IntoParallelIterator;
use rayon::iter::ParallelIterator;

use crate::array::element::Element;
use crate::array::lidx;
use crate::array::matrix_operations::sp_mm_sum;
use crate::array::sp_array_same;
use crate::array::sp_idx;
use crate::array::Array;
use crate::array::ListError;

verus! {

/// One row of the matrix product.
pub open spec fn sp_mm_row<T: Element>(
    m1: Seq<T>,
    m2: Seq<T>,
    r: int,
    new_dim: (int, int),
    ni: int,
    by1: bool,
    by2: bool,
) -> Seq<T> {
    Seq::new(
        new_dim.1 as nat,
        |c: int| sp_mm_sum(m1, m2, r, c, ni, (new_dim.0, ni), (ni, new_dim.1), by1, by2),
    )
}

impl<T: Element> Array<T> {
    /// Computes one row of the product; the unit of work the parallel
    /// path hands out.
    #[verifier::loop_isolation(false)]
    pub fn mult_row(
        r: usize,
        m1: &Vec<T>,
        m2: &Vec<T>,
        new_dim: (usize, usize),
        ni: usize,
        by_row_m1: bool,
        by_row_m2: bool,
    ) -> (row: Vec<T>)
        requires
            m1@.len() == new_dim.0 * ni,
            new_dim.0 * ni <= usize::MAX,
            m2@.len() == ni * new_dim.1,
            ni * new_dim.1 <= usize::MAX,
            r < new_dim.0,
        ensures
            row@ == sp_mm_row(
                m1@,
                m2@,
                r as int,
                (new_dim.0 as int, new_dim.1 as int),
                ni as int,
                by_row_m1,
                by_row_m2,
            ),
    {
        let ghost d1 = (new_dim.0 as int, ni as int);
        let ghost d2 = (ni as int, new_dim.1 as int);
        proof {
            crate::array::lemma_idx_bound_all(by_row_m1, d1);
            crate::array::lemma_idx_bound_all(by_row_m2, d2);
        }
        let mut row: Vec<T> = Vec::new();
        let mut c: usize = 0;
        while c < new_dim.1
            invariant
                c <= new_dim.1,
                row@.len() == c,
                forall|c0: int|
                    0 <= c0 < c ==> row@[c0] == sp_mm_sum(
                        m1@,
                        m2@,
                        r as int,
                        c0,
                        ni as int,
                        d1,
                        d2,
                        by_row_m1,
                        by_row_m2,
                    ),
            decreases new_dim.1 - c,
        {
            let mut sum = T::zero();
            let mut i: usize = 0;
            while i < ni
                invariant
                    i <= ni,
                    sum == sp_mm_sum(
                        m1@,
                        m2@,
                        r as int,
                        c as int,
                        i as int,
                        d1,
                        d2,
                        by_row_m1,
                        by_row_m2,
                    ),
                decreases ni - i,
            {
                let k1 = lidx(by_row_m1, r, i, (new_dim.0, ni));
                let k2 = lidx(by_row_m2, i, c, (ni, new_dim.1));
                sum = sum.add(m1[k1].mul(m2[k2]));
                i = i + 1;
            }
            row.push(sum);
            c = c + 1;
        }
        proof {
            assert(row@ =~= sp_mm_row(
                m1@,
                m2@,
                r as int,
                (new_dim.0 as int, new_dim.1 as int),
                ni as int,
                by_row_m1,
                by_row_m2,
            ));
        }
        row
    }

    /// The serial product kernel: assembles the rows into one row-major
    /// buffer.
    #[verifier::loop_isolation(false)]
    pub fn matrix_mult(
        arr1: &mut Vec<T>,
        arr2: &Vec<T>,
        old_arr: &Vec<T>,
        new_dim: (usize, usize),
        ni: usize,
        old_by_row: bool,
        by_row2: bool,
    )
        requires
            old(arr1)@.len() == new_dim.0 * new_dim.1,
            new_dim.0 * new_dim.1 <= usize::MAX,
            old_arr@.len() == new_dim.0 * ni,
            new_dim.0 * ni <= usize::MAX,
            arr2@.len() == ni * new_dim.1,
            ni * new_dim.1 <= usize::MAX,
        ensures
            final(arr1)@.len() == old(arr1)@.len(),
            forall|r: int, c: int|
                0 <= r < new_dim.0 && 0 <= c < new_dim.1 ==> final(arr1)@[sp_idx(
                    true,
                    r,
                    c,
                    (new_dim.0 as int, new_dim.1 as int),
                )] == sp_mm_sum(
                    old_arr@,
                    arr2@,
                    r,
                    c,
                    ni as int,
                    (new_dim.0 as int, ni as int),
                    (ni as int, new_dim.1 as int),
                    old_by_row,
                    by_row2,
                ),
    {
        Array::mat_m1_mat_mult_mat_m2(arr1, old_arr, arr2, new_dim, ni, old_by_row, by_row2);
    }

    /// Matrix product: multiplies `self` by `other` in place, the result
    /// held row-major; inner dimensions must agree.
    pub fn mmult(&mut self, other: &Self) -> (res: Result<(), ListError>)
        requires
            old(self).wf(),
            other.wf(),
            (*old(self)) is Array2D && other is Array2D && old(self).m_nc() == other.m_nr()
                ==> old(self).m_nr() * other.m_nc() <= usize::MAX,
        ensures
            !((*old(self)) is Array2D && other is Array2D) ==> res == Err::<(), ListError>(
                ListError::MismatchedTypes,
            ) && sp_array_same(*final(self), *old(self)),
            (*old(self)) is Array2D && other is Array2D && old(self).m_nc() != other.m_nr() ==> res
                == Err::<(), ListError>(ListError::MatrixMultMismatchedDim) && sp_array_same(
                *final(self),
                *old(self),
            ),
            (*old(self)) is Array2D && other is Array2D && old(self).m_nc() == other.m_nr() ==> {
                &&& res is Ok
                &&& (*final(self)) is Array2D
                &&& final(self).wf()
                &&& final(self).m_nr() == old(self).m_nr()
                &&& final(self).m_nc() == other.m_nc()
                &&& final(self).m_by_row() == true
                &&& forall|r: int, c: int|
                    0 <= r < old(self).m_nr() && 0 <= c < other.m_nc() ==> final(self).m_at(r, c)
                        == sp_mm_sum(
                        old(self).m_arr(),
                        other.m_arr(),
                        r,
                        c,
                        old(self).m_nc(),
                        (old(self).m_nr(), old(self).m_nc()),
                        (other.m_nr(), other.m_nc()),
                        old(self).m_by_row(),
                        other.m_by_row(),
                    )
            },
    {
        let pieces = match (&*self, other) {
            (
                Array::Array2D { arr: arr1, nr: nr1, nc: nc1, put_val_by_row: by_row1 },
                Array::Array2D { arr: arr2, nr: nr2, nc: nc2, put_val_by_row: by_row2 },
            ) => {
                if *nc1 != *nr2 {
                    return Err(ListError::MatrixMultMismatchedDim);
                }
                let new_dim = (*nr1, *nc2);
                let ni = *nc1;
                // Reading the lengths tells the verifier the buffers fit
                // in memory.
                let l1 = arr1.len();
                let l2 = arr2.len();
                let total = new_dim.0 * new_dim.1;
                let mut new_vec: Vec<T> = Vec::new();
                let mut i: usize = 0;
                while i < total
                    invariant
                        i <= total,
                        new_vec@.len() == i,
                    decreases total - i,
                {
                    new_vec.push(T::zero());
                    i = i + 1;
                }
                Array::matrix_mult(&mut new_vec, arr2, arr1, new_dim, ni, *by_row1, *by_row2);
                (new_vec, new_dim.0, new_dim.1)
            },
            _ => {
                return Err(ListError::MismatchedTypes);
            },
        };
        let (new_vec, nr, nc) = pieces;
        *self = Array::Array2D { arr: new_vec, nr, nc, put_val_by_row: true };
        Ok(())
    }
}

impl<T: Element + Send + Sync> Array<T> {
    /// The row-parallel product kernel: hands each output row to the
    /// worker pool and reassembles the results; its contract is the
    /// serial kernel's, so both paths agree entry for entry.
    #[verifier::loop_isolation(false)]
    pub fn matrix_mult_speed(
        arr1: &mut Vec<T>,
        arr2: &Vec<T>,
        old_arr: &Vec<T>,
        new_dim: (usize, usize),
        ni: usize,
        old_by_row: bool,
        by_row2: bool,
    )
        requires
            old(arr1)@.len() == new_dim.0 * new_dim.1,
            new_dim.0 * new_dim.1 <= usize::MAX,
            old_arr@.len() == new_dim.0 * ni,
            new_dim.0 * ni <= usize::MAX,
            arr2@.len() == ni * new_dim.1,
            ni * new_dim.1 <= usize::MAX,
        ensures
            final(arr1)@.len() == old(arr1)@.len(),
            forall|r: int, c: int|
                0 <= r < new_dim.0 && 0 <= c < new_dim.1 ==> final(arr1)@[sp_idx(
                    true,
                    r,
                    c,
                    (new_dim.0 as int, new_dim.1 as int),
                )] == sp_mm_sum(
                    old_arr@,
                    arr2@,
                    r,
                    c,
                    ni as int,
                    (new_dim.0 as int, ni as int),
                    (ni as int, new_dim.1 as int),
                    old_by_row,
                    by_row2,
                ),
    {
        let ghost nd = (new_dim.0 as int, new_dim.1 as int);
        proof {
            crate::array::lemma_idx_inj(true, nd);
            crate::array::lemma_idx_bound_all(true, nd);
            crate::array::lemma_rc_of(true, nd);
        }
        let rows = par_map_rows(old_arr, arr2, new_dim, ni, old_by_row, by_row2);
        let mut r: usize = 0;
        while r < new_dim.0
            invariant
                r <= new_dim.0,
                arr1@.len() == old(arr1)@.len(),
                rows@.len() == new_dim.0,
                forall|r0: int|
                    0 <= r0 < new_dim.0 ==> (#[trigger] rows@[r0])@ == sp_mm_row(
                        old_arr@,
                        arr2@,
                        r0,
                        nd,
                        ni as int,
                        old_by_row,
                        by_row2,
                    ),
                forall|r0: int, c0: int|
                    0 <= r0 < r && 0 <= c0 < new_dim.1 ==> arr1@[sp_idx(true, r0, c0, nd)]
                        == sp_mm_sum(
                        old_arr@,
                        arr2@,
                        r0,
                        c0,
                        ni as int,
                        (nd.0, ni as int),
                        (ni as int, nd.1),
                        old_by_row,
                        by_row2,
                    ),
            decreases new_dim.0 - r,
        {
            let row = &rows[r];
            let rlen = row.len();
            let mut c: usize = 0;
            while c < new_dim.1
                invariant
                    r < new_dim.0,
                    c <= new_dim.1,
                    arr1@.len() == old(arr1)@.len(),
                    row@ == sp_mm_row(old_arr@, arr2@, r as int, nd, ni as int, old_by_row, by_row2),
                    rlen == new_dim.1,
                    forall|r0: int, c0: int|
                        0 <= r0 < r && 0 <= c0 < new_dim.1 ==> arr1@[sp_idx(true, r0, c0, nd)]
                            == sp_mm_sum(
                            old_arr@,
                            arr2@,
                            r0,
                            c0,
                            ni as int,
                            (nd.0, ni as int),
                            (ni as int, nd.1),
                            old_by_row,
                            by_row2,
                        ),
                    forall|c0: int|
                        0 <= c0 < c ==> arr1@[sp_idx(true, r as int, c0, nd)] == sp_mm_sum(
                            old_arr@,
                            arr2@,
                            r as int,
                            c0,
                            ni as int,
                            (nd.0, ni as int),
                            (ni as int, nd.1),
                            old_by_row,
                            by_row2,
                        ),
                decreases new_dim.1 - c,
            {
                let k = lidx(true, r, c, new_dim);
                arr1.set(k, row[c]);
                c = c + 1;
            }
            r = r + 1;
        }
    }


    /// The parallel matrix product entry point: the same dispatch and
    /// result as `mmult`, computed row-block-parallel.
    pub fn mmult_speed(&mut self, other: &Self) -> (res: Result<(), ListError>)
        requires
            old(self).wf(),
            other.wf(),
            (*old(self)) is Array2D && other is Array2D && old(self).m_nc() == other.m_nr()
                ==> old(self).m_nr() * other.m_nc() <= usize::MAX,
        ensures
            !((*old(self)) is Array2D && other is Array2D) ==> res == Err::<(), ListError>(
                ListError::MismatchedTypes,
            ) && sp_array_same(*final(self), *old(self)),
            (*old(self)) is Array2D && other is Array2D && old(self).m_nc() != other.m_nr() ==> res
                == Err::<(), ListError>(ListError::MatrixMultMismatchedDim) && sp_array_same(
                *final(self),
                *old(self),
            ),
            (*old(self)) is Array2D && other is Array2D && old(self).m_nc() == other.m_nr() ==> {
                &&& res is Ok
                &&& (*final(self)) is Array2D
                &&& final(self).wf()
                &&& final(self).m_nr() == old(self).m_nr()
                &&& final(self).m_nc() == other.m_nc()
                &&& final(self).m_by_row() == true
                &&& forall|r: int, c: int|
                    0 <= r < old(self).m_nr() && 0 <= c < other.m_nc() ==> final(self).m_at(r, c)
                        == sp_mm_sum(
                        old(self).m_arr(),
                        other.m_arr(),
                        r,
                        c,
                        old(self).m_nc(),
                        (old(self).m_nr(), old(self).m_nc()),
                        (other.m_nr(), other.m_nc()),
                        old(self).m_by_row(),
                        other.m_by_row(),
                    )
            },
    {
        let pieces = match (&*self, other) {
            (
                Array::Array2D { arr: arr1, nr: nr1, nc: nc1, put_val_by_row: by_row1 },
                Array::Array2D { arr: arr2, nr: nr2, nc: nc2, put_val_by_row: by_row2 },
            ) => {
                if *nc1 != *nr2 {
                    return Err(ListError::MatrixMultMismatchedDim);
                }
                let new_dim = (*nr1, *nc2);
                let ni = *nc1;
                // Reading the lengths tells the verifier the buffers fit
                // in memory.
                let l1 = arr1.len();
                let l2 = arr2.len();
                let total = new_dim.0 * new_dim.1;
                let mut new_vec: Vec<T> = Vec::new();
                let mut i: usize = 0;
                while i < total
                    invariant
                        i <= total,
                        new_vec@.len() == i,
                    decreases total - i,
                {
                    new_vec.push(T::zero());
                    i = i + 1;
                }
                Array::matrix_mult_speed(&mut new_vec, arr2, arr1, new_dim, ni, *by_row1, *by_row2);
                (new_vec, new_dim.0, new_dim.1)
            },
            _ => {
                return Err(ListError::MismatchedTypes);
            },
        };
        let (new_vec, nr, nc) = pieces;
        *self = Array::Array2D { arr: new_vec, nr, nc, put_val_by_row: true };
        Ok(())
    }
}

/// Relies on rayon's parallel iterator over an index range with `map`
/// and `collect`: the closure runs once per index and `collect` on the
/// indexed iterator keeps the original order, so the result holds
/// `mult_row(r, ..)` at position `r`.
#[verifier::external_body]
fn par_map_rows<T: Element + Send + Sync>(
    m1: &Vec<T>,
    m2: &Vec<T>,
    new_dim: (usize, usize),
    ni: usize,
    by1: bool,
    by2: bool,
) -> (rows: Vec<Vec<T>>)
    requires
        m1@.len() == new_dim.0 * ni,
        new_dim.0 * ni <= usize::MAX,
        m2@.len() == ni * new_dim.1,
        ni * new_dim.1 <= usize::MAX,
    ensures
        rows@.len() == new_dim.0,
        forall|r: int|
            0 <= r < new_dim.0 ==> (#[trigger] rows@[r])@ == sp_mm_row(
                m1@,
                m2@,
                r,
                (new_dim.0 as int, new_dim.1 as int),
                ni as int,
                by1,
                by2,
            ),
{
    (0..new_dim.0).into_par_iter().map(|r| Array::mult_row(r, m1, m2, new_dim, ni, by1, by2)).collect()
}

} // verus!
