//! Multiplication entry points of the tagged array.

use vstd::prelude::*;

use crate::array::element::Element;
use crate::array::sp_array_same;
use crate::array::Array;
use crate::array::ListError;

verus! {

impl<T: Element> Array<T> {
    /// Multiplies a scalar, every vector entry, or every matrix entry by
    /// the scalar `val`; `Null` is refused.
    pub fn mult(&mut self, val: T) -> (res: Result<(), ListError>)
        ensures
            (*old(self)) is Null ==> res == Err::<(), ListError>(ListError::MismatchedTypes) && sp_array_same(*final(self), *old(self)),
            !((*old(self)) is Null) ==> res is Ok,
            (*old(self)) is Scalar ==> (*final(self)) == Array::Scalar(
                old(self)->Scalar_0.mul_spec(val),
            ),
            (*old(self)) is Array1D ==> (*final(self)) is Array1D && final(self).v_arr().len()
                == old(self).v_arr().len() && (forall|j: int|
                0 <= j < old(self).v_arr().len() ==> final(self).v_arr()[j] == old(self).v_arr()[j].mul_spec(val)),
            (*old(self)) is Array2D ==> (*final(self)) is Array2D && final(self).m_nr() == old(self).m_nr() && final(self).m_nc() == old(self).m_nc() && final(self).m_by_row() == old(self).m_by_row() && final(self).m_arr().len() == old(self).m_arr().len() && (forall|j: int|
                0 <= j < old(self).m_arr().len() ==> final(self).m_arr()[j] == old(self).m_arr()[j].mul_spec(val)),
    {
        match self {
            Array::Scalar(s) => {
                *s = s.mul(val);
            },
            Array::Array1D { arr } => {
                Array::self_mult_scalar_s(arr, val);
            },
            Array::Array2D { arr, .. } => {
                Array::self_mult_scalar_s(arr, val);
            },
            _ => {
                return Err(ListError::MismatchedTypes);
            },
        }
        Ok(())
    }

    /// Elementwise multiplication by another array of the same kind: two
    /// scalars, vectors of equal length, or matrices of equal shape in
    /// either layout.
    pub fn ele_mult(&mut self, other: &Self) -> (res: Result<(), ListError>)
        requires
            old(self).wf(),
            other.wf(),
        ensures
            !((*old(self)) is Scalar && other is Scalar) && !((*old(self)) is Array1D && other
                is Array1D) && !((*old(self)) is Array2D && other is Array2D) ==> res == Err::<
                (),
                ListError,
            >(ListError::MismatchedTypes) && sp_array_same(*final(self), *old(self)),
            (*old(self)) is Scalar && other is Scalar ==> res is Ok && (*final(self))
                == Array::Scalar(old(self)->Scalar_0.mul_spec(other->Scalar_0)),
            (*old(self)) is Array1D && other is Array1D ==> {
                if old(self).v_arr().len() == other.v_arr().len() {
                    &&& res is Ok
                    &&& (*final(self)) is Array1D
                    &&& final(self).v_arr().len() == old(self).v_arr().len()
                    &&& forall|j: int|
                        0 <= j < old(self).v_arr().len() ==> final(self).v_arr()[j] == old(self).v_arr()[j].mul_spec(other.v_arr()[j])
                } else {
                    res == Err::<(), ListError>(ListError::DifferentLength1D) && sp_array_same(
                        *final(self),
                        *old(self),
                    )
                }
            },
            (*old(self)) is Array2D && other is Array2D ==> {
                if old(self).m_nr() == other.m_nr() && old(self).m_nc() == other.m_nc() {
                    &&& res is Ok
                    &&& (*final(self)) is Array2D
                    &&& final(self).wf()
                    &&& final(self).m_nr() == old(self).m_nr()
                    &&& final(self).m_nc() == old(self).m_nc()
                    &&& final(self).m_by_row() == old(self).m_by_row()
                    &&& forall|r: int, c: int|
                        0 <= r < old(self).m_nr() && 0 <= c < old(self).m_nc() ==> final(self).m_at(r, c) == old(self).m_at(r, c).mul_spec(other.m_at(r, c))
                } else {
                    res == Err::<(), ListError>(ListError::MismatchedDim) && sp_array_same(
                        *final(self),
                        *old(self),
                    )
                }
            },
    {
        match self {
            Array::Scalar(x) => match other {
                Array::Scalar(y) => {
                    *x = x.mul(*y);
                    Ok(())
                },
                _ => Err(ListError::MismatchedTypes),
            },
            Array::Array1D { arr: arr1 } => match other {
                Array::Array1D { arr: arr2 } => {
                    Array::self_ele_mult_vec_v2(arr1, arr2)
                },
                _ => Err(ListError::MismatchedTypes),
            },
            Array::Array2D { arr: arr1, nr: nr1, nc: nc1, put_val_by_row: by_row1 } => match other {
                Array::Array2D { arr: arr2, nr: nr2, nc: nc2, put_val_by_row: by_row2 } => {
                    let dim1 = (*nr1, *nc1);
                    let dim2 = (*nr2, *nc2);
                    // Reading the lengths tells the verifier the buffers
                    // fit in memory.
                    let l1 = arr1.len();
                    let l2 = arr2.len();
                    Array::self_ele_mult_mat_m(arr1, arr2, dim1, dim2, *by_row1, *by_row2)
                },
                _ => Err(ListError::MismatchedTypes),
            },
            _ => Err(ListError::MismatchedTypes),
        }
    }
}

} // verus!
