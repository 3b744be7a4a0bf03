//! Division entry points of the tagged array.

use vstd::prelude::*;

use crate::array::element::Element;
use crate::array::sp_array_same;
use crate::array::Array;
use crate::array::ListError;

verus! {

impl<T: Element> Array<T> {
    /// Divides a scalar, every vector entry, or every matrix entry by the
    /// scalar `val`; a zero divisor and `Null` are refused, with nothing
    /// written.
    pub fn div(&mut self, val: T) -> (res: Result<(), ListError>)
        ensures
            (*old(self)) is Null ==> res == Err::<(), ListError>(ListError::MismatchedTypes)
                && sp_array_same(*final(self), *old(self)),
            !((*old(self)) is Null) && val == T::zero_spec() ==> res == Err::<(), ListError>(
                ListError::DivisionByZero,
            ) && sp_array_same(*final(self), *old(self)),
            res is Ok <==> !((*old(self)) is Null) && val != T::zero_spec(),
            res is Ok ==> {
                &&& (*old(self)) is Scalar ==> (*final(self)) == Array::Scalar(
                    old(self)->Scalar_0.div_spec(val),
                )
                &&& (*old(self)) is Array1D ==> (*final(self)) is Array1D && final(self).v_arr().len() == old(self).v_arr().len() && (forall|j: int|
                    0 <= j < old(self).v_arr().len() ==> final(self).v_arr()[j] == old(self).v_arr()[j].div_spec(val))
                &&& (*old(self)) is Array2D ==> (*final(self)) is Array2D && final(self).m_nr()
                    == old(self).m_nr() && final(self).m_nc() == old(self).m_nc() && final(self).m_by_row() == old(self).m_by_row() && final(self).m_arr().len() == old(self).m_arr().len() && (forall|j: int|
                    0 <= j < old(self).m_arr().len() ==> final(self).m_arr()[j] == old(self).m_arr()[j].div_spec(val))
            },
    {
        match self {
            Array::Scalar(x) => {
                if val.eq_elem(T::zero()) {
                    return Err(ListError::DivisionByZero);
                }
                *x = x.div(val);
                Ok(())
            },
            Array::Array1D { arr } => Array::self_div_scalar_s(arr, val),
            Array::Array2D { arr, .. } => Array::self_div_scalar_s(arr, val),
            _ => Err(ListError::MismatchedTypes),
        }
    }

    /// Elementwise division by another array of the same kind: two
    /// scalars, vectors of equal length, or matrices of equal shape in
    /// either layout; a zero divisor entry is refused before anything is
    /// written.
    pub fn ele_div(&mut self, other: &Self) -> (res: Result<(), ListError>)
        requires
            old(self).wf(),
            other.wf(),
        ensures
            !((*old(self)) is Scalar && other is Scalar) && !((*old(self)) is Array1D && other
                is Array1D) && !((*old(self)) is Array2D && other is Array2D) ==> res == Err::<
                (),
                ListError,
            >(ListError::MismatchedTypes) && sp_array_same(*final(self), *old(self)),
            (*old(self)) is Scalar && other is Scalar ==> {
                if other->Scalar_0 == T::zero_spec() {
                    res == Err::<(), ListError>(ListError::DivisionByZero) && sp_array_same(
                        *final(self),
                        *old(self),
                    )
                } else {
                    res is Ok && (*final(self)) == Array::Scalar(
                        old(self)->Scalar_0.div_spec(other->Scalar_0),
                    )
                }
            },
            (*old(self)) is Array1D && other is Array1D ==> {
                if old(self).v_arr().len() != other.v_arr().len() {
                    res == Err::<(), ListError>(ListError::DifferentLength1D) && sp_array_same(
                        *final(self),
                        *old(self),
                    )
                } else if exists|j: int|
                    0 <= j < other.v_arr().len() && other.v_arr()[j] == T::zero_spec() {
                    res == Err::<(), ListError>(ListError::DivisionByZero) && sp_array_same(
                        *final(self),
                        *old(self),
                    )
                } else {
                    &&& res is Ok
                    &&& (*final(self)) is Array1D
                    &&& final(self).v_arr().len() == old(self).v_arr().len()
                    &&& forall|j: int|
                        0 <= j < old(self).v_arr().len() ==> final(self).v_arr()[j] == old(self).v_arr()[j].div_spec(other.v_arr()[j])
                }
            },
            (*old(self)) is Array2D && other is Array2D ==> {
                if !(old(self).m_nr() == other.m_nr() && old(self).m_nc() == other.m_nc()) {
                    res == Err::<(), ListError>(ListError::MismatchedDim) && sp_array_same(
                        *final(self),
                        *old(self),
                    )
                } else if exists|j: int|
                    0 <= j < other.m_arr().len() && other.m_arr()[j] == T::zero_spec() {
                    res == Err::<(), ListError>(ListError::DivisionByZero) && sp_array_same(
                        *final(self),
                        *old(self),
                    )
                } else {
                    &&& res is Ok
                    &&& (*final(self)) is Array2D
                    &&& final(self).wf()
                    &&& final(self).m_nr() == old(self).m_nr()
                    &&& final(self).m_nc() == old(self).m_nc()
                    &&& final(self).m_by_row() == old(self).m_by_row()
                    &&& forall|r: int, c: int|
                        0 <= r < old(self).m_nr() && 0 <= c < old(self).m_nc() ==> final(self).m_at(r, c) == old(self).m_at(r, c).div_spec(other.m_at(r, c))
                }
            },
    {
        match self {
            Array::Scalar(x) => match other {
                Array::Scalar(y) => {
                    if y.eq_elem(T::zero()) {
                        return Err(ListError::DivisionByZero);
                    }
                    *x = x.div(*y);
                    Ok(())
                },
                _ => Err(ListError::MismatchedTypes),
            },
            Array::Array1D { arr: arr1 } => match other {
                Array::Array1D { arr: arr2 } => Array::self_ele_div_vec_v2(arr1, arr2),
                _ => Err(ListError::MismatchedTypes),
            },
            Array::Array2D { arr: arr1, nr: nr1, nc: nc1, put_val_by_row: by_row1 } => match other {
                Array::Array2D { arr: arr2, nr: nr2, nc: nc2, put_val_by_row: by_row2 } => {
                    let dim1 = (*nr1, *nc1);
                    let dim2 = (*nr2, *nc2);
                    // Reading the lengths tells the verifier the buffers
                    // fit in memory.
                    let l1 = arr1.len();
                    let l2 = arr2.len();
                    let resx = Array::self_ele_div_mat_m(arr1, arr2, dim1, dim2, *by_row1, *by_row2);
                    proof {
                        assert(other.m_arr() == arr2@);
                        if dim1 == dim2 && !(exists|j: int|
                            0 <= j < arr2@.len() && arr2@[j] == T::zero_spec()) {
                            assert forall|j: int|
                                0 <= j < arr2@.len() implies arr2@[j] != T::zero_spec() by {
                                if arr2@[j] == T::zero_spec() {
                                    assert(exists|j2: int|
                                        0 <= j2 < arr2@.len() && arr2@[j2] == T::zero_spec());
                                }
                            }
                        }
                    }
                    resx
                },
                _ => Err(ListError::MismatchedTypes),
            },
            _ => Err(ListError::MismatchedTypes),
        }
    }
}

} // verus!
