//! A small dense linear-algebra library built around a tagged array type.
//!
//! The crate root keeps the early scalar/vector flavour of the tagged
//! array; the richer variant with matrices and the numerical kernels lives
//! in the [`array`] module.

use vstd::prelude::*;

pub mod array;

use crate::array::element::Element;

verus! {

/// The early tagged array: nothing, one value, or a vector.
#[derive(Debug)]
pub enum Array<T> {
    Null,
    Scalar(T),
    Array1D { arr: Vec<T> },
}

/// Everything that can go wrong in an operation on the early tagged
/// array.
#[derive(Debug, PartialEq, Eq, Structural)]
pub enum ListError {
    DivisionByZero,
    MismatchedTypes,
    DifferentLength1D,
}

impl<T> Array<T> {
    /// The vector contents; empty for other variants.
    pub open spec fn v_arr(self) -> Seq<T> {
        match self {
            Array::Array1D { arr } => arr@,
            _ => Seq::empty(),
        }
    }
}

/// When the early arrays compare equal: never against `Null`, and by
/// value otherwise.
pub open spec fn sp_root_eq<T>(a: Array<T>, b: Array<T>) -> bool {
    match (a, b) {
        (_, Array::Null) => false,
        (Array::Null, _) => false,
        (Array::Scalar(x), Array::Scalar(y)) => x == y,
        (Array::Array1D { .. }, Array::Array1D { .. }) => a.v_arr().len() == b.v_arr().len() && (
        forall|i: int| 0 <= i < a.v_arr().len() ==> a.v_arr()[i] == b.v_arr()[i]),
        _ => false,
    }
}

impl<T: Element> Array<T> {
    pub fn new_null() -> (r: Self)
        ensures
            r == Array::<T>::Null,
    {
        Self::Null
    }

    pub fn new_scalar(val: T) -> (r: Self)
        ensures
            r == Array::Scalar(val),
    {
        Self::Scalar(val)
    }

    pub fn new_array_1d(arr: Vec<T>) -> (r: Self)
        ensures
            r == (Array::Array1D { arr }),
    {
        Self::Array1D { arr }
    }

    /// Adds another array onto this one: scalar onto scalar, vector onto
    /// vector of the same length, or a scalar onto every vector entry.
    pub fn add(&mut self, other: &Self) -> (res: Result<(), ListError>)
        ensures
            (*old(self)) is Scalar && other is Scalar ==> res is Ok && (*final(self))
                == Array::Scalar(old(self)->Scalar_0.add_spec(other->Scalar_0)),
            (*old(self)) is Array1D && other is Array1D ==> {
                if old(self).v_arr().len() == other.v_arr().len() {
                    &&& res is Ok
                    &&& (*final(self)) is Array1D
                    &&& final(self).v_arr().len() == old(self).v_arr().len()
                    &&& forall|j: int|
                        0 <= j < old(self).v_arr().len() ==> final(self).v_arr()[j] == old(
                            self,
                        ).v_arr()[j].add_spec(other.v_arr()[j])
                } else {
                    res == Err::<(), ListError>(ListError::DifferentLength1D) && (*final(self)) is Array1D
                        && final(self).v_arr() == old(self).v_arr()
                }
            },
            (*old(self)) is Array1D && other is Scalar ==> {
                &&& res is Ok
                &&& (*final(self)) is Array1D
                &&& final(self).v_arr().len() == old(self).v_arr().len()
                &&& forall|j: int|
                    0 <= j < old(self).v_arr().len() ==> final(self).v_arr()[j] == old(
                        self,
                    ).v_arr()[j].add_spec(other->Scalar_0)
            },
            !((*old(self)) is Scalar && other is Scalar) && !((*old(self)) is Array1D && (other
                is Array1D || other is Scalar)) ==> res == Err::<(), ListError>(
                ListError::MismatchedTypes,
            ) && (*final(self)) == (*old(self)),
    {
        match self {
            Array::Scalar(x) => match other {
                Array::Scalar(y) => {
                    *x = x.add(*y);
                    Ok(())
                },
                _ => Err(ListError::MismatchedTypes),
            },
            Array::Array1D { arr: arr1 } => match other {
                Array::Array1D { arr: arr2 } => {
                    match crate::array::Array::self_add_vec_v2(arr1, arr2) {
                        Ok(()) => Ok(()),
                        Err(_) => Err(ListError::DifferentLength1D),
                    }
                },
                Array::Scalar(val) => {
                    crate::array::Array::self_add_scalar_s(arr1, *val);
                    Ok(())
                },
                _ => Err(ListError::MismatchedTypes),
            },
            _ => Err(ListError::MismatchedTypes),
        }
    }

    /// Subtracts one scalar from another; nothing else is defined here.
    pub fn minus(&mut self, other: &Self) -> (res: Result<(), ListError>)
        ensures
            (*old(self)) is Scalar && other is Scalar ==> res is Ok && (*final(self))
                == Array::Scalar(old(self)->Scalar_0.sub_spec(other->Scalar_0)),
            !((*old(self)) is Scalar && other is Scalar) ==> res == Err::<(), ListError>(
                ListError::MismatchedTypes,
            ) && (*final(self)) == (*old(self)),
    {
        match self {
            Array::Scalar(x) => match other {
                Array::Scalar(y) => {
                    *x = x.sub(*y);
                    Ok(())
                },
                _ => Err(ListError::MismatchedTypes),
            },
            _ => Err(ListError::MismatchedTypes),
        }
    }

    /// Multiplies one scalar by another; nothing else is defined here.
    pub fn mult(&mut self, other: &Self) -> (res: Result<(), ListError>)
        ensures
            (*old(self)) is Scalar && other is Scalar ==> res is Ok && (*final(self))
                == Array::Scalar(old(self)->Scalar_0.mul_spec(other->Scalar_0)),
            !((*old(self)) is Scalar && other is Scalar) ==> res == Err::<(), ListError>(
                ListError::MismatchedTypes,
            ) && (*final(self)) == (*old(self)),
    {
        match self {
            Array::Scalar(x) => match other {
                Array::Scalar(y) => {
                    *x = x.mul(*y);
                    Ok(())
                },
                _ => Err(ListError::MismatchedTypes),
            },
            _ => Err(ListError::MismatchedTypes),
        }
    }

    /// Divides one scalar by another; a zero divisor is refused with
    /// nothing written, and nothing else is defined here.
    pub fn div(&mut self, other: &Self) -> (res: Result<(), ListError>)
        ensures
            (*old(self)) is Scalar && other is Scalar && other->Scalar_0 == T::zero_spec() ==> res
                == Err::<(), ListError>(ListError::DivisionByZero) && (*final(self)) == (*old(
                self,
            )),
            (*old(self)) is Scalar && other is Scalar && other->Scalar_0 != T::zero_spec() ==> res
                is Ok && (*final(self)) == Array::Scalar(
                old(self)->Scalar_0.div_spec(other->Scalar_0),
            ),
            !((*old(self)) is Scalar && other is Scalar) ==> res == Err::<(), ListError>(
                ListError::MismatchedTypes,
            ) && (*final(self)) == (*old(self)),
    {
        match self {
            Array::Scalar(x) => match other {
                Array::Scalar(y) => {
                    if y.eq_elem(T::zero()) {
                        return Err(ListError::DivisionByZero);
                    }
                    *x = x.div(*y);
                    Ok(())
                },
                _ => Err(ListError::MismatchedTypes),
            },
            _ => Err(ListError::MismatchedTypes),
        }
    }
}

/// The executable comparison behind `==` on the early arrays.
#[verifier::loop_isolation(false)]
fn root_eq<T: Element>(a: &Array<T>, b: &Array<T>) -> (r: bool)
    ensures
        r == sp_root_eq(*a, *b),
{
    match (a, b) {
        (_, Array::Null) => false,
        (Array::Null, _) => false,
        (Array::Scalar(x), Array::Scalar(y)) => x.eq_elem(*y),
        (Array::Array1D { arr: arr1 }, Array::Array1D { arr: arr2 }) => {
            if arr1.len() != arr2.len() {
                return false;
            }
            let n = arr1.len();
            let mut i: usize = 0;
            while i < n
                invariant
                    i <= n,
                    n == arr1@.len() == arr2@.len(),
                    forall|j: int| 0 <= j < i ==> arr1@[j] == arr2@[j],
                decreases n - i,
            {
                if !arr1[i].eq_elem(arr2[i]) {
                    proof {
                        assert(a.v_arr() == arr1@);
                        assert(b.v_arr() == arr2@);
                        assert(a.v_arr()[i as int] != b.v_arr()[i as int]);
                    }
                    return false;
                }
                i = i + 1;
            }
            true
        },
        _ => false,
    }
}

impl<T: Element> PartialEq for Array<T> {
    fn eq(&self, other: &Self) -> (r: bool) {
        root_eq(self, other)
    }
}

impl<T: Element> vstd::std_specs::cmp::PartialEqSpecImpl for Array<T> {
    open spec fn obeys_eq_spec() -> bool {
        true
    }

    open spec fn eq_spec(&self, other: &Self) -> bool {
        sp_root_eq(*self, *other)
    }
}

} // verus!
