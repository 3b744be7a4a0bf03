//! Conversions that give a `Null` array a value.

use vstd::prelude::*;

use crate::array::element::Element;
use crate::array::sp_array_same;
use crate::array::Array;
use crate::array::ListError;

verus! {

impl<T: Element> Array<T> {
    /// Turns a `Null` array into a scalar; anything else is refused.
    pub fn convert_to_scalar(&mut self, val: T) -> (res: Result<(), ListError>)
        ensures
            (*old(self)) is Null ==> res is Ok && (*final(self)) == Array::Scalar(val),
            !((*old(self)) is Null) ==> res == Err::<(), ListError>(ListError::MismatchedTypes)
                && sp_array_same(*final(self), *old(self)),
    {
        match self {
            Array::Null => {
                *self = Array::new_scalar(val);
            },
            _ => {
                return Err(ListError::MismatchedTypes);
            },
        }
        Ok(())
    }

    /// Turns a `Null` array into a vector; anything else is refused.
    pub fn convert_to_arr_1d(&mut self, arr: Vec<T>) -> (res: Result<(), ListError>)
        ensures
            (*old(self)) is Null ==> res is Ok && (*final(self)) is Array1D && final(self).v_arr()
                == arr@,
            !((*old(self)) is Null) ==> res == Err::<(), ListError>(ListError::MismatchedTypes)
                && sp_array_same(*final(self), *old(self)),
    {
        match self {
            Array::Null => {
                *self = Array::new_array_1d(arr);
            },
            _ => {
                return Err(ListError::MismatchedTypes);
            },
        }
        Ok(())
    }
}

} // verus!
