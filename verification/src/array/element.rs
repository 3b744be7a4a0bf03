//! The scalar element abstraction every kernel is generic over.
//!
//! An element type brings its arithmetic together with a specification-level
//! account of each operation, so that the kernels' contracts can pin down
//! every produced value exactly.  The operations are total: a type chooses a
//! deterministic result even for division by zero or for out-of-range
//! results (the `i64` instance saturates), and the contracts everywhere in
//! the crate speak in terms of these chosen semantics.

use vstd::prelude::*;

verus! {

/// A numeric scalar with exactly specified, total operations.
pub trait Element: Sized + Copy {
    /// What `add` returns.
    spec fn add_spec(self, o: Self) -> Self;

    /// What `sub` returns.
    spec fn sub_spec(self, o: Self) -> Self;

    /// What `mul` returns.
    spec fn mul_spec(self, o: Self) -> Self;

    /// What `div` returns; total, with a chosen result for a zero divisor.
    spec fn div_spec(self, o: Self) -> Self;

    /// The strict order `lt` decides.
    spec fn lt_spec(self, o: Self) -> bool;

    /// The additive identity, also the "zero divisor" sentinel.
    spec fn zero_spec() -> Self;

    /// The multiplicative identity.
    spec fn one_spec() -> Self;

    /// The value `num * 10^(-pow10)`, how a type reads a small decimal
    /// constant such as a pivot tolerance.
    spec fn from_frac_spec(num: int, pow10: nat) -> Self;

    fn add(self, o: Self) -> (r: Self)
        ensures
            r == self.add_spec(o),
    ;

    fn sub(self, o: Self) -> (r: Self)
        ensures
            r == self.sub_spec(o),
    ;

    fn mul(self, o: Self) -> (r: Self)
        ensures
            r == self.mul_spec(o),
    ;

    fn div(self, o: Self) -> (r: Self)
        ensures
            r == self.div_spec(o),
    ;

    fn lt(self, o: Self) -> (r: bool)
        ensures
            r == self.lt_spec(o),
    ;

    fn eq_elem(self, o: Self) -> (r: bool)
        ensures
            r == (self == o),
    ;

    fn zero() -> (r: Self)
        ensures
            r == Self::zero_spec(),
    ;

    fn one() -> (r: Self)
        ensures
            r == Self::one_spec(),
    ;

    fn from_frac(num: i64, pow10: u32) -> (r: Self)
        ensures
            r == Self::from_frac_spec(num as int, pow10 as nat),
    ;
}

/// Truncating (round-toward-zero) integer division, the semantics of `/` on
/// the machine integer types.
pub open spec fn trunc_div(a: int, b: int) -> int {
    if a == 0 {
        0
    } else if a > 0 && b > 0 {
        a / b
    } else if a < 0 && b < 0 {
        (a * -1) / (b * -1)
    } else if a < 0 {
        ((a * -1) / b) * -1
    } else {
        (a / (b * -1)) * -1
    }
}

pub open spec fn pow10_spec(p: nat) -> int
    decreases p,
{
    if p == 0 {
        1
    } else {
        10 * pow10_spec((p - 1) as nat)
    }
}

pub proof fn lemma_pow10_pos(p: nat)
    ensures
        1 <= pow10_spec(p),
    decreases p,
{
    if p > 0 {
        lemma_pow10_pos((p - 1) as nat);
    }
}

pub proof fn lemma_pow10_bounds(p: nat)
    requires
        p <= 18,
    ensures
        1 <= pow10_spec(p) <= 1_000_000_000_000_000_000,
    decreases 18 - p,
{
    lemma_pow10_pos(p);
    if p < 18 {
        lemma_pow10_bounds(p + 1);
    } else {
        reveal_with_fuel(pow10_spec, 19);
        assert(pow10_spec(18) == 1_000_000_000_000_000_000);
    }
}

/// `10^p` for `p <= 18`, the exact powers an `i64` can hold.
pub fn pow10_i64(p: u32) -> (d: i64)
    requires
        p <= 18,
    ensures
        d == pow10_spec(p as nat),
        1 <= d <= 1_000_000_000_000_000_000,
{
    proof {
        lemma_pow10_bounds(p as nat);
    }
    let mut d: i64 = 1;
    let mut i: u32 = 0;
    while i < p
        invariant
            i <= p <= 18,
            d == pow10_spec(i as nat),
        decreases p - i,
    {
        proof {
            lemma_pow10_bounds((i + 1) as nat);
        }
        d = d * 10;
        i = i + 1;
    }
    proof {
        lemma_pow10_bounds(p as nat);
    }
    d
}

impl Element for i64 {
    open spec fn add_spec(self, o: Self) -> Self {
        if self + o > i64::MAX {
            i64::MAX
        } else if self + o < i64::MIN {
            i64::MIN
        } else {
            (self + o) as i64
        }
    }

    open spec fn sub_spec(self, o: Self) -> Self {
        if self - o > i64::MAX {
            i64::MAX
        } else if self - o < i64::MIN {
            i64::MIN
        } else {
            (self - o) as i64
        }
    }

    open spec fn mul_spec(self, o: Self) -> Self {
        if self * o > i64::MAX || self * o < i64::MIN {
            if (self > 0) == (o > 0) {
                i64::MAX
            } else {
                i64::MIN
            }
        } else {
            (self * o) as i64
        }
    }

    open spec fn div_spec(self, o: Self) -> Self {
        if o == 0 {
            0
        } else if trunc_div(self as int, o as int) > i64::MAX || trunc_div(
            self as int,
            o as int,
        ) < i64::MIN {
            i64::MAX
        } else {
            trunc_div(self as int, o as int) as i64
        }
    }

    open spec fn lt_spec(self, o: Self) -> bool {
        self < o
    }

    open spec fn zero_spec() -> Self {
        0
    }

    open spec fn one_spec() -> Self {
        1
    }

    open spec fn from_frac_spec(num: int, pow10: nat) -> Self {
        if pow10 >= 19 {
            0
        } else if trunc_div(num, pow10_spec(pow10)) > i64::MAX || trunc_div(
            num,
            pow10_spec(pow10),
        ) < i64::MIN {
            i64::MAX
        } else {
            trunc_div(num, pow10_spec(pow10)) as i64
        }
    }

    fn add(self, o: Self) -> (r: Self) {
        match self.checked_add(o) {
            Some(v) => v,
            None => if o > 0 {
                i64::MAX
            } else {
                i64::MIN
            },
        }
    }

    fn sub(self, o: Self) -> (r: Self) {
        match self.checked_sub(o) {
            Some(v) => v,
            None => if o < 0 {
                i64::MAX
            } else {
                i64::MIN
            },
        }
    }

    fn mul(self, o: Self) -> (r: Self) {
        match self.checked_mul(o) {
            Some(v) => v,
            None => if (self > 0) == (o > 0) {
                i64::MAX
            } else {
                i64::MIN
            },
        }
    }

    fn div(self, o: Self) -> (r: Self) {
        match self.checked_div(o) {
            Some(v) => v,
            None => if o == 0 {
                0
            } else {
                i64::MAX
            },
        }
    }

    fn lt(self, o: Self) -> (r: bool) {
        self < o
    }

    fn eq_elem(self, o: Self) -> (r: bool) {
        self == o
    }

    fn zero() -> (r: Self) {
        0
    }

    fn one() -> (r: Self) {
        1
    }

    fn from_frac(num: i64, pow10: u32) -> (r: Self) {
        if pow10 >= 19 {
            0
        } else {
            let d = pow10_i64(pow10);
            match num.checked_div(d) {
                Some(v) => v,
                None => i64::MAX,
            }
        }
    }
}

} // verus!
