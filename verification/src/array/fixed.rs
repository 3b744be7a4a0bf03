//! A decimal fixed-point scalar: an `i128` count of `10^-15` units.
//!
//! This is the element type the square-root-based kernels (QR, eigenvalues)
//! run on.  Every operation is total and exactly specified: results round
//! half away from zero to the nearest representable value, and results past
//! the representable range saturate towards the matching end.

use vstd::prelude::*;

use crate::array::element::pow10_i64;
use crate::array::element::pow10_spec;
use crate::array::element::lemma_pow10_bounds;
use crate::array::element::Element;
use crate::array::matrix_operations::Sqrt;

verus! {

/// Number of units in 1: `10^15`.
pub const FIXED_SCALE: i128 = 1_000_000_000_000_000;

/// Magnitude of `i128::MIN`, for saturation of negative results.
pub const NEG_BOUND: u128 = 170141183460469231731687303715884105728;

/// `floor(sqrt(10^15))`, used for the square root of values so large that
/// rescaling them first would overflow.
pub const SQRT_SCALE: i128 = 31_622_776;

/// `num * 10^-15` as an exact value.
#[derive(Clone, Copy, Debug, PartialEq, Eq, Structural)]
pub struct Fixed {
    pub raw: i128,
}

/// Magnitude of a mathematical integer.
pub open spec fn iabs(a: int) -> int {
    if a < 0 {
        -a
    } else {
        a
    }
}

/// Division of nonnegative `p` by positive `d`, rounded half away from zero.
pub open spec fn rdivu(p: int, d: int) -> int {
    if p % d >= d - p % d {
        p / d + 1
    } else {
        p / d
    }
}

/// The value with magnitude `q` units and the given sign, saturated to the
/// representable range.
pub open spec fn sat_signed(neg: bool, q: int) -> Fixed {
    if neg {
        if q >= NEG_BOUND {
            Fixed { raw: i128::MIN }
        } else {
            Fixed { raw: (-q) as i128 }
        }
    } else {
        if q > i128::MAX {
            Fixed { raw: i128::MAX }
        } else {
            Fixed { raw: q as i128 }
        }
    }
}

/// Magnitude of an `i128`, computed without overflow.
pub fn abs_u128(v: i128) -> (m: u128)
    ensures
        m as int == iabs(v as int),
{
    if v >= 0 {
        v as u128
    } else {
        let t: i128 = -(v + 1);
        (t as u128) + 1
    }
}

/// Exact counterpart of `sat_signed`.
fn sat_signed_exec(neg: bool, q: u128) -> (f: Fixed)
    ensures
        f == sat_signed(neg, q as int),
{
    if neg {
        if q >= NEG_BOUND {
            Fixed { raw: i128::MIN }
        } else {
            Fixed { raw: -(q as i128) }
        }
    } else {
        if q > i128::MAX as u128 {
            Fixed { raw: i128::MAX }
        } else {
            Fixed { raw: q as i128 }
        }
    }
}

impl Element for Fixed {
    open spec fn add_spec(self, o: Self) -> Self {
        if self.raw + o.raw > i128::MAX {
            Fixed { raw: i128::MAX }
        } else if self.raw + o.raw < i128::MIN {
            Fixed { raw: i128::MIN }
        } else {
            Fixed { raw: (self.raw + o.raw) as i128 }
        }
    }

    open spec fn sub_spec(self, o: Self) -> Self {
        if self.raw - o.raw > i128::MAX {
            Fixed { raw: i128::MAX }
        } else if self.raw - o.raw < i128::MIN {
            Fixed { raw: i128::MIN }
        } else {
            Fixed { raw: (self.raw - o.raw) as i128 }
        }
    }

    open spec fn mul_spec(self, o: Self) -> Self {
        let p = iabs(self.raw as int) * iabs(o.raw as int);
        let neg = (self.raw < 0) != (o.raw < 0);
        if p > u128::MAX {
            sat_signed(neg, p)
        } else {
            sat_signed(neg, rdivu(p, FIXED_SCALE as int))
        }
    }

    open spec fn div_spec(self, o: Self) -> Self {
        if o.raw == 0 {
            Fixed { raw: 0 }
        } else {
            let p = iabs(self.raw as int) * (FIXED_SCALE as int);
            let neg = (self.raw < 0) != (o.raw < 0);
            if p > u128::MAX {
                sat_signed(neg, p)
            } else {
                sat_signed(neg, rdivu(p, iabs(o.raw as int)))
            }
        }
    }

    open spec fn lt_spec(self, o: Self) -> bool {
        self.raw < o.raw
    }

    open spec fn zero_spec() -> Self {
        Fixed { raw: 0 }
    }

    open spec fn one_spec() -> Self {
        Fixed { raw: FIXED_SCALE }
    }

    open spec fn from_frac_spec(num: int, pow10: nat) -> Self {
        if pow10 <= 15 {
            Fixed { raw: (num * pow10_spec((15 - pow10) as nat)) as i128 }
        } else if pow10 <= 33 {
            sat_signed(num < 0, iabs(num) / pow10_spec((pow10 - 15) as nat))
        } else {
            Fixed { raw: 0 }
        }
    }

    fn add(self, o: Self) -> (r: Self) {
        match self.raw.checked_add(o.raw) {
            Some(v) => Fixed { raw: v },
            None => if o.raw > 0 {
                Fixed { raw: i128::MAX }
            } else {
                Fixed { raw: i128::MIN }
            },
        }
    }

    fn sub(self, o: Self) -> (r: Self) {
        match self.raw.checked_sub(o.raw) {
            Some(v) => Fixed { raw: v },
            None => if o.raw < 0 {
                Fixed { raw: i128::MAX }
            } else {
                Fixed { raw: i128::MIN }
            },
        }
    }

    fn mul(self, o: Self) -> (r: Self) {
        let am = abs_u128(self.raw);
        let bm = abs_u128(o.raw);
        let neg = (self.raw < 0) != (o.raw < 0);
        match am.checked_mul(bm) {
            None => sat_signed_exec(neg, u128::MAX),
            Some(p) => {
                let d: u128 = FIXED_SCALE as u128;
                let q = p / d;
                let rem = p % d;
                let q2 = if rem >= d - rem {
                    q + 1
                } else {
                    q
                };
                sat_signed_exec(neg, q2)
            },
        }
    }

    fn div(self, o: Self) -> (r: Self) {
        if o.raw == 0 {
            Fixed { raw: 0 }
        } else {
            let am = abs_u128(self.raw);
            let bm = abs_u128(o.raw);
            let neg = (self.raw < 0) != (o.raw < 0);
            match am.checked_mul(FIXED_SCALE as u128) {
                None => sat_signed_exec(neg, u128::MAX),
                Some(p) => {
                    let q = p / bm;
                    let rem = p % bm;
                    let q2 = if rem >= bm - rem {
                        proof {
                            lemma_quotient_small(p as int, bm as int);
                        }
                        q + 1
                    } else {
                        q
                    };
                    sat_signed_exec(neg, q2)
                },
            }
        }
    }

    fn lt(self, o: Self) -> (r: bool) {
        self.raw < o.raw
    }

    fn eq_elem(self, o: Self) -> (r: bool) {
        self.raw == o.raw
    }

    fn zero() -> (r: Self) {
        Fixed { raw: 0 }
    }

    fn one() -> (r: Self) {
        Fixed { raw: FIXED_SCALE }
    }

    fn from_frac(num: i64, pow10: u32) -> (r: Self) {
        if pow10 <= 15 {
            proof {
                lemma_pow10_bounds((15 - pow10) as nat);
            }
            let d = pow10_i64(15 - pow10);
            proof {
                assert(-(i128::MAX as int) <= (num as int) * (d as int) <= i128::MAX as int)
                    by (nonlinear_arith)
                    requires
                        -0x8000_0000_0000_0000 <= num as int <= 0x7fff_ffff_ffff_ffff,
                        1 <= d as int <= 1_000_000_000_000_000_000,
                ;
            }
            Fixed { raw: (num as i128) * (d as i128) }
        } else if pow10 <= 33 {
            proof {
                lemma_pow10_bounds((pow10 - 15) as nat);
            }
            let d = pow10_i64(pow10 - 15);
            let m = abs_u128(num as i128);
            sat_signed_exec(num < 0, m / (d as u128))
        } else {
            Fixed { raw: 0 }
        }
    }
}

/// `r` is the integer square root of `n`: the largest integer whose square
/// does not exceed `n`.
pub open spec fn is_isqrt(n: int, r: int) -> bool {
    0 <= r && r * r <= n && n < (r + 1) * (r + 1)
}

/// The integer square root of a nonnegative `n`.  `lemma_isqrt_exists`
/// shows a root always exists and `lemma_isqrt_unique` that it is alone,
/// so the chosen value is fully determined.
pub open spec fn isqrt_spec(n: int) -> int {
    choose|r: int| is_isqrt(n, r)
}

pub proof fn lemma_isqrt_exists(n: int) -> (r: int)
    requires
        n >= 0,
    ensures
        is_isqrt(n, r),
    decreases n,
{
    if n == 0 {
        0
    } else {
        let r0 = lemma_isqrt_exists(n - 1);
        if (r0 + 1) * (r0 + 1) <= n {
            assert(n < (r0 + 2) * (r0 + 2)) by (nonlinear_arith)
                requires
                    0 <= r0,
                    n - 1 < (r0 + 1) * (r0 + 1),
                    (r0 + 1) * (r0 + 1) <= n,
            ;
            r0 + 1
        } else {
            r0
        }
    }
}

pub proof fn lemma_isqrt_unique(n: int, r: int)
    requires
        is_isqrt(n, r),
    ensures
        isqrt_spec(n) == r,
{
    let r2 = choose|r2: int| is_isqrt(n, r2);
    assert(is_isqrt(n, r2));
    assert(r2 == r) by (nonlinear_arith)
        requires
            is_isqrt(n, r),
            is_isqrt(n, r2),
    ;
}

/// Binary-search integer square root over the full `u128` range.
pub fn isqrt_u128(n: u128) -> (r: u128)
    ensures
        is_isqrt(n as int, r as int),
        r < 18446744073709551616,
{
    let mut lo: u128 = 0;
    let mut hi: u128 = 18446744073709551616;
    proof {
        assert((18446744073709551616 as int) * (18446744073709551616 as int) > u128::MAX as int)
            by (nonlinear_arith);
    }
    while hi - lo > 1
        invariant
            lo < hi <= 18446744073709551616,
            (lo as int) * (lo as int) <= n as int,
            (n as int) < (hi as int) * (hi as int),
        decreases hi - lo,
    {
        let mid = lo + (hi - lo) / 2;
        proof {
            assert((mid as int) * (mid as int) <= u128::MAX as int) by (nonlinear_arith)
                requires
                    0 <= mid as int <= 18446744073709551615,
            ;
        }
        if mid * mid <= n {
            lo = mid;
        } else {
            hi = mid;
        }
    }
    lo
}

impl Sqrt for Fixed {
    /// The square root of a negative value is pinned to zero; a value whose
    /// rescaling by `10^15` overflows takes its root at unit granularity.
    open spec fn sqrt_spec(self) -> Self {
        if self.raw <= 0 {
            Fixed { raw: 0 }
        } else if self.raw * (FIXED_SCALE as int) > i128::MAX {
            Fixed { raw: (isqrt_spec(self.raw as int) * (SQRT_SCALE as int)) as i128 }
        } else {
            Fixed { raw: isqrt_spec(self.raw * (FIXED_SCALE as int)) as i128 }
        }
    }

    open spec fn powi_spec(self, n: int) -> Self {
        if n >= 0 {
            pow_nonneg(self, n as nat)
        } else {
            Fixed::one_spec().div_spec(pow_nonneg(self, (-n) as nat))
        }
    }

    fn sqrt(self) -> (r: Self) {
        if self.raw <= 0 {
            Fixed { raw: 0 }
        } else {
            match self.raw.checked_mul(FIXED_SCALE) {
                Some(v) => {
                    let s = isqrt_u128(v as u128);
                    proof {
                        lemma_isqrt_unique(v as int, s as int);
                    }
                    Fixed { raw: s as i128 }
                },
                None => {
                    let s = isqrt_u128(self.raw as u128);
                    proof {
                        lemma_isqrt_unique(self.raw as int, s as int);
                    }
                    Fixed { raw: (s as i128) * SQRT_SCALE }
                },
            }
        }
    }

    fn powi(self, n: i32) -> (r: Self) {
        let m: u64 = if n < 0 {
            (-(n as i64)) as u64
        } else {
            n as u64
        };
        let mut acc = Fixed::one();
        let mut i: u64 = 0;
        while i < m
            invariant
                i <= m,
                acc == pow_nonneg(self, i as nat),
            decreases m - i,
        {
            acc = acc.mul(self);
            i = i + 1;
        }
        if n < 0 {
            Fixed::one().div(acc)
        } else {
            acc
        }
    }
}

/// `x` raised to a nonnegative power, multiplied up left to right.
pub open spec fn pow_nonneg(x: Fixed, n: nat) -> Fixed
    decreases n,
{
    if n == 0 {
        Fixed::one_spec()
    } else {
        pow_nonneg(x, (n - 1) as nat).mul_spec(x)
    }
}

/// When `rem >= 1`, the rounded-up quotient still fits: the divisor is then
/// at least 2, or the quotient left room.
proof fn lemma_quotient_small(p: int, d: int)
    requires
        0 <= p <= u128::MAX,
        1 <= d,
        p % d >= 1,
    ensures
        p / d + 1 <= u128::MAX,
{
    if d == 1 {
        assert(p % 1 == 0);
    } else {
        assert(p / d <= p / 2) by (nonlinear_arith)
            requires
                0 <= p,
                2 <= d,
        ;
    }
}

} // verus!
