//! Exact rational numbers.
//!
//! Runtime numbers are rationals `num / den` with a positive denominator.
//! Every arithmetic operation states its result exactly: the mathematical
//! numerator and denominator are formed over unbounded integers, and the
//! operation succeeds exactly when that pair fits the machine representation.
//! Two rationals are equal when they denote the same value (`1/2 == 2/4`);
//! `==` is implemented by cross-multiplication, not field by field.

use vstd::prelude::*;

verus! {

/// A rational number `num / den`. Well-formed values have `den >= 1`;
/// the fields are not kept reduced, so equality is by value, not by field.
#[derive(Clone, Copy, Debug)]
pub struct Q {
    pub num: i64,
    pub den: i64,
}

/// Does the mathematical pair `(numerator, denominator)` fit the runtime
/// representation? The denominator must stay positive.
pub open spec fn parts_fit(n: int, d: int) -> bool {
    &&& i64::MIN <= n <= i64::MAX
    &&& 1 <= d <= i64::MAX
}

/// The runtime rational for a mathematical pair that fits.
pub open spec fn of_parts(n: int, d: int) -> Q {
    Q { num: n as i64, den: d as i64 }
}

impl Q {
    /// Well-formedness: the denominator is positive.
    pub open spec fn wf(self) -> bool {
        self.den >= 1
    }

    /// Numerator of the exact sum, over unbounded integers.
    pub open spec fn sum_num(self, other: Q) -> int {
        self.num * other.den + other.num * self.den
    }

    /// Numerator of the exact difference.
    pub open spec fn diff_num(self, other: Q) -> int {
        self.num * other.den - other.num * self.den
    }

    /// Denominator of the exact sum, difference and product.
    pub open spec fn den_prod(self, other: Q) -> int {
        self.den * other.den
    }

    /// Numerator of the exact product.
    pub open spec fn prod_num(self, other: Q) -> int {
        self.num * other.num
    }

    /// Numerator of the exact quotient, with the sign moved to the numerator.
    pub open spec fn quot_num(self, other: Q) -> int {
        if self.den * other.num < 0 {
            -(self.num * other.den)
        } else {
            self.num * other.den
        }
    }

    /// Denominator of the exact quotient, made positive.
    pub open spec fn quot_den(self, other: Q) -> int {
        if self.den * other.num < 0 {
            -(self.den * other.num)
        } else {
            self.den * other.num
        }
    }

    /// The integer `n` as a rational.
    pub fn from_int(n: i64) -> (r: Q)
        ensures
            r == (Q { num: n, den: 1 }),
    {
        Q { num: n, den: 1 }
    }

    /// Exact sum; `None` exactly when the result does not fit.
    pub fn checked_add(self, other: Q) -> (r: Option<Q>)
        ensures
            r == (if parts_fit(self.sum_num(other), self.den_prod(other)) {
                Some(of_parts(self.sum_num(other), self.den_prod(other)))
            } else {
                None::<Q>
            }),
    {
        proof {
            lemma_i64_mul_bounds(self.num as int, other.den as int);
            lemma_i64_mul_bounds(other.num as int, self.den as int);
            lemma_i64_mul_bounds(self.den as int, other.den as int);
        }
        let p1: i128 = self.num as i128 * other.den as i128;
        let p2: i128 = other.num as i128 * self.den as i128;
        let d: i128 = self.den as i128 * other.den as i128;
        if p2 >= 0 && p1 > i128::MAX - p2 {
            None
        } else if p2 < 0 && p1 < i128::MIN - p2 {
            None
        } else {
            pack(p1 + p2, d)
        }
    }

    /// Exact difference; `None` exactly when the result does not fit.
    pub fn checked_sub(self, other: Q) -> (r: Option<Q>)
        ensures
            r == (if parts_fit(self.diff_num(other), self.den_prod(other)) {
                Some(of_parts(self.diff_num(other), self.den_prod(other)))
            } else {
                None::<Q>
            }),
    {
        proof {
            lemma_i64_mul_bounds(self.num as int, other.den as int);
            lemma_i64_mul_bounds(other.num as int, self.den as int);
            lemma_i64_mul_bounds(self.den as int, other.den as int);
        }
        let p1: i128 = self.num as i128 * other.den as i128;
        let p2: i128 = other.num as i128 * self.den as i128;
        let d: i128 = self.den as i128 * other.den as i128;
        if p2 < 0 && p1 > i128::MAX + p2 {
            None
        } else if p2 >= 0 && p1 < i128::MIN + p2 {
            None
        } else {
            pack(p1 - p2, d)
        }
    }

    /// Exact product; `None` exactly when the result does not fit.
    pub fn checked_mul(self, other: Q) -> (r: Option<Q>)
        ensures
            r == (if parts_fit(self.prod_num(other), self.den_prod(other)) {
                Some(of_parts(self.prod_num(other), self.den_prod(other)))
            } else {
                None::<Q>
            }),
    {
        proof {
            lemma_i64_mul_bounds(self.num as int, other.num as int);
            lemma_i64_mul_bounds(self.den as int, other.den as int);
        }
        let n: i128 = self.num as i128 * other.num as i128;
        let d: i128 = self.den as i128 * other.den as i128;
        pack(n, d)
    }

    /// Exact quotient, sign normalised onto the numerator; `None` exactly
    /// when the result does not fit. The divisor must not be zero.
    pub fn checked_div(self, other: Q) -> (r: Option<Q>)
        requires
            other.num != 0,
        ensures
            r == (if parts_fit(self.quot_num(other), self.quot_den(other)) {
                Some(of_parts(self.quot_num(other), self.quot_den(other)))
            } else {
                None::<Q>
            }),
    {
        proof {
            lemma_i64_mul_bounds(self.num as int, other.den as int);
            lemma_i64_mul_bounds(self.den as int, other.num as int);
        }
        let n0: i128 = self.num as i128 * other.den as i128;
        let d0: i128 = self.den as i128 * other.num as i128;
        if d0 < 0 {
            pack(-n0, -d0)
        } else {
            pack(n0, d0)
        }
    }
}

/// Check that a mathematical pair fits `i64` fields and pack it.
fn pack(n: i128, d: i128) -> (r: Option<Q>)
    ensures
        r == (if parts_fit(n as int, d as int) {
            Some(of_parts(n as int, d as int))
        } else {
            None::<Q>
        }),
{
    if i64::MIN as i128 <= n && n <= i64::MAX as i128 && 1 <= d && d <= i64::MAX as i128 {
        Some(Q { num: n as i64, den: d as i64 })
    } else {
        None
    }
}

/// The product of two `i64`-sized integers stays well inside `i128`.
proof fn lemma_i64_mul_bounds(a: int, b: int)
    requires
        i64::MIN <= a <= i64::MAX,
        i64::MIN <= b <= i64::MAX,
    ensures
        -0x4000_0000_0000_0000_0000_0000_0000_0000 <= a * b,
        a * b <= 0x4000_0000_0000_0000_0000_0000_0000_0000,
{
    assert(-0x4000_0000_0000_0000_0000_0000_0000_0000 <= a * b
        <= 0x4000_0000_0000_0000_0000_0000_0000_0000) by (nonlinear_arith)
        requires
            i64::MIN <= a <= i64::MAX,
            i64::MIN <= b <= i64::MAX,
    ;
}

impl PartialEq for Q {
    /// Value equality by cross-multiplication: `a/b == c/d` iff `a*d == c*b`.
    fn eq(&self, other: &Q) -> (r: bool) {
        proof {
            lemma_i64_mul_bounds(self.num as int, other.den as int);
            lemma_i64_mul_bounds(other.num as int, self.den as int);
        }
        self.num as i128 * other.den as i128 == other.num as i128 * self.den as i128
    }
}

impl vstd::std_specs::cmp::PartialEqSpecImpl for Q {
    open spec fn obeys_eq_spec() -> bool {
        true
    }

    open spec fn eq_spec(&self, other: &Q) -> bool {
        self.num * other.den == other.num * self.den
    }
}

} // verus!
