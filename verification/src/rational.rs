//! Exact rational numbers: a ghost model (`Rational`, a pair of `int`s) and
//! an executable fixed-width representation (`Rat`, a pair of `i128`s).
//!
//! A rational `n / d` is well formed when `d > 0`. Two rationals are equal as
//! numbers when they cross-multiply equally; the executable operations return
//! results that are structurally the ghost operations applied to the views.

use vstd::prelude::*;

verus! {

/// Ghost rational number `n / d`; meaningful when `d > 0`.
pub struct Rational {
    pub n: int,
    pub d: int,
}

/// A ghost rational is well formed when its denominator is positive.
pub open spec fn q_wf(a: Rational) -> bool {
    a.d > 0
}

/// Equality of rationals as numbers: `a.n / a.d == b.n / b.d`.
pub open spec fn q_eq(a: Rational, b: Rational) -> bool {
    a.n * b.d == b.n * a.d
}

/// `a <= b` as numbers, for well-formed rationals.
pub open spec fn q_le(a: Rational, b: Rational) -> bool {
    a.n * b.d <= b.n * a.d
}

/// The integer `i` as a rational.
pub open spec fn q_int(i: int) -> Rational {
    Rational { n: i, d: 1 }
}

/// Sum of two rationals.
pub open spec fn q_add(a: Rational, b: Rational) -> Rational {
    Rational { n: a.n * b.d + b.n * a.d, d: a.d * b.d }
}

/// Difference of two rationals.
pub open spec fn q_sub(a: Rational, b: Rational) -> Rational {
    Rational { n: a.n * b.d - b.n * a.d, d: a.d * b.d }
}

/// Product of two rationals.
pub open spec fn q_mul(a: Rational, b: Rational) -> Rational {
    Rational { n: a.n * b.n, d: a.d * b.d }
}

/// Quotient of two rationals; well formed when `b.n > 0`.
pub open spec fn q_div(a: Rational, b: Rational) -> Rational {
    Rational { n: a.n * b.d, d: a.d * b.n }
}

/// Floor of a rational: the greatest integer not above it
/// (`/` on `int` is Euclidean division, which rounds down for `d > 0`).
pub open spec fn q_floor(a: Rational) -> int {
    a.n / a.d
}

/// Whether a rational is an exact integer.
pub open spec fn q_is_int(a: Rational) -> bool {
    a.n % a.d == 0
}

/// Fractional part of a rational: `a - floor(a)`, in `[0, 1)`.
pub open spec fn q_fract(a: Rational) -> Rational {
    Rational { n: a.n % a.d, d: a.d }
}

/// A mathematical integer fits the executable word.
pub open spec fn in_i128(x: int) -> bool {
    i128::MIN <= x <= i128::MAX
}

/// Greatest common divisor of two magnitudes by Euclid's algorithm. Only
/// positivity is promised; `reduced` re-checks divisibility at run time,
/// which is all its own proof needs.
fn gcd_magnitude(first: u128, second: u128) -> (g: u128)
    requires
        second >= 1,
    ensures
        g >= 1,
{
    let mut x = first;
    let mut y = second;
    while y != 0
        invariant
            x >= 1 || y >= 1,
        decreases y,
    {
        let t = x % y;
        x = y;
        y = t;
    }
    x
}

/// Executable rational number `num / den`, with `den > 0`.
#[derive(Clone, Copy)]
pub struct Rat {
    pub num: i128,
    pub den: i128,
}

impl View for Rat {
    type V = Rational;

    open spec fn view(&self) -> Rational {
        Rational { n: self.num as int, d: self.den as int }
    }
}

impl Rat {
    /// Well-formed: the denominator is positive.
    pub open spec fn wf(self) -> bool {
        self.den > 0
    }

    /// The rational zero.
    pub fn zero() -> (r: Rat)
        ensures
            r@ == q_int(0),
            r.wf(),
    {
        Rat { num: 0, den: 1 }
    }

    /// The rational `num / den`.
    pub fn new(num: i128, den: i128) -> (r: Rat)
        requires
            den > 0,
        ensures
            r@ == (Rational { n: num as int, d: den as int }),
            r.wf(),
    {
        Rat { num, den }
    }

    /// The integer `i` as a rational.
    pub fn from_int(i: i128) -> (r: Rat)
        ensures
            r@ == q_int(i as int),
            r.wf(),
    {
        Rat { num: i, den: 1 }
    }

    /// Sum; exact, with the denominators multiplied.
    pub fn add_rat(&self, other: &Rat) -> (r: Rat)
        requires
            self.wf(),
            other.wf(),
            in_i128(self@.n * other@.d),
            in_i128(other@.n * self@.d),
            in_i128(self@.n * other@.d + other@.n * self@.d),
            in_i128(self@.d * other@.d),
        ensures
            r@ == q_add(self@, other@),
            r.wf(),
    {
        proof {
            vstd::arithmetic::mul::lemma_mul_strictly_positive(self@.d, other@.d);
        }
        Rat { num: self.num * other.den + other.num * self.den, den: self.den * other.den }
    }

    /// Difference; exact, with the denominators multiplied.
    pub fn sub_rat(&self, other: &Rat) -> (r: Rat)
        requires
            self.wf(),
            other.wf(),
            in_i128(self@.n * other@.d),
            in_i128(other@.n * self@.d),
            in_i128(self@.n * other@.d - other@.n * self@.d),
            in_i128(self@.d * other@.d),
        ensures
            r@ == q_sub(self@, other@),
            r.wf(),
    {
        proof {
            vstd::arithmetic::mul::lemma_mul_strictly_positive(self@.d, other@.d);
        }
        Rat { num: self.num * other.den - other.num * self.den, den: self.den * other.den }
    }

    /// Product; exact.
    pub fn mul_rat(&self, other: &Rat) -> (r: Rat)
        requires
            self.wf(),
            other.wf(),
            in_i128(self@.n * other@.n),
            in_i128(self@.d * other@.d),
        ensures
            r@ == q_mul(self@, other@),
            r.wf(),
    {
        proof {
            vstd::arithmetic::mul::lemma_mul_strictly_positive(self@.d, other@.d);
        }
        Rat { num: self.num * other.num, den: self.den * other.den }
    }

    /// Quotient; exact; the divisor must be positive.
    pub fn div_rat(&self, other: &Rat) -> (r: Rat)
        requires
            self.wf(),
            other.wf(),
            other@.n > 0,
            in_i128(self@.n * other@.d),
            in_i128(self@.d * other@.n),
        ensures
            r@ == q_div(self@, other@),
            r.wf(),
    {
        proof {
            vstd::arithmetic::mul::lemma_mul_strictly_positive(self@.d, other@.n);
        }
        Rat { num: self.num * other.den, den: self.den * other.num }
    }

    /// Floor of a non-negative rational.
    pub fn floor(&self) -> (r: i128)
        requires
            self.wf(),
            self.num >= 0,
        ensures
            r == q_floor(self@),
            0 <= r <= self@.n,
    {
        proof {
            vstd::arithmetic::div_mod::lemma_div_pos_is_pos(self@.n, self@.d);
            vstd::arithmetic::div_mod::lemma_div_nonincreasing(self@.n, self@.d);
        }
        ((self.num as u128) / (self.den as u128)) as i128
    }

    /// Whether a non-negative rational is an exact integer.
    pub fn is_integer(&self) -> (r: bool)
        requires
            self.wf(),
            self.num >= 0,
        ensures
            r == q_is_int(self@),
    {
        (self.num as u128) % (self.den as u128) == 0
    }

    /// Fractional part of a non-negative rational.
    pub fn fract_part(&self) -> (r: Rat)
        requires
            self.wf(),
            self.num >= 0,
        ensures
            r@ == q_fract(self@),
            r.wf(),
    {
        proof {
            vstd::arithmetic::div_mod::lemma_mod_division_less_than_divisor(self@.n, self@.d);
        }
        Rat { num: ((self.num as u128) % (self.den as u128)) as i128, den: self.den }
    }

    /// The same rational with numerator and denominator shortened by
    /// their greatest common divisor: the value is unchanged and neither
    /// component grows, so repeated arithmetic can stay within range.
    pub fn reduced(&self) -> (r: Rat)
        requires
            self.wf(),
        ensures
            r.wf(),
            q_eq(r@, self@),
            r@.d <= self@.d,
            self@.n >= 0 ==> 0 <= r@.n <= self@.n,
            self@.n < 0 ==> self@.n <= r@.n <= 0,
    {
        if self.num == i128::MIN {
            return *self;
        }
        let neg = self.num < 0;
        let mag: u128 = if neg {
            (-self.num) as u128
        } else {
            self.num as u128
        };
        let d: u128 = self.den as u128;
        let g = gcd_magnitude(mag, d);
        if mag % g == 0 && d % g == 0 {
            let short_mag = mag / g;
            let short_den = d / g;
            if short_den >= 1 {
                proof {
                    vstd::arithmetic::div_mod::lemma_fundamental_div_mod(mag as int, g as int);
                    vstd::arithmetic::div_mod::lemma_fundamental_div_mod(d as int, g as int);
                    vstd::arithmetic::div_mod::lemma_div_nonincreasing(mag as int, g as int);
                    vstd::arithmetic::div_mod::lemma_div_nonincreasing(d as int, g as int);
                    assert((mag as int) / (g as int) * ((g as int) * ((d as int) / (g as int)))
                        == ((g as int) * ((mag as int) / (g as int))) * ((d as int) / (
                    g as int))) by (nonlinear_arith);
                }
                let new_num: i128 = if neg {
                    -(short_mag as i128)
                } else {
                    short_mag as i128
                };
                proof {
                    vstd::arithmetic::mul::lemma_mul_unary_negation(
                        (mag as int) / (g as int),
                        (g as int) * ((d as int) / (g as int)),
                    );
                    vstd::arithmetic::mul::lemma_mul_unary_negation(
                        (g as int) * ((mag as int) / (g as int)),
                        (d as int) / (g as int),
                    );
                }
                return Rat { num: new_num, den: short_den as i128 };
            }
        }
        *self
    }

    /// Whether `self` and `other` are equal as numbers.
    pub fn eq_rat(&self, other: &Rat) -> (r: bool)
        requires
            self.wf(),
            other.wf(),
            in_i128(self@.n * other@.d),
            in_i128(other@.n * self@.d),
        ensures
            r == q_eq(self@, other@),
    {
        self.num * other.den == other.num * self.den
    }
}

} // verus!
