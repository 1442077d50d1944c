//! Exact numeric values.
//!
//! The language computes with exact rationals rather than machine floats:
//! a value is a fraction `num/den` with `den >= 1`, kept in lowest terms by
//! construction, or one of three special values — `inf`, `-inf` and `NaN` —
//! that make division by zero a non-trapping operation with the familiar
//! floating-point rules (`x/0` is a signed infinity for `x != 0`, `0/0` is
//! `NaN`, and the special values propagate through arithmetic).
//!
//! Because the arithmetic is exact, a canonical fraction can outgrow the
//! 64-bit fields that hold it; such an operation reports
//! [`Error::ResourceExhausted`] instead of returning a rounded value.

use vstd::prelude::*;

verus! {

use crate::ast::Error;
use vstd::arithmetic::div_mod::lemma_fundamental_div_mod;

/// An exact numeric value: a rational in lowest terms, or a special value.
#[derive(Clone, Copy, Debug, PartialEq, Eq, Structural)]
pub enum Num {
    /// The fraction `num/den`, with `den >= 1`.
    Rat { num: i64, den: i64 },
    /// Positive infinity, as produced by dividing a positive value by zero.
    PosInf,
    /// Negative infinity, as produced by dividing a negative value by zero.
    NegInf,
    /// Not a number, as produced by dividing zero by zero.
    NaN,
}

impl Num {
    /// A well-formed value has a positive denominator.
    pub open spec fn wf(self) -> bool {
        match self {
            Num::Rat { num, den } => den >= 1,
            _ => true,
        }
    }

    /// The exact integer behind a canonical value, if it is integral.
    pub open spec fn int_value(self) -> Option<i64> {
        match self {
            Num::Rat { num, den } => if den == 1 {
                Some(num)
            } else {
                None
            },
            _ => None,
        }
    }

    /// Returns the exact integer behind this value, or `None` when the
    /// value is not integral (the denominator of a canonical fraction is 1
    /// exactly when the fraction is an integer).
    pub fn as_integer(&self) -> (r: Option<i64>)
        ensures
            r == self.int_value(),
    {
        match *self {
            Num::Rat { num, den } => if den == 1 {
                Some(num)
            } else {
                None
            },
            _ => None,
        }
    }

    /// The exact value of an integer.
    pub fn from_int(n: i64) -> (r: Num)
        ensures
            r == (Num::Rat { num: n, den: 1 }),
            r.wf(),
    {
        Num::Rat { num: n, den: 1 }
    }
}

/// The greatest common divisor, by Euclid's algorithm.
pub open spec fn gcd(a: nat, b: nat) -> nat
    decreases b,
{
    if b == 0 {
        a
    } else {
        gcd(b, a % b)
    }
}

/// For a positive second argument, the greatest common divisor is positive,
/// at most that argument, and divides both arguments.
pub proof fn lemma_gcd(a: nat, b: nat)
    requires
        b >= 1,
    ensures
        1 <= gcd(a, b) <= b,
        a % gcd(a, b) == 0,
        b % gcd(a, b) == 0,
    decreases b,
{
    let r = a % b;
    if r == 0 {
        assert(gcd(a, b) == gcd(b, 0));
        assert(gcd(b, 0) == b);
        assert(b % b == 0) by {
            lemma_fundamental_div_mod(b as int, b as int);
            assert(b as int == b as int * 1int + 0int) by (nonlinear_arith);
            assert(b / b == 1 && b % b == 0) by {
                vstd::arithmetic::div_mod::lemma_fundamental_div_mod_converse(
                    b as int,
                    b as int,
                    1int,
                    0int,
                );
            }
        }
    } else {
        lemma_gcd(b, r);
        let g = gcd(b, r);
        assert(gcd(a, b) == g);
        // a = b * (a/b) + r, with b and r both multiples of g, so a is too.
        lemma_fundamental_div_mod(a as int, b as int);
        lemma_fundamental_div_mod(b as int, g as int);
        lemma_fundamental_div_mod(r as int, g as int);
        let q = a as int / b as int;
        let k1 = b as int / g as int;
        let k2 = r as int / g as int;
        assert(a as int == g as int * (k1 * q + k2)) by (nonlinear_arith)
            requires
                a as int == b as int * q + r as int,
                b as int == g as int * k1,
                r as int == g as int * k2,
        ;
        assert(a as int % g as int == 0) by {
            vstd::arithmetic::div_mod::lemma_mod_multiples_basic(k1 * q + k2, g as int);
            assert(g as int * (k1 * q + k2) == (k1 * q + k2) * g as int) by (nonlinear_arith);
        }
    }
}

/// The magnitude of an integer, as a natural number.
pub open spec fn abs_nat(n: int) -> nat {
    if n >= 0 {
        n as nat
    } else {
        (-n) as nat
    }
}

/// The canonical form of the fraction `n/d` for `d >= 1`: both parts are
/// divided by their greatest common divisor. The result is the fraction in
/// lowest terms when it fits the 64-bit fields, and
/// [`Error::ResourceExhausted`] otherwise.
pub open spec fn spec_rat(n: int, d: int) -> Result<Num, Error>
    recommends
        d >= 1,
{
    let g = gcd(abs_nat(n), d as nat);
    let qn = abs_nat(n) / g;
    let qd = d as nat / g;
    if qd <= i64::MAX as nat && (if n >= 0 {
        qn <= i64::MAX as nat
    } else {
        qn <= i64::MAX as nat + 1
    }) {
        Ok(
            Num::Rat {
                num: if n >= 0 {
                    qn as i64
                } else {
                    (-(qn as int)) as i64
                },
                den: qd as i64,
            },
        )
    } else {
        Err(Error::ResourceExhausted)
    }
}

/// Canonicalization keeps the fraction's value: a successful result
/// cross-multiplies with the argument, and is well formed.
pub proof fn lemma_spec_rat_value(n: int, d: int)
    requires
        d >= 1,
    ensures
        match spec_rat(n, d) {
            Ok(v) => match v {
                Num::Rat { num, den } => 1 <= den <= d && num as int * d == n * den as int
                    && abs_nat(num as int) <= abs_nat(n),
                _ => false,
            },
            Err(e) => e == Error::ResourceExhausted,
        },
{
    let an = abs_nat(n);
    let g = gcd(an, d as nat);
    lemma_gcd(an, d as nat);
    let qn = an / g;
    let qd = d as nat / g;
    lemma_fundamental_div_mod(an as int, g as int);
    lemma_fundamental_div_mod(d as int, g as int);
    assert(an as int == g as int * qn as int);
    assert(d as int == g as int * qd as int);
    assert(qd >= 1) by (nonlinear_arith)
        requires
            d as int == g as int * qd as int,
            d >= 1,
            g >= 1,
    ;
    assert(qd <= d as nat) by (nonlinear_arith)
        requires
            d as int == g as int * qd as int,
            g >= 1,
            qd >= 0,
    ;
    assert(qn <= an) by (nonlinear_arith)
        requires
            an as int == g as int * qn as int,
            g >= 1,
            qn >= 0,
    ;
    if spec_rat(n, d) is Ok {
        assert(qn as int * d == an as int * qd as int) by (nonlinear_arith)
            requires
                an as int == g as int * qn as int,
                d == g as int * qd as int,
        ;
        if n >= 0 {
            assert(an == n as nat);
            assert((qn as i64) as int == qn as int);
        } else {
            assert(an == (-n) as nat);
            assert(((-(qn as int)) as i64) as int == -(qn as int));
            assert(-(qn as int) * d == n * qd as int) by (nonlinear_arith)
                requires
                    qn as int * d == an as int * qd as int,
                    n == -(an as int),
            ;
        }
    }
}

/// Euclid's algorithm on 128-bit unsigned integers.
fn gcd_u128(a: u128, b: u128) -> (g: u128)
    ensures
        g as nat == gcd(a as nat, b as nat),
    decreases b,
{
    if b == 0 {
        a
    } else {
        gcd_u128(b, a % b)
    }
}

/// Builds the canonical fraction `n/d`. The 128-bit intermediate range is
/// wide enough for every product of two 64-bit parts.
fn rat_make(n: i128, d: i128) -> (r: Result<Num, Error>)
    requires
        d >= 1,
        n > i128::MIN,
    ensures
        r == spec_rat(n as int, d as int),
        r matches Ok(v) ==> v.wf(),
{
    proof {
        lemma_spec_rat_value(n as int, d as int);
    }
    let neg = n < 0;
    let an: u128 = if neg {
        (-n) as u128
    } else {
        n as u128
    };
    let ud: u128 = d as u128;
    let g = gcd_u128(an, ud);
    proof {
        lemma_gcd(an as nat, ud as nat);
    }
    let qn = an / g;
    let qd = ud / g;
    proof {
        lemma_fundamental_div_mod(ud as int, g as int);
        assert(qd >= 1) by (nonlinear_arith)
            requires
                ud as int == g as int * qd as int,
                ud >= 1,
                g >= 1,
        ;
    }
    if qd > (i64::MAX as u128) {
        return Err(Error::ResourceExhausted);
    }
    if neg {
        if qn > (i64::MAX as u128) + 1 {
            return Err(Error::ResourceExhausted);
        }
        let num: i64 = (-(qn as i128)) as i64;
        Ok(Num::Rat { num, den: qd as i64 })
    } else {
        if qn > i64::MAX as u128 {
            return Err(Error::ResourceExhausted);
        }
        Ok(Num::Rat { num: qn as i64, den: qd as i64 })
    }
}

/// The sign of a value: 1, 0 or -1 for rationals by their numerator, 1 for
/// `inf`, -1 for `-inf` (and 0 for `NaN`, where no arm consults it).
pub open spec fn sign_of(a: Num) -> int {
    match a {
        Num::Rat { num, den } => if num > 0 {
            1
        } else if num < 0 {
            -1
        } else {
            0
        },
        Num::PosInf => 1,
        Num::NegInf => -1,
        Num::NaN => 0,
    }
}

/// An infinity whose sign is the product of the two given signs, or `NaN`
/// when either factor is zero.
pub open spec fn signed_inf(sa: int, sb: int) -> Num {
    if sa * sb > 0 {
        Num::PosInf
    } else if sa * sb < 0 {
        Num::NegInf
    } else {
        Num::NaN
    }
}

/// Exact negation.
pub open spec fn spec_neg(a: Num) -> Result<Num, Error> {
    match a {
        Num::NaN => Ok(Num::NaN),
        Num::PosInf => Ok(Num::NegInf),
        Num::NegInf => Ok(Num::PosInf),
        Num::Rat { num, den } => spec_rat(-(num as int), den as int),
    }
}

/// Exact addition: `NaN` propagates, opposite infinities give `NaN`, an
/// infinity absorbs any finite value, and finite values add as fractions.
pub open spec fn spec_add(a: Num, b: Num) -> Result<Num, Error> {
    match (a, b) {
        (Num::NaN, _) => Ok(Num::NaN),
        (_, Num::NaN) => Ok(Num::NaN),
        (Num::PosInf, Num::NegInf) => Ok(Num::NaN),
        (Num::NegInf, Num::PosInf) => Ok(Num::NaN),
        (Num::PosInf, _) => Ok(Num::PosInf),
        (_, Num::PosInf) => Ok(Num::PosInf),
        (Num::NegInf, _) => Ok(Num::NegInf),
        (_, Num::NegInf) => Ok(Num::NegInf),
        (Num::Rat { num: n1, den: d1 }, Num::Rat { num: n2, den: d2 }) => spec_rat(
            n1 * d2 + n2 * d1,
            d1 * d2,
        ),
    }
}

/// Exact subtraction, with the infinity rules mirrored from addition.
pub open spec fn spec_sub(a: Num, b: Num) -> Result<Num, Error> {
    match (a, b) {
        (Num::NaN, _) => Ok(Num::NaN),
        (_, Num::NaN) => Ok(Num::NaN),
        (Num::PosInf, Num::PosInf) => Ok(Num::NaN),
        (Num::NegInf, Num::NegInf) => Ok(Num::NaN),
        (Num::PosInf, _) => Ok(Num::PosInf),
        (Num::NegInf, _) => Ok(Num::NegInf),
        (_, Num::PosInf) => Ok(Num::NegInf),
        (_, Num::NegInf) => Ok(Num::PosInf),
        (Num::Rat { num: n1, den: d1 }, Num::Rat { num: n2, den: d2 }) => spec_rat(
            n1 * d2 - n2 * d1,
            d1 * d2,
        ),
    }
}

/// Exact multiplication: `NaN` propagates, an infinity times zero is `NaN`,
/// an infinity otherwise keeps the product's sign, and finite values
/// multiply as fractions.
pub open spec fn spec_mul(a: Num, b: Num) -> Result<Num, Error> {
    match (a, b) {
        (Num::NaN, _) => Ok(Num::NaN),
        (_, Num::NaN) => Ok(Num::NaN),
        (Num::PosInf, _) => Ok(signed_inf(1, sign_of(b))),
        (Num::NegInf, _) => Ok(signed_inf(-1, sign_of(b))),
        (_, Num::PosInf) => Ok(signed_inf(sign_of(a), 1)),
        (_, Num::NegInf) => Ok(signed_inf(sign_of(a), -1)),
        (Num::Rat { num: n1, den: d1 }, Num::Rat { num: n2, den: d2 }) => spec_rat(
            n1 * n2,
            d1 * d2,
        ),
    }
}

/// Exact division: `NaN` propagates, infinity over infinity is `NaN`, a
/// finite value over an infinity is zero, an infinity over a finite value
/// keeps the quotient's sign, a nonzero value over zero is a signed
/// infinity, zero over zero is `NaN`, and other finite quotients are
/// fractions.
pub open spec fn spec_div(a: Num, b: Num) -> Result<Num, Error> {
    match (a, b) {
        (Num::NaN, _) => Ok(Num::NaN),
        (_, Num::NaN) => Ok(Num::NaN),
        (Num::PosInf, Num::PosInf) => Ok(Num::NaN),
        (Num::PosInf, Num::NegInf) => Ok(Num::NaN),
        (Num::NegInf, Num::PosInf) => Ok(Num::NaN),
        (Num::NegInf, Num::NegInf) => Ok(Num::NaN),
        (Num::Rat { num: n1, den: d1 }, Num::PosInf) => Ok(Num::Rat { num: 0, den: 1 }),
        (Num::Rat { num: n1, den: d1 }, Num::NegInf) => Ok(Num::Rat { num: 0, den: 1 }),
        (Num::PosInf, Num::Rat { num: n2, den: d2 }) => Ok(
            if n2 >= 0 {
                Num::PosInf
            } else {
                Num::NegInf
            },
        ),
        (Num::NegInf, Num::Rat { num: n2, den: d2 }) => Ok(
            if n2 >= 0 {
                Num::NegInf
            } else {
                Num::PosInf
            },
        ),
        (Num::Rat { num: n1, den: d1 }, Num::Rat { num: n2, den: d2 }) => if n2 == 0 {
            if n1 > 0 {
                Ok(Num::PosInf)
            } else if n1 < 0 {
                Ok(Num::NegInf)
            } else {
                Ok(Num::NaN)
            }
        } else if n2 > 0 {
            spec_rat(n1 * d2, d1 * n2)
        } else {
            spec_rat(-(n1 * d2), d1 * -n2)
        },
    }
}

/// The product of two integers within the given magnitudes stays within
/// the product of the magnitudes.
proof fn lemma_abs_mul_le(a: int, b: int, ca: int, cb: int)
    by (nonlinear_arith)
    requires
        -ca <= a <= ca,
        -cb <= b <= cb,
        0 <= ca,
        0 <= cb,
    ensures
        -(ca * cb) <= a * b <= ca * cb,
{
}

impl Num {
    /// Negation.
    pub fn neg(&self) -> (r: Result<Num, Error>)
        requires
            self.wf(),
        ensures
            r == spec_neg(*self),
            r matches Ok(v) ==> v.wf(),
    {
        match *self {
            Num::NaN => Ok(Num::NaN),
            Num::PosInf => Ok(Num::NegInf),
            Num::NegInf => Ok(Num::PosInf),
            Num::Rat { num, den } => rat_make(-(num as i128), den as i128),
        }
    }

    /// Addition.
    pub fn add(&self, other: &Num) -> (r: Result<Num, Error>)
        requires
            self.wf(),
            other.wf(),
        ensures
            r == spec_add(*self, *other),
            r matches Ok(v) ==> v.wf(),
    {
        match (*self, *other) {
            (Num::NaN, _) => Ok(Num::NaN),
            (_, Num::NaN) => Ok(Num::NaN),
            (Num::PosInf, Num::NegInf) => Ok(Num::NaN),
            (Num::NegInf, Num::PosInf) => Ok(Num::NaN),
            (Num::PosInf, _) => Ok(Num::PosInf),
            (_, Num::PosInf) => Ok(Num::PosInf),
            (Num::NegInf, _) => Ok(Num::NegInf),
            (_, Num::NegInf) => Ok(Num::NegInf),
            (Num::Rat { num: n1, den: d1 }, Num::Rat { num: n2, den: d2 }) => {
                proof {
                    lemma_abs_mul_le(n1 as int, d2 as int, i64::MAX as int + 1, i64::MAX as int);
                    lemma_abs_mul_le(n2 as int, d1 as int, i64::MAX as int + 1, i64::MAX as int);
                    lemma_abs_mul_le(d1 as int, d2 as int, i64::MAX as int, i64::MAX as int);
                    assert(d1 as int * d2 as int >= 1) by (nonlinear_arith)
                        requires
                            d1 >= 1,
                            d2 >= 1,
                    ;
                }
                let x: i128 = (n1 as i128) * (d2 as i128) + (n2 as i128) * (d1 as i128);
                let y: i128 = (d1 as i128) * (d2 as i128);
                rat_make(x, y)
            },
        }
    }

    /// Subtraction.
    pub fn sub(&self, other: &Num) -> (r: Result<Num, Error>)
        requires
            self.wf(),
            other.wf(),
        ensures
            r == spec_sub(*self, *other),
            r matches Ok(v) ==> v.wf(),
    {
        match (*self, *other) {
            (Num::NaN, _) => Ok(Num::NaN),
            (_, Num::NaN) => Ok(Num::NaN),
            (Num::PosInf, Num::PosInf) => Ok(Num::NaN),
            (Num::NegInf, Num::NegInf) => Ok(Num::NaN),
            (Num::PosInf, _) => Ok(Num::PosInf),
            (Num::NegInf, _) => Ok(Num::NegInf),
            (_, Num::PosInf) => Ok(Num::NegInf),
            (_, Num::NegInf) => Ok(Num::PosInf),
            (Num::Rat { num: n1, den: d1 }, Num::Rat { num: n2, den: d2 }) => {
                proof {
                    lemma_abs_mul_le(n1 as int, d2 as int, i64::MAX as int + 1, i64::MAX as int);
                    lemma_abs_mul_le(n2 as int, d1 as int, i64::MAX as int + 1, i64::MAX as int);
                    lemma_abs_mul_le(d1 as int, d2 as int, i64::MAX as int, i64::MAX as int);
                    assert(d1 as int * d2 as int >= 1) by (nonlinear_arith)
                        requires
                            d1 >= 1,
                            d2 >= 1,
                    ;
                }
                let x: i128 = (n1 as i128) * (d2 as i128) - (n2 as i128) * (d1 as i128);
                let y: i128 = (d1 as i128) * (d2 as i128);
                rat_make(x, y)
            },
        }
    }

    /// Multiplication.
    pub fn mul(&self, other: &Num) -> (r: Result<Num, Error>)
        requires
            self.wf(),
            other.wf(),
        ensures
            r == spec_mul(*self, *other),
            r matches Ok(v) ==> v.wf(),
    {
        match (*self, *other) {
            (Num::NaN, _) => Ok(Num::NaN),
            (_, Num::NaN) => Ok(Num::NaN),
            (Num::PosInf, b) => Ok(Self::inf_times(1, &b)),
            (Num::NegInf, b) => Ok(Self::inf_times(-1, &b)),
            (a, Num::PosInf) => Ok(Self::inf_times(1, &a)),
            (a, Num::NegInf) => Ok(Self::inf_times(-1, &a)),
            (Num::Rat { num: n1, den: d1 }, Num::Rat { num: n2, den: d2 }) => {
                proof {
                    lemma_abs_mul_le(n1 as int, n2 as int, i64::MAX as int + 1, i64::MAX as int + 1);
                    lemma_abs_mul_le(d1 as int, d2 as int, i64::MAX as int, i64::MAX as int);
                    assert(d1 as int * d2 as int >= 1) by (nonlinear_arith)
                        requires
                            d1 >= 1,
                            d2 >= 1,
                    ;
                }
                let x: i128 = (n1 as i128) * (n2 as i128);
                let y: i128 = (d1 as i128) * (d2 as i128);
                rat_make(x, y)
            },
        }
    }

    /// An infinity of sign `s` times the (non-`NaN`) value `b`.
    fn inf_times(s: i64, b: &Num) -> (r: Num)
        requires
            s == 1 || s == -1i64,
            !(*b is NaN),
        ensures
            r == signed_inf(s as int, sign_of(*b)),
    {
        let sb: i64 = match *b {
            Num::Rat { num, den } => if num > 0 {
                1
            } else if num < 0 {
                -1
            } else {
                0
            },
            Num::PosInf => 1,
            Num::NegInf => -1,
            Num::NaN => 0,
        };
        if s * sb > 0 {
            Num::PosInf
        } else if s * sb < 0 {
            Num::NegInf
        } else {
            Num::NaN
        }
    }

    /// Division.
    pub fn div(&self, other: &Num) -> (r: Result<Num, Error>)
        requires
            self.wf(),
            other.wf(),
        ensures
            r == spec_div(*self, *other),
            r matches Ok(v) ==> v.wf(),
    {
        match (*self, *other) {
            (Num::NaN, _) => Ok(Num::NaN),
            (_, Num::NaN) => Ok(Num::NaN),
            (Num::PosInf, Num::PosInf) => Ok(Num::NaN),
            (Num::PosInf, Num::NegInf) => Ok(Num::NaN),
            (Num::NegInf, Num::PosInf) => Ok(Num::NaN),
            (Num::NegInf, Num::NegInf) => Ok(Num::NaN),
            (Num::Rat { .. }, Num::PosInf) => Ok(Num::Rat { num: 0, den: 1 }),
            (Num::Rat { .. }, Num::NegInf) => Ok(Num::Rat { num: 0, den: 1 }),
            (Num::PosInf, Num::Rat { num: n2, .. }) => Ok(
                if n2 >= 0 {
                    Num::PosInf
                } else {
                    Num::NegInf
                },
            ),
            (Num::NegInf, Num::Rat { num: n2, .. }) => Ok(
                if n2 >= 0 {
                    Num::NegInf
                } else {
                    Num::PosInf
                },
            ),
            (Num::Rat { num: n1, den: d1 }, Num::Rat { num: n2, den: d2 }) => {
                if n2 == 0 {
                    if n1 > 0 {
                        Ok(Num::PosInf)
                    } else if n1 < 0 {
                        Ok(Num::NegInf)
                    } else {
                        Ok(Num::NaN)
                    }
                } else {
                    proof {
                        lemma_abs_mul_le(
                            n1 as int,
                            d2 as int,
                            i64::MAX as int + 1,
                            i64::MAX as int,
                        );
                        lemma_abs_mul_le(
                            d1 as int,
                            n2 as int,
                            i64::MAX as int,
                            i64::MAX as int + 1,
                        );
                    }
                    let x: i128 = (n1 as i128) * (d2 as i128);
                    let y: i128 = (d1 as i128) * (n2 as i128);
                    if n2 > 0 {
                        proof {
                            assert(d1 as int * n2 as int >= 1) by (nonlinear_arith)
                                requires
                                    d1 >= 1,
                                    n2 >= 1,
                            ;
                        }
                        rat_make(x, y)
                    } else {
                        proof {
                            assert(d1 as int * -(n2 as int) >= 1) by (nonlinear_arith)
                                requires
                                    d1 >= 1,
                                    n2 <= -1,
                            ;
                            assert(d1 as int * -(n2 as int) == -(d1 as int * n2 as int))
                                by (nonlinear_arith);
                        }
                        rat_make(-x, -y)
                    }
                }
            },
        }
    }
}

} // verus!
