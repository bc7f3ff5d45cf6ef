//! The narrow fixed-point type: a 128-bit count of 10^-18 units, for
//! single-step ratios and percentages.

use vstd::prelude::*;

use crate::math::common::{
    div_wad_rounded, mul_wad_rounded, rounded_div, scaled_div, scaled_mul, MathError, TryAdd,
    TryDiv, TryMul, TrySub, HALF_WAD, WAD,
};

verus! {

/// A non-negative ratio held as `value * 10^18` in 128 bits.
#[derive(Clone, Copy, Debug, PartialEq, Eq, Structural)]
pub struct Rate {
    pub raw: u128,
}

impl Rate {
    /// The scaled integer that this ratio holds.
    pub open spec fn view(&self) -> int {
        self.raw as int
    }

    /// The largest scaled integer that a ratio can hold.
    pub open spec fn max_raw() -> int {
        u128::MAX as int
    }

    /// Builds a ratio from its scaled integer.
    pub fn from_scaled_raw(raw: u128) -> (r: Rate)
        ensures
            r@ == raw,
    {
        Rate { raw }
    }

    /// Zero.
    pub fn zero() -> (r: Rate)
        ensures
            r@ == 0,
    {
        Rate { raw: 0 }
    }

    /// One whole unit.
    pub fn one() -> (r: Rate)
        ensures
            r@ == WAD,
    {
        Rate { raw: WAD as u128 }
    }

    /// The ratio that stands for the integer `n`, or `Overflow` when
    /// `n * 10^18` does not fit in 128 bits.
    pub fn from_integer(n: u128) -> (r: Result<Rate, MathError>)
        ensures
            r is Ok <==> n * WAD <= Rate::max_raw(),
            r is Ok ==> r->Ok_0@ == n * WAD,
            r is Err ==> r->Err_0 == MathError::Overflow,
    {
        match n.checked_mul(WAD as u128) {
            Some(raw) => Ok(Rate { raw }),
            None => Err(MathError::Overflow),
        }
    }

    /// The ratio rounded half up to an integer; every ratio's rounded value
    /// fits in 128 bits.
    pub fn try_round_integer(&self) -> (r: Result<u128, MathError>)
        ensures
            r == Ok::<u128, MathError>(rounded_div(self@, WAD as int) as u128),
            rounded_div(self@, WAD as int) <= u128::MAX,
    {
        let w = WAD as u128;
        let q = self.raw / w;
        let m = self.raw % w;
        proof {
            vstd::arithmetic::div_mod::lemma_fundamental_div_mod(self@, WAD as int);
        }
        if m >= HALF_WAD as u128 {
            proof {
                vstd::arithmetic::div_mod::lemma_fundamental_div_mod_converse(
                    self@ + HALF_WAD,
                    WAD as int,
                    q + 1,
                    m + HALF_WAD - WAD,
                );
            }
            Ok(q + 1)
        } else {
            proof {
                vstd::arithmetic::div_mod::lemma_fundamental_div_mod_converse(
                    self@ + HALF_WAD,
                    WAD as int,
                    q as int,
                    m + HALF_WAD,
                );
            }
            Ok(q)
        }
    }

    /// The integer part of the ratio.
    pub fn floor_integer(&self) -> (r: u128)
        ensures
            r == self@ / (WAD as int),
    {
        self.raw / (WAD as u128)
    }

    /// The scaled integer that this ratio holds.
    pub fn to_scaled_raw(&self) -> (r: u128)
        ensures
            r == self@,
    {
        self.raw
    }
}

impl Rate {
    /// What `try_add` returns for `a` and `b`.
    pub open spec fn sum_result(a: Rate, b: Rate) -> Result<Rate, MathError> {
        if a@ + b@ <= Rate::max_raw() {
            Ok(Rate { raw: (a@ + b@) as u128 })
        } else {
            Err(MathError::Overflow)
        }
    }
}

impl TryAdd for Rate {
    fn try_add(self, rhs: Rate) -> (r: Result<Rate, MathError>)
        ensures
            r == Rate::sum_result(self, rhs),
            r is Ok <==> self@ + rhs@ <= Rate::max_raw(),
            r is Ok ==> r->Ok_0@ == self@ + rhs@,
            r is Err ==> r->Err_0 == MathError::Overflow,
    {
        match self.raw.checked_add(rhs.raw) {
            Some(raw) => Ok(Rate { raw }),
            None => Err(MathError::Overflow),
        }
    }
}

/// Adding two ratios does not depend on their order: `try_add(a, b)` and
/// `try_add(b, a)` return the same result, the same sum or both `Overflow`.
pub proof fn lemma_try_add_commutes(a: Rate, b: Rate)
    ensures
        Rate::sum_result(a, b) == Rate::sum_result(b, a),
{
}

impl TrySub for Rate {
    fn try_sub(self, rhs: Rate) -> (r: Result<Rate, MathError>)
        ensures
            r is Ok <==> rhs@ <= self@,
            r is Ok ==> r->Ok_0@ == self@ - rhs@,
            r is Err ==> r->Err_0 == MathError::Underflow,
    {
        match self.raw.checked_sub(rhs.raw) {
            Some(raw) => Ok(Rate { raw }),
            None => Err(MathError::Underflow),
        }
    }
}

impl TryMul<Rate> for Rate {
    fn try_mul(self, rhs: Rate) -> (r: Result<Rate, MathError>)
        ensures
            r is Ok <==> scaled_mul(self@, rhs@) <= Rate::max_raw(),
            r is Ok ==> r->Ok_0@ == scaled_mul(self@, rhs@),
            r is Err ==> r->Err_0 == MathError::Overflow,
    {
        match mul_wad_rounded(self.raw, rhs.raw) {
            Some(raw) => Ok(Rate { raw }),
            None => Err(MathError::Overflow),
        }
    }
}

impl TryDiv<Rate> for Rate {
    fn try_div(self, rhs: Rate) -> (r: Result<Rate, MathError>)
        ensures
            rhs@ == 0 ==> r == Err::<Rate, MathError>(MathError::DivideByZero),
            rhs@ > 0 ==> (r is Ok <==> scaled_div(self@, rhs@) <= Rate::max_raw()),
            r is Ok ==> r->Ok_0@ == scaled_div(self@, rhs@),
            rhs@ > 0 && r is Err ==> r->Err_0 == MathError::Overflow,
    {
        if rhs.raw == 0 {
            return Err(MathError::DivideByZero);
        }
        match div_wad_rounded(self.raw, rhs.raw) {
            Some(raw) => Ok(Rate { raw }),
            None => Err(MathError::Overflow),
        }
    }
}

impl TryMul<u64> for Rate {
    fn try_mul(self, rhs: u64) -> (r: Result<Rate, MathError>)
        ensures
            r is Ok <==> self@ * rhs <= Rate::max_raw(),
            r is Ok ==> r->Ok_0@ == self@ * rhs,
            r is Err ==> r->Err_0 == MathError::Overflow,
    {
        match self.raw.checked_mul(rhs as u128) {
            Some(raw) => Ok(Rate { raw }),
            None => Err(MathError::Overflow),
        }
    }
}

impl TryDiv<u64> for Rate {
    fn try_div(self, rhs: u64) -> (r: Result<Rate, MathError>)
        ensures
            rhs == 0 ==> r == Err::<Rate, MathError>(MathError::DivideByZero),
            rhs > 0 ==> r is Ok,
            r is Ok ==> r->Ok_0@ == rounded_div(self@, rhs as int),
    {
        if rhs == 0 {
            return Err(MathError::DivideByZero);
        }
        let d = rhs as u128;
        let q = self.raw / d;
        let m = self.raw % d;
        proof {
            vstd::arithmetic::div_mod::lemma_fundamental_div_mod(self@, d as int);
        }
        if m >= d - d / 2 {
            proof {
                assert(d >= 2);
                assert(self@ + d / 2 == (q + 1) * d + (m + d / 2 - d) && q < u128::MAX)
                    by (nonlinear_arith)
                    requires
                        self@ == d * q + m,
                        d >= 2,
                        m >= 0,
                        self@ <= u128::MAX,
                ;
                vstd::arithmetic::div_mod::lemma_fundamental_div_mod_converse(
                    self@ + d / 2,
                    d as int,
                    q + 1,
                    m + d / 2 - d,
                );
            }
            Ok(Rate { raw: q + 1 })
        } else {
            proof {
                vstd::arithmetic::div_mod::lemma_fundamental_div_mod_converse(
                    self@ + d / 2,
                    d as int,
                    q as int,
                    m + d / 2,
                );
            }
            Ok(Rate { raw: q })
        }
    }
}

} // verus!
