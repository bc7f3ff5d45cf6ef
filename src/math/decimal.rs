//! The wide fixed-point type: a 192-bit count of 10^-18 units, for
//! computations that chain multiplications, such as compounding interest.

use vstd::prelude::*;

use crate::math::common::{
    rounded_div, scaled_div, scaled_mul, MathError, TryAdd, TryDiv, TryMul, TrySub, WAD,
};
use crate::math::rate::Rate;
use crate::math::u192::{div_rem, mul_div_rounded, pow2_192, U192};

verus! {

/// A non-negative value held as `value * 10^18` in 192 bits.
#[derive(Clone, Copy, Debug, PartialEq, Eq, Structural)]
pub struct Decimal {
    pub raw: U192,
}

impl Decimal {
    /// The scaled integer that this value holds.
    pub open spec fn view(&self) -> int {
        self.raw@
    }

    /// The largest scaled integer that a value can hold.
    pub open spec fn max_raw() -> int {
        pow2_192() - 1
    }

    /// Builds a value from its scaled integer.
    pub fn from_scaled_raw(raw: U192) -> (r: Decimal)
        ensures
            r@ == raw@,
    {
        Decimal { raw }
    }

    /// The scaled integer that this value holds.
    pub fn to_scaled_raw(&self) -> (r: U192)
        ensures
            r@ == self@,
    {
        self.raw
    }

    /// Zero.
    pub fn zero() -> (r: Decimal)
        ensures
            r@ == 0,
    {
        Decimal { raw: U192::from_u128(0) }
    }

    /// One whole unit.
    pub fn one() -> (r: Decimal)
        ensures
            r@ == WAD,
    {
        Decimal { raw: U192::from_u128(WAD as u128) }
    }

    /// The value that stands for the integer `n`; every 128-bit integer fits.
    pub fn from_integer(n: u128) -> (r: Decimal)
        ensures
            r@ == n * WAD,
    {
        let scaled = mul_div_rounded(
            U192::from_u128(n),
            U192::from_u128(WAD as u128),
            U192::from_u128(1),
        );
        proof {
            assert(n * WAD <= u128::MAX * WAD) by (nonlinear_arith);
        }
        match scaled {
            Some(raw) => Decimal { raw },
            None => {
                proof {
                    assert(false);
                }
                Decimal::zero()
            },
        }
    }

    /// The value rounded half up to an integer, or `Overflow` when that
    /// integer does not fit in 128 bits.
    pub fn try_round_integer(&self) -> (r: Result<u128, MathError>)
        ensures
            r is Ok <==> rounded_div(self@, WAD as int) <= u128::MAX,
            r is Ok ==> r->Ok_0 == rounded_div(self@, WAD as int),
            r is Err ==> r->Err_0 == MathError::Overflow,
    {
        let rounded = mul_div_rounded(
            self.raw,
            U192::from_u128(1),
            U192::from_u128(WAD as u128),
        );
        proof {
            assert(self@ * 1 == self@);
            vstd::arithmetic::div_mod::lemma_div_is_ordered(
                self@ + WAD / 2,
                pow2_192() - 1 + WAD / 2,
                WAD as int,
            );
        }
        match rounded {
            Some(v) => if v.hi == 0 {
                Ok(v.lo)
            } else {
                Err(MathError::Overflow)
            },
            None => Err(MathError::Overflow),
        }
    }

    /// The integer part of the value, or `Overflow` when it does not fit in
    /// 128 bits.
    pub fn try_floor_integer(&self) -> (r: Result<u128, MathError>)
        ensures
            r is Ok <==> self@ / (WAD as int) <= u128::MAX,
            r is Ok ==> r->Ok_0 == self@ / (WAD as int),
            r is Err ==> r->Err_0 == MathError::Overflow,
    {
        let (q, rem) = div_rem(self.raw, U192::from_u128(WAD as u128));
        proof {
            vstd::arithmetic::div_mod::lemma_fundamental_div_mod_converse(
                self@,
                WAD as int,
                q@,
                rem@,
            );
        }
        if q.hi == 0 {
            Ok(q.lo)
        } else {
            Err(MathError::Overflow)
        }
    }

    /// The wide value of a ratio; always exact.
    pub fn from_rate(rate: Rate) -> (r: Decimal)
        ensures
            r@ == rate@,
    {
        Decimal { raw: U192::from_u128(rate.raw) }
    }

    /// The ratio of the same value, or `Overflow` when it needs more than
    /// 128 bits.
    pub fn try_into_rate(&self) -> (r: Result<Rate, MathError>)
        ensures
            r is Ok <==> self@ <= Rate::max_raw(),
            r is Ok ==> r->Ok_0@ == self@,
            r is Err ==> r->Err_0 == MathError::Overflow,
    {
        if self.raw.hi == 0 {
            Ok(Rate::from_scaled_raw(self.raw.lo))
        } else {
            Err(MathError::Overflow)
        }
    }
}

impl Decimal {
    /// What `try_add` returns for `a` and `b`.
    pub open spec fn sum_result(a: Decimal, b: Decimal) -> Result<Decimal, MathError> {
        if a@ + b@ <= Decimal::max_raw() {
            Ok(Decimal { raw: U192::from_int(a@ + b@) })
        } else {
            Err(MathError::Overflow)
        }
    }
}

/// Adding two values does not depend on their order: `try_add(a, b)` and
/// `try_add(b, a)` return the same result, the same sum or both `Overflow`.
pub proof fn lemma_try_add_commutes(a: Decimal, b: Decimal)
    ensures
        Decimal::sum_result(a, b) == Decimal::sum_result(b, a),
{
}

impl TryAdd for Decimal {
    fn try_add(self, rhs: Decimal) -> (r: Result<Decimal, MathError>)
        ensures
            r == Decimal::sum_result(self, rhs),
            r is Ok <==> self@ + rhs@ <= Decimal::max_raw(),
            r is Ok ==> r->Ok_0@ == self@ + rhs@,
            r is Err ==> r->Err_0 == MathError::Overflow,
    {
        match self.raw.checked_add(&rhs.raw) {
            Some(raw) => {
                proof {
                    raw.lemma_from_int_of_view();
                }
                Ok(Decimal { raw })
            },
            None => Err(MathError::Overflow),
        }
    }
}

impl TrySub for Decimal {
    fn try_sub(self, rhs: Decimal) -> (r: Result<Decimal, MathError>)
        ensures
            r is Ok <==> rhs@ <= self@,
            r is Ok ==> r->Ok_0@ == self@ - rhs@,
            r is Err ==> r->Err_0 == MathError::Underflow,
    {
        if self.raw.lt(&rhs.raw) {
            Err(MathError::Underflow)
        } else {
            Ok(Decimal { raw: self.raw.sub(&rhs.raw) })
        }
    }
}

impl TryMul<Decimal> for Decimal {
    fn try_mul(self, rhs: Decimal) -> (r: Result<Decimal, MathError>)
        ensures
            r is Ok <==> scaled_mul(self@, rhs@) <= Decimal::max_raw(),
            r is Ok ==> r->Ok_0@ == scaled_mul(self@, rhs@),
            r is Err ==> r->Err_0 == MathError::Overflow,
    {
        match mul_div_rounded(self.raw, rhs.raw, U192::from_u128(WAD as u128)) {
            Some(raw) => Ok(Decimal { raw }),
            None => Err(MathError::Overflow),
        }
    }
}

impl TryDiv<Decimal> for Decimal {
    fn try_div(self, rhs: Decimal) -> (r: Result<Decimal, MathError>)
        ensures
            rhs@ == 0 ==> r == Err::<Decimal, MathError>(MathError::DivideByZero),
            rhs@ > 0 ==> (r is Ok <==> scaled_div(self@, rhs@) <= Decimal::max_raw()),
            r is Ok ==> r->Ok_0@ == scaled_div(self@, rhs@),
            rhs@ > 0 && r is Err ==> r->Err_0 == MathError::Overflow,
    {
        if !U192::from_u128(0).lt(&rhs.raw) {
            return Err(MathError::DivideByZero);
        }
        proof {
            assert(self@ * WAD == WAD * self@) by (nonlinear_arith);
        }
        match mul_div_rounded(self.raw, U192::from_u128(WAD as u128), rhs.raw) {
            Some(raw) => Ok(Decimal { raw }),
            None => Err(MathError::Overflow),
        }
    }
}

impl TryMul<u64> for Decimal {
    fn try_mul(self, rhs: u64) -> (r: Result<Decimal, MathError>)
        ensures
            r is Ok <==> self@ * rhs <= Decimal::max_raw(),
            r is Ok ==> r->Ok_0@ == self@ * rhs,
            r is Err ==> r->Err_0 == MathError::Overflow,
    {
        proof {
            assert(self@ * rhs >= 0) by (nonlinear_arith)
                requires
                    self@ >= 0,
            ;
        }
        match mul_div_rounded(self.raw, U192::from_u128(rhs as u128), U192::from_u128(1)) {
            Some(raw) => Ok(Decimal { raw }),
            None => Err(MathError::Overflow),
        }
    }
}

impl TryDiv<u64> for Decimal {
    fn try_div(self, rhs: u64) -> (r: Result<Decimal, MathError>)
        ensures
            rhs == 0 ==> r == Err::<Decimal, MathError>(MathError::DivideByZero),
            rhs > 0 ==> r is Ok,
            r is Ok ==> r->Ok_0@ == rounded_div(self@, rhs as int),
    {
        if rhs == 0 {
            return Err(MathError::DivideByZero);
        }
        proof {
            let d = rhs as int;
            let n = self@ + d / 2;
            assert(self@ * 1 == self@);
            vstd::arithmetic::div_mod::lemma_fundamental_div_mod(n, d);
            assert(n / d <= self@) by (nonlinear_arith)
                requires
                    n == d * (n / d) + n % d,
                    n % d >= 0,
                    n == self@ + d / 2,
                    d >= 1,
                    self@ >= 0,
            ;
        }
        match mul_div_rounded(self.raw, U192::from_u128(1), U192::from_u128(rhs as u128)) {
            Some(raw) => Ok(Decimal { raw }),
            None => Err(MathError::Overflow),
        }
    }
}

} // verus!
