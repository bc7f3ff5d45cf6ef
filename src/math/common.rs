//! Constants, errors and the fallible-operation traits shared by the
//! fixed-point types.

use vstd::prelude::*;

verus! {

/// Number of decimal digits below the unit.
pub const SCALE: usize = 18;

/// One whole unit, in scaled units.
pub const WAD: u64 = 1_000_000_000_000_000_000;

/// Half of one whole unit, in scaled units.
pub const HALF_WAD: u64 = 500_000_000_000_000_000;

/// One percent, in scaled units.
pub const PERCENT_SCALER: u64 = 10_000_000_000_000_000;

/// Why a fixed-point operation could not produce a value.
#[derive(Clone, Copy, Debug, PartialEq, Eq, Structural)]
pub enum MathError {
    /// The exact result is larger than the type can hold.
    Overflow,
    /// The exact result would be negative.
    Underflow,
    /// The divisor is zero.
    DivideByZero,
}

/// Round-half-up product of two scaled values: `a * b / 10^18`.
pub open spec fn scaled_mul(a: int, b: int) -> int {
    (a * b + HALF_WAD) / (WAD as int)
}

/// Round-half-up quotient of two scaled values: `a * 10^18 / b`, with `b > 0`.
pub open spec fn scaled_div(a: int, b: int) -> int
    recommends
        b > 0,
{
    (a * WAD + b / 2) / b
}

/// Round-half-up quotient of an integer division, with `b > 0`.
pub open spec fn rounded_div(a: int, b: int) -> int
    recommends
        b > 0,
{
    (a + b / 2) / b
}

/// `10^n`.
pub open spec fn pow10(n: nat) -> int
    decreases n,
{
    if n == 0 {
        1
    } else {
        10 * pow10((n - 1) as nat)
    }
}

proof fn lemma_pow10_positive(n: nat)
    ensures
        pow10(n) >= 1,
    decreases n,
{
    if n > 0 {
        lemma_pow10_positive((n - 1) as nat);
    }
}

proof fn lemma_split_quotient(x: int, y: int, d: int)
    requires
        x >= 0,
        y >= 0,
        d > 0,
    ensures
        (x * d + y) / d == x + y / d,
{
    vstd::arithmetic::div_mod::lemma_fundamental_div_mod(y, d);
    assert(x * d + y == (x + y / d) * d + y % d) by (nonlinear_arith)
        requires
            y == d * (y / d) + y % d,
    ;
    vstd::arithmetic::div_mod::lemma_fundamental_div_mod_converse(x * d + y, d, x + y / d, y % d);
}

/// `scaled_mul(a, b)` for 128-bit operands, or `None` when it exceeds 128 bits.
pub fn mul_wad_rounded(a: u128, b: u128) -> (r: Option<u128>)
    ensures
        r is Some <==> scaled_mul(a as int, b as int) <= u128::MAX,
        r is Some ==> r->Some_0 == scaled_mul(a as int, b as int),
{
    let w: u128 = WAD as u128;
    let a1 = a / w;
    let a0 = a % w;
    let b1 = b / w;
    let b0 = b % w;
    assert(a0 * b0 + HALF_WAD <= u128::MAX) by (nonlinear_arith)
        requires
            a0 < WAD,
            b0 < WAD,
    ;
    let low = (a0 * b0 + HALF_WAD as u128) / w;
    proof {
        vstd::arithmetic::div_mod::lemma_fundamental_div_mod(a as int, WAD as int);
        vstd::arithmetic::div_mod::lemma_fundamental_div_mod(b as int, WAD as int);
        let x = a1 * b + a0 * b1;
        assert(a * b + HALF_WAD == x * WAD + (a0 * b0 + HALF_WAD)) by (nonlinear_arith)
            requires
                a == WAD * a1 + a0,
                b == WAD * b1 + b0,
                x == a1 * b + a0 * b1,
        ;
        assert(a1 * b >= 0 && a0 * b1 >= 0) by (nonlinear_arith);
        lemma_split_quotient(x, a0 * b0 + HALF_WAD, WAD as int);
        assert(scaled_mul(a as int, b as int) == a1 * b + a0 * b1 + low);
    }
    let high = match a1.checked_mul(b) {
        Some(v) => v,
        None => return None,
    };
    let mid = match a0.checked_mul(b1) {
        Some(v) => v,
        None => return None,
    };
    match high.checked_add(mid) {
        Some(v) => v.checked_add(low),
        None => None,
    }
}

/// Splits `10 * r` by `b`: returns `(c, x)` with `10 * r == c * b + x`, `x < b`.
fn times_ten_mod(r: u128, b: u128) -> (res: (u128, u128))
    requires
        r < b,
    ensures
        10 * r == res.0 * b + res.1,
        res.1 < b,
        res.0 <= 10,
{
    let mut c: u128 = 0;
    let mut x: u128 = 0;
    let mut j: u128 = 0;
    while j < 10
        invariant
            j <= 10,
            c <= j,
            x < b,
            r < b,
            j * r == c * b + x,
        decreases 10 - j,
    {
        if x >= b - r {
            x = x - (b - r);
            c = c + 1;
            assert((j + 1) * r == (c - 1) * b + x + b - r + r) by (nonlinear_arith)
                requires
                    j * r == (c - 1) * b + x + (b - r),
            ;
            assert((c - 1) * b + b == c * b) by (nonlinear_arith);
        } else {
            x = x + r;
            assert((j + 1) * r == c * b + x) by (nonlinear_arith)
                requires
                    j * r == c * b + x - r,
            ;
        }
        j = j + 1;
    }
    (c, x)
}

/// `scaled_div(a, b)` for 128-bit operands with `b > 0`, or `None` when it
/// exceeds 128 bits.
pub fn div_wad_rounded(a: u128, b: u128) -> (r: Option<u128>)
    requires
        b > 0,
    ensures
        r is Some <==> scaled_div(a as int, b as int) <= u128::MAX,
        r is Some ==> r->Some_0 == scaled_div(a as int, b as int),
{
    let mut q: u128 = a / b;
    let mut rem: u128 = a % b;
    let ghost mut p: int = 1;
    let mut k: usize = 0;
    proof {
        vstd::arithmetic::div_mod::lemma_fundamental_div_mod(a as int, b as int);
        assert(a * p == q * b + rem) by (nonlinear_arith)
            requires
                a == b * q + rem,
                p == 1,
        ;
        reveal_with_fuel(pow10, 19);
    }
    while k < SCALE
        invariant
            b > 0,
            k <= SCALE,
            p >= 1,
            p * pow10((SCALE - k) as nat) == WAD,
            a * p == q * b + rem,
            rem < b,
        decreases SCALE - k,
    {
        let (c, x) = times_ten_mod(rem, b);
        proof {
            let n = (SCALE - k - 1) as nat;
            lemma_pow10_positive(n);
            assert(p * pow10((SCALE - k) as nat) == (10 * p) * pow10(n)) by (nonlinear_arith)
                requires
                    pow10((SCALE - k) as nat) == 10 * pow10(n),
            ;
            assert(10 * p <= WAD) by (nonlinear_arith)
                requires
                    (10 * p) * pow10(n) == WAD,
                    pow10(n) >= 1,
                    p >= 1,
            ;
            assert(a * (10 * p) == (10 * q + c) * b + x) by (nonlinear_arith)
                requires
                    a * p == q * b + rem,
                    10 * rem == c * b + x,
            ;
            assert(a * (10 * p) <= a * WAD) by (nonlinear_arith)
                requires
                    10 * p <= WAD,
            ;
            vstd::arithmetic::div_mod::lemma_fundamental_div_mod_converse(
                a * (10 * p),
                b as int,
                10 * q + c,
                x as int,
            );
            vstd::arithmetic::div_mod::lemma_div_is_ordered(a * (10 * p), a * WAD, b as int);
            vstd::arithmetic::div_mod::lemma_div_is_ordered(a * WAD, a * WAD + b / 2, b as int);
        }
        q = match q.checked_mul(10) {
            Some(v) => match v.checked_add(c) {
                Some(v) => v,
                None => return None,
            },
            None => return None,
        };
        rem = x;
        proof {
            p = 10 * p;
        }
        k = k + 1;
    }
    proof {
        assert(k == SCALE);
        assert(pow10(0) == 1);
        let e = pow10((SCALE - k) as nat);
        assert(e == 1);
        assert(p == WAD) by (nonlinear_arith)
            requires
                p * e == WAD,
                e == 1,
        ;
        if rem >= b - b / 2 {
            assert(a * WAD + b / 2 == (q + 1) * b + (rem + b / 2 - b)) by (nonlinear_arith)
                requires
                    a * WAD == q * b + rem,
            ;
            vstd::arithmetic::div_mod::lemma_fundamental_div_mod_converse(
                a * WAD + b / 2,
                b as int,
                q + 1,
                rem + b / 2 - b,
            );
        } else {
            vstd::arithmetic::div_mod::lemma_fundamental_div_mod_converse(
                a * WAD + b / 2,
                b as int,
                q as int,
                rem + b / 2,
            );
        }
    }
    if rem >= b - b / 2 {
        q.checked_add(1)
    } else {
        Some(q)
    }
}

/// Multiplying by `b` and then dividing by the same `b`, each rounded half
/// up, gives back `a` or `a + 1` (in scaled units), provided `b` is at least
/// one whole unit.
pub proof fn lemma_mul_then_div_within_one_unit(a: int, b: int)
    requires
        a >= 0,
        b >= WAD,
    ensures
        a <= scaled_div(scaled_mul(a, b), b) <= a + 1,
{
    let w = WAD as int;
    let m = scaled_mul(a, b);
    let n = m * w + b / 2;
    assert(a * b >= 0) by (nonlinear_arith)
        requires
            a >= 0,
            b >= 0,
    ;
    vstd::arithmetic::div_mod::lemma_fundamental_div_mod(a * b + HALF_WAD, w);
    assert(m * w > a * b - HALF_WAD && m * w <= a * b + HALF_WAD) by (nonlinear_arith)
        requires
            a * b + HALF_WAD == w * m + (a * b + HALF_WAD) % w,
            0 <= (a * b + HALF_WAD) % w < w,
            w == 2 * HALF_WAD,
    ;
    assert(a * b <= n && n <= (a + 1) * b) by (nonlinear_arith)
        requires
            m * w > a * b - HALF_WAD,
            m * w <= a * b + HALF_WAD,
            n == m * w + b / 2,
            b / 2 >= HALF_WAD,
    ;
    vstd::arithmetic::div_mod::lemma_div_is_ordered(a * b, n, b);
    vstd::arithmetic::div_mod::lemma_div_is_ordered(n, (a + 1) * b, b);
    vstd::arithmetic::div_mod::lemma_fundamental_div_mod_converse(a * b, b, a, 0);
    vstd::arithmetic::div_mod::lemma_fundamental_div_mod_converse((a + 1) * b, b, a + 1, 0);
}

/// Scaling an integer up to fixed point and back, by truncation or by
/// rounding half up, gives the integer back.
pub proof fn lemma_integer_round_trip(n: int)
    requires
        n >= 0,
    ensures
        (n * WAD) / (WAD as int) == n,
        rounded_div(n * WAD, WAD as int) == n,
{
    vstd::arithmetic::div_mod::lemma_fundamental_div_mod_converse(n * WAD, WAD as int, n, 0);
    vstd::arithmetic::div_mod::lemma_fundamental_div_mod_converse(
        n * WAD + HALF_WAD,
        WAD as int,
        n,
        HALF_WAD as int,
    );
}

/// Try to subtract, return an error on underflow
pub trait TrySub: Sized {
    /// Subtract
    fn try_sub(self, rhs: Self) -> Result<Self, MathError>;
}

/// Try to add, return an error on overflow
pub trait TryAdd: Sized {
    /// Add
    fn try_add(self, rhs: Self) -> Result<Self, MathError>;
}

/// Try to divide, return an error on overflow or divide by zero
pub trait TryDiv<RHS>: Sized {
    /// Divide
    fn try_div(self, rhs: RHS) -> Result<Self, MathError>;
}

/// Try to multiply, return an error on overflow
pub trait TryMul<RHS>: Sized {
    /// Multiply
    fn try_mul(self, rhs: RHS) -> Result<Self, MathError>;
}

} // verus!
