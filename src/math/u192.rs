//! A 192-bit unsigned integer made of a 64-bit high part and a 128-bit low
//! part, with the few exact operations that the wide fixed-point type needs.

use vstd::prelude::*;

verus! {

/// One more than the largest 192-bit integer.
pub open spec fn pow2_192() -> int {
    (u128::MAX + 1) * (u64::MAX + 1)
}

/// An unsigned integer below `2^192`.
#[derive(Clone, Copy, Debug, PartialEq, Eq, Structural)]
pub struct U192 {
    pub hi: u64,
    pub lo: u128,
}

impl U192 {
    /// The integer that this value holds.
    pub open spec fn view(&self) -> int {
        self.hi * (u128::MAX + 1) + self.lo
    }

    /// The 192-bit value of `v`, for `0 <= v < 2^192`.
    pub open spec fn from_int(v: int) -> U192 {
        U192 { hi: (v / (u128::MAX + 1)) as u64, lo: (v % (u128::MAX + 1)) as u128 }
    }

    /// A value is the one that `from_int` gives for its integer.
    pub proof fn lemma_from_int_of_view(&self)
        ensures
            U192::from_int(self@) == *self,
    {
        vstd::arithmetic::div_mod::lemma_fundamental_div_mod_converse(
            self@,
            u128::MAX + 1,
            self.hi as int,
            self.lo as int,
        );
    }

    /// The value `hi * 2^128 + lo`.
    pub fn from_parts(hi: u64, lo: u128) -> (r: U192)
        ensures
            r@ == hi * (u128::MAX + 1) + lo,
    {
        U192 { hi, lo }
    }

    /// The value `v`.
    pub fn from_u128(v: u128) -> (r: U192)
        ensures
            r@ == v,
    {
        U192 { hi: 0, lo: v }
    }

    /// The largest 192-bit integer.
    pub fn max_value() -> (r: U192)
        ensures
            r@ == pow2_192() - 1,
    {
        U192 { hi: u64::MAX, lo: u128::MAX }
    }

    /// `self < o`.
    pub fn lt(&self, o: &U192) -> (r: bool)
        ensures
            r == (self@ < o@),
    {
        self.hi < o.hi || (self.hi == o.hi && self.lo < o.lo)
    }

    /// `self + o`, or `None` when it reaches `2^192`.
    pub fn checked_add(&self, o: &U192) -> (r: Option<U192>)
        ensures
            r is Some <==> self@ + o@ < pow2_192(),
            r is Some ==> r->Some_0@ == self@ + o@,
    {
        let (lo, carry) = if self.lo > u128::MAX - o.lo {
            (self.lo - (u128::MAX - o.lo) - 1, 1u64)
        } else {
            (self.lo + o.lo, 0u64)
        };
        match self.hi.checked_add(o.hi) {
            Some(h) => match h.checked_add(carry) {
                Some(hi) => Some(U192 { hi, lo }),
                None => None,
            },
            None => None,
        }
    }

    /// `self + o`, for a sum below `2^192`.
    pub fn add(&self, o: &U192) -> (r: U192)
        requires
            self@ + o@ < pow2_192(),
        ensures
            r@ == self@ + o@,
    {
        let (lo, carry) = if self.lo > u128::MAX - o.lo {
            (self.lo - (u128::MAX - o.lo) - 1, 1u64)
        } else {
            (self.lo + o.lo, 0u64)
        };
        U192 { hi: self.hi + o.hi + carry, lo }
    }

    /// `self - o`, for `o <= self`.
    pub fn sub(&self, o: &U192) -> (r: U192)
        requires
            o@ <= self@,
        ensures
            r@ == self@ - o@,
    {
        if self.lo >= o.lo {
            U192 { hi: self.hi - o.hi, lo: self.lo - o.lo }
        } else {
            U192 { hi: self.hi - o.hi - 1, lo: u128::MAX - (o.lo - self.lo) + 1 }
        }
    }

    /// `self / 2`, rounded down.
    pub fn half(&self) -> (r: U192)
        ensures
            r@ == self@ / 2,
    {
        let lo = self.lo / 2 + if self.hi % 2 == 1 { 0x8000_0000_0000_0000_0000_0000_0000_0000u128 } else { 0 };
        U192 { hi: self.hi / 2, lo }
    }
}

/// `2^n`.
pub open spec fn pow2(n: nat) -> int
    decreases n,
{
    if n == 0 {
        1
    } else {
        2 * pow2((n - 1) as nat)
    }
}

proof fn lemma_pow2_add(a: nat, b: nat)
    ensures
        pow2(a + b) == pow2(a) * pow2(b),
    decreases a,
{
    if a > 0 {
        lemma_pow2_add((a - 1) as nat, b);
        let u = pow2((a - 1) as nat);
        let v = pow2(b);
        assert(2 * (u * v) == (2 * u) * v) by (nonlinear_arith);
        assert(pow2((a + b) as nat) == 2 * pow2((a - 1 + b) as nat));
    }
}

proof fn lemma_pow2_192()
    ensures
        pow2(192) == pow2_192(),
{
    reveal_with_fuel(pow2, 65);
    assert(pow2(64) == u64::MAX + 1);
    lemma_pow2_add(64, 64);
    lemma_pow2_add(128, 64);
}

/// Splits `u + v` by `d`: returns `(c, w)` with `u + v == c * d + w`, `w < d`.
fn mod_add(u: &U192, v: &U192, d: &U192) -> (r: (u64, U192))
    requires
        u@ < d@,
        v@ < d@,
    ensures
        u@ + v@ == r.0 * d@ + r.1@,
        r.1@ < d@,
        r.0 <= 1,
{
    let gap = d.sub(v);
    if u.lt(&gap) {
        (0, u.add(v))
    } else {
        (1, u.sub(&gap))
    }
}

proof fn lemma_quotient_bound(x: int, pre: int, y: int, q: int, r: int, d: int)
    requires
        x >= 0,
        0 <= pre <= y,
        d > 0,
        x * pre == q * d + r,
        0 <= r < d,
    ensures
        q <= (x * y) / d,
{
    assert(x * pre <= x * y) by (nonlinear_arith)
        requires
            x >= 0,
            pre <= y,
    ;
    vstd::arithmetic::div_mod::lemma_fundamental_div_mod_converse(x * pre, d, q, r);
    vstd::arithmetic::div_mod::lemma_div_is_ordered(x * pre, x * y, d);
}

/// With `x == xq * d + xr` and `xr < d`, returns `(q, w)` with
/// `x * y == q * d + w` and `w < d`, or `None` when `q` reaches `2^192`.
/// `y` is read one bit at a time from the top.
fn mul_div_parts(y: U192, xq: U192, xr: U192, d: U192) -> (r: Option<(U192, U192)>)
    requires
        d@ > 0,
        xr@ < d@,
    ensures
        r is Some ==> (xq@ * d@ + xr@) * y@ == r->Some_0.0@ * d@ + r->Some_0.1@,
        r is Some ==> r->Some_0.1@ < d@,
        r is None ==> ((xq@ * d@ + xr@) * y@) / d@ >= pow2_192(),
{
    let ghost x: int = xq@ * d@ + xr@;
    let top = U192::from_parts(0x8000_0000_0000_0000, 0);
    let mut q = U192::from_u128(0);
    let mut rem = U192::from_u128(0);
    let mut rest = y;
    let mut i: usize = 0;
    let ghost mut prefix: int = 0;
    let ghost mut low: int = y@;
    let ghost mut p: int = pow2(192);
    let ghost mut g: int = 1;
    proof {
        lemma_pow2_192();
        assert(xq@ * d@ >= 0) by (nonlinear_arith)
            requires
                xq@ >= 0,
                d@ >= 0,
        ;
        assert(x * 0 == 0) by (nonlinear_arith);
    }
    while i < 192
        invariant
            i <= 192,
            d@ > 0,
            xr@ < d@,
            x == xq@ * d@ + xr@,
            x >= 0,
            top@ * 2 == pow2_192(),
            p == pow2((192 - i) as nat),
            p * g == pow2_192(),
            g >= 1,
            rest@ == low * g,
            0 <= low < p,
            y@ == prefix * p + low,
            prefix >= 0,
            x * prefix == q@ * d@ + rem@,
            rem@ < d@,
        decreases 192 - i,
    {
        let ghost ph: int = pow2((191 - i) as nat);
        assert(p == 2 * ph);
        assert(ph * g * 2 == pow2_192()) by (nonlinear_arith)
            requires
                p * g == pow2_192(),
                p == 2 * ph,
        ;
        let (c1, rem1) = mod_add(&rem, &rem, &d);
        let bit = !rest.lt(&top);
        assert(top@ == ph * g);
        assert(bit == (low >= ph)) by (nonlinear_arith)
            requires
                bit == !(rest@ < top@),
                rest@ == low * g,
                top@ == ph * g,
                g >= 1,
        ;
        let (c2, rem2) = if bit {
            mod_add(&rem1, &xr, &d)
        } else {
            (0u64, rem1)
        };
        let ghost b: int = if bit { 1 } else { 0 };
        let ghost c2i: int = if bit { c2 as int } else { 0 };
        let ghost qn: int = 2 * q@ + c1 + b * (xq@ + c2i);
        let ghost pre2: int = 2 * prefix + b;
        let ghost low2: int = low - b * ph;
        proof {
            assert(x * pre2 == qn * d@ + rem2@) by (nonlinear_arith)
                requires
                    x == xq@ * d@ + xr@,
                    x * prefix == q@ * d@ + rem@,
                    rem@ + rem@ == c1 * d@ + rem1@,
                    b == 0 || b == 1,
                    b == 1 ==> rem1@ + xr@ == c2i * d@ + rem2@,
                    b == 0 ==> rem2@ == rem1@ && c2i == 0,
                    pre2 == 2 * prefix + b,
                    qn == 2 * q@ + c1 + b * (xq@ + c2i),
            ;
            assert(y@ == pre2 * ph + low2 && 0 <= low2 < ph) by (nonlinear_arith)
                requires
                    y@ == prefix * p + low,
                    p == 2 * ph,
                    pre2 == 2 * prefix + b,
                    low2 == low - b * ph,
                    b == 1 <==> low >= ph,
                    b == 0 || b == 1,
                    0 <= low < p,
            ;
            assert(pre2 <= y@) by (nonlinear_arith)
                requires
                    y@ == pre2 * ph + low2,
                    ph >= 1,
                    low2 >= 0,
                    pre2 >= 0,
            ;
            lemma_quotient_bound(x, pre2, y@, qn, rem2@, d@);
        }
        let s1 = match q.checked_add(&q) {
            Some(v) => v,
            None => return None,
        };
        let s2 = match s1.checked_add(&U192::from_u128(c1 as u128)) {
            Some(v) => v,
            None => return None,
        };
        q = if bit {
            let s3 = match s2.checked_add(&xq) {
                Some(v) => v,
                None => return None,
            };
            match s3.checked_add(&U192::from_u128(c2 as u128)) {
                Some(v) => v,
                None => return None,
            }
        } else {
            s2
        };
        rem = rem2;
        if bit {
            rest = rest.sub(&top);
        }
        proof {
            assert(rest@ == low2 * g) by (nonlinear_arith)
                requires
                    bit ==> rest@ == low * g - top@,
                    !bit ==> rest@ == low * g,
                    top@ == ph * g,
                    low2 == low - b * ph,
                    b == (if bit { 1int } else { 0int }),
            ;
            assert(rest@ + rest@ < pow2_192()) by (nonlinear_arith)
                requires
                    rest@ == low2 * g,
                    low2 < ph,
                    ph * g * 2 == pow2_192(),
                    g >= 1,
            ;
        }
        rest = rest.add(&rest);
        proof {
            assert(rest@ == low2 * (2 * g)) by (nonlinear_arith)
                requires
                    rest@ == 2 * (low2 * g),
            ;
            assert(ph * (2 * g) == pow2_192()) by (nonlinear_arith)
                requires
                    ph * g * 2 == pow2_192(),
            ;
            prefix = pre2;
            low = low2;
            p = ph;
            g = 2 * g;
        }
        i = i + 1;
    }
    proof {
        assert(p == 1);
        assert(prefix == y@) by (nonlinear_arith)
            requires
                y@ == prefix * p + low,
                p == 1,
                0 <= low < p,
        ;
    }
    Some((q, rem))
}

/// `x / d` and `x % d`, for `d > 0`.
pub fn div_rem(x: U192, d: U192) -> (r: (U192, U192))
    requires
        d@ > 0,
    ensures
        x@ == r.0@ * d@ + r.1@,
        r.1@ < d@,
{
    let one = U192::from_u128(1);
    let (oq, or) = if one.lt(&d) {
        (U192::from_u128(0), one)
    } else {
        (one, U192::from_u128(0))
    };
    proof {
        assert(oq@ * d@ + or@ == 1) by (nonlinear_arith)
            requires
                d@ > 1 ==> oq@ == 0 && or@ == 1,
                d@ == 1 ==> oq@ == 1 && or@ == 0,
                d@ >= 1,
        ;
    }
    match mul_div_parts(x, oq, or, d) {
        Some(parts) => parts,
        None => {
            proof {
                vstd::arithmetic::div_mod::lemma_div_is_ordered(x@, x@ * d@, d@);
                assert(x@ * d@ / d@ == x@) by {
                    vstd::arithmetic::div_mod::lemma_fundamental_div_mod_converse(
                        x@ * d@,
                        d@,
                        x@,
                        0,
                    );
                }
                assert(x@ <= x@ * d@) by (nonlinear_arith)
                    requires
                        d@ >= 1,
                        x@ >= 0,
                ;
                assert(1 * x@ == x@);
                assert(false);
            }
            (U192::from_u128(0), U192::from_u128(0))
        },
    }
}

/// `(x * y + d / 2) / d` for `d > 0`, or `None` when it reaches `2^192`.
pub fn mul_div_rounded(x: U192, y: U192, d: U192) -> (r: Option<U192>)
    requires
        d@ > 0,
    ensures
        r is Some <==> (x@ * y@ + d@ / 2) / d@ < pow2_192(),
        r is Some ==> r->Some_0@ == (x@ * y@ + d@ / 2) / d@,
{
    let (xq, xr) = div_rem(x, d);
    assert(x@ * y@ >= 0) by (nonlinear_arith)
        requires
            x@ >= 0,
            y@ >= 0,
    ;
    match mul_div_parts(y, xq, xr, d) {
        None => {
            proof {
                vstd::arithmetic::div_mod::lemma_div_is_ordered(
                    x@ * y@,
                    x@ * y@ + d@ / 2,
                    d@,
                );
            }
            None
        },
        Some((q, rem)) => {
            let half = d.half();
            let ghost n: int = x@ * y@ + d@ / 2;
            if rem.lt(&d.sub(&half)) {
                proof {
                    vstd::arithmetic::div_mod::lemma_fundamental_div_mod_converse(
                        n,
                        d@,
                        q@,
                        rem@ + d@ / 2,
                    );
                }
                Some(q)
            } else {
                proof {
                    assert(n == (q@ + 1) * d@ + (rem@ + d@ / 2 - d@)) by (nonlinear_arith)
                        requires
                            n == q@ * d@ + rem@ + d@ / 2,
                    ;
                    vstd::arithmetic::div_mod::lemma_fundamental_div_mod_converse(
                        n,
                        d@,
                        q@ + 1,
                        rem@ + d@ / 2 - d@,
                    );
                }
                q.checked_add(&U192::from_u128(1))
            }
        },
    }
}

} // verus!
