use flash_lending::math::common::{MathError, TryAdd, TryDiv, TryMul, TrySub, WAD};
use flash_lending::math::decimal::Decimal;
use flash_lending::math::rate::Rate;
use flash_lending::math::u192::U192;

const W: u128 = WAD as u128;

fn dec(raw: u128) -> Decimal {
    Decimal::from_scaled_raw(U192::from_u128(raw))
}

fn max() -> Decimal {
    Decimal::from_scaled_raw(U192::max_value())
}

/// Splits a 192-bit value written as a decimal string into its parts.
fn big(digits: &str) -> Decimal {
    let mut hi: u128 = 0;
    let mut lo: u128 = 0;
    for ch in digits.chars() {
        let d = ch.to_digit(10).unwrap() as u128;
        let lo_lo = (lo & u64::MAX as u128) * 10 + d;
        let lo_hi = (lo >> 64) * 10 + (lo_lo >> 64);
        lo = (lo_hi << 64) | (lo_lo & u64::MAX as u128);
        hi = hi * 10 + (lo_hi >> 64);
    }
    Decimal::from_scaled_raw(U192::from_parts(hi as u64, lo))
}

#[test]
fn wide_add_is_commutative_and_carries() {
    let a = dec(u128::MAX);
    let b = dec(5);
    assert_eq!(a.try_add(b), b.try_add(a));
    assert_eq!(a.try_add(b).unwrap().to_scaled_raw(), U192::from_parts(1, 4));
}

#[test]
fn wide_add_overflows_at_the_top() {
    assert_eq!(max().try_add(dec(1)), Err(MathError::Overflow));
    assert_eq!(
        Decimal::from_scaled_raw(U192::from_parts(u64::MAX, u128::MAX - 1)).try_add(dec(1)),
        Ok(max())
    );
}

#[test]
fn wide_sub_borrows_and_underflows() {
    let a = Decimal::from_scaled_raw(U192::from_parts(1, 0));
    assert_eq!(a.try_sub(dec(1)), Ok(dec(u128::MAX)));
    assert_eq!(dec(1).try_sub(a), Err(MathError::Underflow));
    assert_eq!(dec(7).try_sub(dec(7)), Ok(Decimal::zero()));
}

#[test]
fn wide_from_integer_round_trips() {
    for n in [0u128, 1, 99, u64::MAX as u128, u128::MAX] {
        let d = Decimal::from_integer(n);
        assert_eq!(d.try_floor_integer(), Ok(n));
        assert_eq!(d.try_round_integer(), Ok(n));
    }
    assert_eq!(Decimal::from_integer(3).to_scaled_raw(), U192::from_u128(3 * W));
}

#[test]
fn wide_integer_conversions_overflow() {
    assert_eq!(max().try_floor_integer(), Err(MathError::Overflow));
    assert_eq!(max().try_round_integer(), Err(MathError::Overflow));
    assert_eq!(dec(5 * W / 2).try_round_integer(), Ok(3));
    assert_eq!(dec(5 * W / 2).try_floor_integer(), Ok(2));
}

#[test]
fn wide_mul_rounds_half_up() {
    assert_eq!(dec(3 * W / 2).try_mul(dec(2 * W)), Ok(dec(3 * W)));
    assert_eq!(dec(1).try_mul(dec(W / 2)), Ok(dec(1)));
    assert_eq!(dec(1).try_mul(dec(W / 2 - 1)), Ok(dec(0)));
    assert_eq!(max().try_mul(Decimal::one()), Ok(max()));
    assert_eq!(
        big("123456789123456789123456789123").try_mul(big("987654321987654321987")),
        Ok(big("121932631356500531590987651333537"))
    );
}

#[test]
fn wide_mul_of_max_by_two_overflows() {
    assert_eq!(max().try_mul(dec(2 * W)), Err(MathError::Overflow));
    assert_eq!(max().try_mul(2u64), Err(MathError::Overflow));
}

#[test]
fn wide_div_rounds_half_up() {
    assert_eq!(dec(5 * W).try_div(dec(3 * W)), Ok(dec(1_666_666_666_666_666_667)));
    assert_eq!(max().try_div(Decimal::one()), Ok(max()));
    assert_eq!(max().try_div(max()), Ok(Decimal::one()));
    assert_eq!(
        big("1427247692705959881058285969449495136382746624")
            .try_div(dec(7 * W + 3)),
        Ok(big("203892527529422840063801198123032373741620433"))
    );
}

#[test]
fn wide_div_by_zero_fails() {
    for a in [Decimal::zero(), Decimal::one(), max()] {
        assert_eq!(a.try_div(Decimal::zero()), Err(MathError::DivideByZero));
        assert_eq!(a.try_div(0u64), Err(MathError::DivideByZero));
    }
}

#[test]
fn wide_div_overflows() {
    assert_eq!(max().try_div(dec(W / 2)), Err(MathError::Overflow));
}

#[test]
fn wide_integer_operands() {
    assert_eq!(dec(W / 4).try_mul(6u64), Ok(dec(3 * W / 2)));
    assert_eq!(
        max().try_div(7u64),
        Ok(big("896728819340954394833684203315380916586050777780576358985"))
    );
    assert_eq!(dec(7).try_div(2u64), Ok(dec(4)));
}

#[test]
fn wide_and_narrow_convert() {
    let r = Rate::from_scaled_raw(u128::MAX);
    assert_eq!(Decimal::from_rate(r).try_into_rate(), Ok(r));
    assert_eq!(dec(u128::MAX).try_add(dec(1)).unwrap().try_into_rate(), Err(MathError::Overflow));
}

#[test]
fn wide_mul_then_div_returns_within_one_unit() {
    let cases = [
        (big("98765432109876543210987654321"), dec(3 * W + 1)),
        (dec(W / 3), dec(7 * W / 3)),
        (dec(5), big("123456789000000000000000000987")),
    ];
    for (a, b) in cases {
        let back = a.try_mul(b).unwrap().try_div(b).unwrap();
        assert!(back == a || back == a.try_add(dec(1)).unwrap());
    }
}
