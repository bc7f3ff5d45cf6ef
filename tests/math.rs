use flash_lending::math::common::{MathError, TryAdd, TryDiv, TryMul, TrySub, WAD};
use flash_lending::math::rate::Rate;

fn rate(raw: u128) -> Rate {
    Rate::from_scaled_raw(raw)
}

const W: u128 = WAD as u128;

#[test]
fn add_is_commutative_when_it_fits() {
    let a = rate(3 * W + 7);
    let b = rate(11 * W / 4);
    assert_eq!(a.try_add(b), b.try_add(a));
    assert_eq!(a.try_add(b).unwrap().to_scaled_raw(), 3 * W + 7 + 11 * W / 4);
}

#[test]
fn add_overflows_at_the_top() {
    assert_eq!(rate(u128::MAX).try_add(rate(1)), Err(MathError::Overflow));
    assert_eq!(rate(u128::MAX - 1).try_add(rate(1)), Ok(rate(u128::MAX)));
}

#[test]
fn sub_underflows_below_zero() {
    assert_eq!(rate(5).try_sub(rate(6)), Err(MathError::Underflow));
    assert_eq!(rate(6).try_sub(rate(6)), Ok(Rate::zero()));
    assert_eq!(rate(2 * W).try_sub(rate(W / 2)), Ok(rate(3 * W / 2)));
}

#[test]
fn from_integer_round_trips() {
    for n in [0u128, 1, 7, 1_000_000, 340_282_366_920_938_463_463] {
        let r = Rate::from_integer(n).unwrap();
        assert_eq!(r.to_scaled_raw(), n * W);
        assert_eq!(r.floor_integer(), n);
    }
    assert_eq!(Rate::from_integer(42).unwrap().try_round_integer(), Ok(42));
}

#[test]
fn from_integer_overflows() {
    assert_eq!(Rate::from_integer(340_282_366_920_938_463_464), Err(MathError::Overflow));
    assert_eq!(Rate::from_integer(u128::MAX), Err(MathError::Overflow));
}

#[test]
fn round_integer_rounds_half_up() {
    assert_eq!(rate(W / 2).try_round_integer(), Ok(1));
    assert_eq!(rate(W / 2 - 1).try_round_integer(), Ok(0));
    assert_eq!(rate(5 * W / 2).try_round_integer(), Ok(3));
    assert_eq!(rate(u128::MAX).try_round_integer(), Ok(340_282_366_920_938_463_463));
    assert_eq!(rate(u128::MAX - W / 2).try_round_integer(), Ok(340_282_366_920_938_463_463));
    assert_eq!(rate(340_282_366_920_938_463_462 * W + W / 2).try_round_integer(), Ok(340_282_366_920_938_463_463));
    assert_eq!(rate(5 * W / 2).floor_integer(), 2);
}

#[test]
fn mul_scales_and_rounds_half_up() {
    assert_eq!(rate(3 * W / 2).try_mul(rate(2 * W)), Ok(rate(3 * W)));
    assert_eq!(rate(1).try_mul(rate(W / 2)), Ok(rate(1)));
    assert_eq!(rate(1).try_mul(rate(W / 2 - 1)), Ok(rate(0)));
    assert_eq!(rate(W).try_mul(rate(u128::MAX)), Ok(rate(u128::MAX)));
    assert_eq!(
        rate(123_456_789_123_456_789_123).try_mul(rate(987_654_321_987_654_321)),
        Ok(rate(121_932_631_356_500_531_469))
    );
}

#[test]
fn mul_of_max_by_two_overflows() {
    assert_eq!(rate(u128::MAX).try_mul(rate(2 * W)), Err(MathError::Overflow));
    assert_eq!(rate(u128::MAX).try_mul(2u64), Err(MathError::Overflow));
}

#[test]
fn mul_by_integer_is_exact() {
    assert_eq!(rate(W / 4).try_mul(6u64), Ok(rate(3 * W / 2)));
    assert_eq!(rate(u128::MAX / 2).try_mul(2u64), Ok(rate(u128::MAX - 1)));
}

#[test]
fn div_scales_and_rounds_half_up() {
    assert_eq!(rate(W).try_div(rate(3 * W)), Ok(rate(333_333_333_333_333_333)));
    assert_eq!(rate(2 * W).try_div(rate(3 * W)), Ok(rate(666_666_666_666_666_667)));
    assert_eq!(rate(3 * W).try_div(rate(2 * W)), Ok(rate(3 * W / 2)));
    assert_eq!(rate(u128::MAX).try_div(rate(u128::MAX)), Ok(rate(W)));
    assert_eq!(rate(u128::MAX).try_div(rate(W)), Ok(rate(u128::MAX)));
    assert_eq!(rate(1).try_div(rate(3 * W)), Ok(rate(0)));
    assert_eq!(rate(1).try_div(rate(2 * W)), Ok(rate(1)));
}

#[test]
fn div_overflows() {
    assert_eq!(rate(u128::MAX).try_div(rate(W / 2)), Err(MathError::Overflow));
    assert_eq!(rate(u128::MAX).try_div(rate(1)), Err(MathError::Overflow));
}

#[test]
fn div_by_zero_fails() {
    for a in [0u128, 1, W, u128::MAX] {
        assert_eq!(rate(a).try_div(Rate::zero()), Err(MathError::DivideByZero));
        assert_eq!(rate(a).try_div(0u64), Err(MathError::DivideByZero));
    }
}

#[test]
fn div_by_integer_rounds_half_up() {
    assert_eq!(rate(7).try_div(2u64), Ok(rate(4)));
    assert_eq!(rate(5).try_div(3u64), Ok(rate(2)));
    assert_eq!(rate(4).try_div(3u64), Ok(rate(1)));
    assert_eq!(rate(u128::MAX).try_div(1u64), Ok(rate(u128::MAX)));
    assert_eq!(rate(u128::MAX).try_div(2u64), Ok(rate(u128::MAX / 2 + 1)));
}

#[test]
fn mul_then_div_returns_within_one_unit() {
    let cases = [
        (12_345_678_901_234_567_890u128, 3 * W + 1),
        (W / 3, 7 * W / 3),
        (999_999_999_999_999_999, W),
        (5, 123_456_789 * W + 987),
    ];
    for (a, b) in cases {
        let m = rate(a).try_mul(rate(b)).unwrap();
        let back = m.try_div(rate(b)).unwrap().to_scaled_raw();
        assert!(back == a || back == a + 1, "{} came back as {}", a, back);
    }
}

#[test]
fn constants_are_scaled() {
    assert_eq!(Rate::one().to_scaled_raw(), 1_000_000_000_000_000_000);
    assert_eq!(Rate::zero().to_scaled_raw(), 0);
}
