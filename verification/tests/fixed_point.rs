use scalar_kalman::fixed::SCALE;
use scalar_kalman::Fixed;

const ONE: i64 = 1_000_000_000_000;

fn fx(units: i64) -> Fixed {
    Fixed::from_raw(units)
}

#[test]
fn raw_units_round_trip() {
    assert_eq!(fx(0).raw(), 0);
    assert_eq!(fx(-17).raw(), -17);
    assert_eq!(fx(i64::MAX).raw(), i64::MAX);
    assert_eq!(fx(i64::MIN).raw(), i64::MIN);
}

#[test]
fn zero_and_one_have_their_raw_units() {
    assert_eq!(SCALE, ONE);
    assert_eq!(Fixed::zero().raw(), 0);
    assert_eq!(Fixed::one().raw(), ONE);
    assert_eq!(Fixed::one(), fx(ONE));
}

#[test]
fn sums_and_differences_are_exact_in_range() {
    assert_eq!(fx(1_500_000_000_000).plus(fx(-250_000_000_000)).raw(), 1_250_000_000_000);
    assert_eq!(fx(1_500_000_000_000).minus(fx(-250_000_000_000)).raw(), 1_750_000_000_000);
    assert_eq!(fx(-3).minus(fx(4)).raw(), -7);
}

#[test]
fn sums_and_differences_saturate() {
    assert_eq!(fx(i64::MAX).plus(fx(1)).raw(), i64::MAX);
    assert_eq!(fx(i64::MIN).plus(fx(-1)).raw(), i64::MIN);
    assert_eq!(fx(i64::MAX).minus(fx(-1)).raw(), i64::MAX);
    assert_eq!(fx(i64::MIN).minus(fx(1)).raw(), i64::MIN);
    assert_eq!(fx(i64::MAX).minus(fx(i64::MIN)).raw(), i64::MAX);
    assert_eq!(fx(i64::MAX).plus(fx(i64::MIN)).raw(), -1);
}

#[test]
fn products_are_scaled() {
    assert_eq!(fx(1_500_000_000_000).times(fx(2_000_000_000_000)).raw(), 3_000_000_000_000);
    assert_eq!(fx(1_234_567_890_123).times(fx(-2_345_678_901_234)).raw(), -2_895_899_852_002);
    assert_eq!(fx(ONE).times(fx(-987_654_321)).raw(), -987_654_321);
    assert_eq!(fx(0).times(fx(i64::MIN)).raw(), 0);
}

#[test]
fn products_round_toward_zero() {
    let half = fx(500_000_000_000);
    assert_eq!(fx(3).times(half).raw(), 1);
    assert_eq!(fx(-3).times(half).raw(), -1);
    assert_eq!(fx(1).times(half).raw(), 0);
    assert_eq!(fx(-1).times(half).raw(), 0);
}

#[test]
fn products_saturate() {
    assert_eq!(fx(i64::MAX).times(fx(2 * ONE)).raw(), i64::MAX);
    assert_eq!(fx(i64::MAX).times(fx(-2 * ONE)).raw(), i64::MIN);
    assert_eq!(fx(i64::MIN).times(fx(i64::MIN)).raw(), i64::MAX);
    assert_eq!(fx(i64::MIN).times(fx(ONE)).raw(), i64::MIN);
    assert_eq!(fx(i64::MIN).times(fx(-ONE)).raw(), i64::MAX);
}

#[test]
fn quotients_are_scaled() {
    assert_eq!(fx(3 * ONE).over(fx(1_500_000_000_000)).raw(), 2 * ONE);
    assert_eq!(fx(1_234_567_890_123).over(fx(-2_345_678_901_234)).raw(), -526_315_809_667);
    assert_eq!(fx(-42).over(fx(ONE)).raw(), -42);
    assert_eq!(fx(1).over(fx(i64::MAX)).raw(), 0);
}

#[test]
fn quotients_round_toward_zero() {
    assert_eq!(fx(ONE).over(fx(3 * ONE)).raw(), 333_333_333_333);
    assert_eq!(fx(-ONE).over(fx(3 * ONE)).raw(), -333_333_333_333);
    assert_eq!(fx(ONE).over(fx(-3 * ONE)).raw(), -333_333_333_333);
    assert_eq!(fx(-ONE).over(fx(-3 * ONE)).raw(), 333_333_333_333);
    assert_eq!(fx(7).over(fx(2 * ONE)).raw(), 3);
    assert_eq!(fx(-7).over(fx(2 * ONE)).raw(), -3);
}

#[test]
fn quotients_saturate() {
    assert_eq!(fx(i64::MAX).over(fx(ONE / 2)).raw(), i64::MAX);
    assert_eq!(fx(i64::MIN).over(fx(ONE / 2)).raw(), i64::MIN);
    assert_eq!(fx(i64::MAX).over(fx(-ONE / 2)).raw(), i64::MIN);
    assert_eq!(fx(i64::MIN).over(fx(-ONE)).raw(), i64::MAX);
}

#[test]
fn products_stay_within_one_unit_of_the_exact_value() {
    let values: [i64; 6] = [0, 1, -999_999_999_999, 123_456_789_012_345, -7, 3_000_000_000_001];
    for &a in values.iter() {
        for &b in values.iter() {
            let exact = (a as i128) * (b as i128);
            let got = (fx(a).times(fx(b)).raw() as i128) * (ONE as i128);
            assert!((exact - got).abs() < ONE as i128);
            assert!(got.abs() <= exact.abs());
        }
    }
}

#[test]
fn quotients_stay_within_one_divisor_of_the_exact_value() {
    let values: [i64; 6] = [1, -999_999_999_999, 123_456_789_012, -7, 3_000_000_000_001, 42];
    let tops: [i64; 5] = [0, 5, -5, 2_000_000, -1_999_999];
    for &a in tops.iter() {
        for &b in values.iter() {
            let exact = (a as i128) * (ONE as i128);
            let back = (fx(a).over(fx(b)).raw() as i128) * (b as i128);
            assert!((exact - back).abs() < (b as i128).abs());
            assert!(back.abs() <= exact.abs());
        }
    }
}
