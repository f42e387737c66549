use scalar_kalman::error::INNOVATION;
use scalar_kalman::{Fixed, KalmanError, ScalarKalman};

const ONE: i64 = 1_000_000_000_000;

fn fx(units: i64) -> Fixed {
    Fixed::from_raw(units)
}

/// A filter whose innovation variance is exactly `r`: it observes nothing.
fn blind(r: i64) -> ScalarKalman {
    ScalarKalman::new(fx(ONE), fx(0), fx(0), fx(r), Some(fx(5 * ONE)), Some(fx(2 * ONE)))
}

#[test]
fn failure_names_the_innovation() {
    let KalmanError::FailedScalarInverse { scalar_name } = KalmanError::innovation();
    assert_eq!(scalar_name, "Innovation (measurement pre-fit residual `S`)");
    assert_eq!(scalar_name, INNOVATION);
}

#[test]
fn failure_message_embeds_the_scalar_name() {
    let e = KalmanError::innovation();
    assert_eq!(
        e.message(),
        "failed to invert scalar Innovation (measurement pre-fit residual `S`) in operation"
    );
    let other = KalmanError::FailedScalarInverse { scalar_name: "S" };
    assert_eq!(other.message(), "failed to invert scalar S in operation");
}

#[test]
fn blind_noiseless_filter_fails_and_keeps_its_state() {
    for &z in [0, 42, -7 * ONE, i64::MAX, i64::MIN].iter() {
        let mut k = blind(0);
        let res = k.update(fx(z));
        match res {
            Err(KalmanError::FailedScalarInverse { scalar_name }) => {
                assert_eq!(scalar_name, "Innovation (measurement pre-fit residual `S`)");
            }
            Ok(()) => panic!("update must fail"),
        }
        assert_eq!(k.estimate().raw(), 5 * ONE);
        assert_eq!(k.variance().raw(), 2 * ONE);
    }
}

#[test]
fn threshold_is_ten_to_the_minus_eight() {
    assert!(blind(9_999).update(fx(ONE)).is_err());
    assert!(blind(-9_999).update(fx(ONE)).is_err());
    assert!(blind(1).update(fx(ONE)).is_err());
    assert!(blind(10_000).update(fx(ONE)).is_ok());
    assert!(blind(-10_000).update(fx(ONE)).is_ok());
    assert!(blind(i64::MIN).update(fx(ONE)).is_ok());
}

#[test]
fn failed_advance_keeps_the_prediction() {
    let mut k = ScalarKalman::new(
        fx(2 * ONE),
        fx(0),
        fx(3 * ONE),
        fx(0),
        Some(fx(5 * ONE)),
        Some(fx(ONE)),
    );
    let res = k.advance(fx(9 * ONE));
    assert!(matches!(res, Err(KalmanError::FailedScalarInverse { .. })));
    assert_eq!(k.estimate().raw(), 10 * ONE);
    assert_eq!(k.variance().raw(), 7 * ONE);
}

#[test]
fn collapsed_variance_is_singular() {
    let mut k = ScalarKalman::new(fx(ONE), fx(ONE), fx(0), fx(0), Some(fx(ONE)), Some(fx(ONE)));
    assert_eq!(k.advance(fx(3 * ONE)).map(|v| v.raw()).ok(), Some(3 * ONE));
    assert_eq!(k.variance().raw(), 0);
    assert!(k.advance(fx(4 * ONE)).is_err());
    assert_eq!(k.estimate().raw(), 3 * ONE);
    assert_eq!(k.variance().raw(), 0);
}
