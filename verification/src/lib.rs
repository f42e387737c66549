//! A scalar Kalman filter over decimal fixed-point numbers.
//!
//! The filter tracks one slowly varying quantity that is observed through a
//! noisy channel. All quantities are [`Fixed`] values, so every step is exact
//! integer arithmetic with a stated rounding rule, and each operation carries a
//! contract over the mathematical model of the filter.
//!
//! - [`fixed`]: the numbers, their arithmetic and its rounding.
//! - [`error`]: the one failure, a scalar that cannot be inverted.
//! - [`model`]: the filter as six integers, and the recursion on them.
//! - [`laws`]: what holds of that recursion, proved.
//! - [`kalman`]: the filter itself: predict, update, advance.

pub mod error;
pub mod fixed;
pub mod kalman;
pub mod laws;
pub mod model;

pub use error::{KalmanError, KalmanResult};
pub use fixed::Fixed;
pub use kalman::ScalarKalman;
pub use model::Model;
