//! The mathematical model of the filter: six integers and the recursion on
//! them.

use crate::fixed::{fx_add, fx_div, fx_mul, fx_sub, Fixed, SCALE};
use vstd::prelude::*;

verus! {

/// An innovation variance of smaller magnitude than this, 10^-8 in raw units,
/// is treated as not invertible.
pub const SINGULARITY_THRESHOLD: i64 = 10_000;

/// The filter as six integers, each a count of raw units.
pub struct Model {
    /// State estimate.
    pub x: int,
    /// Variance of the estimate's error.
    pub p: int,
    /// Transition coefficient.
    pub a: int,
    /// Observation coefficient.
    pub h: int,
    /// Process-noise variance.
    pub q: int,
    /// Measurement-noise variance.
    pub r: int,
}

impl Model {
    /// Every component fits the number type.
    pub open spec fn representable(self) -> bool {
        &&& i64::MIN <= self.x <= i64::MAX
        &&& i64::MIN <= self.p <= i64::MAX
        &&& i64::MIN <= self.a <= i64::MAX
        &&& i64::MIN <= self.h <= i64::MAX
        &&& i64::MIN <= self.q <= i64::MAX
        &&& i64::MIN <= self.r <= i64::MAX
    }

    /// Whether the two models have the same coefficients and noise variances.
    pub open spec fn same_parameters(self, other: Model) -> bool {
        &&& self.a == other.a
        &&& self.h == other.h
        &&& self.q == other.q
        &&& self.r == other.r
    }

    /// The model one time step later: `x <- A x`, `P <- A P A + Q`.
    pub open spec fn predicted(self) -> Model {
        Model {
            x: fx_mul(self.a, self.x),
            p: fx_add(fx_mul(fx_mul(self.a, self.p), self.a), self.q),
            ..self
        }
    }

    /// The innovation `y = z - H x` of a measurement `z`.
    pub open spec fn innovation(self, z: int) -> int {
        fx_sub(z, fx_mul(self.h, self.x))
    }

    /// The innovation variance `S = H P H + R`.
    pub open spec fn innovation_variance(self) -> int {
        fx_add(fx_mul(fx_mul(self.h, self.p), self.h), self.r)
    }

    /// Whether the innovation variance is too close to zero to be inverted.
    pub open spec fn singular(self) -> bool {
        -SINGULARITY_THRESHOLD < self.innovation_variance() < SINGULARITY_THRESHOLD
    }

    /// The Kalman gain `K = P H / S`.
    pub open spec fn gain(self) -> int {
        fx_div(fx_mul(self.p, self.h), self.innovation_variance())
    }

    /// The model after taking in a measurement `z`:
    /// `x <- x + K y`, `P <- P (1 - K H)`.
    pub open spec fn updated(self, z: int) -> Model {
        Model {
            x: fx_add(self.x, fx_mul(self.gain(), self.innovation(z))),
            p: fx_mul(self.p, fx_sub(SCALE as int, fx_mul(self.gain(), self.h))),
            ..self
        }
    }

    /// The condition under which a prediction strictly increases the
    /// variance: process noise `Q > 0`, a variance that is not negative and
    /// below the top of the range, and `|A| >= 1` unless the variance is zero.
    pub open spec fn grows_under_prediction(self) -> bool {
        &&& self.q > 0
        &&& 0 <= self.p < i64::MAX
        &&& (self.a >= SCALE || self.a <= -SCALE || self.p == 0)
    }

    /// The condition under which an update adopts the measurement `z`
    /// outright: `H = 1`, `R = 0`, and a representable step from the estimate
    /// to `z`.
    pub open spec fn adopts(self, z: int) -> bool {
        &&& self.h == SCALE
        &&& self.r == 0
        &&& i64::MIN <= z - self.x <= i64::MAX
    }

    /// The condition under which an update cannot increase the variance: a
    /// variance that is not negative, `R > 0`, and an innovation variance
    /// below the top of the range.
    pub open spec fn shrinks_under_update(self) -> bool {
        &&& self.p >= 0
        &&& self.r > 0
        &&& self.innovation_variance() < i64::MAX
    }

    /// The model after `n` predictions in a row.
    pub open spec fn predicted_times(self, n: nat) -> Model
        decreases n,
    {
        if n == 0 {
            self
        } else {
            self.predicted_times((n - 1) as nat).predicted()
        }
    }

    /// The model after one prediction and one update with `z`.
    pub open spec fn advanced(self, z: int) -> Model {
        self.predicted().updated(z)
    }

    /// The model after the first `n` measurements of `zs`, each taken in by a
    /// prediction and an update.
    pub open spec fn after(self, zs: Seq<int>, n: nat) -> Model
        decreases n,
    {
        if n == 0 {
            self
        } else {
            self.after(zs, (n - 1) as nat).advanced(zs[n - 1])
        }
    }

    /// Whether, in each of the first `n` steps over `zs`, the innovation
    /// variance stays below the top of the range.
    pub open spec fn within_range(self, zs: Seq<int>, n: nat) -> bool {
        forall|i: nat|
            i < n ==> #[trigger] self.after(zs, i).predicted().innovation_variance() < i64::MAX
    }

    /// Whether measurement `i` of `zs` meets a singular innovation variance,
    /// the measurements before it having been taken in.
    pub open spec fn fails_at(self, zs: Seq<int>, i: nat) -> bool {
        self.after(zs, i).predicted().singular()
    }

    /// Whether measurement `i` of `zs` is the first one to fail.
    pub open spec fn first_failure(self, zs: Seq<int>, i: nat) -> bool {
        &&& self.fails_at(zs, i)
        &&& forall|j: nat| j < i ==> !self.fails_at(zs, j)
    }

    /// Whether every measurement of `zs` is taken in, with `estimates` the
    /// estimate after each of them and `end` the model after the last.
    pub open spec fn runs_through(self, zs: Seq<int>, estimates: Seq<int>, end: Model) -> bool {
        &&& forall|i: nat| i < zs.len() ==> !self.fails_at(zs, i)
        &&& estimates.len() == zs.len()
        &&& forall|i: int|
            0 <= i < zs.len() ==> #[trigger] estimates[i] == self.after(zs, (i + 1) as nat).x
        &&& end == self.after(zs, zs.len())
    }

    /// Whether some measurement of `zs` fails, with `end` the model at the
    /// first failure: the measurements before it taken in, and that step's
    /// prediction applied.
    pub open spec fn stops_early(self, zs: Seq<int>, end: Model) -> bool {
        exists|i: nat|
            i < zs.len() && #[trigger] self.first_failure(zs, i) && end == self.after(
                zs,
                i,
            ).predicted()
    }
}

/// The raw units of a sequence of numbers.
pub open spec fn raw_units(values: Seq<Fixed>) -> Seq<int> {
    values.map_values(|v: Fixed| v@)
}

} // verus!
