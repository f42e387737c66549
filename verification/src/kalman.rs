//! The filter's state, and its three operations on that state.
#![allow(non_snake_case)]

use crate::error::{KalmanError, KalmanResult};
use crate::fixed::{fx_mul, Fixed, SCALE};
use crate::laws::{
    law_blind_filter_is_singular, law_expected_measurement_keeps_estimate,
    law_noiseless_measurement_is_adopted, law_predicted_state_is_tracked,
    law_prediction_grows_variance, law_prediction_keeps_variance_nonnegative,
    law_update_shrinks_variance,
};
use crate::model::{raw_units, Model, SINGULARITY_THRESHOLD};
use vstd::prelude::*;

verus! {

/// A scalar Kalman filter without control input.
///
/// `A`, `H`, `Q` and `R` are fixed when the filter is made; `x` and `P` change
/// only through [`ScalarKalman::predict`] and [`ScalarKalman::update`].
#[derive(Clone, Copy, Debug)]
pub struct ScalarKalman {
    x: Fixed,
    P: Fixed,
    A: Fixed,
    H: Fixed,
    Q: Fixed,
    R: Fixed,
}

impl View for ScalarKalman {
    type V = Model;

    closed spec fn view(&self) -> Model {
        Model { x: self.x@, p: self.P@, a: self.A@, h: self.H@, q: self.Q@, r: self.R@ }
    }
}

impl ScalarKalman {
    /// A filter with the given coefficients and noise variances. The initial
    /// estimate and its variance are zero where none is given.
    pub fn new(
        A: Fixed,
        H: Fixed,
        Q: Fixed,
        R: Fixed,
        x0: Option<Fixed>,
        P0: Option<Fixed>,
    ) -> (k: ScalarKalman)
        ensures
            k@ == (Model {
                x: if let Some(v) = x0 { v@ } else { 0 },
                p: if let Some(v) = P0 { v@ } else { 0 },
                a: A@,
                h: H@,
                q: Q@,
                r: R@,
            }),
    {
        let x = if let Some(x0) = x0 { x0 } else { Fixed::zero() };
        let P = if let Some(P0) = P0 { P0 } else { Fixed::zero() };
        ScalarKalman { x, P, A, H, Q, R }
    }

    /// Advances the state by one time step.
    ///
    /// A variance that is not negative stays so when `Q >= 0`. With `Q > 0`
    /// it strictly grows if `|A| >= 1` or it is zero, as long as it has not
    /// reached the top of the range.
    pub fn predict(&mut self)
        ensures
            final(self)@ == old(self)@.predicted(),
            final(self)@.same_parameters(old(self)@),
            old(self)@.p >= 0 && old(self)@.q >= 0 ==> final(self)@.p >= 0,
            old(self)@.grows_under_prediction() ==> final(self)@.p > old(self)@.p,
    {
        proof {
            if self@.p >= 0 && self@.q >= 0 {
                law_prediction_keeps_variance_nonnegative(self@);
            }
            if self@.grows_under_prediction() {
                law_prediction_grows_variance(self@);
            }
        }
        self.x = self.A.times(self.x);
        self.P = self.A.times(self.P).times(self.A).plus(self.Q);
    }

    /// Takes in the measurement `z`. When the innovation variance cannot be
    /// inverted the filter is left as it was and the failure names that
    /// variance; with `H = 0` and `R = 0` that is so for every state and
    /// every measurement.
    ///
    /// With `H = 1` and `R = 0` a successful update adopts the measurement,
    /// and a measurement `z = H x` leaves the estimate where it is. With a
    /// variance that is not negative and `R > 0` an update neither increases
    /// the variance nor makes it negative.
    pub fn update(&mut self, z: Fixed) -> (res: KalmanResult<()>)
        ensures
            old(self)@.singular() ==> {
                &&& res matches Err(e)
                &&& e.names_innovation()
                &&& final(self)@ == old(self)@
            },
            !old(self)@.singular() ==> {
                &&& res is Ok
                &&& final(self)@ == old(self)@.updated(z@)
            },
            final(self)@.same_parameters(old(self)@),
            old(self)@.h == 0 && old(self)@.r == 0 ==> res is Err,
            res is Ok && old(self)@.adopts(z@) ==> final(self)@.x == z@ && final(self)@.p == 0,
            z@ == fx_mul(old(self)@.h, old(self)@.x) ==> final(self)@.x == old(self)@.x,
            res is Ok && old(self)@.shrinks_under_update() ==> 0 <= final(self)@.p <= old(self)@.p,
    {
        proof {
            if self@.h == 0 && self@.r == 0 {
                law_blind_filter_is_singular(self@);
            }
            if !self@.singular() && self@.adopts(z@) {
                law_noiseless_measurement_is_adopted(self@, z@);
            }
            if z@ == fx_mul(self@.h, self@.x) {
                law_expected_measurement_keeps_estimate(self@, z@);
            }
            if self@.shrinks_under_update() {
                law_update_shrinks_variance(self@, z@);
            }
        }
        let y = z.minus(self.H.times(self.x));
        let S = self.H.times(self.P).times(self.H).plus(self.R);
        if -SINGULARITY_THRESHOLD < S.raw() && S.raw() < SINGULARITY_THRESHOLD {
            return Err(KalmanError::innovation());
        }
        let K = self.P.times(self.H).over(S);
        self.x = self.x.plus(K.times(y));
        self.P = self.P.times(Fixed::one().minus(K.times(self.H)));
        Ok(())
    }

    /// Predicts, then takes in the measurement `z`, and returns the new
    /// estimate. When the update fails the prediction stays applied.
    ///
    /// With `H = 1`, a measurement that equals the predicted state, `z = A x`,
    /// is returned as the estimate.
    pub fn advance(&mut self, z: Fixed) -> (res: KalmanResult<Fixed>)
        ensures
            old(self)@.predicted().singular() ==> {
                &&& res matches Err(e)
                &&& e.names_innovation()
                &&& final(self)@ == old(self)@.predicted()
            },
            !old(self)@.predicted().singular() ==> {
                &&& res matches Ok(estimate)
                &&& estimate@ == final(self)@.x
                &&& final(self)@ == old(self)@.advanced(z@)
            },
            final(self)@.same_parameters(old(self)@),
            res is Ok && old(self)@.h == SCALE && z@ == fx_mul(old(self)@.a, old(self)@.x)
                ==> final(self)@.x == z@,
    {
        proof {
            if self@.h == SCALE && z@ == fx_mul(self@.a, self@.x) {
                law_predicted_state_is_tracked(self@, z@);
            }
        }
        self.predict();
        match self.update(z) {
            Ok(()) => Ok(self.x),
            Err(e) => Err(e),
        }
    }

    /// Takes in the measurements in order, one [`ScalarKalman::advance`] each,
    /// and returns the estimate after each of them. At the first measurement
    /// that fails it stops, with that step's prediction applied, and returns
    /// the failure.
    pub fn filter(&mut self, measurements: &[Fixed]) -> (res: KalmanResult<Vec<Fixed>>)
        ensures
            match res {
                Ok(estimates) => old(self)@.runs_through(
                    raw_units(measurements@),
                    raw_units(estimates@),
                    final(self)@,
                ),
                Err(e) => e.names_innovation() && old(self)@.stops_early(
                    raw_units(measurements@),
                    final(self)@,
                ),
            },
            final(self)@.same_parameters(old(self)@),
    {
        let ghost zs = raw_units(measurements@);
        let mut estimates: Vec<Fixed> = Vec::new();
        let mut i: usize = 0;
        while i < measurements.len()
            invariant
                i <= measurements.len(),
                zs == raw_units(measurements@),
                self@ == old(self)@.after(zs, i as nat),
                self@.same_parameters(old(self)@),
                estimates@.len() == i,
                forall|j: nat| j < i ==> !old(self)@.fails_at(zs, j),
                forall|j: int|
                    0 <= j < i ==> #[trigger] estimates@[j]@ == old(self)@.after(
                        zs,
                        (j + 1) as nat,
                    ).x,
            decreases measurements.len() - i,
        {
            match self.advance(measurements[i]) {
                Ok(estimate) => {
                    estimates.push(estimate);
                },
                Err(e) => {
                    assert(old(self)@.first_failure(zs, i as nat));
                    return Err(e);
                },
            }
            i += 1;
        }
        assert forall|j: int| 0 <= j < zs.len() implies #[trigger] raw_units(estimates@)[j]
            == old(self)@.after(zs, (j + 1) as nat).x by {
            assert(raw_units(estimates@)[j] == estimates@[j]@);
        }
        Ok(estimates)
    }

    /// The current state estimate `x`.
    pub fn estimate(&self) -> (v: Fixed)
        ensures
            v@ == self@.x,
    {
        self.x
    }

    /// The current variance `P` of the estimate's error.
    pub fn variance(&self) -> (v: Fixed)
        ensures
            v@ == self@.p,
    {
        self.P
    }

    /// The transition coefficient `A`.
    pub fn transition(&self) -> (v: Fixed)
        ensures
            v@ == self@.a,
    {
        self.A
    }

    /// The observation coefficient `H`.
    pub fn observation(&self) -> (v: Fixed)
        ensures
            v@ == self@.h,
    {
        self.H
    }

    /// The process-noise variance `Q`.
    pub fn process_noise(&self) -> (v: Fixed)
        ensures
            v@ == self@.q,
    {
        self.Q
    }

    /// The measurement-noise variance `R`.
    pub fn measurement_noise(&self) -> (v: Fixed)
        ensures
            v@ == self@.r,
    {
        self.R
    }

    /// Every component of a filter's model fits the number type.
    pub proof fn lemma_model_is_representable(self)
        ensures
            self@.representable(),
    {
    }
}

} // verus!
