//! Laws of the filter, proved over its model.

use crate::fixed::{
    fx_mul, fx_sub, lemma_quotient_bounds, lemma_quotient_is_monotonic,
    lemma_quotient_of_multiple, lemma_times_commutes, lemma_times_large_factor, lemma_times_one,
    lemma_times_sign, lemma_times_zero, quotient, saturate, SCALE,
};
use crate::model::Model;
use vstd::arithmetic::mul::lemma_mul_is_commutative;
use vstd::prelude::*;

verus! {

/// A filter that observes nothing (`H = 0`) through a noiseless channel
/// (`R = 0`) has a singular innovation variance, whatever its state.
pub proof fn law_blind_filter_is_singular(m: Model)
    requires
        m.h == 0,
        m.r == 0,
    ensures
        m.innovation_variance() == 0,
        m.singular(),
{
    lemma_times_zero(m.p);
    lemma_times_zero(0);
    assert(fx_mul(fx_mul(m.h, m.p), m.h) == 0);
}

/// With `H = 1` and `R = 0` an update adopts the measurement: the estimate
/// becomes `z` and its variance becomes zero, provided that the step from the
/// estimate to the measurement is representable.
pub proof fn law_noiseless_measurement_is_adopted(m: Model, z: int)
    requires
        m.representable(),
        i64::MIN <= z <= i64::MAX,
        m.adopts(z),
        !m.singular(),
    ensures
        m.gain() == SCALE,
        m.updated(z).x == z,
        m.updated(z).p == 0,
{
    let one = SCALE as int;
    // S = P, so K = P / P = 1.
    lemma_times_one(m.p);
    assert(m.innovation_variance() == m.p);
    lemma_quotient_of_multiple(one, m.p);
    lemma_mul_is_commutative(m.p, one);
    assert(m.gain() == one);
    // y = z - x, so x + K y = z; and P (1 - K H) = P 0 = 0.
    lemma_times_one(m.x);
    assert(m.innovation(z) == z - m.x);
    lemma_times_one(z - m.x);
    lemma_times_one(one);
    lemma_times_zero(m.p);
}

/// A measurement that equals the predicted one, `z = H x`, leaves the estimate
/// where it is.
pub proof fn law_expected_measurement_keeps_estimate(m: Model, z: int)
    requires
        m.representable(),
        z == fx_mul(m.h, m.x),
    ensures
        m.innovation(z) == 0,
        m.updated(z).x == m.x,
{
    lemma_times_zero(m.gain());
}

/// With `H = 1`, a measurement that equals the predicted state, `z = A x`,
/// is tracked exactly: the estimate after the step is `z`.
pub proof fn law_predicted_state_is_tracked(m: Model, z: int)
    requires
        m.h == SCALE,
        z == fx_mul(m.a, m.x),
    ensures
        m.advanced(z).x == z,
{
    let pm = m.predicted();
    assert(pm.x == z);
    lemma_times_one(pm.x);
    assert(pm.innovation(z) == 0);
    lemma_times_zero(pm.gain());
}

/// No step changes the coefficients or the noise variances, and every step
/// leaves a model whose components fit the number type.
pub proof fn law_steps_keep_parameters(m: Model, zs: Seq<int>, n: nat)
    requires
        m.representable(),
    ensures
        m.predicted().same_parameters(m),
        m.predicted().representable(),
        forall|z: int| #[trigger] m.updated(z).same_parameters(m) && m.updated(z).representable(),
        m.after(zs, n).same_parameters(m),
        m.after(zs, n).representable(),
    decreases n,
{
    if n > 0 {
        law_steps_keep_parameters(m, zs, (n - 1) as nat);
    }
}

/// With a variance and a process noise that are not negative, a prediction
/// leaves the variance not negative.
pub proof fn law_prediction_keeps_variance_nonnegative(m: Model)
    requires
        m.p >= 0,
        m.q >= 0,
    ensures
        m.predicted().p >= 0,
{
    lemma_times_sign(m.a, m.p);
    lemma_times_sign(fx_mul(m.a, m.p), m.a);
}

/// With process noise `Q > 0` and a variance that is not negative, a
/// prediction strictly increases the variance if the transition coefficient
/// has magnitude at least one or the variance is zero, unless the variance is
/// already at the top of the range, where it stays.
pub proof fn law_prediction_grows_variance(m: Model)
    requires
        m.representable(),
        m.q > 0,
        m.p >= 0,
        m.a >= SCALE || m.a <= -SCALE || m.p == 0,
    ensures
        m.predicted().p >= m.p,
        m.p < i64::MAX ==> m.predicted().p > m.p,
{
    let u = fx_mul(m.a, m.p);
    let v = fx_mul(u, m.a);
    lemma_times_commutes(u, m.a);
    if m.p == 0 {
        // A 0 A + Q = Q.
        lemma_times_zero(m.a);
    } else if m.a >= SCALE {
        // A P >= P, then (A P) A >= A P.
        lemma_times_large_factor(m.a, m.p);
        lemma_times_large_factor(m.a, u);
        assert(v >= u && u >= m.p);
    } else {
        // A P <= -P, then (A P) A >= -(A P).
        lemma_times_large_factor(m.a, m.p);
        lemma_times_large_factor(m.a, u);
        assert(u <= -m.p && v >= m.p);
    }
    assert(v >= m.p);
}

/// With process noise `Q > 0`, a transition coefficient of magnitude at least
/// one and a variance that is not negative, every one of a run of predictions
/// strictly increases the variance until it reaches the top of the range.
pub proof fn law_repeated_prediction_grows_variance(m: Model, n: nat)
    requires
        m.representable(),
        m.q > 0,
        m.a >= SCALE || m.a <= -SCALE,
        m.p >= 0,
    ensures
        m.predicted_times(n).representable(),
        m.predicted_times(n).a == m.a,
        m.predicted_times(n).q == m.q,
        m.predicted_times(n).p >= m.p,
        m.predicted_times(n + 1).p >= m.predicted_times(n).p,
        m.predicted_times(n).p < i64::MAX ==> m.predicted_times(n + 1).p > m.predicted_times(n).p,
    decreases n,
{
    if n > 0 {
        law_repeated_prediction_grows_variance(m, (n - 1) as nat);
    }
    let now = m.predicted_times(n);
    assert(m.predicted_times(n + 1) == now.predicted());
    law_prediction_grows_variance(now);
}

/// With a variance that is not negative and measurement noise `R > 0`, as
/// long as the innovation variance stays below the top of the range, the
/// gain weighs the measurement by less than one (`0 <= K H < 1`), and an
/// update neither increases the variance nor makes it negative.
pub proof fn law_update_shrinks_variance(m: Model, z: int)
    requires
        m.representable(),
        m.shrinks_under_update(),
    ensures
        m.innovation_variance() > 0,
        0 <= fx_mul(m.gain(), m.h) < SCALE,
        0 <= m.updated(z).p <= m.p,
{
    let s = SCALE as int;
    let h = m.h;
    let p = m.p;
    let u = fx_mul(p, h);
    let w = fx_mul(u, h);
    let big_s = m.innovation_variance();
    let k = m.gain();
    let kh = fx_mul(k, h);

    // The numerator `u` of the gain has the sign of `H`, so `H P H >= 0`
    // and `S` is positive and exact.
    lemma_times_commutes(p, h);
    lemma_times_sign(p, h);
    lemma_times_sign(u, h);
    assert(w >= 0);
    assert(big_s == w + m.r);
    assert(w == quotient(u * h, s));
    lemma_quotient_bounds(u * h, s);
    assert(u * h < big_s * s) by (nonlinear_arith)
        requires
            u * h < w * s + s,
            big_s >= w + 1,
            s > 0,
    ;

    // The gain has the sign of its numerator, and `|K| S <= |u|`.
    let kq = quotient(u * s, big_s);
    assert(k == saturate(kq));
    assert(u >= 0 ==> u * s >= 0) by (nonlinear_arith)
        requires
            s > 0,
    ;
    assert(u <= 0 ==> u * s <= 0) by (nonlinear_arith)
        requires
            s > 0,
    ;
    lemma_quotient_bounds(u * s, big_s);
    assert((k * h) * big_s <= (u * h) * s && k * h >= 0) by (nonlinear_arith)
        requires
            big_s > 0,
            s > 0,
            (h >= 0 && u >= 0 && 0 <= k <= kq && kq * big_s <= u * s) || (h <= 0 && u <= 0 && kq
                <= k <= 0 && kq * big_s >= u * s),
    ;
    assert(k * h < s * s) by (nonlinear_arith)
        requires
            (k * h) * big_s <= (u * h) * s,
            u * h < big_s * s,
            big_s > 0,
            s > 0,
    ;
    lemma_quotient_bounds(k * h, s);
    assert(quotient(k * h, s) < s) by (nonlinear_arith)
        requires
            quotient(k * h, s) * s <= k * h,
            k * h < s * s,
            s > 0,
    ;
    assert(0 <= kh < s);

    // The variance is scaled by a factor between zero and one.
    let c = fx_sub(s, kh);
    assert(c == s - kh);
    assert(0 <= p * c <= p * s) by (nonlinear_arith)
        requires
            p >= 0,
            0 <= c <= s,
    ;
    lemma_quotient_bounds(p * c, s);
    lemma_quotient_is_monotonic(p * c, p * s, s);
    lemma_quotient_of_multiple(p, s);
    assert(0 <= quotient(p * c, s) <= p);
}

/// A variance that starts out not negative stays so through any number of
/// steps, given `Q >= 0` and `R > 0`, as long as the innovation variance
/// stays below the top of the range.
pub proof fn law_variance_stays_nonnegative(m: Model, zs: Seq<int>, n: nat)
    requires
        m.representable(),
        m.p >= 0,
        m.q >= 0,
        m.r > 0,
        m.within_range(zs, n),
    ensures
        m.after(zs, n).p >= 0,
    decreases n,
{
    if n > 0 {
        let before = m.after(zs, (n - 1) as nat);
        law_variance_stays_nonnegative(m, zs, (n - 1) as nat);
        law_steps_keep_parameters(m, zs, (n - 1) as nat);
        law_prediction_keeps_variance_nonnegative(before);
        law_update_shrinks_variance(before.predicted(), zs[n - 1]);
    }
}

/// The variance after a step does not depend on the measurement.
pub proof fn law_variance_ignores_measurements(m: Model, z1: int, z2: int)
    ensures
        m.updated(z1).p == m.updated(z2).p,
        m.advanced(z1).p == m.advanced(z2).p,
{
}

/// For `A = 1` and `H = 1`, with `P >= 0`, `Q >= 0`, `R > 0` and an
/// innovation variance `S = P + Q + R` below the top of the range, one step
/// takes the variance to `(P + Q) R / S`, the Riccati recursion, rounded. In
/// raw units the new variance `P'` satisfies
/// `(P + Q) R / S - 1 < P' <= (P + Q) R / S + (P + Q) / 10^12`.
///
/// A variance that the step leaves unchanged therefore solves the Riccati
/// equation `P S = (P + Q) R`, that is `P^2 + Q P - Q R = 0`, to within
/// that rounding.
pub proof fn law_unit_step_follows_riccati(m: Model, z: int)
    requires
        m.representable(),
        m.a == SCALE,
        m.h == SCALE,
        m.p >= 0,
        m.q >= 0,
        m.r > 0,
        m.p + m.q + m.r < i64::MAX,
    ensures
        m.predicted().p == m.p + m.q,
        m.predicted().innovation_variance() == m.p + m.q + m.r,
        ({
            let prior = m.p + m.q;
            let s_var = prior + m.r;
            let post = m.advanced(z).p;
            &&& prior * m.r - s_var < post * s_var
            &&& post * s_var * SCALE <= prior * m.r * SCALE + prior * s_var
        }),
{
    let s = SCALE as int;
    let prior = m.p + m.q;
    let s_var = prior + m.r;
    let pm = m.predicted();
    lemma_times_one(m.p);
    assert(pm.p == prior);
    lemma_times_one(prior);
    assert(pm.innovation_variance() == s_var);

    // K = floor(prior / S), in raw units.
    let k = quotient(prior * s, s_var);
    assert(prior * s >= 0) by (nonlinear_arith)
        requires
            prior >= 0,
            s > 0,
    ;
    lemma_quotient_bounds(prior * s, s_var);
    assert(k <= s) by (nonlinear_arith)
        requires
            s > 0,
            0 <= prior < s_var,
            0 <= k,
            k * s_var <= prior * s,
    ;
    assert(pm.gain() == k);
    lemma_times_one(k);
    let c = s - k;
    assert(fx_sub(s, fx_mul(k, s)) == c);

    // P' = floor(prior (1 - K)).
    let post = quotient(prior * c, s);
    assert(0 <= prior * c <= prior * s) by (nonlinear_arith)
        requires
            prior >= 0,
            0 <= c <= s,
    ;
    lemma_quotient_bounds(prior * c, s);
    lemma_quotient_is_monotonic(prior * c, prior * s, s);
    lemma_quotient_of_multiple(prior, s);
    assert(0 <= post <= prior);
    assert(m.advanced(z).p == post);

    assert(prior * m.r - s_var < post * s_var && post * s_var * s <= prior * m.r * s + prior
        * s_var) by (nonlinear_arith)
        requires
            s > 0,
            s_var > 0,
            prior >= 0,
            s_var == prior + m.r,
            c == s - k,
            k * s_var <= prior * s < k * s_var + s_var,
            post * s <= prior * c < post * s + s,
    ;
}

/// Under the conditions of [`law_unit_step_follows_riccati`], a step does not
/// increase a variance that lies above the steady state,
/// `P S >= (P + Q) R`, by the rounding margin, and strictly increases one that
/// lies below it by the margin.
pub proof fn law_unit_step_moves_toward_steady_state(m: Model, z: int)
    requires
        m.representable(),
        m.a == SCALE,
        m.h == SCALE,
        m.p >= 0,
        m.q >= 0,
        m.r > 0,
        m.p + m.q + m.r < i64::MAX,
    ensures
        ({
            let prior = m.p + m.q;
            let s_var = prior + m.r;
            let post = m.advanced(z).p;
            &&& m.p * s_var * SCALE >= prior * m.r * SCALE + prior * s_var ==> post <= m.p
            &&& m.p * s_var <= prior * m.r - s_var ==> post > m.p
        }),
{
    let s = SCALE as int;
    let prior = m.p + m.q;
    let s_var = prior + m.r;
    let post = m.advanced(z).p;
    law_unit_step_follows_riccati(m, z);
    assert(m.p * s_var * s >= prior * m.r * s + prior * s_var ==> post <= m.p)
        by (nonlinear_arith)
        requires
            s > 0,
            s_var > 0,
            post * s_var * s <= prior * m.r * s + prior * s_var,
    ;
    assert(m.p * s_var <= prior * m.r - s_var ==> post > m.p) by (nonlinear_arith)
        requires
            s_var > 0,
            prior * m.r - s_var < post * s_var,
    ;
}

/// The model after `n` measurements, and whether the next one fails, depend
/// only on the starting model and on those `n` measurements: two runs that
/// agree on them agree on the outcome.
pub proof fn law_filtering_is_reproducible(m: Model, zs1: Seq<int>, zs2: Seq<int>, n: nat)
    requires
        forall|i: int| 0 <= i < n ==> zs1[i] == zs2[i],
    ensures
        m.after(zs1, n) == m.after(zs2, n),
        m.fails_at(zs1, n) == m.fails_at(zs2, n),
    decreases n,
{
    if n > 0 {
        law_filtering_is_reproducible(m, zs1, zs2, (n - 1) as nat);
    }
}

/// A run over given measurements from a given model has one outcome: it
/// cannot both run through and stop early, and either way the estimates and
/// the model it ends in are determined.
pub proof fn law_run_has_one_outcome(
    m: Model,
    zs: Seq<int>,
    estimates1: Seq<int>,
    end1: Model,
    estimates2: Seq<int>,
    end2: Model,
)
    ensures
        !(m.runs_through(zs, estimates1, end1) && m.stops_early(zs, end2)),
        m.runs_through(zs, estimates1, end1) && m.runs_through(zs, estimates2, end2) ==> estimates1
            == estimates2 && end1 == end2,
        m.stops_early(zs, end1) && m.stops_early(zs, end2) ==> end1 == end2,
{
    if m.runs_through(zs, estimates1, end1) && m.runs_through(zs, estimates2, end2) {
        assert(estimates1 =~= estimates2);
    }
    if m.stops_early(zs, end1) && m.stops_early(zs, end2) {
        let i1 = choose|i: nat|
            i < zs.len() && #[trigger] m.first_failure(zs, i) && end1 == m.after(zs, i).predicted();
        let i2 = choose|i: nat|
            i < zs.len() && #[trigger] m.first_failure(zs, i) && end2 == m.after(zs, i).predicted();
        assert(i1 == i2);
    }
}

} // verus!
