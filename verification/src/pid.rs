//! The control algorithm: a PID controller on fixed-point integers.
//!
//! Temperatures are counts of millidegrees Celsius, times are milliseconds,
//! and outputs are micro-units (millionths), so every term of the control
//! law is exact integer arithmetic: the proportional term scales a
//! millidegree error by 1000, the integral accumulates error × dt in
//! millidegree-milliseconds (= micro-degree-seconds), and the derivative is
//! micro-degrees per second, rounded toward zero.
use vstd::prelude::*;
use vstd::arithmetic::div_mod::lemma_div_nonincreasing;
use vstd::arithmetic::div_mod::lemma_div_pos_is_pos;
use vstd::arithmetic::mul::lemma_mul_basics;
use vstd::arithmetic::mul::lemma_mul_is_distributive_add;
use crate::one_wire::in_i64;

verus! {

/// Signed division rounded toward zero, as the controller computes it.
pub open spec fn div_tz(x: int, d: int) -> int
    recommends
        d > 0,
{
    if x >= 0 {
        x / d
    } else {
        -((-x) / d)
    }
}

/// The controller's state as unbounded integers: what the arithmetic means,
/// free of machine limits.
pub struct PidModel {
    /// Target, millidegrees Celsius.
    pub setpoint: int,
    /// Proportional gain.
    pub kp: int,
    /// Integral gain.
    pub ki: int,
    /// Derivative gain.
    pub kd: int,
    /// Accumulated error × dt, micro-degree-seconds.
    pub integral: int,
    /// Error of the previous call, millidegrees.
    pub prev_error: int,
    /// When the previous call happened, milliseconds; absent before the
    /// first call.
    pub prev_time: Option<int>,
}

/// Time since the previous call, milliseconds; zero on the very first call,
/// so no undefined integral or derivative step arises.
pub open spec fn dt_of(p: PidModel, now: int) -> int {
    match p.prev_time {
        Some(t) => now - t,
        None => 0,
    }
}

/// Setpoint error of a measurement, millidegrees.
pub open spec fn error_of(p: PidModel, m: int) -> int {
    p.setpoint - m
}

/// The integral after one update: error × dt accumulates.
pub open spec fn integral_after(p: PidModel, m: int, now: int) -> int {
    p.integral + error_of(p, m) * dt_of(p, now)
}

/// The derivative term of one update, micro-degrees per second; zero when
/// no time has passed.
pub open spec fn derivative_of(p: PidModel, m: int, now: int) -> int {
    if dt_of(p, now) == 0 {
        0
    } else {
        div_tz(1000000 * (error_of(p, m) - p.prev_error), dt_of(p, now))
    }
}

/// The control law: output = Kp×error + Ki×integral + Kd×derivative, in
/// micro-units.
pub open spec fn output_of(p: PidModel, m: int, now: int) -> int {
    1000 * p.kp * error_of(p, m) + p.ki * integral_after(p, m, now) + p.kd * derivative_of(
        p,
        m,
        now,
    )
}

/// The state one update leaves behind: gains and setpoint stand, the
/// integral has accumulated, and the error and time of this call are kept
/// for the next one.
pub open spec fn state_after(p: PidModel, m: int, now: int) -> PidModel {
    PidModel {
        setpoint: p.setpoint,
        kp: p.kp,
        ki: p.ki,
        kd: p.kd,
        integral: integral_after(p, m, now),
        prev_error: error_of(p, m),
        prev_time: Some(now),
    }
}

/// Every intermediate value of one update stays within 64-bit signed
/// arithmetic, and time does not run backwards. A pure machine limit: the
/// control law itself is unbounded.
pub open spec fn update_fits(p: PidModel, m: int, now: int) -> bool {
    &&& match p.prev_time {
        Some(t) => t <= now,
        None => true,
    }
    &&& in_i64(dt_of(p, now))
    &&& in_i64(error_of(p, m))
    &&& in_i64(error_of(p, m) * dt_of(p, now))
    &&& in_i64(integral_after(p, m, now))
    &&& in_i64(error_of(p, m) - p.prev_error)
    &&& in_i64(1000000 * (error_of(p, m) - p.prev_error))
    &&& in_i64(1000 * p.kp)
    &&& in_i64(1000 * p.kp * error_of(p, m))
    &&& in_i64(p.ki * integral_after(p, m, now))
    &&& in_i64(p.kd * derivative_of(p, m, now))
    &&& in_i64(1000 * p.kp * error_of(p, m) + p.ki * integral_after(p, m, now))
    &&& in_i64(output_of(p, m, now))
}

/// Division toward zero stays between zero and its dividend.
proof fn lemma_div_tz_bounds(x: int, d: int)
    requires
        d >= 1,
    ensures
        x >= 0 ==> 0 <= div_tz(x, d) <= x,
        x < 0 ==> x <= div_tz(x, d) <= 0,
{
    if x >= 0 {
        lemma_div_pos_is_pos(x, d);
        lemma_div_nonincreasing(x, d);
    } else {
        lemma_div_pos_is_pos(-x, d);
        lemma_div_nonincreasing(-x, d);
    }
}

/// The controller. Gains and the setpoint are fixed at construction; the
/// integral, the previous error and the previous timestamp mutate with
/// every update and live for the life of the loop.
pub struct PidController {
    pub setpoint_milli: i64,
    pub kp: i64,
    pub ki: i64,
    pub kd: i64,
    pub integral_micro: i64,
    pub prev_error_milli: i64,
    pub prev_time_ms: Option<u64>,
}

impl View for PidController {
    type V = PidModel;

    open spec fn view(&self) -> PidModel {
        PidModel {
            setpoint: self.setpoint_milli as int,
            kp: self.kp as int,
            ki: self.ki as int,
            kd: self.kd as int,
            integral: self.integral_micro as int,
            prev_error: self.prev_error_milli as int,
            prev_time: match self.prev_time_ms {
                Some(t) => Some(t as int),
                None => None,
            },
        }
    }
}

impl PidController {
    pub fn new(kp: i64, ki: i64, kd: i64, setpoint_milli: i64) -> (r: PidController)
        ensures
            r@.setpoint == setpoint_milli as int,
            r@.kp == kp as int,
            r@.ki == ki as int,
            r@.kd == kd as int,
            r@.integral == 0,
            r@.prev_error == 0,
            r@.prev_time is None,
    {
        PidController {
            setpoint_milli,
            kp,
            ki,
            kd,
            integral_micro: 0,
            prev_error_milli: 0,
            prev_time_ms: None,
        }
    }

    /// One step of the control law. Returns the actuation output in
    /// micro-units; unbounded in principle, so the caller owes the machine
    /// limit `update_fits`.
    pub fn update(&mut self, measurement_milli: i64, now_ms: u64) -> (r: i64)
        requires
            update_fits(old(self)@, measurement_milli as int, now_ms as int),
        ensures
            final (self)@ == state_after(old(self)@, measurement_milli as int, now_ms as int),
            r == output_of(old(self)@, measurement_milli as int, now_ms as int),
    {
        let ghost p = old(self)@;
        let ghost mi = measurement_milli as int;
        let ghost ni = now_ms as int;
        let dt: i64 = match self.prev_time_ms {
            None => 0,
            Some(t) => (now_ms - t) as i64,
        };
        proof {
            assert(dt as int == dt_of(p, ni));
        }
        let error: i64 = self.setpoint_milli - measurement_milli;
        let e_dt: i64 = error * dt;
        let new_integral: i64 = self.integral_micro + e_dt;
        let deriv: i64 = if dt == 0 {
            0
        } else {
            let num: i64 = 1000000 * (error - self.prev_error_milli);
            proof {
                lemma_div_tz_bounds(num as int, dt as int);
            }
            match num.checked_div(dt) {
                Some(q) => q,
                None => {
                    proof {
                        assert(false);
                    }
                    0
                }
            }
        };
        proof {
            assert(deriv as int == derivative_of(p, mi, ni));
        }
        let p_term: i64 = 1000 * self.kp * error;
        let i_term: i64 = self.ki * new_integral;
        let d_term: i64 = self.kd * deriv;
        let out: i64 = p_term + i_term + d_term;
        self.integral_micro = new_integral;
        self.prev_error_milli = error;
        self.prev_time_ms = Some(now_ms);
        out
    }

    /// Whether one update on this state would stay within machine limits.
    pub fn fits(&self, measurement_milli: i64, now_ms: u64) -> (r: bool)
        ensures
            r == update_fits(self@, measurement_milli as int, now_ms as int),
    {
        let ghost p = self@;
        let ghost mi = measurement_milli as int;
        let ghost ni = now_ms as int;
        let dt: i64 = match self.prev_time_ms {
            None => 0,
            Some(t) => {
                if now_ms < t {
                    return false;
                }
                let d: u64 = now_ms - t;
                if d > 9223372036854775807 {
                    return false;
                }
                d as i64
            }
        };
        let error: i64 = match self.setpoint_milli.checked_sub(measurement_milli) {
            Some(x) => x,
            None => {
                return false;
            }
        };
        let e_dt: i64 = match error.checked_mul(dt) {
            Some(x) => x,
            None => {
                return false;
            }
        };
        let new_integral: i64 = match self.integral_micro.checked_add(e_dt) {
            Some(x) => x,
            None => {
                return false;
            }
        };
        let de: i64 = match error.checked_sub(self.prev_error_milli) {
            Some(x) => x,
            None => {
                return false;
            }
        };
        let num: i64 = match 1000000i64.checked_mul(de) {
            Some(x) => x,
            None => {
                return false;
            }
        };
        let deriv: i64 = if dt == 0 {
            0
        } else {
            proof {
                lemma_div_tz_bounds(num as int, dt as int);
            }
            match num.checked_div(dt) {
                Some(x) => x,
                None => {
                    proof {
                        assert(false);
                    }
                    return false;
                }
            }
        };
        proof {
            assert(deriv as int == derivative_of(p, mi, ni));
        }
        let kp1000: i64 = match 1000i64.checked_mul(self.kp) {
            Some(x) => x,
            None => {
                return false;
            }
        };
        let p_term: i64 = match kp1000.checked_mul(error) {
            Some(x) => x,
            None => {
                return false;
            }
        };
        let i_term: i64 = match self.ki.checked_mul(new_integral) {
            Some(x) => x,
            None => {
                return false;
            }
        };
        let d_term: i64 = match self.kd.checked_mul(deriv) {
            Some(x) => x,
            None => {
                return false;
            }
        };
        let pi: i64 = match p_term.checked_add(i_term) {
            Some(x) => x,
            None => {
                return false;
            }
        };
        match pi.checked_add(d_term) {
            Some(_) => true,
            None => false,
        }
    }

    /// One step of the control law, guarded: the update happens only when
    /// it stays within machine limits, and otherwise the state is left
    /// untouched and no output is produced.
    pub fn try_update(&mut self, measurement_milli: i64, now_ms: u64) -> (r: Option<i64>)
        ensures
            update_fits(old(self)@, measurement_milli as int, now_ms as int) ==> final (self)@
                == state_after(old(self)@, measurement_milli as int, now_ms as int) && r == Some(
                output_of(old(self)@, measurement_milli as int, now_ms as int) as i64,
            ),
            !update_fits(old(self)@, measurement_milli as int, now_ms as int) ==> *final (self)
                == *old(self) && r is None,
    {
        if self.fits(measurement_milli, now_ms) {
            Some(self.update(measurement_milli, now_ms))
        } else {
            None
        }
    }
}

/// With the integral and derivative gains at zero the controller is purely
/// proportional: one update's output is Kp × error, scaled to micro-units,
/// whatever the measurement time — the step length dt plays no part.
pub proof fn lemma_proportional_independent_of_dt(p: PidModel, m: int, now: int)
    requires
        p.ki == 0,
        p.kd == 0,
    ensures
        output_of(p, m, now) == 1000 * p.kp * (p.setpoint - m),
{
    lemma_mul_basics(integral_after(p, m, now));
    lemma_mul_basics(derivative_of(p, m, now));
}

/// With only the integral gain set, successive updates accumulate
/// error × dt: the second output exceeds the first by Ki × error × (the
/// time between the two calls).
pub proof fn lemma_integral_accumulates(p: PidModel, m: int, n1: int, n2: int)
    requires
        p.kp == 0,
        p.kd == 0,
    ensures
        output_of(state_after(p, m, n1), m, n2) == output_of(p, m, n1) + p.ki * ((p.setpoint - m)
            * (n2 - n1)),
{
    let s1 = state_after(p, m, n1);
    lemma_mul_basics(error_of(p, m));
    lemma_mul_basics(derivative_of(p, m, n1));
    lemma_mul_basics(error_of(s1, m));
    lemma_mul_basics(derivative_of(s1, m, n2));
    lemma_mul_is_distributive_add(
        p.ki,
        integral_after(p, m, n1),
        (p.setpoint - m) * (n2 - n1),
    );
    assert(integral_after(s1, m, n2) == integral_after(p, m, n1) + (p.setpoint - m) * (n2 - n1));
}

} // verus!
