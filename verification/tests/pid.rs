use elsinore::pid::PidController;

#[test]
fn proportional_output_is_independent_of_dt() {
    // Kp=1, Ki=0, Kd=0, setpoint 20 C, measurement 18 C: output is 2.0
    // (2_000_000 micro-units) whatever the timing.
    let mut fresh = PidController::new(1, 0, 0, 20_000);
    assert_eq!(2_000_000, fresh.update(18_000, 12_345));

    let mut paced = PidController::new(1, 0, 0, 20_000);
    assert_eq!(2_000_000, paced.update(18_000, 0));
    // A second call one thousand seconds later gives the same output.
    assert_eq!(2_000_000, paced.update(18_000, 1_000_000));
}

#[test]
fn integral_accumulates_error_times_dt() {
    // Kp=0, Ki=1, Kd=0, setpoint 10 C, measurement 8 C. The first call
    // fixes the timestamp (dt is zero there); two successive calls with
    // dt = 1.0 s each then yield 2.0 and 4.0.
    let mut pid = PidController::new(0, 1, 0, 10_000);
    assert_eq!(0, pid.update(8_000, 0));
    assert_eq!(2_000_000, pid.update(8_000, 1_000));
    assert_eq!(4_000_000, pid.update(8_000, 2_000));
}

#[test]
fn derivative_tracks_error_slope() {
    // Kd only. Error falls from 2.0 to 1.0 over one second: the derivative
    // term is -1.0 degree per second.
    let mut pid = PidController::new(0, 0, 1, 10_000);
    assert_eq!(0, pid.update(8_000, 0));
    assert_eq!(-1_000_000, pid.update(9_000, 1_000));
}

#[test]
fn first_call_treats_dt_as_zero() {
    // Ki=1 but no previous timestamp: the integral takes no step.
    let mut pid = PidController::new(0, 1, 0, 10_000);
    assert_eq!(0, pid.update(8_000, 999_999));
}

#[test]
fn combined_terms_add_up() {
    // Kp=2, Ki=1, Kd=0: after priming, one 1-second step with error 2.0
    // gives 2*2.0 + 1*2.0 = 6.0.
    let mut pid = PidController::new(2, 1, 0, 10_000);
    assert_eq!(2 * 2_000_000, pid.update(8_000, 0));
    assert_eq!(6_000_000, pid.update(8_000, 1_000));
}

#[test]
fn fits_accepts_ordinary_steps() {
    let pid = PidController::new(1, 1, 1, 20_000);
    assert!(pid.fits(18_000, 5_000));
}

#[test]
fn try_update_refuses_overflowing_steps() {
    // The error setpoint - measurement does not fit in 64 bits: the state
    // must stand untouched and no output may be produced.
    let mut pid = PidController::new(1, 0, 0, i64::MAX);
    assert_eq!(None, pid.try_update(-2, 0));
    assert_eq!(0, pid.integral_micro);
    assert_eq!(0, pid.prev_error_milli);
    assert_eq!(None, pid.prev_time_ms);
}

#[test]
fn try_update_matches_update_when_it_fits() {
    let mut pid = PidController::new(1, 0, 0, 20_000);
    assert_eq!(Some(2_000_000), pid.try_update(18_000, 5));
    assert_eq!(Some(5), pid.prev_time_ms);
    assert_eq!(2_000, pid.prev_error_milli);
}
