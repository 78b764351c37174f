use elsinore::control_loop::ControlLoop;
use elsinore::control_loop::remaining_sleep;
use elsinore::one_wire::MilliCelsius;
use elsinore::one_wire::TempProbe;
use elsinore::pid::PidController;
use elsinore::w1_errors::W1Error;

fn make_loop() -> ControlLoop {
    let probe = TempProbe::new("28-00000406f49f".to_string());
    let pid = PidController::new(1, 0, 0, 20_000);
    ControlLoop::new(probe, pid, 5_000)
}

#[test]
fn iteration_reads_and_actuates() {
    let mut cl = make_loop();
    let rec = b"crc=f2 YES\nscratchpad t=18000".to_vec();
    let (status, out) = cl.iterate(Ok(rec), 1_000);
    assert_eq!(Ok(()), status);
    assert_eq!(Some(MilliCelsius(18000)), cl.probe.temp_c);
    assert_eq!(Some(2_000_000), out);
}

#[test]
fn failed_read_runs_on_stale_reading() {
    let mut cl = make_loop();
    let rec = b"crc=f2 YES\nscratchpad t=18000".to_vec();
    cl.iterate(Ok(rec), 1_000);
    // The next poll fails: the loop keeps the cached reading and still
    // produces an actuation output from it.
    let (status, out) = cl.iterate(Err(W1Error::Io), 6_000);
    assert_eq!(Err(W1Error::Io), status);
    assert_eq!(Some(MilliCelsius(18000)), cl.probe.temp_c);
    assert_eq!(Some(2_000_000), out);
}

#[test]
fn no_reading_means_no_actuation() {
    let mut cl = make_loop();
    let (status, out) = cl.iterate(Err(W1Error::Io), 1_000);
    assert_eq!(Err(W1Error::Io), status);
    assert_eq!(None, cl.probe.temp_c);
    assert_eq!(None, out);
}

#[test]
fn cancellation_stops_the_loop() {
    let cl = make_loop();
    assert!(cl.should_continue(false));
    assert!(!cl.should_continue(true));
}

#[test]
fn sleep_is_the_remainder_clamped_at_zero() {
    assert_eq!(3_800, remaining_sleep(5_000, 1_200));
    assert_eq!(0, remaining_sleep(5_000, 5_000));
    assert_eq!(0, remaining_sleep(5_000, 9_000));
    assert_eq!(5_000, remaining_sleep(5_000, 0));
}
