//! The control loop's decisions: what one iteration does with a read
//! attempt, when the loop stops, and how long to sleep so the cadence does
//! not drift. The loop's outside work — reading the device file, the clock,
//! sleeping — happens at the caller, which hands the results in.
use vstd::prelude::*;
use crate::one_wire::MilliCelsius;
use crate::one_wire::TempProbe;
use crate::one_wire::read_outcome;
use crate::pid::PidController;
use crate::pid::output_of;
use crate::pid::state_after;
use crate::pid::update_fits;
use crate::w1_errors::W1Error;

verus! {

/// The cached reading a probe holds after applying one read attempt: a
/// record that parses replaces it, anything else leaves it standing.
pub open spec fn cache_after(
    prev: Option<MilliCelsius>,
    read: Result<Vec<u8>, W1Error>,
) -> Option<MilliCelsius> {
    match read_outcome(read) {
        Ok(v) => Some(MilliCelsius(v as i64)),
        Err(_) => prev,
    }
}

/// One probe/controller pair and its cadence. The loop owns both
/// exclusively: nothing else mutates them between iterations.
pub struct ControlLoop {
    pub probe: TempProbe,
    pub pid: PidController,
    /// The fixed iteration period, milliseconds.
    pub period_ms: u64,
}

/// Sleep only the remainder of the loop period after `elapsed_ms` of work,
/// clamped at zero, so the cadence does not drift by the cost of polling.
pub fn remaining_sleep(period_ms: u64, elapsed_ms: u64) -> (r: u64)
    ensures
        elapsed_ms >= period_ms ==> r == 0,
        elapsed_ms < period_ms ==> r == period_ms - elapsed_ms,
{
    if elapsed_ms >= period_ms {
        0
    } else {
        period_ms - elapsed_ms
    }
}

impl ControlLoop {
    pub fn new(probe: TempProbe, pid: PidController, period_ms: u64) -> (r: ControlLoop)
        ensures
            r.probe == probe,
            r.pid == pid,
            r.period_ms == period_ms,
    {
        ControlLoop { probe, pid, period_ms }
    }

    /// The cooperative stop signal, honoured at the iteration boundary:
    /// once cancellation is observed, no further read or actuation step is
    /// taken.
    pub fn should_continue(&self, cancelled: bool) -> (r: bool)
        ensures
            r == !cancelled,
    {
        !cancelled
    }

    /// One iteration's decisions, given the raw outcome of this iteration's
    /// device read and the current time: apply the read to the probe (a
    /// failure keeps the last known-good reading), then feed whatever the
    /// probe now holds to the controller. Returns the read's verdict, for
    /// logging, and the actuation output, absent while no reading has ever
    /// succeeded or the controller step would leave machine limits.
    pub fn iterate(&mut self, read: Result<Vec<u8>, W1Error>, now_ms: u64) -> (r: (
        Result<(), W1Error>,
        Option<i64>,
    ))
        ensures
            final (self).period_ms == old(self).period_ms,
            final (self).probe.address == old(self).probe.address,
            final (self).probe.temp_c == cache_after(old(self).probe.temp_c, read),
            r.0 == match read_outcome(read) {
                Ok(_) => Ok::<(), W1Error>(()),
                Err(e) => Err::<(), W1Error>(e),
            },
            match cache_after(old(self).probe.temp_c, read) {
                Some(t) => {
                    if update_fits(old(self).pid@, t.0 as int, now_ms as int) {
                        final (self).pid@ == state_after(
                            old(self).pid@,
                            t.0 as int,
                            now_ms as int,
                        ) && r.1 == Some(
                            output_of(old(self).pid@, t.0 as int, now_ms as int) as i64,
                        )
                    } else {
                        final (self).pid == old(self).pid && r.1 is None
                    }
                },
                None => final (self).pid == old(self).pid && r.1 is None,
            },
    {
        let status = self.probe.update_temp(read);
        let cached = self.probe.temp_c;
        let out: Option<i64> = match cached {
            Some(t) => self.pid.try_update(t.0, now_ms),
            None => None,
        };
        (status, out)
    }
}

} // verus!
