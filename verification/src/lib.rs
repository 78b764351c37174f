//! Core of a small brewery temperature controller: parsing of one-wire
//! sensor records, a temperature probe with a cached reading, a PID control
//! algorithm on fixed-point integers, and the decision logic of the control
//! loop. All I/O (device files, the clock, sleeping) lives outside this
//! library and hands plain values in.
use vstd::prelude::*;

pub mod w1_errors;
pub mod one_wire;
pub mod pid;
pub mod control_loop;
pub mod settings;
pub mod models;
pub mod display;

verus! {

/// Greeting served by the status front-end's root route.
pub fn index() -> (r: &'static str)
    ensures
        r@ == "Hello, world!"@,
{
    "Hello, world!"
}

} // verus!
