//! Rows of the reporting collaborator's tables: plain records, no behaviour.
use vstd::prelude::*;

verus! {

/// A configured temperature probe as the reporting store records it.
pub struct TemperatureProbe {
    pub id: i32,
    pub probe_type: String,
}

/// A device enumerated on the one-wire bus.
pub struct OneWireDevice {
    pub id: i32,
    pub address: String,
}

/// The persisted installation settings.
pub struct Setting {
    pub brewery_name: Option<String>,
}

} // verus!
