//! Toggle engine for a remote time-tracking service.
//!
//! The library holds the decision logic of the service: parsing tags out of
//! entry descriptions, the lifecycle of a tracked entry (create, stop,
//! running-check), the toggle engine that turns a snapshot of running entries
//! plus an optional tag filter into one batch of entries to submit, and the
//! parsing of the two-key credential file. Network transport and process
//! startup live outside the library and hand it plain values.

use vstd::prelude::*;

pub mod api;
pub mod engine;
pub mod keygen;
pub mod records;
pub mod tags;

verus! {

/// Relies on `std::time::SystemTime::now`; the duration since the epoch is
/// converted to whole seconds. Aborts if the clock reads earlier than the
/// epoch. Nothing is promised of the value: the clock is environmental, so
/// callers take the timestamp as an argument and are verified for every value
/// of it.
#[verifier::external_body]
fn system_epoch_seconds() -> u64 {
    std::time::SystemTime::now()
        .duration_since(std::time::UNIX_EPOCH)
        .expect("System time before UNIX EPOCH!")
        .as_secs()
}

/// Seconds since the Unix epoch, read from the system clock and handed on
/// unchanged. The value is environmental: the engine's planning functions
/// take it as an argument and are verified for every value of it.
pub fn get_timestamp() -> u64 {
    system_epoch_seconds()
}

} // verus!
