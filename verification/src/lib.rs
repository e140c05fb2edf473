//! Lock-free telemetry collection: a single-consumer ring buffer
//! protocol with a per-slot publication handshake, drop accounting,
//! cycle-time calibration, and a bounded online aggregation engine.
//!
//! - [`ring`]: the shared ring buffer — power-of-two slot table,
//!   masked indexing, monotonic head and tail, drop counter.
//! - [`protocol`]: the handshake protocol as a mathematical model,
//!   with the first-in-first-out, round-trip and overflow laws.
//! - [`entry`]: the fixed-width record and its flag bits.
//! - [`conn`]: the consumer-side connection, with idempotent teardown.
//! - [`calib`]: cycles-per-microsecond conversion.
//! - [`consumer`]: the consumer loop's decisions — drain and dispatch,
//!   backoff on empty polls, drop-delta reporting.
//! - [`agg`]: per-event-ID accumulators and the ordered summary.

pub mod agg;
pub mod calib;
pub mod conn;
pub mod consumer;
pub mod entry;
pub mod protocol;
pub mod ring;

use vstd::prelude::*;

verus! {

/// Runtime error raised when a connection to the shared telemetry
/// region cannot be established or fails validation.
#[derive(Debug)]
pub struct HiResError {
    message: String,
}

impl HiResError {
    /// The description this error carries, as a mathematical string.
    pub closed spec fn spec_message(&self) -> Seq<char> {
        self.message@
    }

    /// Wraps an error description.
    pub fn new(message: String) -> (r: HiResError)
        ensures
            r.spec_message() == message@,
    {
        HiResError { message }
    }

    /// The human-readable description of the failure.
    pub fn message(&self) -> (r: &String)
        ensures
            r@ == self.spec_message(),
    {
        &self.message
    }
}

} // verus!
