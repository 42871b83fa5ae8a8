//! Event store for a DLC oracle: nonce index allocation, announcement
//! persistence, and at-most-once attestation signing, with an in-memory
//! backend, a relational row model, and the decision kernel of a
//! single-writer embedded backend.

pub mod allocator;
pub mod database;
pub mod embedded;
pub mod error;
pub mod memory;
pub mod requests;
pub mod sorting;
pub mod types;

use vstd::prelude::*;

verus! {

/// Relies on std::time::SystemTime for the wall clock: seconds since the
/// Unix epoch, or 0 if the clock reads before the epoch. Nothing is
/// promised of the value, which depends on the machine's clock.
#[verifier::external_body]
fn system_epoch_seconds() -> u64 {
    std::time::SystemTime::now()
        .duration_since(std::time::SystemTime::UNIX_EPOCH)
        .map(|d| d.as_secs())
        .unwrap_or(0)
}

/// The wall clock as the request checks read it: seconds since the Unix
/// epoch, truncated to the interface's 32-bit width.
pub fn now() -> u32 {
    let secs = system_epoch_seconds();
    #[verifier::truncate]
    (secs as u32)
}

} // verus!
