//! The error taxonomy of the store, and the coarser error surface exposed
//! to embedding environments.

use vstd::prelude::*;

verus! {

/// Errors reported by every store backend. Backend-internal failures are
/// mapped to `StorageFailure` at the store boundary; domain-rule violations
/// are reported precisely.
#[derive(Debug, Clone, Copy, PartialEq, Eq, Structural)]
pub enum Error {
    /// Attempted to sign an event that was already signed
    EventAlreadySigned,
    /// Event data was not found
    NotFound,
    /// The storage failed to read/save the data
    StorageFailure,
    /// User gave an invalid outcome
    InvalidOutcome,
    /// An error that should never happen, if it does it's a bug
    Internal,
}

/// Error surface handed to an embedding environment, one variant wider than
/// [`Error`]: failures of the publication layer get their own variant.
#[derive(Debug, Clone, Copy, PartialEq, Eq, Structural)]
pub enum JsError {
    /// Attempted to sign an event that was already signed
    EventAlreadySigned,
    /// Event data was not found
    NotFound,
    /// The storage failed to read/save the data
    StorageFailure,
    /// User gave an invalid outcome
    InvalidOutcome,
    /// An error that should never happen, if it does it's a bug
    Internal,
    /// An error with creating or sending protocol events
    Nostr,
}

impl core::convert::From<Error> for JsError {
    fn from(value: Error) -> (r: JsError) {
        match value {
            Error::EventAlreadySigned => JsError::EventAlreadySigned,
            Error::NotFound => JsError::NotFound,
            Error::StorageFailure => JsError::StorageFailure,
            Error::InvalidOutcome => JsError::InvalidOutcome,
            Error::Internal => JsError::Internal,
        }
    }
}

impl vstd::std_specs::convert::FromSpecImpl<Error> for JsError {
    open spec fn obeys_from_spec() -> bool {
        true
    }

    open spec fn from_spec(value: Error) -> JsError {
        match value {
            Error::EventAlreadySigned => JsError::EventAlreadySigned,
            Error::NotFound => JsError::NotFound,
            Error::StorageFailure => JsError::StorageFailure,
            Error::InvalidOutcome => JsError::InvalidOutcome,
            Error::Internal => JsError::Internal,
        }
    }
}

impl core::convert::From<JsError> for Error {
    fn from(value: JsError) -> (r: Error) {
        match value {
            JsError::EventAlreadySigned => Error::EventAlreadySigned,
            JsError::NotFound => Error::NotFound,
            JsError::StorageFailure => Error::StorageFailure,
            JsError::InvalidOutcome => Error::InvalidOutcome,
            JsError::Internal => Error::Internal,
            JsError::Nostr => Error::Internal,
        }
    }
}

impl vstd::std_specs::convert::FromSpecImpl<JsError> for Error {
    open spec fn obeys_from_spec() -> bool {
        true
    }

    open spec fn from_spec(value: JsError) -> Error {
        match value {
            JsError::EventAlreadySigned => Error::EventAlreadySigned,
            JsError::NotFound => Error::NotFound,
            JsError::StorageFailure => Error::StorageFailure,
            JsError::InvalidOutcome => Error::InvalidOutcome,
            JsError::Internal => Error::Internal,
            JsError::Nostr => Error::Internal,
        }
    }
}

} // verus!
