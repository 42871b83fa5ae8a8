//! The request bodies of the service's four mutating endpoints, and the
//! checks the endpoints make before reaching the oracle.

use vstd::prelude::*;

verus! {

/// Request to announce an event with enumerated outcomes.
pub struct CreateEnumEvent {
    pub event_id: String,
    pub outcomes: Vec<String>,
    pub event_maturity_epoch: u32,
}

impl CreateEnumEvent {
    /// An enum event needs at least one outcome, and must mature at or
    /// after the given time, read from the clock when the request
    /// arrives.
    pub fn validate(&self, now: u32) -> (r: bool)
        ensures
            r == (self.outcomes@.len() > 0 && self.event_maturity_epoch >= now),
    {
        self.outcomes.len() > 0 && self.event_maturity_epoch >= now
    }
}

/// Request to sign an enumerated event's realized outcome.
pub struct SignEnumEvent {
    pub event_id: String,
    pub outcome: String,
}

/// Request to announce a numeric (digit decomposition) event; the digit
/// count, signedness and precision fall back to defaults when omitted.
pub struct CreateNumericEvent {
    pub event_id: String,
    pub num_digits: Option<u16>,
    pub is_signed: Option<bool>,
    pub precision: Option<i32>,
    pub unit: String,
    pub event_maturity_epoch: u32,
}

impl CreateNumericEvent {
    /// A numeric event cannot ask for zero digits, and must mature at or
    /// after the given time.
    pub fn validate(&self, now: u32) -> (r: bool)
        ensures
            r == (!(self.num_digits == Some(0u16)) && self.event_maturity_epoch >= now),
    {
        let digits_ok = match self.num_digits {
            Some(d) => d > 0,
            None => true,
        };
        digits_ok && self.event_maturity_epoch >= now
    }
}

/// Request to sign a numeric event's realized value.
pub struct SignNumericEvent {
    pub event_id: String,
    pub outcome: i64,
}

} // verus!
