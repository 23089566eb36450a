//! The interface of a congestion controller.

use std::time::Instant;
use vstd::prelude::*;

verus! {

/// `std::time::Instant`, taken as an opaque type: it is carried, never looked
/// into.
#[verifier::external_type_specification]
#[verifier::external_body]
pub struct ExInstant(Instant);

/// Logic and state controlling the maximum amount of data in flight
pub trait Controller: Send {
    /// Packet deliveries were confirmed
    fn on_ack(&mut self, sent: Instant, bytes: u64, congestion_blocked: bool);

    /// Packets were deemed lost or marked congested
    fn on_congestion_event(&mut self, now: Instant, sent: Instant, persistent: bool);

    /// Number of ack-eliciting bytes that may be in flight
    fn window(&self) -> u64;
}

} // verus!
