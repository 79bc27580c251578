//! One AFDX switch, as the routing core sees it.
//!
//! The electrical side — which supplies power the switch and whether a
//! failure is injected — lives with the host; the core consumes only the
//! derived availability boolean, once per tick.  The switch keeps the
//! previous tick's availability so that it can raise an edge-triggered
//! "routing update required" flag on exactly the ticks where availability
//! changed.

use vstd::prelude::*;

verus! {

/// A switch is available when it is powered on at least one of its
/// configured supplies and carries no active failure flag.
pub open spec fn spec_availability(powered: bool, failed: bool) -> bool {
    powered && !failed
}

/// Derives a switch's availability from its power and failure inputs.
pub fn derive_availability(powered: bool, failed: bool) -> (available: bool)
    ensures
        available == spec_availability(powered, failed),
{
    powered && !failed
}

/// An AFDX switch: its current availability and the availability it had at
/// the end of the previous tick.
#[derive(Clone, Copy)]
pub struct AvionicsFullDuplexSwitch {
    available: bool,
    previous_available: bool,
}

impl AvionicsFullDuplexSwitch {
    /// Availability for the current tick.
    pub closed spec fn availability(&self) -> bool {
        self.available
    }

    /// Availability at the end of the previous tick.
    pub closed spec fn previous_availability(&self) -> bool {
        self.previous_available
    }

    /// A switch that has never been powered: unavailable, with no pending
    /// change flag.
    pub fn new() -> (s: Self)
        ensures
            !s.availability(),
            !s.previous_availability(),
    {
        AvionicsFullDuplexSwitch { available: false, previous_available: false }
    }

    /// Advances the switch into the current tick: the old availability is
    /// retired to the previous-tick slot and the freshly derived value
    /// takes its place.  Must be called before `routing_update_required`
    /// is read for the tick.
    pub fn update(&mut self, available: bool)
        ensures
            final(self).availability() == available,
            final(self).previous_availability() == old(self).availability(),
    {
        self.previous_available = self.available;
        self.available = available;
    }

    /// Pure query of the current availability.
    pub fn is_available(&self) -> (available: bool)
        ensures
            available == self.availability(),
    {
        self.available
    }

    /// True exactly on ticks where the availability differs from its value
    /// at the end of the previous tick: an edge-triggered change flag, not
    /// a level signal.
    pub fn routing_update_required(&self) -> (required: bool)
        ensures
            required == (self.availability() != self.previous_availability()),
    {
        self.available != self.previous_available
    }
}

} // verus!
