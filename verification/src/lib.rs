//! Avionics data network topology with dynamic reachability computation.
//!
//! A set of redundant AFDX packet switches whose availability (power or
//! failure state) changes at runtime, and a routing table that always
//! reflects which switch pairs can currently communicate.  Reachability is
//! answered by a breadth-first search over the switches that are currently
//! available; the results are materialized as an upper-triangular matrix per
//! network and published as symmetric pairs of boolean signals.

pub mod boarding;
pub mod network;
pub mod reachability;
pub mod routing;
pub mod signals;
pub mod switch;
pub mod topology;
