//! The rules of a daemon that rents out computing capacity for Lightning payments: how capacity is
//! held, how refunds are planned, resolved and paid at most once, what may be forgotten of the stored
//! state, how suspended rentals are resumed, and when the daemon's loops run, restart and stop.
//!
//! The stored state is [`tables::Tables`]; a transaction is a function on it. Work that leaves the
//! process (the database, the network, child processes, the payment backend) is asked for and answered
//! by value, so that every decision is taken here. What other crates compute is behind the few
//! functions of [`outside`].

use vstd::prelude::*;

pub mod addresses;
pub mod documents;
pub mod outside;
pub mod readiness;
pub mod refund;
pub mod refund_resolver;
pub mod relay_status;
pub mod reservation;
pub mod resume;
pub mod runner;
pub mod schema;
pub mod store;
pub mod supervisor;
pub mod tables;
pub mod text;

verus! {

}
