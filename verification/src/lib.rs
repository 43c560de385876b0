//! A multi-tenant subscription registry: organizations are created by owners,
//! each organization publishes subscription plans, and addresses subscribe to
//! and cancel plans subject to expiration and cancellation-policy rules.
//!
//! The engine is a pure state machine over an explicit [`hub::SubscriptionHub`]
//! store value; the host that supplies the authenticated caller, the clock and
//! durable storage sits outside the library and hands in plain values.

pub mod error;
pub mod hub;
pub mod keys;
pub mod laws;
pub mod lifecycle;
pub mod msg;
pub mod owner_index;
pub mod plan_index;
pub mod queries;
pub mod state;
pub mod user_index;

use vstd::prelude::*;

verus! {

/// Seconds in a day, the base of every duration unit.
pub const DAY_SECONDS: u64 = 86400;

/// Seconds in a week.
pub const WEEK_SECONDS: u64 = 7 * 86400;

/// Seconds in a month, counted as 30 days.
pub const MONTH_SECONDS: u64 = 30 * 86400;

/// Seconds in a year, counted as 365 days.
pub const YEAR_SECONDS: u64 = 365 * 86400;

} // verus!
