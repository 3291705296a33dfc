//! A verified transaction-ledger engine.
//!
//! An ordered stream of financial events (deposits, withdrawals, disputes,
//! resolutions, chargebacks) for many independent client accounts is folded
//! into a final, consistent balance snapshot per client. The engine tracks
//! per-transaction lifecycle state, enforces legal state transitions, derives
//! an incremental balance delta from each accepted transition, and folds the
//! ordered delta log into per-client account totals with an order-dependent,
//! freeze-aware merge.
//!
//! Amounts are fixed-point integers: callers choose the scale (for example,
//! one unit = one ten-thousandth of a currency unit) and convert at the edge.

pub mod types;
pub mod ledger;
pub mod laws;


