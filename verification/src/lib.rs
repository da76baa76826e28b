//! Depth-aware evaluation of multi-asset trading cycles.
//!
//! The crate decides whether a candidate conversion cycle is a real,
//! executable arbitrage opportunity once live order-book liquidity is taken
//! into account.  All monetary values are fixed-point integers scaled by
//! [`constants::SCALE`]; the order-book simulator, the leg-by-leg budget
//! propagation, the cycle planner, the opportunity record and the adaptive
//! symbol selector are verified here, while network fetches and file output
//! live with the embedding application.

pub mod constants;
pub mod cycle;
pub mod exchange;
pub mod propagate;
pub mod record;
pub mod selector;
pub mod simulator;
pub mod strutil;
pub mod types;
