//! Splitting a shared grocery receipt among several people: an ownership
//! ledger with per-person totals, a keyboard-driven focus state machine, and
//! a parser for plain-text receipt exports.

pub mod input_handlers;
pub mod ledger;
pub mod receipt;
pub mod state;
mod text;
