//! An event-sourced payments engine.
//!
//! Client transactions (deposits, withdrawals, disputes, resolves and
//! chargebacks) are applied to per-client account aggregates under strict
//! balance invariants. Every account mutation is recorded as a domain event in
//! an append-only, optimistically versioned event store, and account state is
//! reconstructed by replaying its event stream.

use vstd::prelude::*;

pub mod aggregate;
pub mod codec;
pub mod command;
pub mod decimal;
pub mod domain;
pub mod repository;
pub mod runtime;
pub mod store;

verus! {

/// Where the engine reads its transactions from.
#[derive(Debug, Clone)]
pub enum InputType {
    /// The standard input stream.
    Stdin,
    /// A file, by path.
    File(String),
}

impl Default for InputType {
    /// Input defaults to the standard input stream.
    fn default() -> (r: InputType)
        ensures
            r is Stdin,
    {
        InputType::Stdin
    }
}

} // verus!
