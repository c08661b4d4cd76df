//! Accounting core of a fungible token ledger: account balances, delegated
//! spending allowances and an append-only history of accepted operations.
//!
//! A [`token::Token`] is created with its whole supply minted to its owner.
//! From then on it takes transfers, delegated transfers and approvals. Each
//! accepted operation changes the balances or the allowances and writes
//! exactly one record to the history; a rejected one changes nothing.
//!
//! The modules, from the leaves up:
//! - [`account`]: account identifiers, opaque byte strings compared by value.
//! - [`sum`]: the sum of the amounts of a finite map.
//! - [`listing`]: lists of (identifier, value) pairs and the maps they denote.
//! - [`table`]: a table keyed by account identifier.
//! - [`receipt`]: what an operation hands back.
//! - [`balances`]: who owns how much.
//! - [`allowances`]: what each spender may move out of each owner's balance.
//! - [`history`]: the records of the accepted operations.
//! - [`model`]: the token as a mathematical state with its transitions.
//! - [`token`]: the token itself, and what is kept of it over a restart.
//! - [`laws`]: what holds of a token whatever is asked of it.
//!
//! Amounts are `u64`. A transfer of `amount` costs the sender `amount` and
//! the fee; the destination receives `amount` and the fee recipient the fee.
//! The caller of an operation and the time are handed in by whoever runs the
//! token; the library neither authenticates nor reads a clock.

pub mod account;
pub mod allowances;
pub mod balances;
pub mod history;
pub mod laws;
pub mod listing;
pub mod model;
pub mod receipt;
pub mod sum;
pub mod table;
pub mod token;
