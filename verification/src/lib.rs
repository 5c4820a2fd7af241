//! A verified budget ledger: monthly budgets, category allocations, ledger
//! entries with soft deletion, reusable templates, and an append-only audit
//! trail, all held in one explicit store handle.
//!
//! The host process owns a [`store::Store`], passes it to every operation,
//! and persists it however it likes; each operation's contract states what
//! it returns and how it changes the store.

pub mod error;
pub mod types;
pub mod store;
pub mod text;
pub mod budgets;
pub mod sorting;
pub mod ledger;
pub mod order;
pub mod history;
pub mod catalog;
pub mod templates;
pub mod schema;
pub mod auth;
