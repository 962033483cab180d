//! Household-finance coordination library: an expense-sharing ledger and
//! settlement engine, together with the domain model of the surrounding
//! backend (users, groups, chores, calendar).
//!
//! The heart of the crate is the expense engine: splitting an expense into
//! per-participant shares under a chosen policy, aggregating expenses,
//! shares and payments into net balances per user, and reducing those
//! balances to a small set of settling transfers. All amounts are integer
//! minor units (cents), with a one-cent tolerance wherever the ledger
//! compares sums.

pub mod money;
pub mod ids;
pub mod expense;
pub mod util;
pub mod text;
pub mod split;
pub mod balance;
pub mod debt;
pub mod persistence;
pub mod settlement;
pub mod service;
pub mod groups;
pub mod chores;
pub mod calendar;
pub mod config;
pub mod crypto;
pub mod auth;
pub mod jwt;
