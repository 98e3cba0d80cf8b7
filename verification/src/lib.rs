//! Core engine of an e-commerce backend: turns a shopping-cart request into a
//! pending order with a priced, signed payment-gateway session, and reconciles
//! asynchronous, possibly duplicated payment callbacks back into authoritative
//! order and stock state.
//!
//! The persistent store and the inventory ledger are modelled as in-memory
//! values with explicit invariants; the caller owns transport, persistence and
//! the actual HTTP exchange with the payment provider.

pub mod auth;
pub mod callback;
pub mod catalog;
pub mod checkout;
pub mod config;
pub mod errors;
pub mod flitt;
pub mod ledger;
pub mod money;
pub mod orders;
pub mod store;
pub mod text;
