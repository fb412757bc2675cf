//! Request correlation and retry core of a stateful binary-protocol client.
//!
//! A [`registry::Registry`] tracks logical operations, each of which may have
//! several wire requests outstanding. Inbound packages are matched to the
//! request that caused them by correlation id, and the owning operation is
//! driven through failure, retry or normal reception. Every bookkeeping
//! structure carries a well-formedness predicate that all functions preserve.

pub mod buffer;
pub mod command;
pub mod dispatch;
pub mod ident;
pub mod model;
pub mod operations;
pub mod package;
pub mod registry;
pub mod requests;
pub mod session;
pub mod tracking;
