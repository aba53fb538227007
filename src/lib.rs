//! RGB20: fungible-asset contract schemata and the logic built on them.
//!
//! - [`schema`] and [`catalog`]: the type vocabulary, the three schema
//!   variants and the check that a variant legally restricts the root schema;
//! - [`asset`]: projection of a cached asset view from genesis and the
//!   accepted state transitions;
//! - [`nomination`]: the asset's nomination and its chain of renominations;
//! - [`transitions`]: drafting of secondary issuance and transfer transitions.

pub mod asset;
pub mod catalog;
pub mod cli;
pub mod contract;
pub mod nomination;
pub mod schema;
pub mod transitions;

pub use asset::Asset;
pub use contract::Error;
