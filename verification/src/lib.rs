//! Resource usage of Soroban contract calls: one sample per completed call,
//! samples kept per contract and function, descriptive statistics over them,
//! and each statistic held against the ledger's limits.

pub mod classify;
pub mod codec;
pub mod error;
pub mod keyed;
pub mod ledger;
pub mod report;
pub mod scval_tools;
pub mod session;
pub mod show;
pub mod statistics;
pub mod store;
pub mod strkey;
pub mod text;
pub mod wide;

pub use error::Error;
