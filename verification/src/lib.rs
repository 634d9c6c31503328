//! Governance/economy engine: an append-only, balance-consistent transfer
//! ledger, a currency-weighted motion voting engine, a passive-income
//! generator serialized by a single control value, and a checksum codec for
//! public identifiers.

pub mod damm;
pub mod engine;
pub mod errors;
pub mod history;
pub mod ledger;
pub mod listing;
pub mod text;
pub mod token;
