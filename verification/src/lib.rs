//! Core logic of a webmail gateway: credential bridge, session cache,
//! mailbox synchronization engine, and outbound delivery pipeline.
//!
//! Remote protocol work (IMAP/SMTP/DNS round trips) is driven by the
//! surrounding application; this crate holds the verified decision and
//! reconciliation logic, fed with plain values describing remote outcomes.

pub mod auth;
pub mod bimi;
pub mod clock;
pub mod config;
pub mod delivery;
pub mod engine;
pub mod errors;
pub mod models;
pub mod sync;
pub mod text;
pub mod session;
pub mod token;
