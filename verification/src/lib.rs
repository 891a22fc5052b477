//! Block-watermark crawler: watches a chain for new blocks, finds the
//! transactions sent from registered wallets and decides when the persisted
//! progress cursor, the watermark, may move.
//!
//! The crate holds the decisions and leaves the waiting to its caller: the
//! caller sends requests, reads and writes the store, spawns and joins
//! workers, and hands what came back to the functions here. Those are
//! verified with Verus against the contracts they carry. What is taken on
//! trust is little and marked: the calls into `serde_json` in [`json`], the
//! lower case of Unicode from the standard library in [`text`], and the
//! random identifier of a new user in [`user`].
//!
//! - [`partition`] splits a gap into ranges for the workers.
//! - [`scheduler`] plans a catch-up run and rules on its outcome.
//! - [`watermark`] keeps the watermarks, which never move back.
//! - [`crawler`] is one tick of the loop, from chain head to watermark.
//! - [`chain`] writes requests to the endpoint and reads its answers.
//! - [`processor`] finds the transactions of registered wallets.
//! - [`address`] gives every address its canonical form.
//! - [`network`], [`wallet`], [`user`] are the records kept.
//! - [`database`] and [`mail`] interpret the store and write notifications.

pub mod address;
pub mod chain;
pub mod crawler;
pub mod database;
pub mod error;
pub mod json;
pub mod mail;
pub mod network;
pub mod partition;
pub mod processor;
pub mod scheduler;
pub mod text;
pub mod user;
pub mod wallet;
pub mod watermark;
