//! Reconciliation core of a synchronised per-extension key/value store.
//!
//! Every extension owns one small JSON object. A remote server keeps the
//! authoritative copy; this crate reconciles a batch of incoming server
//! records against the local rows and the mirror of the last known server
//! state, plans one action per record, applies the actions atomically, and
//! then says what has to be uploaded and how the books are kept once the
//! server has confirmed the upload.
//!
//! The tables live in memory, in a [`store::Store`]; reading them from a
//! database and writing them back is left to the caller, as are the signal
//! that cancels a batch, the source of new identifiers, and the transport.
//!
//! - [`json`] and [`merge`]: JSON objects and their three-way merge.
//! - [`rows`], [`tables`], [`store`]: the data, its mathematical picture, and
//!   transactions.
//! - [`incoming`], [`outgoing`], [`sync`]: the steps of a sync cycle.
//! - [`lookup`], [`laws`]: what is proved of the cycle as a whole.
//! - [`attached_client`]: the account's list of attached clients, cached.
pub mod error;
pub mod signal;
pub mod json;
pub mod payload;
pub mod merge;
pub mod rows;
pub mod tables;
pub mod store;
pub mod incoming;
pub mod outgoing;
pub mod sync;
pub mod lookup;
pub mod laws;
pub mod attached_client;
