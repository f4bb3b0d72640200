//! An encrypted, file-per-record document ledger and the transient relay
//! that lets two ledgers synchronise.

pub mod cache;
pub mod cipher;
pub mod document;
pub mod error;
pub mod ident;
pub mod json;
pub mod ledger;
pub mod ledger_dump;
pub mod merge;
pub mod names;
pub mod pull_stream;
pub mod relay;
pub mod revision;
pub mod root;
pub mod sdk;
pub mod shell;
pub mod token;
