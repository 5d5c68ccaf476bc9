//! Incremental synchronization engine of a custodial shielded wallet.
//!
//! The engine scans a public block stream in bounded, resumable batches
//! (`scan`, `engine`), persists what trial decryption found together with
//! tree checkpoints into the per-account embedded store (`store`), rebuilds
//! that store when its tree history conflicts (`recovery`), projects it
//! idempotently into the shared relational store (`mirror`), and proposes
//! payments from the notes it holds (`selection`, `proposal`, `broadcast`).

pub mod auth;
pub mod broadcast;
pub mod cache;
pub mod config;
pub mod engine;
pub mod mirror;
pub mod proposal;
pub mod recovery;
pub mod scan;
pub mod selection;
pub mod store;
