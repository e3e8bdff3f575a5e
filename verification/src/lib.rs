//! Core of a recording watcher: it decides which freshly discovered audio
//! files still need transcription or format conversion, and never hands the
//! same work out twice within a process run.

pub mod classify;
pub mod consumer;
pub mod dispatch;
pub mod ledger;
pub mod limiter;
pub mod names;
pub mod registry;
pub mod scanner;
pub mod store;
