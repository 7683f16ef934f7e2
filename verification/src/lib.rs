//! Core logic of a minimal single-wallet service: deterministic key
//! bootstrap, reconciliation of persisted wallet state with a remote
//! chain source, read projections (balance, address, transaction list),
//! and the build-sign-broadcast-persist sequencing of a spend.

pub mod num;
pub mod seed;
pub mod spend;
pub mod state;
pub mod view;
