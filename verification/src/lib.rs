//! Secure calendar synchronization library.
//!
//! The library encrypts OAuth credentials with an authenticated cipher
//! (`vault`), persists calendar accounts and their events in a keyed local
//! store (`store`), builds the provider's authorization and query URLs
//! (`oauth`), normalizes remote calendar items into the local event schema
//! (`remote`), and reconciles fetched events idempotently (`engine`).
//! Time-block helpers used by the surrounding application live in `models`.

pub mod encoding;
pub mod engine;
pub mod errors;
pub mod jsonval;
pub mod models;
pub mod oauth;
pub mod remote;
pub mod services;
pub mod store;
pub mod vault;

use vstd::prelude::*;

verus! {

} // verus!
