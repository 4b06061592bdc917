//! Credential-pool control plane for an authenticating reverse proxy.
//!
//! The crate models and verifies the credential lifecycle engine: the
//! in-memory credential manager with its per-model ready queues, the
//! single-writer coordinator that serialises every queue and state
//! mutation, the persistent credential store, and the classification
//! rules by which upstream outcomes feed back into credential health.

pub mod auth;
pub mod cli;
pub mod coordinator;
pub mod credentials;
pub mod errors;
pub mod laws;
pub mod manager;
pub mod jwt;
pub mod loader;
pub mod models;
pub mod refresh;
pub mod request;
pub mod seqs;
pub mod store;
pub mod text;

use vstd::prelude::*;

verus! {

/// Stable numeric identity a credential receives on first persistence.
pub type CredentialId = i64;

} // verus!
