//! Verified core of the agent marketplace: TLS record framing, DER certificate
//! walking, the zkTLS session checks and the in-memory index of on-chain events.

pub mod capture;
pub mod chain;
pub mod cli;
pub mod crypto;
pub mod der;
pub mod encoding;
pub mod http;
pub mod models;
pub mod prover;
pub mod record;
pub mod session;
pub mod spki;
pub mod store;
pub mod sync;
pub mod tls_record;
