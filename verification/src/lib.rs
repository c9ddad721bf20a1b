//! Wire protocol, cryptography and replay protection of a censorship-resistant
//! proxy that relays encrypted traffic through serverless functions.

pub mod error;
pub mod wire;
pub mod text;
pub mod address;
pub mod compression;
pub mod message;
pub mod crypto;
pub mod nonce;
pub mod server;
pub mod lambda;
pub mod batch;
pub mod client;
pub mod keys;
pub mod connections;
pub mod session;
