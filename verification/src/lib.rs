//! A command-line credential manager for OpenID Connect: it obtains, caches,
//! and refreshes Bearer tokens for named client configurations.
//!
//! This crate holds the token-lifecycle engine, the callback-channel state
//! machine of the local authorization listener, the unverified claims decoder,
//! and the persisted form of the cached client state. The surrounding binary
//! performs the actual network exchanges and file handling; it feeds plain
//! values into the functions here and acts on the decisions they return.

pub mod claims;
pub mod cli;
pub mod codec;
pub mod config;
pub mod error;
pub mod flow;
pub mod http;
pub mod oidc;
pub mod server;
pub mod utils;
