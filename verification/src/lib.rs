//! OAuth2 authorization-code token lifecycle for a desktop music client.
//!
//! The crate covers the three pieces every privileged API call depends on:
//! capturing the authorization-server redirect on a local port and parsing
//! the authorization code out of it, persisting and validating the cached
//! token record, and the state machine that coordinates
//! "read cache, validate, refresh, interactive re-auth, persist".
//!
//! Network and file I/O stay with the embedding application; this crate
//! holds the decisions, the parsers and the persistence format.

pub mod codec;
pub mod errors;
pub mod flow;
pub mod http;
pub mod manager;
pub mod store;
pub mod text;
pub mod token;
