//! Translation-request adapter for a chat-completion provider.
//!
//! The crate covers the two stateful parts of such an adapter: a file-backed
//! access-token cache with time-based expiry, and a templated request builder
//! that validates caller parameters, substitutes placeholders into a prompt
//! template, and assembles the provider payload as JSON text.  All logic is
//! pure: reading the cache file, the clock, and the network are left to the
//! host, which hands plain values in and takes plain values back.

pub mod builder;
pub mod cache;
pub mod decimal;
pub mod errors;
pub mod json;
pub mod payload;
pub mod response;
pub mod subst;
pub mod template;
pub mod text;
