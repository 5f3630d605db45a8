//! The core of a small DNS responder that answers address queries from three
//! tiers, in strict order: an in-memory cache whose entries expire, a list of
//! local records (host overrides and sinkholes), and an upstream resolver.
//!
//! Everything in this crate is sequential and takes the time as a plain
//! number of milliseconds, so that each rule can be stated and proved. The
//! program around it owns the sockets, the resolver client and the lock that
//! guards the cache.

pub mod cache;
pub mod checker;
pub mod clock;
pub mod domain;
pub mod handler;
pub mod hosts;
pub mod record;
pub mod text;
