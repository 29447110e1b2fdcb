//! Core of a cross-channel translation relay: a set of chat channels, each
//! bound to a language, mirrors one logical conversation. Given an inbound
//! event on one channel, the library decides which sibling channels receive a
//! translated counterpart, keeps the durable origin/mirror mapping that later
//! edits and deletions need, and protects non-translatable spans (URLs)
//! across the translation round trip.
//!
//! All decisions and store mutations are verified; the network edges
//! (translation provider, chat platform, relational store) are driven by an
//! unverified shell that performs the actions this library plans.

pub mod codec;
pub mod codec_laws;
pub mod error;
pub mod handler;
pub mod intermediate;
pub mod lang;
pub mod registry;
pub mod relay;
pub mod store;
pub mod text;
pub mod threads;
pub mod webhook;
