//! Verified core of a two-player CTF arena: player admission against a
//! database of credential hashes, the Telegram lobby's replies, the HTTP
//! replies, and the plans for the Docker arena.

pub mod text;
pub mod digest;
pub mod hashdb;
pub mod roster;
pub mod auth;
pub mod lobby;
pub mod core_api;
pub mod arena;
pub mod build_context;
pub mod network;
