//! An authentication and token-lifecycle core: credential verification,
//! issuance and refresh of access tokens, revocation by token id, and the
//! propagation of account-creation events.
//!
//! The core's collaborators — user store, token cache, password hasher,
//! token codec, event publisher — are components of this crate, and every
//! flow is specified and verified over their models. Outside code is
//! confined to narrow capabilities: the HMAC signature, the password hash,
//! id generation and parsing, email validation and timestamp parsing.

pub mod auth;
pub mod b64;
pub mod cache;
pub mod config;
pub mod entity;
pub mod errors;
pub mod events;
pub mod hasher;
pub mod ids;
pub mod json;
pub mod jwt;
pub mod middleware;
pub mod response;
pub mod store;
pub mod strutil;
pub mod user;
pub mod user_use_case;
pub mod validate;
