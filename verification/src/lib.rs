//! MOM: an event-sourced memory kernel and retrieval engine for autonomous
//! agents.
//!
//! `kernel` is the stable data model; `handlers`, `recall` and `ranking` hold
//! the service's request rules, lexical recall and result ordering;
//! `surreal` maps kernel items to SurrealDB rows and statements; `memory`,
//! `store`, `server` and `error` make up the single-process server; `text`
//! holds the character-level helpers that the others are stated with.

pub mod error;
pub mod handlers;
pub mod kernel;
pub mod memory;
pub mod ranking;
pub mod recall;
pub mod server;
pub mod service;
pub mod store;
pub mod surreal;
pub mod text;

pub use error::MomError;
pub use server::{Citation, ContextPack};
