//! A small registry of installed web browsers, the icon assets attached to
//! them, and the decisions behind registering this program as the operating
//! system's default handler for web links.
//!
//! The registry is an in-memory document with write-through persistence: the
//! caller loads the configuration document once, mutates it through
//! [`registry::Registry`], and rewrites the document (and any icon files the
//! returned effects name) after each successful mutation.

pub mod b64;
pub mod error;
pub mod handler;
pub mod icons;
pub mod json;
pub mod json_laws;
pub mod launch;
pub mod ident;
pub mod model;
pub mod registry;
pub mod text;
