//! The preference data layer: a typed schema (which preferences exist, their type, default and
//! range), the in-memory document with a read API and a set seam that reports what changed,
//! and the store's document logic.
//!
//! Preferences are read-only to apps by contract: authority to change one lives with the user,
//! and every change goes through the single validated write path here.
pub mod error;
pub mod schema;
pub mod document;
pub mod store;
