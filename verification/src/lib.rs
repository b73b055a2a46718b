//! Settings and localization state manager.
//!
//! The crate owns a single user-settings record persisted as a text
//! document, and a selectable localization catalog with a bounded fallback
//! chain. All parsing, serialization, fallback resolution and state
//! transitions are verified; the surrounding process does the file reads
//! and writes and hands this crate plain values.

pub mod assoc;
pub mod catalog;
pub mod json;
pub mod language;
pub mod paths;
pub mod settings;
pub mod state;
pub mod text;
