//! Composite font rules: character classes, per-class font profiles, the
//! control-text tags that apply them, and the bookkeeping around them.
pub mod classify;
pub mod codepoint;
pub mod text;
pub mod control_text;
pub mod fallback;
pub mod profile;
pub mod document;
pub mod editor;
pub mod runs;
pub mod decorate;
pub mod staging;
pub mod coverage;
pub mod layout;
