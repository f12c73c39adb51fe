//! Action search and ranking engine for a desktop launcher.
//!
//! The engine discovers candidate actions (programs on `PATH`, desktop
//! entries, builtin web handlers, browser history pages), keeps an
//! append-only execution ledger, and ranks candidates against a free-text
//! query with a multi-tier exact/prefix/substring/fuzzy matcher blended
//! with a time-decayed popularity score.
//!
//! Everything that computes lives here and is verified; reading the
//! filesystem, SQLite persistence and process spawning are left to the
//! surrounding application, which hands plain values in and out.

pub mod text;
pub mod matching;
pub mod store;
pub mod score;
pub mod rank;
pub mod handlers;
pub mod history;
pub mod scan;
pub mod urls;
pub mod dynamic;
pub mod actions;
pub mod config;
pub mod commands;
pub mod conversation;
pub mod outside;
