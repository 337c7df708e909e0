//! Core of a short-link redirect service: a verified synchronization pipeline
//! that fetches a redirect configuration, validates it, reconciles DNS state,
//! and atomically swaps the live redirect table.

pub mod config;
pub mod dns;
pub mod github_event;
pub mod report;
pub mod rules;
pub mod sync;
pub mod table;
pub mod text;
pub mod verify;
