//! A desktop application launcher library.
//!
//! Discovers desktop-entry descriptor files, parses their `Name=` and
//! `Exec=` keys, strips placeholder tokens from launch commands, and keeps
//! the resulting entries in a registry keyed by composed display name.
//! All text is handled as UTF-8 byte strings.

pub mod choice;
pub mod config;
pub mod entry;
pub mod launch;
pub mod placeholders;
pub mod registry;
pub mod scan;
pub mod text;
