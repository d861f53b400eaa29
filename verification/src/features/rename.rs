//! Rename providers.

pub mod command;
