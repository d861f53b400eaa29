//! Completion providers for LaTeX documents.

pub mod command_symbol;
