//! Analysis core of a language server for LaTeX and BibTeX sources.
//!
//! The crate resolves a cursor position inside a concrete syntax tree into a
//! typed context and runs completion and rename providers over that context.
//!
//! * [`syntax`] holds the untyped tree, its builder, the kinds of the two
//!   grammars with their typed node views, and the character stream.
//! * [`line_index`] converts between byte offsets and line/column positions.
//! * [`workspace`] pairs a text with its tree and groups related documents.
//! * [`features`] resolves the cursor and holds the completion providers,
//!   the completion entry point and the rename engine.
//! * [`completion`] finds the text being typed at the cursor, offers command
//!   symbols and orders the merged candidates by quality.
//! * [`component_db`] and [`edit`] are the plain data that goes in and out.
//!
//! Everything is proved against the contract written next to it, with two
//! exceptions whose contracts are assumed: the lowercase form of a text in
//! [`strings`] and the cancellation token in [`cancel`].
//! Functions that take a tree, a document or a context require it to be well
//! formed; the constructors of these types establish that.

pub mod cancel;
pub mod completion;
pub mod component_db;
pub mod edit;
pub mod features;
pub mod line_index;
pub mod strings;
pub mod syntax;
pub mod workspace;
