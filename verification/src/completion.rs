//! Stages of the completion pipeline that work on the merged candidate list.

pub mod latex;
pub mod quality;
pub mod query;
