//! Editor features: resolving the cursor, completion and rename.

pub mod completion;
pub mod cursor;
pub mod rename;
