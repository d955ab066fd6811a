//! Build-time style-sheet scoping: compile an extended preprocessor dialect
//! down to plain style rules, then rewrite every class selector into a
//! file-scoped name and report the mapping from original to scoped names.

pub mod compile;
pub mod pipeline;
pub mod scope_key;
pub mod scoper;
