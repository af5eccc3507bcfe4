//! Small text utilities: joining a list of names into a sentence fragment
//! with the oxford comma, and trimming a line of input.

/// String extensions.
pub mod string_ext;
