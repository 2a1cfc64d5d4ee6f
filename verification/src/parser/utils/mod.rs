//! Checks and extractors over parsed blocks and their content.

pub mod extractors;
pub mod validators;
