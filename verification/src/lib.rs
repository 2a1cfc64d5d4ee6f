//! Parsing and execution support for the Meta Programming Language, a
//! document format that embeds code, data and AI interactions in blocks.

pub mod text;
pub mod text_map;
pub mod parser;
pub mod executor;
pub mod llm_client;
pub mod file_watcher;
