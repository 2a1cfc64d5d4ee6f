//! Execution of documents: the state that execution keeps, the decisions it
//! makes and the document it writes back.

pub mod error;
pub mod state;
pub mod cache;
pub mod document;
pub mod reference_resolver;
pub mod resolver;
pub mod execution;
pub mod runners;
