//! Parsers for the individual block types of the bracket syntax.

pub mod tagged;
pub mod typed;
pub mod communication_blocks;
pub mod control_blocks;
pub mod data_blocks;
pub mod executable_blocks;
pub mod template_blocks;
pub mod results_blocks;
