//! Descriptions of command-line configuration options: the domain of values
//! each option accepts, how that domain reads in prose, the usage fragment a
//! command line shows for it, and a reflowed markdown entry for a reference
//! document.
pub mod definition;
pub mod definitions;
pub mod text;
pub mod type_def;
pub mod usage;
pub mod wrap;

pub use definition::{BuildError, Definition, DefinitionBuilder};
pub use definitions::init_definitions;
pub use type_def::TypeDef;
