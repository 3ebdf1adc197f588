//! A compiler for Hopperscript, a small text language for Hopscotch projects.
//!
//! The library parses Hopperscript source into scripts, resolves them against
//! block and object data, and builds the Hopscotch project structure.

pub mod text;
pub mod types;
pub mod ast;
pub mod utils;
pub mod ids;
pub mod generator;
pub mod generator_laws;
pub mod getdata;
pub mod typess;
pub mod define;
pub mod compiler;
