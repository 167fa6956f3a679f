//! Opcodes understood by each component.
pub mod coms;
pub mod dfgm;
