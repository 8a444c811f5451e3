//! The driver layer of the Concrete toolchain as a verified library: diagnostics
//! for parse failures, assembly of the module tree across files, resolution of
//! the dependency graph, and the plan of a build.
//!
//! Everything that touches the file system, the network or the native back end
//! is left to the caller. Where outside work and decisions alternate, the
//! decisions are a step function from a state and an event to the next state
//! and the action to perform.

pub mod text;
pub mod paths;
pub mod ast;
pub mod compile_unit_info;
pub mod parser;
pub mod driver;
