//! A compiler for declarations of command-line tools.
//!
//! A tool is declared as data: its name, version and author, a tree of commands, and
//! typed arguments for each command. `compile` walks such a declaration and either
//! returns its command tree, with every type tag resolved to a rule, or every problem
//! that the declaration has, each with its place, in the order of the walk.
//! `generate_tool` turns a command tree into a `clap` parser.

pub mod compiler;
pub mod diagnostic;
pub mod engine;
pub mod laws;
pub mod names;
pub mod notation;
pub mod order;
pub mod path;
pub mod registry;
pub mod rules;
pub mod schema;
pub mod tree;
pub mod validate;
pub mod walk;

pub use compiler::compile;
pub use compiler::diagnose;
pub use compiler::CompilationFailed;
pub use diagnostic::Diagnostic;
pub use diagnostic::DiagnosticKind;
pub use diagnostic::Diagnostics;
pub use engine::generate_tool;
pub use path::Path;
pub use path::Segment;
pub use registry::resolve;
pub use registry::TypeRule;
pub use registry::UnknownType;
pub use schema::ArgumentSpec;
pub use schema::CommandSpec;
pub use schema::ToolSpec;
pub use tree::CommandTree;
pub use tree::CompiledArgument;
pub use tree::CompiledCommand;
