//! Lowering stage of a language toolchain: converts a parsed syntax tree into
//! an intermediate representation, resolving variable bindings, expanding
//! object-message sends, resolving cross-module imports with cycle protection,
//! and accumulating diagnostics without aborting on the first error.

pub mod builder;
pub mod config;
pub mod diagnostics;
pub mod expression;
pub mod module;
pub mod node;
pub mod registry;
pub mod source;
pub mod text;
pub mod timer;
pub mod variable;
