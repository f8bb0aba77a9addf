//! A hierarchical command-grammar matcher: resolves an input line against
//! registered commands, each described by a tree of typed argument nodes.
pub mod text;
pub mod value;
pub mod node;
pub mod command;
