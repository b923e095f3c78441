//! XLuau: a Luau superset that lowers to readable Luau.

pub mod ast;
pub mod compiler;
pub mod document;
pub mod editor;
pub mod emitter;
pub mod formatter;
pub mod invocation;
pub mod parser;
pub mod server;
pub mod text;
pub mod tooling;
