//! Nova language toolchain core: type inference, type checking, syntax
//! preprocessing, formatting and the runtime's module and memory managers.
pub mod runtime;

pub mod infer;
pub mod syntax;
pub mod check;
pub mod formatter;
pub mod frontend;
pub mod doc;
pub mod project;
pub mod repl;
