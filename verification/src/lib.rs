//! Lowering of a small imperative language's syntax tree into a single-entry,
//! single-basic-block SSA function body, built through a native backend's
//! function builder.

pub mod ast;
pub mod backend;
pub mod emit;
pub mod ir;
pub mod parser;
pub mod token;
