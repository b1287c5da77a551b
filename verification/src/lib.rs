use vstd::prelude::*;

pub mod analysis;
pub mod ast;
pub mod diagnostics;
pub mod env;
pub mod eval;
pub mod parser;
pub mod playground;
pub mod report;
pub mod semantic;
pub mod stdlib;
pub mod text;
pub mod types;
