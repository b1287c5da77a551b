//! The evaluator: what running a program computes and changes.
pub mod artifacts;
pub mod calls;
pub mod collections;
pub mod expressions;
pub mod oracles;
pub mod result;
pub mod stacks;
pub mod statements;
pub mod values;

pub use result::{EvalError, EvalResult};

