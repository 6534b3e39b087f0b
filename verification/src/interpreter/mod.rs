//! From statements to a run.

pub mod interpreter;
pub mod laws;
pub mod semantics;
pub mod types;

pub use self::interpreter::{reads_input, Interpreter};
pub use self::types::{RuntimeTypes, Value};
