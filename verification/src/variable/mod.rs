//! Values, their types, and the scoped variable stack.

pub mod stack;
pub mod types;
pub mod values;
pub mod variables;

pub use variables::{Variable, VariableLocation};
