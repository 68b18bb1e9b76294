//! What a program does when it runs: the activeness of actions, the
//! built-in operations, and the events that call operations.

pub mod activeness;
pub mod arithmetic;
pub mod component;
pub mod events;
pub mod operations;

pub use events::{Event, Operation, Operations};
