//! A small scripting language for time-triggered video edits: the reading of
//! programs, the resolution automaton, the type-constraint engine, the
//! execution runtime and the drawing on pictures.

pub mod action;
pub mod context;
pub mod error;
pub mod event;
pub mod schedule;
pub mod text;
pub mod translator;
pub mod variable;
pub mod video;
