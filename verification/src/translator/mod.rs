//! From the text of a program to its operations and actions: the syntax
//! tree and what it stands for, the words of the language, the resolution
//! automaton, the inference of operand types and the loading of
//! declarations and definitions.

pub mod automata;
pub mod builtins;
pub mod component_class;
pub mod constraint_laws;
pub mod file_manager;
pub mod loading;
pub mod parsing;
pub mod reading;
pub mod syntax;
pub mod translation;
pub mod tree;
pub mod type_constraints;
pub mod type_inference;
pub mod words;

pub use translation::Translator;
pub use words::{get_bounded_value, Sequence, SequenceValue, Word, WordView};
