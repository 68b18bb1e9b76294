//! The resolution automaton: a trie over words whose leaves name operations.

pub mod automaton;
pub mod laws;
pub mod linear_automaton;
pub mod state;
