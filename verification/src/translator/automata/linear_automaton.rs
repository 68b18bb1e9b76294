use crate::translator::words::{SequenceValue, Word};
use vstd::prelude::*;

verus! {

/// One straight-line sequence and what it resolves to.
pub struct LinearAutomaton {
    pub transitions: Vec<Word>,
    pub return_value: Option<SequenceValue>,
}

impl LinearAutomaton {
    /// The sequence `transitions`, resolving to `return_value`.
    pub fn new(transitions: Vec<Word>, return_value: SequenceValue) -> (r: Self)
        ensures
            r.transitions == transitions,
            r.return_value == Some(return_value),
    {
        Self { transitions, return_value: Some(return_value) }
    }

    /// A copy of the sequence `v`, resolving to nothing yet.
    pub fn from(v: &Vec<Word>) -> (r: Self)
        ensures
            r.transitions@ == v@,
            r.return_value is None,
    {
        let transitions = v.clone();
        assert(transitions@ =~= v@);
        Self { transitions, return_value: None }
    }

    /// Sets what the sequence resolves to.
    pub fn returning(&mut self, r: SequenceValue)
        ensures
            final(self).transitions == old(self).transitions,
            final(self).return_value == Some(r),
    {
        self.return_value = Some(r);
    }
}

} // verus!
