use crate::translator::automata::automaton::{Automaton, AutomatonView};
use crate::translator::automata::linear_automaton::LinearAutomaton;
use crate::translator::words::{sequence_view, SequenceValue, Word, WordView};
use crate::variable::types::VariableType;
use vstd::prelude::*;

verus! {

/// The number of built-in operations.
pub const BUILTIN_COUNT: usize = 13;

/// The word of a keyword.
pub fn keyword(text: &str) -> (r: Word)
    ensures
        r@ == WordView::Keyword(text@),
{
    Word::Keyword(text.to_owned())
}

/// The type of a collection of `t`.
pub fn collection_of(t: VariableType) -> (r: VariableType)
    ensures
        r == VariableType::Vec(Box::new(t)),
{
    VariableType::Vec(Box::new(t))
}

/// The words of a keyword.
pub open spec fn kw(text: Seq<char>) -> WordView {
    WordView::Keyword(text)
}

/// The word of a type.
pub open spec fn ty(t: VariableType) -> WordView {
    WordView::Type(t)
}

/// The sequence that the built-in operation `id` is called by.
pub open spec fn builtin_signature(id: int) -> Seq<WordView> {
    if id == 1 {
        // move pos
        seq![
            kw("restricted"@),
            kw("move"@),
            ty(VariableType::Pos),
            ty(VariableType::Direction),
            kw("by"@),
            ty(VariableType::Int),
        ]
    } else if id == 2 {
        // move pos phase
        seq![
            kw("move"@),
            ty(VariableType::Pos),
            ty(VariableType::Direction),
            kw("by"@),
            ty(VariableType::Int),
        ]
    } else if id == 3 {
        // draw rect outline
        seq![
            kw("draw"@),
            ty(VariableType::Color),
            kw("rectangle"@),
            kw("outline"@),
            kw("from"@),
            ty(VariableType::Pos),
            kw("to"@),
            ty(VariableType::Pos),
        ]
    } else if id == 4 {
        // activate
        seq![kw("activate"@), ty(VariableType::String)]
    } else if id == 5 {
        // deactivate
        seq![kw("deactivate"@), ty(VariableType::String)]
    } else if id == 6 {
        // set
        seq![kw("set"@), ty(VariableType::Any(1)), kw("to"@), ty(VariableType::Any(1))]
    } else if id == 7 {
        // rotate vector
        seq![
            kw("rotate"@),
            ty(VariableType::Vec(Box::new(VariableType::Any(1)))),
            ty(VariableType::Direction),
            kw("by"@),
            ty(VariableType::Int),
        ]
    } else if id == 8 {
        // top into
        seq![
            kw("top"@),
            ty(VariableType::Vec(Box::new(VariableType::Any(1)))),
            kw("into"@),
            ty(VariableType::Any(1)),
        ]
    } else if id == 9 {
        // add to
        seq![kw("add"@), ty(VariableType::Int), kw("to"@), ty(VariableType::Int)]
    } else if id == 10 {
        // draw rect
        seq![
            kw("draw"@),
            ty(VariableType::Color),
            kw("rectangle"@),
            kw("from"@),
            ty(VariableType::Pos),
            kw("to"@),
            ty(VariableType::Pos),
        ]
    } else if id == 11 {
        // draw effect rect
        seq![
            kw("draw"@),
            ty(VariableType::Effect),
            kw("rectangle"@),
            kw("from"@),
            ty(VariableType::Pos),
            kw("to"@),
            ty(VariableType::Pos),
        ]
    } else if id == 12 {
        // toggle activity
        seq![kw("toggle"@), ty(VariableType::String)]
    } else {
        // sub from
        seq![kw("sub"@), ty(VariableType::Int), kw("from"@), ty(VariableType::Int)]
    }
}

/// The automaton after the first `n` built-in operations were registered,
/// each under its id.
pub open spec fn with_builtins(a: AutomatonView, n: nat) -> AutomatonView
    decreases n,
{
    if n == 0 {
        a
    } else {
        with_builtins(a, (n - 1) as nat).unioned(
            builtin_signature(n as int),
            Some(SequenceValue::Operation(n as usize)),
        )
    }
}

/// The sequence that the built-in operation `id` is called by.
fn builtin_sequence(id: usize) -> (r: Vec<Word>)
    requires
        1 <= id <= BUILTIN_COUNT,
    ensures
        sequence_view(r@) == builtin_signature(id as int),
{
    let mut seq: Vec<Word> = Vec::new();
    if id == 1 {
        seq.push(keyword("restricted"));
        seq.push(keyword("move"));
        seq.push(Word::Type(VariableType::Pos));
        seq.push(Word::Type(VariableType::Direction));
        seq.push(keyword("by"));
        seq.push(Word::Type(VariableType::Int));
    } else if id == 2 {
        seq.push(keyword("move"));
        seq.push(Word::Type(VariableType::Pos));
        seq.push(Word::Type(VariableType::Direction));
        seq.push(keyword("by"));
        seq.push(Word::Type(VariableType::Int));
    } else if id == 3 {
        seq.push(keyword("draw"));
        seq.push(Word::Type(VariableType::Color));
        seq.push(keyword("rectangle"));
        seq.push(keyword("outline"));
        seq.push(keyword("from"));
        seq.push(Word::Type(VariableType::Pos));
        seq.push(keyword("to"));
        seq.push(Word::Type(VariableType::Pos));
    } else if id == 4 {
        seq.push(keyword("activate"));
        seq.push(Word::Type(VariableType::String));
    } else if id == 5 {
        seq.push(keyword("deactivate"));
        seq.push(Word::Type(VariableType::String));
    } else if id == 6 {
        seq.push(keyword("set"));
        seq.push(Word::Type(VariableType::Any(1)));
        seq.push(keyword("to"));
        seq.push(Word::Type(VariableType::Any(1)));
    } else if id == 7 {
        seq.push(keyword("rotate"));
        seq.push(Word::Type(collection_of(VariableType::Any(1))));
        seq.push(Word::Type(VariableType::Direction));
        seq.push(keyword("by"));
        seq.push(Word::Type(VariableType::Int));
    } else if id == 8 {
        seq.push(keyword("top"));
        seq.push(Word::Type(collection_of(VariableType::Any(1))));
        seq.push(keyword("into"));
        seq.push(Word::Type(VariableType::Any(1)));
    } else if id == 9 {
        seq.push(keyword("add"));
        seq.push(Word::Type(VariableType::Int));
        seq.push(keyword("to"));
        seq.push(Word::Type(VariableType::Int));
    } else if id == 10 {
        seq.push(keyword("draw"));
        seq.push(Word::Type(VariableType::Color));
        seq.push(keyword("rectangle"));
        seq.push(keyword("from"));
        seq.push(Word::Type(VariableType::Pos));
        seq.push(keyword("to"));
        seq.push(Word::Type(VariableType::Pos));
    } else if id == 11 {
        seq.push(keyword("draw"));
        seq.push(Word::Type(VariableType::Effect));
        seq.push(keyword("rectangle"));
        seq.push(keyword("from"));
        seq.push(Word::Type(VariableType::Pos));
        seq.push(keyword("to"));
        seq.push(Word::Type(VariableType::Pos));
    } else if id == 12 {
        seq.push(keyword("toggle"));
        seq.push(Word::Type(VariableType::String));
    } else {
        seq.push(keyword("sub"));
        seq.push(Word::Type(VariableType::Int));
        seq.push(keyword("from"));
        seq.push(Word::Type(VariableType::Int));
    }
    assert(sequence_view(seq@) =~= builtin_signature(id as int));
    seq
}

/// Registers the built-in operations in the automaton, each under its id,
/// and returns how many there are: every id up to that number names a
/// built-in operation.
pub fn load_builtin_operations(aut: &mut Automaton) -> (r: usize)
    requires
        old(aut)@.wf(),
    ensures
        r == BUILTIN_COUNT,
        final(aut)@.wf(),
        final(aut)@ == with_builtins(old(aut)@, BUILTIN_COUNT as nat),
{
    let mut id: usize = 1;
    while id <= BUILTIN_COUNT
        invariant
            1 <= id <= BUILTIN_COUNT + 1,
            aut@.wf(),
            aut@ == with_builtins(old(aut)@, (id - 1) as nat),
        decreases BUILTIN_COUNT + 1 - id,
    {
        let la = LinearAutomaton::new(builtin_sequence(id), SequenceValue::Operation(id));
        aut.union(la);
        id += 1;
    }
    BUILTIN_COUNT
}

} // verus!
