use crate::variable::types::VariableType;
use vstd::prelude::*;

verus! {

/// A label of an automaton edge and a token of a sequence: a keyword, or the
/// type of an argument.
#[derive(Debug, Hash, Eq)]
pub enum Word {
    Keyword(String),
    Type(VariableType),
}

/// What a word is to the contracts: a keyword is the sequence of its
/// characters.
pub enum WordView {
    Keyword(Seq<char>),
    Type(VariableType),
}

impl View for Word {
    type V = WordView;

    open spec fn view(&self) -> WordView {
        match self {
            Word::Keyword(k) => WordView::Keyword(k@),
            Word::Type(t) => WordView::Type(*t),
        }
    }
}

/// A sequence of words.
pub type Sequence = Vec<Word>;

/// The views of the words of a sequence.
pub open spec fn sequence_view(s: Seq<Word>) -> Seq<WordView> {
    s.map_values(|w: Word| w@)
}

impl WordView {
    pub open spec fn is_type(self) -> bool {
        self is Type
    }

    pub open spec fn ambiguous(self) -> bool {
        match self {
            WordView::Type(vt) => vt.ambiguous(),
            _ => false,
        }
    }

    pub open spec fn binding(self) -> Option<usize> {
        match self {
            WordView::Type(vt) => vt.binding(),
            _ => None,
        }
    }

    pub open spec fn variable_type(self) -> Option<VariableType> {
        match self {
            WordView::Type(vt) => Some(vt),
            _ => None,
        }
    }

    /// The equality that `==` computes on words: the same keyword, or
    /// loosely equal types.
    pub open spec fn loosely_equal(self, other: WordView) -> bool {
        match (self, other) {
            (WordView::Keyword(a), WordView::Keyword(b)) => a == b,
            (WordView::Type(a), WordView::Type(b)) => a.loosely_equal(b),
            _ => false,
        }
    }
}

impl Word {
    pub fn is_type(&self) -> (r: bool)
        ensures
            r == self@.is_type(),
    {
        match self {
            Word::Type(_) => true,
            _ => false,
        }
    }

    pub fn is_ambiguous(&self) -> (r: bool)
        ensures
            r == self@.ambiguous(),
    {
        match self {
            Word::Type(vt) => vt.is_ambiguous(),
            _ => false,
        }
    }

    pub fn get_binding(&self) -> (r: Option<usize>)
        ensures
            r == self@.binding(),
    {
        match self {
            Word::Type(vt) => vt.get_binding(),
            _ => None,
        }
    }

    pub fn get_variable_type(&self) -> (r: Option<VariableType>)
        ensures
            r == self@.variable_type(),
    {
        match self {
            Word::Type(vt) => Some(vt.clone()),
            _ => None,
        }
    }

    /// Whether the two words are the same: the same keyword, or the same
    /// type with the same binding.
    pub fn strictly_matches(&self, other: &Self) -> (r: bool)
        ensures
            r == (self@ == other@),
    {
        match (self, other) {
            (Word::Keyword(a), Word::Keyword(b)) => *a == *b,
            (Word::Type(a), Word::Type(b)) => a.strictly_matches(b),
            _ => false,
        }
    }
}

impl Clone for Word {
    fn clone(&self) -> (r: Self)
        ensures
            r == *self,
    {
        match self {
            Word::Keyword(k) => Word::Keyword(k.clone()),
            Word::Type(t) => Word::Type(t.clone()),
        }
    }
}

impl PartialEq for Word {
    fn eq(&self, other: &Self) -> (r: bool) {
        match (self, other) {
            (Word::Keyword(a), Word::Keyword(b)) => *a == *b,
            (Word::Type(a), Word::Type(b)) => a.loosely_matches(b),
            _ => false,
        }
    }
}

impl vstd::std_specs::cmp::PartialEqSpecImpl for Word {
    open spec fn obeys_eq_spec() -> bool {
        true
    }

    open spec fn eq_spec(&self, other: &Self) -> bool {
        self@.loosely_equal(other@)
    }
}

/// What a sequence resolves to.
#[derive(Clone, Copy, PartialEq, Eq, Debug, Structural)]
pub enum SequenceValue {
    Operation(usize),
    Component(usize),
    Value(usize),
}

/// The binding of an ambiguous type and the part of `parsed` that stands
/// where its placeholder stands.
pub open spec fn bounded_value(ambiguous: VariableType, parsed: VariableType) -> (
    usize,
    VariableType,
)
    decreases ambiguous,
{
    match ambiguous {
        VariableType::Any(binding) => (binding, parsed),
        VariableType::Vec(a) => match parsed {
            VariableType::Vec(p) => bounded_value(*a, *p),
            _ => (0, parsed),
        },
        _ => (0, parsed),
    }
}

/// Whether `parsed` has a part that stands where the placeholder of
/// `ambiguous` stands.
pub open spec fn binds(ambiguous: VariableType, parsed: VariableType) -> bool {
    ambiguous.ambiguous() && ambiguous.depth() <= parsed.depth()
}

/// The binding of the ambiguous word and the part of the parsed word that its
/// placeholder stands for:
/// Any(1) against Int -> (1, Int)
/// [Any(2)] against [[Pos]] -> (2, [Pos])
pub fn get_bounded_value(ambiguous_word: &Word, parsed_word: &Word) -> (r: (usize, Word))
    requires
        ambiguous_word@ is Type,
        parsed_word@ is Type,
        binds(ambiguous_word@->Type_0, parsed_word@->Type_0),
    ensures
        r.0 == bounded_value(ambiguous_word@->Type_0, parsed_word@->Type_0).0,
        r.1@ == WordView::Type(
            bounded_value(ambiguous_word@->Type_0, parsed_word@->Type_0).1,
        ),
{
    match (ambiguous_word, parsed_word) {
        (Word::Type(a), Word::Type(p)) => {
            let (binding, value) = bounded_type(a, p);
            (binding, Word::Type(value))
        },
        _ => (0, parsed_word.clone()),
    }
}

/// `get_bounded_value` on the types of the two words.
pub fn bounded_type(ambiguous: &VariableType, parsed: &VariableType) -> (r: (usize, VariableType))
    requires
        binds(*ambiguous, *parsed),
    ensures
        r == bounded_value(*ambiguous, *parsed),
    decreases *ambiguous,
{
    match ambiguous {
        VariableType::Any(binding) => (*binding, parsed.clone()),
        VariableType::Vec(a) => match parsed {
            VariableType::Vec(p) => bounded_type(a, p),
            _ => (0, parsed.clone()),
        },
        _ => (0, parsed.clone()),
    }
}

} // verus!
