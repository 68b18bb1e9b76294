use crate::action::{Action, ActionView, Timestamp};
use crate::event::component::Components;
use crate::event::events::{
    events_view, lemma_event_view, names_view, Event, EventView, Operation, OperationView,
};
use crate::schedule::actions_view;
use crate::translator::automata::automaton::{constraints_view, Automaton, AutomatonView};
use crate::translator::automata::linear_automaton::LinearAutomaton;
use crate::translator::builtins::{load_builtin_operations, with_builtins, BUILTIN_COUNT};
use crate::translator::type_constraints::{intersected, unconstrained, TypeConstraints};
use crate::translator::words::{sequence_view, SequenceValue, Word, WordView};
use crate::variable::stack::{Layers, Stack, VariableMap};
use crate::variable::types::VariableType;
use crate::variable::values::{variables_view, Direction, Effect, Rgb, ValueView, VariableView};
use crate::variable::Variable;
use std::collections::HashMap;
use vstd::prelude::*;

verus! {

broadcast use vstd::std_specs::hash::group_hash_axioms;

/// Why a program could not be loaded.
#[derive(Clone, Copy, Debug, PartialEq, Eq, Structural)]
pub enum TranslateError {
    /// A sequence matches no path of the automaton.
    InvalidSequence,
    /// A sequence resolves to something that is no operation.
    NotAnOperation,
    /// A sequence resolves to an operation that does not exist.
    UnknownOperation,
    /// A value names a variable that does not exist.
    UnknownVariable,
    /// A variable of that name exists in the layer already.
    DuplicateVariable,
    /// A sequence in the body of a declaration can mean nothing.
    NoInterpretation,
    /// The uses of the operands of a declaration contradict each other.
    Unsatisfiable,
    /// A type that could not be resolved was to get a value.
    UnresolvedType,
    /// A signature names an operand that the declaration does not have.
    UnknownOperand,
    /// A sequence that must stand for a value stands for something else.
    NotAValue,
    /// The unit of time of a trigger is not known, or its time does not fit.
    UnknownUnit,
    /// The target of a trigger is 0.
    ZeroTarget,
    /// There is no layer to put a variable into.
    EmptyScope,
    /// The head of a declaration names a second main iterator.
    SecondMainIterator,
    /// The text of a program cannot be parsed at all.
    Unparsable,
    /// A node of the syntax tree is not of the kind or shape that its
    /// place asks for.
    Malformed,
    /// A value is of a kind that cannot stand where it stands.
    UnknownValue,
    /// A number is not made of digits, or does not fit.
    UnreadableNumber,
    /// A color has a name that is not known.
    UnknownColor,
    /// A color is given by its code.
    ColorCode,
    /// A direction has a name that is not known.
    UnknownDirection,
    /// An effect has a name that is not known.
    UnknownEffect,
}

/// What a program is loaded into: the global variables, the components and
/// actions, the automaton that resolves sequences, and the operations that
/// were declared.
pub struct Translator {
    pub globals: Stack,
    pub components: Components,
    pub actions: Vec<Action>,
    pub action_decision_automaton: Automaton,
    pub operations: HashMap<usize, Operation>,
    pub _number_of_builtin_operations: usize,
    pub in_component: bool,
}

/// What a translator is to the contracts.
pub struct TranslatorView {
    pub globals: Layers,
    pub automaton: AutomatonView,
    pub operations: Map<usize, OperationView>,
    pub builtins: usize,
    pub actions: Seq<ActionView>,
}

impl View for Translator {
    type V = TranslatorView;

    open spec fn view(&self) -> TranslatorView {
        TranslatorView {
            globals: self.globals@,
            automaton: self.action_decision_automaton@,
            operations: self.operations@.map_values(|o: Operation| o@),
            builtins: self._number_of_builtin_operations,
            actions: actions_view(self.actions@),
        }
    }
}

impl TranslatorView {
    /// The event that a resolved sequence with the given parameters stands
    /// for: the call of the operation that the words resolve to.
    pub open spec fn event_for(self, words: Seq<WordView>, params: Seq<VariableView>) -> Result<
        EventView,
        TranslateError,
    > {
        match self.automaton.run(words) {
            None => Err(TranslateError::InvalidSequence),
            Some(SequenceValue::Operation(id)) => {
                if id <= self.builtins {
                    Ok(EventView { id, params, events: Seq::empty(), vars: Map::empty() })
                } else if self.operations.contains_key(id) {
                    Ok(
                        EventView {
                            id: self.operations[id].id,
                            params,
                            events: self.operations[id].events,
                            vars: self.operations[id].variables,
                        },
                    )
                } else {
                    Err(TranslateError::UnknownOperation)
                }
            },
            Some(_) => Err(TranslateError::NotAnOperation),
        }
    }

    /// The translator with other global variables.
    pub open spec fn with_globals(self, globals: Layers) -> TranslatorView {
        TranslatorView { globals, ..self }
    }

    /// The id that the next operation gets, if there is one left.
    pub open spec fn next_id(self) -> Option<usize> {
        if self.builtins + self.operations.len() + 1 <= usize::MAX {
            Some((self.builtins + self.operations.len() + 1) as usize)
        } else {
            None
        }
    }

    /// The translator after an operation was to be registered under a new
    /// id and its signature, and whether it was: it is not where the
    /// signature is registered already, or no id is left.
    pub open spec fn operation_added(
        self,
        signature: Seq<WordView>,
        operands: Seq<Seq<char>>,
        events: Seq<EventView>,
        iterators: Seq<usize>,
        variables: Map<Seq<char>, ValueView>,
    ) -> (TranslatorView, bool) {
        match self.next_id() {
            None => (self, false),
            Some(op_id) => {
                let automaton = self.automaton.unioned(
                    signature,
                    Some(SequenceValue::Operation(op_id)),
                );
                if automaton == self.automaton {
                    (self, false)
                } else {
                    (
                        TranslatorView {
                            automaton,
                            operations: self.operations.insert(
                                op_id,
                                OperationView { id: op_id, operands, events, iterators, variables },
                            ),
                            ..self
                        },
                        true,
                    )
                }
            },
        }
    }
}

/// Whether two texts are the same.
pub fn same_text(a: &str, b: &str) -> (r: bool)
    ensures
        r == (a@ == b@),
{
    a.to_owned() == b.to_owned()
}

/// Whether the operand `var_id` is among the first `n` iterators.
pub open spec fn is_iterator(iterators: Seq<usize>, var_id: usize, n: nat) -> bool
    decreases n,
{
    n > 0 && (is_iterator(iterators, var_id, (n - 1) as nat) || iterators[n - 1] == var_id)
}

/// The word of a signature for the operand types `types`: a placeholder
/// that names an operand becomes the type of the operand, or the type of a
/// collection of it where the operand is iterated over; any other word
/// stays.
pub open spec fn typed_word(w: WordView, types: Seq<VariableType>, iterators: Seq<usize>) -> WordView {
    match w {
        WordView::Type(VariableType::Any(var_id)) => if var_id < types.len() {
            if is_iterator(iterators, var_id, iterators.len()) {
                WordView::Type(VariableType::Vec(Box::new(types[var_id as int])))
            } else {
                WordView::Type(types[var_id as int])
            }
        } else {
            w
        },
        _ => w,
    }
}

/// The signature of a declaration for the operand types `types`.
pub open spec fn typed_signature_view(
    signature: Seq<WordView>,
    types: Seq<VariableType>,
    iterators: Seq<usize>,
) -> Seq<WordView> {
    signature.map_values(|w: WordView| typed_word(w, types, iterators))
}

/// What two sets of constraints say together, if they speak of the same
/// number of operands.
pub open spec fn joint(a: Seq<VariableType>, b: Seq<VariableType>) -> Option<Seq<VariableType>> {
    if a.len() == b.len() {
        intersected(a, b)
    } else {
        None
    }
}

/// The operand types that satisfy every usage from `from` on, given the
/// constraints `current` that the usages before impose: for each usage one
/// of its interpretations is chosen, the choices for an earlier usage
/// varying slowest, and a choice that contradicts the constraints is
/// dropped.
pub open spec fn resolved(
    current: Seq<VariableType>,
    rest: Seq<Seq<Seq<VariableType>>>,
    from: nat,
) -> Seq<Seq<VariableType>>
    decreases rest.len() - from, 1nat, 0nat,
{
    if from >= rest.len() {
        seq![current]
    } else {
        resolved_over(current, rest, from, 0)
    }
}

/// `resolved` for the interpretations of the usage `from` from the `k`-th
/// on.
pub open spec fn resolved_over(
    current: Seq<VariableType>,
    rest: Seq<Seq<Seq<VariableType>>>,
    from: nat,
    k: nat,
) -> Seq<Seq<VariableType>>
    decreases rest.len() - from, 0nat, rest[from as int].len() - k,
{
    if from >= rest.len() || k >= rest[from as int].len() {
        Seq::empty()
    } else {
        let tail = resolved_over(current, rest, from, k + 1);
        match joint(current, rest[from as int][k as int]) {
            Some(prod) => resolved(prod, rest, from + 1) + tail,
            None => tail,
        }
    }
}

/// The interpretations of the usages as the contracts see them.
pub open spec fn usages_view(l: Seq<Vec<TypeConstraints>>) -> Seq<Seq<Seq<VariableType>>> {
    l.map_values(|u: Vec<TypeConstraints>| constraints_view(u@))
}

/// Puts a placeholder for a new operand behind the signature, and the name
/// of the operand behind the operands: the placeholder is bound to the
/// number of the operand.
pub fn push_variable_into_signature(var_name: &str, seq: &mut Vec<Word>, operands: &mut Vec<String>)
    ensures
        sequence_view(final(seq)@) == sequence_view(old(seq)@).push(
            WordView::Type(VariableType::Any(old(operands)@.len() as usize)),
        ),
        final(operands)@.len() == old(operands)@.len() + 1,
        final(operands)@.last()@ == var_name@,
        forall|i: int| 0 <= i < old(operands)@.len() ==> final(operands)@[i] == old(operands)@[i],
{
    seq.push(Word::Type(VariableType::Any(operands.len())));
    operands.push(var_name.to_owned());
    assert(sequence_view(seq@) =~= sequence_view(old(seq)@).push(
        WordView::Type(VariableType::Any(old(operands)@.len() as usize)),
    ));
}

/// Whether the operand `var_id` is iterated over.
pub fn iterates(iterators: &Vec<usize>, var_id: usize) -> (r: bool)
    ensures
        r == is_iterator(iterators@, var_id, iterators@.len()),
{
    let mut i: usize = 0;
    while i < iterators.len()
        invariant
            i <= iterators.len(),
            !is_iterator(iterators@, var_id, i as nat),
        decreases iterators.len() - i,
    {
        if iterators[i] == var_id {
            proof {
                lemma_is_iterator_grows(iterators@, var_id, (i + 1) as nat, iterators@.len());
            }
            return true;
        }
        i += 1;
    }
    false
}

/// An iterator among the first `k` is one among the first `n`.
pub proof fn lemma_is_iterator_grows(iterators: Seq<usize>, var_id: usize, k: nat, n: nat)
    requires
        is_iterator(iterators, var_id, k),
        k <= n,
    ensures
        is_iterator(iterators, var_id, n),
    decreases n,
{
    if k < n {
        lemma_is_iterator_grows(iterators, var_id, k, (n - 1) as nat);
    }
}

/// The signature of a declaration for the operand types `types`; see
/// `typed_word`.
pub fn typed_signature(signature: &Vec<Word>, types: &Vec<VariableType>, iterators: &Vec<usize>) -> (r:
    Vec<Word>)
    ensures
        sequence_view(r@) == typed_signature_view(sequence_view(signature@), types@, iterators@),
{
    let mut new_signature: Vec<Word> = Vec::new();
    let mut i: usize = 0;
    while i < signature.len()
        invariant
            i <= signature.len(),
            new_signature@.len() == i,
            forall|k: int|
                0 <= k < i ==> (#[trigger] new_signature@[k])@ == typed_word(
                    signature@[k]@,
                    types@,
                    iterators@,
                ),
        decreases signature.len() - i,
    {
        let w = &signature[i];
        let next = match w {
            Word::Type(VariableType::Any(var_id)) => {
                if *var_id < types.len() {
                    let v = &types[*var_id];
                    if iterates(iterators, *var_id) {
                        Word::Type(VariableType::Vec(Box::new(v.clone())))
                    } else {
                        Word::Type(v.clone())
                    }
                } else {
                    w.clone()
                }
            },
            _ => w.clone(),
        };
        new_signature.push(next);
        i += 1;
    }
    assert(sequence_view(new_signature@) =~= typed_signature_view(
        sequence_view(signature@),
        types@,
        iterators@,
    ));
    new_signature
}

/// The operand types that satisfy every usage of the operands in the body
/// of a declaration: `interpretations` holds, for each usage, what the
/// usage may mean. Nothing is returned where there is no usage.
pub fn infer_datatypes_from_interpretations(
    interpretations: &Vec<Vec<TypeConstraints>>,
    operand_count: usize,
) -> (r: Vec<TypeConstraints>)
    ensures
        constraints_view(r@) == (if interpretations@.len() == 0 {
            Seq::<Seq<VariableType>>::empty()
        } else {
            resolved(unconstrained(operand_count as nat), usages_view(interpretations@), 0)
        }),
{
    if interpretations.len() == 0 {
        let none: Vec<TypeConstraints> = Vec::new();
        assert(constraints_view(none@) =~= Seq::<Seq<VariableType>>::empty());
        return none;
    }
    infer_datatypes_from_interpretations_rec(
        &TypeConstraints::new(operand_count),
        interpretations,
        0,
    )
}

/// The operand types that satisfy the usages from `from` on, given the
/// constraints `interpretation`; see `resolved`.
pub fn infer_datatypes_from_interpretations_rec(
    interpretation: &TypeConstraints,
    rest: &Vec<Vec<TypeConstraints>>,
    from: usize,
) -> (r: Vec<TypeConstraints>)
    requires
        from <= rest@.len(),
    ensures
        constraints_view(r@) == resolved(interpretation@, usages_view(rest@), from as nat),
    decreases rest@.len() - from,
{
    let ghost usages = usages_view(rest@);
    if from == rest.len() {
        let mut out: Vec<TypeConstraints> = Vec::new();
        out.push(interpretation.clone());
        assert(constraints_view(out@) =~= seq![interpretation@]);
        return out;
    }
    let alternatives = &rest[from];
    assert(usages[from as int] == constraints_view(alternatives@));
    let mut out: Vec<TypeConstraints> = Vec::new();
    let mut k: usize = alternatives.len();
    assert(constraints_view(out@) =~= resolved_over(
        interpretation@,
        usages,
        from as nat,
        k as nat,
    ));
    while k > 0
        invariant
            k <= alternatives@.len(),
            from < rest.len(),
            usages == usages_view(rest@),
            usages[from as int] == constraints_view(alternatives@),
            constraints_view(out@) == resolved_over(
                interpretation@,
                usages,
                from as nat,
                k as nat,
            ),
        decreases k,
    {
        k -= 1;
        let usage = &alternatives[k];
        assert(usages[from as int][k as int] == usage@);
        if usage.get_types().len() == interpretation.get_types().len() {
            match interpretation.clone().intersect(usage.clone()) {
                Some(prod) => {
                    let mut found = infer_datatypes_from_interpretations_rec(&prod, rest, from + 1);
                    let ghost found_view = constraints_view(found@);
                    let ghost tail = constraints_view(out@);
                    found.append(&mut out);
                    out = found;
                    assert(constraints_view(out@) =~= found_view + tail);
                },
                None => {},
            }
        }
    }
    out
}

/// Looks up what a use of the operands may mean, and notes it; returns
/// whether the use means anything at all.
pub fn get_event_interpretations(
    automaton: &Automaton,
    seq: &Vec<Word>,
    var_count: usize,
    interpretations: &mut Vec<Vec<TypeConstraints>>,
) -> (r: bool)
    requires
        automaton@.wf(),
    ensures
        r == (automaton@.interpretations(sequence_view(seq@), var_count as nat).len() > 0),
        r ==> usages_view(final(interpretations)@) == usages_view(old(interpretations)@).push(
            automaton@.interpretations(sequence_view(seq@), var_count as nat),
        ),
        !r ==> final(interpretations)@ == old(interpretations)@,
{
    let ints = automaton.get_interpretations(seq, var_count);
    if ints.len() == 0 {
        return false;
    }
    interpretations.push(ints);
    assert(usages_view(interpretations@) =~= usages_view(old(interpretations)@).push(
        automaton@.interpretations(sequence_view(seq@), var_count as nat),
    ));
    true
}

/// The timestamp that `quantifier` units of time stand for, with the
/// accumulator that an action on that clock starts with: frames count as
/// they are, seconds as a thousand milliseconds each. There is no result
/// for an unknown unit, or where the number of milliseconds does not fit.
pub open spec fn timestamp_of(quantifier: usize, unit: Seq<char>) -> Option<(Timestamp, Timestamp)> {
    if unit == "frame"@ || unit == "frames"@ {
        Some((Timestamp::Frame(quantifier), Timestamp::Frame(0)))
    } else if unit == "s"@ || unit == "second"@ || unit == "seconds"@ {
        if quantifier * 1000 <= usize::MAX {
            Some((Timestamp::Millis((quantifier * 1000) as usize), Timestamp::Millis(0)))
        } else {
            None
        }
    } else if unit == "ms"@ || unit == "millisecond"@ || unit == "milliseconds"@ {
        Some((Timestamp::Millis(quantifier), Timestamp::Millis(0)))
    } else {
        None
    }
}

/// The timestamp of a trigger; see `timestamp_of`.
pub fn get_action_timestamp_and_acc(quantifier: usize, unit: &str) -> (r: Option<
    (Timestamp, Timestamp),
>)
    ensures
        r == timestamp_of(quantifier, unit@),
{
    if same_text(unit, "frame") || same_text(unit, "frames") {
        Some((Timestamp::Frame(quantifier), Timestamp::Frame(0)))
    } else if same_text(unit, "s") || same_text(unit, "second") || same_text(unit, "seconds") {
        match quantifier.checked_mul(1000) {
            Some(millis) => Some((Timestamp::Millis(millis), Timestamp::Millis(0))),
            None => None,
        }
    } else if same_text(unit, "ms") || same_text(unit, "millisecond") || same_text(
        unit,
        "milliseconds",
    ) {
        Some((Timestamp::Millis(quantifier), Timestamp::Millis(0)))
    } else {
        None
    }
}

/// Whether the trigger of an action repeats: it does if it starts with
/// `every`.
pub fn get_action_repeats(text: &str) -> (r: bool)
    ensures
        r == (text@ == "every"@),
{
    same_text(text, "every")
}

/// Whether an action is active from the start: it is unless its trigger
/// starts with `!`.
pub fn get_action_active(text: &str) -> (r: bool)
    ensures
        r == (text@ != "!"@),
{
    !same_text(text, "!")
}

/// The direction that a text names.
pub open spec fn direction_named(text: Seq<char>) -> Option<Direction> {
    if text == "left"@ {
        Some(Direction::Left)
    } else if text == "right"@ {
        Some(Direction::Right)
    } else if text == "up"@ {
        Some(Direction::Up)
    } else if text == "down"@ {
        Some(Direction::Down)
    } else {
        None
    }
}

/// The effect that a text names.
pub open spec fn effect_named(text: Seq<char>) -> Option<Effect> {
    if text == "blurred"@ {
        Some(Effect::Blur)
    } else if text == "randomized"@ {
        Some(Effect::Random)
    } else if text == "inversed"@ {
        Some(Effect::Inverse)
    } else {
        None
    }
}

/// The direction of that name.
pub fn direction_to_val(text: &str) -> (r: Option<Direction>)
    ensures
        r == direction_named(text@),
{
    if same_text(text, "left") {
        Some(Direction::Left)
    } else if same_text(text, "right") {
        Some(Direction::Right)
    } else if same_text(text, "up") {
        Some(Direction::Up)
    } else if same_text(text, "down") {
        Some(Direction::Down)
    } else {
        None
    }
}

/// The effect of that name.
pub fn effect_to_val(text: &str) -> (r: Option<Effect>)
    ensures
        r == effect_named(text@),
{
    if same_text(text, "blurred") {
        Some(Effect::Blur)
    } else if same_text(text, "randomized") {
        Some(Effect::Random)
    } else if same_text(text, "inversed") {
        Some(Effect::Inverse)
    } else {
        None
    }
}

/// The colour of a name.
pub open spec fn color_named(text: Seq<char>) -> Option<Rgb> {
    if text == "red"@ {
        Some(Rgb { r: 255, g: 0, b: 0 })
    } else if text == "green"@ {
        Some(Rgb { r: 0, g: 255, b: 0 })
    } else if text == "blue"@ {
        Some(Rgb { r: 0, g: 0, b: 255 })
    } else if text == "yellow"@ {
        Some(Rgb { r: 255, g: 225, b: 53 })
    } else if text == "black"@ {
        Some(Rgb { r: 0, g: 0, b: 0 })
    } else if text == "white"@ {
        Some(Rgb { r: 255, g: 255, b: 255 })
    } else if text == "orange"@ {
        Some(Rgb { r: 255, g: 165, b: 0 })
    } else if text == "pink"@ {
        Some(Rgb { r: 255, g: 192, b: 203 })
    } else if text == "purple"@ {
        Some(Rgb { r: 128, g: 0, b: 128 })
    } else if text == "brown"@ {
        Some(Rgb { r: 165, g: 42, b: 42 })
    } else if text == "cyan"@ {
        Some(Rgb { r: 0, g: 255, b: 255 })
    } else {
        None
    }
}

/// The colour of that name.
pub fn color_name_to_val(text: &str) -> (r: Option<Rgb>)
    ensures
        r == color_named(text@),
{
    if same_text(text, "red") {
        Some(Rgb::new(255, 0, 0))
    } else if same_text(text, "green") {
        Some(Rgb::new(0, 255, 0))
    } else if same_text(text, "blue") {
        Some(Rgb::new(0, 0, 255))
    } else if same_text(text, "yellow") {
        Some(Rgb::new(255, 225, 53))
    } else if same_text(text, "black") {
        Some(Rgb::new(0, 0, 0))
    } else if same_text(text, "white") {
        Some(Rgb::new(255, 255, 255))
    } else if same_text(text, "orange") {
        Some(Rgb::new(255, 165, 0))
    } else if same_text(text, "pink") {
        Some(Rgb::new(255, 192, 203))
    } else if same_text(text, "purple") {
        Some(Rgb::new(128, 0, 128))
    } else if same_text(text, "brown") {
        Some(Rgb::new(165, 42, 42))
    } else if same_text(text, "cyan") {
        Some(Rgb::new(0, 255, 255))
    } else {
        None
    }
}

impl Translator {
    /// A translator that knows the built-in operations and nothing else.
    pub fn new() -> (r: Self)
        ensures
            r@.automaton.wf(),
            r@ == (TranslatorView {
                globals: seq![Map::<Seq<char>, ValueView>::empty()],
                automaton: with_builtins(Automaton::new_view(), BUILTIN_COUNT as nat),
                operations: Map::<usize, OperationView>::empty(),
                builtins: BUILTIN_COUNT,
                actions: Seq::<ActionView>::empty(),
            }),
    {
        let mut aut = Automaton::new();
        let op_count = load_builtin_operations(&mut aut);
        let r = Translator {
            globals: Stack::new(),
            components: HashMap::new(),
            actions: Vec::new(),
            action_decision_automaton: aut,
            operations: HashMap::new(),
            _number_of_builtin_operations: op_count,
            in_component: false,
        };
        assert(r@.operations =~= Map::<usize, OperationView>::empty());
        assert(r@.actions =~= Seq::<ActionView>::empty());
        r
    }

    /// Whether the id names a built-in operation: the ids up to the number
    /// of built-in operations do.
    pub fn is_builtin_operation(&self, id: usize) -> (r: bool)
        ensures
            r == (id <= self@.builtins),
    {
        id <= self._number_of_builtin_operations
    }

    /// Registers an operation under a new id and its signature, and returns
    /// whether that was done; see `TranslatorView::operation_added`.
    pub fn add_operation(
        &mut self,
        signature: Vec<Word>,
        operands: Vec<String>,
        events: Vec<Event>,
        iterators: &Vec<usize>,
        variables: &VariableMap,
    ) -> (r: bool)
        requires
            old(self)@.automaton.wf(),
        ensures
            final(self)@.automaton.wf(),
            final(self).globals == old(self).globals,
            (final(self)@, r) == old(self)@.operation_added(
                sequence_view(signature@),
                names_view(operands@),
                events_view(events@),
                iterators@,
                variables@,
            ),
    {
        proof {
            lemma_operations_len(self.operations@);
        }
        let op_id = match self._number_of_builtin_operations.checked_add(self.operations.len()) {
            Some(n) => match n.checked_add(1) {
                Some(id) => id,
                None => {
                    return false;
                },
            },
            None => {
                return false;
            },
        };
        let la = LinearAutomaton::new(signature, SequenceValue::Operation(op_id));
        if !self.action_decision_automaton.union(la) {
            return false;
        }
        let kept_iterators = iterators.clone();
        assert(kept_iterators@ =~= iterators@);
        let op = Operation::new(op_id, operands, events, kept_iterators, variables.clone());
        self.operations.insert(op_id, op);
        assert(self@.operations =~= old(self)@.operations.insert(op_id, op@));
        true
    }

    /// The event that a sequence with the given actual parameters stands
    /// for: the call of the operation that the sequence resolves to.
    pub fn sequence_to_event(&self, seq: &Vec<Word>, params: Vec<Variable>) -> (r: Result<
        Event,
        TranslateError,
    >)
        requires
            self@.automaton.wf(),
        ensures
            match self@.event_for(sequence_view(seq@), variables_view(params@)) {
                Ok(event) => r is Ok && r->Ok_0@ == event,
                Err(e) => r is Err && r->Err_0 == e,
            },
    {
        let sv = match self.action_decision_automaton.run(seq) {
            Some(sv) => *sv,
            None => {
                return Err(TranslateError::InvalidSequence);
            },
        };
        match sv {
            SequenceValue::Operation(id) => {
                if self.is_builtin_operation(id) {
                    let none: Vec<Event> = Vec::new();
                    let event = Event::new(id, params, none, VariableMap::new());
                    proof {
                        lemma_event_view(event);
                        assert(event@.events =~= Seq::<EventView>::empty());
                    }
                    Ok(event)
                } else {
                    match self.operations.get(&id) {
                        Some(op) => Ok(op.instantiate(params)),
                        None => Err(TranslateError::UnknownOperation),
                    }
                }
            },
            _ => Err(TranslateError::NotAnOperation),
        }
    }
}

/// As many operations are seen as there are.
pub proof fn lemma_operations_len(operations: Map<usize, Operation>)
    ensures
        operations.map_values(|o: Operation| o@).len() == operations.len(),
{
    assert(operations.map_values(|o: Operation| o@).dom() =~= operations.dom());
}

/// Monomorphization count: a declaration with one usage that may mean any
/// of `alternatives.len()` concrete sets of operand types resolves to
/// exactly those sets, so to as many operations.
pub proof fn lemma_monomorphization_count(alternatives: Seq<Seq<VariableType>>, operand_count: nat)
    requires
        2 * operand_count <= usize::MAX,
        forall|k: int|
            0 <= k < alternatives.len() ==> (#[trigger] alternatives[k]).len() == operand_count
                && crate::translator::constraint_laws::all_concrete(alternatives[k]),
    ensures
        resolved(unconstrained(operand_count), seq![alternatives], 0) == alternatives,
        resolved(unconstrained(operand_count), seq![alternatives], 0).len() == alternatives.len(),
{
    let rest = seq![alternatives];
    let start = unconstrained(operand_count);
    lemma_resolved_concrete(alternatives, operand_count, 0);
    assert(alternatives.skip(0) =~= alternatives);
}

/// `lemma_monomorphization_count` for the alternatives from the `k`-th on.
proof fn lemma_resolved_concrete(alternatives: Seq<Seq<VariableType>>, operand_count: nat, k: nat)
    requires
        2 * operand_count <= usize::MAX,
        k <= alternatives.len(),
        forall|j: int|
            0 <= j < alternatives.len() ==> (#[trigger] alternatives[j]).len() == operand_count
                && crate::translator::constraint_laws::all_concrete(alternatives[j]),
    ensures
        resolved_over(unconstrained(operand_count), seq![alternatives], 0, k)
            == alternatives.skip(k as int),
    decreases alternatives.len() - k,
{
    let rest = seq![alternatives];
    let start = unconstrained(operand_count);
    if k < alternatives.len() {
        lemma_resolved_concrete(alternatives, operand_count, k + 1);
        let c = alternatives[k as int];
        crate::translator::constraint_laws::lemma_unconstrained_is_neutral(c);
        assert(joint(start, rest[0][k as int]) == Some(c));
        assert(resolved(c, rest, 1) == seq![c]);
        assert(seq![c] + alternatives.skip((k + 1) as int) =~= alternatives.skip(k as int));
    } else {
        assert(alternatives.skip(k as int) =~= Seq::<Seq<VariableType>>::empty());
    }
}

} // verus!
