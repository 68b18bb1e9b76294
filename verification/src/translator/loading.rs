use crate::action::{Action, ActionView, Timestamp};
use crate::event::events::{events_view, names_view, Event, EventView};
use crate::schedule::actions_wf;
use crate::translator::automata::automaton::constraints_view;
use crate::translator::syntax::{
    declarations_view, definitions_view, head_view, lemma_vector_view, sequences_of_tokens_view,
    statements_view, templates_view, tokens_view, ActionDeclaration, ActionDeclarationView,
    Declaration, DeclarationView, Definition, DefinitionView, HeadItem, HeadItemView, Statement,
    StatementView, Token, TokenView, ValueTemplate, ValueTemplateView,
};
use crate::translator::translation::{
    get_action_timestamp_and_acc, get_event_interpretations, infer_datatypes_from_interpretations,
    push_variable_into_signature, resolved, timestamp_of, typed_signature, typed_signature_view,
    usages_view, TranslateError, Translator, TranslatorView,
};
use crate::translator::type_constraints::{unconstrained, TypeConstraints};
use crate::translator::words::{sequence_view, SequenceValue, Word, WordView};
use crate::variable::stack::{lookup, updated, Layers, Stack, VariableMap};
use crate::variable::types::VariableType;
use crate::variable::values::{
    lemma_vec_view, variables_view, ValueView, VariableValue, VariableView,
};
use crate::variable::{Variable, VariableLocation};
use vstd::prelude::*;

verus! {

/// The variable of the scope of the given name and declared type.
pub open spec fn scope_variable(name: Seq<char>, typ: VariableType) -> VariableView {
    VariableView { name, location: VariableLocation::Scope, val: None, typ }
}

/// The variable that carries the value.
pub open spec fn literal_variable(v: ValueView) -> VariableView {
    VariableView {
        name: Seq::empty(),
        location: VariableLocation::Static,
        val: Some(v),
        typ: v.type_of(),
    }
}

/// The value that a value template stands for: a literal for itself, a name
/// for the value of that variable, a list for the list of the variables
/// that its elements stand for.
pub open spec fn value_of(layers: Layers, v: ValueTemplateView) -> Result<ValueView, TranslateError>
    decreases v, 0nat,
{
    match v {
        ValueTemplateView::Literal(x) => Ok(x),
        ValueTemplateView::Reference(n) => match lookup(layers, n) {
            Some(x) => Ok(x),
            None => Err(TranslateError::UnknownVariable),
        },
        ValueTemplateView::Vector(items) => match variables_of(layers, items, items.len()) {
            Ok(vars) => Ok(ValueView::Vec(vars)),
            Err(e) => Err(e),
        },
    }
}

/// The variables that the first `n` elements of a list stand for.
pub open spec fn variables_of(layers: Layers, items: Seq<ValueTemplateView>, n: nat) -> Result<
    Seq<VariableView>,
    TranslateError,
>
    decreases items, n,
{
    if n == 0 || n > items.len() {
        Ok(Seq::empty())
    } else {
        match variables_of(layers, items, (n - 1) as nat) {
            Err(e) => Err(e),
            Ok(prev) => match variable_of(layers, items[n - 1]) {
                Err(e) => Err(e),
                Ok(x) => Ok(prev.push(x)),
            },
        }
    }
}

/// The variable that an element of a list stands for: a name for the
/// variable of the scope of that name, with the type of its value, and
/// anything else for a variable that carries the value.
pub open spec fn variable_of(layers: Layers, item: ValueTemplateView) -> Result<
    VariableView,
    TranslateError,
>
    decreases item, 1nat,
{
    match item {
        ValueTemplateView::Reference(n) => match lookup(layers, n) {
            Some(x) => Ok(scope_variable(n, x.type_of())),
            None => Err(TranslateError::UnknownVariable),
        },
        _ => match value_of(layers, item) {
            Ok(x) => Ok(literal_variable(x)),
            Err(e) => Err(e),
        },
    }
}

/// The words and the actual parameters that the first `n` tokens of a
/// sequence stand for: a keyword is a word; a value is the word of its type
/// and a parameter, which names the variable where the value is a name, and
/// carries the value otherwise.
pub open spec fn parts(layers: Layers, seq: Seq<TokenView>, n: nat) -> Result<
    (Seq<WordView>, Seq<VariableView>),
    TranslateError,
>
    decreases n,
{
    if n == 0 {
        Ok((Seq::empty(), Seq::empty()))
    } else {
        match parts(layers, seq, (n - 1) as nat) {
            Err(e) => Err(e),
            Ok((words, params)) => match seq[n - 1] {
                TokenView::Keyword(k) => Ok((words.push(WordView::Keyword(k)), params)),
                TokenView::Value(v) => match value_of(layers, v) {
                    Err(e) => Err(e),
                    Ok(val) => Ok(
                        (
                            words.push(WordView::Type(val.type_of())),
                            params.push(
                                match v {
                                    ValueTemplateView::Reference(name) => scope_variable(
                                        name,
                                        val.type_of(),
                                    ),
                                    _ => literal_variable(val),
                                },
                            ),
                        ),
                    ),
                },
            },
        }
    }
}

impl TranslatorView {
    /// The event that a sequence stands for.
    pub open spec fn event_of(self, seq: Seq<TokenView>) -> Result<EventView, TranslateError> {
        match parts(self.globals, seq, seq.len()) {
            Err(e) => Err(e),
            Ok((words, params)) => self.event_for(words, params),
        }
    }

    /// The value that a sequence stands for: the value of its one token, or
    /// the component that its words resolve to.
    pub open spec fn sequence_value(self, seq: Seq<TokenView>) -> Result<ValueView, TranslateError> {
        if seq.len() == 1 {
            match seq[0] {
                TokenView::Value(v) => value_of(self.globals, v),
                TokenView::Keyword(_) => Err(TranslateError::NotAValue),
            }
        } else {
            match parts(self.globals, seq, seq.len()) {
                Err(e) => Err(e),
                Ok((words, _)) => match self.automaton.run(words) {
                    None => Err(TranslateError::InvalidSequence),
                    Some(SequenceValue::Component(id)) => Ok(ValueView::Component(id)),
                    Some(_) => Err(TranslateError::NotAValue),
                },
            }
        }
    }

}

/// What the head of a declaration says.
pub struct Head {
    pub signature: Seq<WordView>,
    pub operands: Seq<Seq<char>>,
    pub iterators: Seq<usize>,
    pub has_main: bool,
}

impl Head {
    /// The head with one more operand, which stands in the signature as a
    /// placeholder bound to its number.
    pub open spec fn with_operand(self, name: Seq<char>) -> Head {
        Head {
            signature: self.signature.push(
                WordView::Type(VariableType::Any(self.operands.len() as usize)),
            ),
            operands: self.operands.push(name),
            ..self
        }
    }
}

/// What the first `n` parts of the head of a declaration say: a keyword is
/// a word of the signature; an operand is a placeholder in the signature;
/// an operand that is iterated over is noted behind the iterators, and the
/// main iterator before them. A head has one main iterator at most.
pub open spec fn head_read(items: Seq<HeadItemView>, n: nat) -> Result<Head, TranslateError>
    decreases n,
{
    if n == 0 {
        Ok(
            Head {
                signature: Seq::empty(),
                operands: Seq::empty(),
                iterators: Seq::empty(),
                has_main: false,
            },
        )
    } else {
        match head_read(items, (n - 1) as nat) {
            Err(e) => Err(e),
            Ok(head) => match items[n - 1] {
                HeadItemView::Keyword(k) => Ok(
                    Head { signature: head.signature.push(WordView::Keyword(k)), ..head },
                ),
                HeadItemView::Operand(name) => Ok(head.with_operand(name)),
                HeadItemView::Iterator(name) => Ok(
                    Head {
                        iterators: head.iterators.push(head.operands.len() as usize),
                        ..head.with_operand(name)
                    },
                ),
                HeadItemView::MainIterator(name) => if head.has_main {
                    Err(TranslateError::SecondMainIterator)
                } else {
                    Ok(
                        Head {
                            iterators: head.iterators.insert(0, head.operands.len() as usize),
                            has_main: true,
                            ..head.with_operand(name)
                        },
                    )
                },
            },
        }
    }
}

/// An error among the first `k` parts is the error of any more.
pub proof fn lemma_head_read_error(items: Seq<HeadItemView>, k: nat, n: nat)
    requires
        head_read(items, k) is Err,
        k <= n,
    ensures
        head_read(items, n) == head_read(items, k),
    decreases n,
{
    if k < n {
        lemma_head_read_error(items, k, (n - 1) as nat);
    }
}

/// The signature, the operands and the iterators that the head of a
/// declaration gives; see `head_read`.
pub fn parse_lhs(items: &Vec<HeadItem>) -> (r: Result<
    (Vec<Word>, Vec<String>, Vec<usize>),
    TranslateError,
>)
    ensures
        match head_read(head_view(items@), items@.len()) {
            Ok(head) => {
                &&& r is Ok
                &&& sequence_view(r->Ok_0.0@) == head.signature
                &&& names_view(r->Ok_0.1@) == head.operands
                &&& r->Ok_0.2@ == head.iterators
            },
            Err(e) => r is Err && r->Err_0 == e,
        },
{
    let ghost parts = head_view(items@);
    let mut seq: Vec<Word> = Vec::new();
    let mut operands: Vec<String> = Vec::new();
    let mut has_main_iterator = false;
    let mut iterators: Vec<usize> = Vec::new();
    assert(sequence_view(seq@) =~= Seq::<WordView>::empty());
    assert(names_view(operands@) =~= Seq::<Seq<char>>::empty());
    let mut i: usize = 0;
    while i < items.len()
        invariant
            i <= items.len(),
            parts == head_view(items@),
            head_read(parts, i as nat) == Ok::<Head, TranslateError>(
                Head {
                    signature: sequence_view(seq@),
                    operands: names_view(operands@),
                    iterators: iterators@,
                    has_main: has_main_iterator,
                },
            ),
        decreases items.len() - i,
    {
        let ghost seq_before = seq@;
        let ghost operands_before = operands@;
        assert(parts[i as int] == items@[i as int]@);
        assert(names_view(operands_before).len() == operands_before.len());
        match &items[i] {
            HeadItem::Keyword(k) => {
                let word = Word::Keyword(k.clone());
                seq.push(word);
                assert(sequence_view(seq@) =~= sequence_view(seq_before).push(word@));
            },
            HeadItem::Operand(name) => {
                push_variable_into_signature(name.as_str(), &mut seq, &mut operands);
                assert(names_view(operands@) =~= names_view(operands_before).push(name@));
            },
            HeadItem::Iterator(name) => {
                push_variable_into_signature(name.as_str(), &mut seq, &mut operands);
                assert(names_view(operands@) =~= names_view(operands_before).push(name@));
                iterators.push(operands.len() - 1);
            },
            HeadItem::MainIterator(name) => {
                if has_main_iterator {
                    proof {
                        lemma_head_read_error(parts, (i + 1) as nat, items@.len() as nat);
                    }
                    return Err(TranslateError::SecondMainIterator);
                }
                push_variable_into_signature(name.as_str(), &mut seq, &mut operands);
                assert(names_view(operands@) =~= names_view(operands_before).push(name@));
                has_main_iterator = true;
                iterators.insert(0, operands.len() - 1);
            },
        }
        i += 1;
    }
    Ok((seq, operands, iterators))
}

/// The layers with the variable `name` added to the innermost layer, which
/// must exist and must not hold the name yet.
pub open spec fn variable_added(layers: Layers, name: Seq<char>, value: ValueView) -> Result<
    Layers,
    TranslateError,
> {
    if layers.len() == 0 {
        Err(TranslateError::EmptyScope)
    } else if layers.last().contains_key(name) {
        Err(TranslateError::DuplicateVariable)
    } else {
        Ok(layers.update(layers.len() - 1, layers.last().insert(name, value)))
    }
}

/// The layers after the first `n` operands were declared in the innermost
/// layer, the operand `i` as `Any(i)`.
pub open spec fn operands_declared(layers: Layers, operands: Seq<Seq<char>>, n: nat) -> Result<
    Layers,
    TranslateError,
>
    decreases n,
{
    if n == 0 {
        Ok(layers)
    } else {
        match operands_declared(layers, operands, (n - 1) as nat) {
            Err(e) => Err(e),
            Ok(l) => variable_added(l, operands[n - 1], ValueView::Any((n - 1) as usize)),
        }
    }
}

/// What reading the first `n` statements of a body gives: the layers with
/// the static variables added, what each call may mean for the operands,
/// and the static variables. A call that can mean nothing is an error.
pub open spec fn body_read(
    t: TranslatorView,
    body: Seq<StatementView>,
    operand_count: nat,
    n: nat,
) -> Result<(Layers, Seq<Seq<Seq<VariableType>>>, Map<Seq<char>, ValueView>), TranslateError>
    decreases n,
{
    if n == 0 {
        Ok((t.globals, Seq::empty(), Map::empty()))
    } else {
        match body_read(t, body, operand_count, (n - 1) as nat) {
            Err(e) => Err(e),
            Ok((layers, usages, variables)) => match body[n - 1] {
                StatementView::Definition(name, seq) => match t.with_globals(
                    layers,
                ).sequence_value(seq) {
                    Err(e) => Err(e),
                    Ok(v) => match variable_added(layers, name, v) {
                        Err(e) => Err(e),
                        Ok(l) => Ok((l, usages, variables.insert(name, v))),
                    },
                },
                StatementView::Call(seq) => match parts(layers, seq, seq.len()) {
                    Err(e) => Err(e),
                    Ok((words, _)) => {
                        let found = t.automaton.interpretations(words, operand_count);
                        if found.len() == 0 {
                            Err(TranslateError::NoInterpretation)
                        } else {
                            Ok((layers, usages.push(found), variables))
                        }
                    },
                },
            },
        }
    }
}

/// The layers after the operands that the first `n` words of the signature
/// name got the values that variables of their types start with.
pub open spec fn defaults_set(
    layers: Layers,
    signature: Seq<WordView>,
    operands: Seq<Seq<char>>,
    types: Seq<VariableType>,
    n: nat,
) -> Result<Layers, TranslateError>
    decreases n,
{
    if n == 0 {
        Ok(layers)
    } else {
        match defaults_set(layers, signature, operands, types, (n - 1) as nat) {
            Err(e) => Err(e),
            Ok(l) => match signature[n - 1] {
                WordView::Type(VariableType::Any(var_id)) => {
                    if var_id >= types.len() || var_id >= operands.len() {
                        Err(TranslateError::UnknownOperand)
                    } else if !types[var_id as int].resolved() {
                        Err(TranslateError::UnresolvedType)
                    } else {
                        Ok(updated(l, operands[var_id as int], types[var_id as int].default_view()))
                    }
                },
                _ => Ok(l),
            },
        }
    }
}

/// The events that the calls among the first `n` statements of a body stand
/// for.
pub open spec fn body_events(t: TranslatorView, body: Seq<StatementView>, n: nat) -> Result<
    Seq<EventView>,
    TranslateError,
>
    decreases n,
{
    if n == 0 {
        Ok(Seq::empty())
    } else {
        match body_events(t, body, (n - 1) as nat) {
            Err(e) => Err(e),
            Ok(events) => match body[n - 1] {
                StatementView::Definition(_, _) => Ok(events),
                StatementView::Call(seq) => match t.event_of(seq) {
                    Err(e) => Err(e),
                    Ok(event) => Ok(events.push(event)),
                },
            },
        }
    }
}

/// The translator after the operation of a declaration was registered for
/// the operand types `types`: the operands get values of their types, the
/// calls of the body are resolved against them, and the operation is
/// registered under the signature with those types; and whether it was
/// registered.
pub open spec fn typed_operation_created(
    t: TranslatorView,
    signature: Seq<WordView>,
    operands: Seq<Seq<char>>,
    iterators: Seq<usize>,
    body: Seq<StatementView>,
    types: Seq<VariableType>,
    variables: Map<Seq<char>, ValueView>,
) -> Result<(TranslatorView, bool), TranslateError> {
    match defaults_set(t.globals, signature, operands, types, signature.len()) {
        Err(e) => Err(e),
        Ok(layers) => match body_events(t.with_globals(layers), body, body.len()) {
            Err(e) => Err(e),
            Ok(events) => Ok(
                t.with_globals(layers).operation_added(
                    typed_signature_view(signature, types, iterators),
                    operands,
                    events,
                    iterators,
                    variables,
                ),
            ),
        },
    }
}

/// The translator after an operation was registered for each of the first
/// `n` sets of operand types in turn.
pub open spec fn operations_created(
    t: TranslatorView,
    signature: Seq<WordView>,
    operands: Seq<Seq<char>>,
    iterators: Seq<usize>,
    body: Seq<StatementView>,
    choices: Seq<Seq<VariableType>>,
    variables: Map<Seq<char>, ValueView>,
    n: nat,
) -> Result<TranslatorView, TranslateError>
    decreases n,
{
    if n == 0 {
        Ok(t)
    } else {
        match operations_created(
            t,
            signature,
            operands,
            iterators,
            body,
            choices,
            variables,
            (n - 1) as nat,
        ) {
            Err(e) => Err(e),
            Ok(t1) => match typed_operation_created(
                t1,
                signature,
                operands,
                iterators,
                body,
                choices[n - 1],
                variables,
            ) {
                Err(e) => Err(e),
                Ok((t2, _)) => Ok(t2),
            },
        }
    }
}

/// The sets of operand types for which a declaration is registered: without
/// a call in the body the one of which nothing is known, and else every set
/// that satisfies all the calls.
pub open spec fn choices_of(usages: Seq<Seq<Seq<VariableType>>>, operand_count: nat) -> Seq<
    Seq<VariableType>,
> {
    if usages.len() == 0 {
        seq![unconstrained(operand_count)]
    } else {
        resolved(unconstrained(operand_count), usages, 0)
    }
}

/// The translator after the layer of a declaration was taken off.
pub open spec fn closed_declaration(t: Result<TranslatorView, TranslateError>) -> Result<
    TranslatorView,
    TranslateError,
> {
    match t {
        Err(e) => Err(e),
        Ok(t) => Ok(t.with_globals(t.globals.drop_last())),
    }
}

/// The translator after the declaration of an operation was handled.
///
/// The operands are declared in a new layer of the global variables; the
/// body is read there, which gives what each of its calls may mean for the
/// operands; one operation is registered for every set of operand types
/// that satisfies all the calls; then the layer is taken off. A declaration
/// whose calls contradict each other is an error.
pub open spec fn operation_handled(
    t: TranslatorView,
    signature: Seq<WordView>,
    operands: Seq<Seq<char>>,
    iterators: Seq<usize>,
    body: Seq<StatementView>,
) -> Result<TranslatorView, TranslateError> {
    match operands_declared(t.globals.push(Map::empty()), operands, operands.len()) {
        Err(e) => Err(e),
        Ok(l1) => match body_read(t.with_globals(l1), body, operands.len(), body.len()) {
            Err(e) => Err(e),
            Ok((l2, usages, variables)) => {
                let choices = choices_of(usages, operands.len());
                if choices.len() == 0 {
                    Err(TranslateError::Unsatisfiable)
                } else {
                    closed_declaration(
                        operations_created(
                            t.with_globals(l2),
                            signature,
                            operands,
                            iterators,
                            body,
                            choices,
                            variables,
                            choices.len(),
                        ),
                    )
                }
            },
        }
    }
}

/// The events that the first `n` sequences stand for.
pub open spec fn events_of(t: TranslatorView, sequences: Seq<Seq<TokenView>>, n: nat) -> Result<
    Seq<EventView>,
    TranslateError,
>
    decreases n,
{
    if n == 0 {
        Ok(Seq::empty())
    } else {
        match events_of(t, sequences, (n - 1) as nat) {
            Err(e) => Err(e),
            Ok(events) => match t.event_of(sequences[n - 1]) {
                Err(e) => Err(e),
                Ok(event) => Ok(events.push(event)),
            },
        }
    }
}

/// The action that a declaration stands for, or nothing for an action that
/// is neither active nor has a label by which it could be made active.
pub open spec fn action_of(t: TranslatorView, d: ActionDeclarationView) -> Result<
    Option<ActionView>,
    TranslateError,
> {
    match timestamp_of(d.quantifier, d.unit) {
        None => Err(TranslateError::UnknownUnit),
        Some((to_activate, time_accumulator)) => match events_of(t, d.events, d.events.len()) {
            Err(e) => Err(e),
            Ok(events) => if !d.active && d.label.len() == 0 {
                Ok(None)
            } else if to_activate.count() == 0 {
                Err(TranslateError::ZeroTarget)
            } else {
                Ok(
                    Some(
                        ActionView {
                            name: d.label,
                            active: d.active,
                            to_activate,
                            time_accumulator,
                            events,
                            onetime: d.onetime,
                            activated: false,
                        },
                    ),
                )
            },
        },
    }
}

/// The translator after the declaration of an operation was read and
/// handled.
pub open spec fn operation_parsed(t: TranslatorView, d: DeclarationView) -> Result<
    TranslatorView,
    TranslateError,
> {
    match head_read(d.head, d.head.len()) {
        Err(e) => Err(e),
        Ok(head) => operation_handled(t, head.signature, head.operands, head.iterators, d.body),
    }
}

/// The translator after the first `n` declarations were handled in turn.
pub open spec fn declarations_loaded(t: TranslatorView, l: Seq<DeclarationView>, n: nat) -> Result<
    TranslatorView,
    TranslateError,
>
    decreases n,
{
    if n == 0 {
        Ok(t)
    } else {
        match declarations_loaded(t, l, (n - 1) as nat) {
            Err(e) => Err(e),
            Ok(t1) => operation_parsed(t1, l[n - 1]),
        }
    }
}

/// The translator after a global variable was defined by the value that a
/// sequence stands for.
pub open spec fn variable_defined(t: TranslatorView, name: Seq<char>, seq: Seq<TokenView>) -> Result<
    TranslatorView,
    TranslateError,
> {
    match t.sequence_value(seq) {
        Err(e) => Err(e),
        Ok(v) => match variable_added(t.globals, name, v) {
            Err(e) => Err(e),
            Ok(l) => Ok(t.with_globals(l)),
        },
    }
}

/// The translator after an action was defined.
pub open spec fn action_defined(t: TranslatorView, d: ActionDeclarationView) -> Result<
    TranslatorView,
    TranslateError,
> {
    match action_of(t, d) {
        Err(e) => Err(e),
        Ok(None) => Ok(t),
        Ok(Some(action)) => Ok(TranslatorView { actions: t.actions.push(action), ..t }),
    }
}

/// The translator after the first `n` definitions were handled in turn.
pub open spec fn definitions_loaded(t: TranslatorView, l: Seq<DefinitionView>, n: nat) -> Result<
    TranslatorView,
    TranslateError,
>
    decreases n,
{
    if n == 0 {
        Ok(t)
    } else {
        match definitions_loaded(t, l, (n - 1) as nat) {
            Err(e) => Err(e),
            Ok(t1) => match l[n - 1] {
                DefinitionView::Variable(name, seq) => variable_defined(t1, name, seq),
                DefinitionView::Action(d) => action_defined(t1, d),
            },
        }
    }
}

/// The translator after a file was loaded: its declarations first, then
/// its definitions.
pub open spec fn loaded(
    t: TranslatorView,
    declarations: Seq<DeclarationView>,
    definitions: Seq<DefinitionView>,
) -> Result<TranslatorView, TranslateError> {
    match declarations_loaded(t, declarations, declarations.len()) {
        Err(e) => Err(e),
        Ok(t1) => definitions_loaded(t1, definitions, definitions.len()),
    }
}

/// An error among the first `k` declarations is the error of any more.
pub proof fn lemma_declarations_loaded_error(
    t: TranslatorView,
    l: Seq<DeclarationView>,
    k: nat,
    n: nat,
)
    requires
        declarations_loaded(t, l, k) is Err,
        k <= n,
    ensures
        declarations_loaded(t, l, n) == declarations_loaded(t, l, k),
    decreases n,
{
    if k < n {
        lemma_declarations_loaded_error(t, l, k, (n - 1) as nat);
    }
}

/// An error among the first `k` definitions is the error of any more.
pub proof fn lemma_definitions_loaded_error(
    t: TranslatorView,
    l: Seq<DefinitionView>,
    k: nat,
    n: nat,
)
    requires
        definitions_loaded(t, l, k) is Err,
        k <= n,
    ensures
        definitions_loaded(t, l, n) == definitions_loaded(t, l, k),
    decreases n,
{
    if k < n {
        lemma_definitions_loaded_error(t, l, k, (n - 1) as nat);
    }
}

/// An error among the first `k` elements is the error of any more.
pub proof fn lemma_variables_of_error(layers: Layers, items: Seq<ValueTemplateView>, k: nat, n: nat)
    requires
        variables_of(layers, items, k) is Err,
        k <= n <= items.len(),
    ensures
        variables_of(layers, items, n) == variables_of(layers, items, k),
    decreases n,
{
    if k < n {
        lemma_variables_of_error(layers, items, k, (n - 1) as nat);
    }
}

/// An error among the first `k` tokens is the error of any more.
pub proof fn lemma_parts_error(layers: Layers, seq: Seq<TokenView>, k: nat, n: nat)
    requires
        parts(layers, seq, k) is Err,
        k <= n,
    ensures
        parts(layers, seq, n) == parts(layers, seq, k),
    decreases n,
{
    if k < n {
        lemma_parts_error(layers, seq, k, (n - 1) as nat);
    }
}

/// An error among the first `k` operands is the error of any more.
pub proof fn lemma_operands_declared_error(layers: Layers, operands: Seq<Seq<char>>, k: nat, n: nat)
    requires
        operands_declared(layers, operands, k) is Err,
        k <= n,
    ensures
        operands_declared(layers, operands, n) == operands_declared(layers, operands, k),
    decreases n,
{
    if k < n {
        lemma_operands_declared_error(layers, operands, k, (n - 1) as nat);
    }
}

/// An error among the first `k` statements is the error of any more.
pub proof fn lemma_body_read_error(
    t: TranslatorView,
    body: Seq<StatementView>,
    operand_count: nat,
    k: nat,
    n: nat,
)
    requires
        body_read(t, body, operand_count, k) is Err,
        k <= n,
    ensures
        body_read(t, body, operand_count, n) == body_read(t, body, operand_count, k),
    decreases n,
{
    if k < n {
        lemma_body_read_error(t, body, operand_count, k, (n - 1) as nat);
    }
}

/// An error among the first `k` words is the error of any more.
pub proof fn lemma_defaults_set_error(
    layers: Layers,
    signature: Seq<WordView>,
    operands: Seq<Seq<char>>,
    types: Seq<VariableType>,
    k: nat,
    n: nat,
)
    requires
        defaults_set(layers, signature, operands, types, k) is Err,
        k <= n,
    ensures
        defaults_set(layers, signature, operands, types, n) == defaults_set(
            layers,
            signature,
            operands,
            types,
            k,
        ),
    decreases n,
{
    if k < n {
        lemma_defaults_set_error(layers, signature, operands, types, k, (n - 1) as nat);
    }
}

/// An error among the first `k` statements is the error of any more.
pub proof fn lemma_body_events_error(t: TranslatorView, body: Seq<StatementView>, k: nat, n: nat)
    requires
        body_events(t, body, k) is Err,
        k <= n,
    ensures
        body_events(t, body, n) == body_events(t, body, k),
    decreases n,
{
    if k < n {
        lemma_body_events_error(t, body, k, (n - 1) as nat);
    }
}

/// An error among the first `k` sequences is the error of any more.
pub proof fn lemma_events_of_error(t: TranslatorView, sequences: Seq<Seq<TokenView>>, k: nat, n: nat)
    requires
        events_of(t, sequences, k) is Err,
        k <= n,
    ensures
        events_of(t, sequences, n) == events_of(t, sequences, k),
    decreases n,
{
    if k < n {
        lemma_events_of_error(t, sequences, k, (n - 1) as nat);
    }
}

/// An error among the first `k` sets of operand types is the error of any
/// more.
pub proof fn lemma_operations_created_error(
    t: TranslatorView,
    signature: Seq<WordView>,
    operands: Seq<Seq<char>>,
    iterators: Seq<usize>,
    body: Seq<StatementView>,
    choices: Seq<Seq<VariableType>>,
    variables: Map<Seq<char>, ValueView>,
    k: nat,
    n: nat,
)
    requires
        operations_created(t, signature, operands, iterators, body, choices, variables, k) is Err,
        k <= n,
    ensures
        operations_created(t, signature, operands, iterators, body, choices, variables, n)
            == operations_created(t, signature, operands, iterators, body, choices, variables, k),
    decreases n,
{
    if k < n {
        lemma_operations_created_error(
            t,
            signature,
            operands,
            iterators,
            body,
            choices,
            variables,
            k,
            (n - 1) as nat,
        );
    }
}

/// Whether the layers are those of a declaration over `base`: the layers
/// of `base` with one more, which holds the operands.
pub open spec fn scoped(layers: Layers, base: Layers, operands: Seq<Seq<char>>, n: nat) -> bool {
    &&& layers.len() == base.len() + 1
    &&& layers.drop_last() == base
    &&& forall|i: int| 0 <= i < n ==> layers.last().contains_key(#[trigger] operands[i])
}

/// A variable that is added to the layers of a declaration leaves them the
/// layers of the declaration.
pub proof fn lemma_variable_added_scoped(
    layers: Layers,
    base: Layers,
    operands: Seq<Seq<char>>,
    n: nat,
    name: Seq<char>,
    value: ValueView,
)
    requires
        scoped(layers, base, operands, n),
        variable_added(layers, name, value) is Ok,
    ensures
        scoped(variable_added(layers, name, value)->Ok_0, base, operands, n),
        variable_added(layers, name, value)->Ok_0.last().contains_key(name),
{
    let after = variable_added(layers, name, value)->Ok_0;
    assert(after.drop_last() =~= layers.drop_last());
}

/// The operands are declared in the new layer.
pub proof fn lemma_operands_declared_scoped(base: Layers, operands: Seq<Seq<char>>, n: nat)
    requires
        operands_declared(base.push(Map::empty()), operands, n) is Ok,
    ensures
        scoped(operands_declared(base.push(Map::empty()), operands, n)->Ok_0, base, operands, n),
    decreases n,
{
    let first = base.push(Map::empty());
    if n == 0 {
        assert(first.drop_last() =~= base);
    } else {
        lemma_operands_declared_scoped(base, operands, (n - 1) as nat);
        let before = operands_declared(first, operands, (n - 1) as nat)->Ok_0;
        lemma_variable_added_scoped(
            before,
            base,
            operands,
            (n - 1) as nat,
            operands[n - 1],
            ValueView::Any((n - 1) as usize),
        );
    }
}

/// Reading the body of a declaration changes the layer of the declaration
/// only.
pub proof fn lemma_body_read_scoped(
    t: TranslatorView,
    base: Layers,
    operands: Seq<Seq<char>>,
    body: Seq<StatementView>,
    operand_count: nat,
    n: nat,
)
    requires
        scoped(t.globals, base, operands, operands.len()),
        body_read(t, body, operand_count, n) is Ok,
    ensures
        scoped(body_read(t, body, operand_count, n)->Ok_0.0, base, operands, operands.len()),
    decreases n,
{
    if n > 0 {
        lemma_body_read_scoped(t, base, operands, body, operand_count, (n - 1) as nat);
        let (layers, _, _) = body_read(t, body, operand_count, (n - 1) as nat)->Ok_0;
        match body[n - 1] {
            StatementView::Definition(name, seq) => {
                let v = t.with_globals(layers).sequence_value(seq)->Ok_0;
                lemma_variable_added_scoped(layers, base, operands, operands.len(), name, v);
            },
            StatementView::Call(_) => {},
        }
    }
}

/// A variable of the innermost layer is given its new value there.
pub proof fn lemma_updated_in_top(layers: Layers, name: Seq<char>, value: ValueView)
    requires
        layers.len() > 0,
        layers.last().contains_key(name),
    ensures
        updated(layers, name, value) == layers.update(
            layers.len() - 1,
            layers.last().insert(name, value),
        ),
{
}

/// Giving the operands their first values changes the layer of the
/// declaration only.
pub proof fn lemma_defaults_set_scoped(
    layers: Layers,
    base: Layers,
    signature: Seq<WordView>,
    operands: Seq<Seq<char>>,
    types: Seq<VariableType>,
    n: nat,
)
    requires
        scoped(layers, base, operands, operands.len()),
        defaults_set(layers, signature, operands, types, n) is Ok,
    ensures
        scoped(
            defaults_set(layers, signature, operands, types, n)->Ok_0,
            base,
            operands,
            operands.len(),
        ),
    decreases n,
{
    if n > 0 {
        lemma_defaults_set_scoped(layers, base, signature, operands, types, (n - 1) as nat);
        let before = defaults_set(layers, signature, operands, types, (n - 1) as nat)->Ok_0;
        let after = defaults_set(layers, signature, operands, types, n)->Ok_0;
        match signature[n - 1] {
            WordView::Type(VariableType::Any(var_id)) => {
                let name = operands[var_id as int];
                lemma_updated_in_top(before, name, types[var_id as int].default_view());
                assert(after.drop_last() =~= before.drop_last());
            },
            _ => {},
        }
    }
}

/// Registering operations changes the layer of the declaration only.
pub proof fn lemma_operations_created_scoped(
    t: TranslatorView,
    base: Layers,
    signature: Seq<WordView>,
    operands: Seq<Seq<char>>,
    iterators: Seq<usize>,
    body: Seq<StatementView>,
    choices: Seq<Seq<VariableType>>,
    variables: Map<Seq<char>, ValueView>,
    n: nat,
)
    requires
        scoped(t.globals, base, operands, operands.len()),
        operations_created(t, signature, operands, iterators, body, choices, variables, n) is Ok,
    ensures
        scoped(
            operations_created(
                t,
                signature,
                operands,
                iterators,
                body,
                choices,
                variables,
                n,
            )->Ok_0.globals,
            base,
            operands,
            operands.len(),
        ),
    decreases n,
{
    if n > 0 {
        lemma_operations_created_scoped(
            t,
            base,
            signature,
            operands,
            iterators,
            body,
            choices,
            variables,
            (n - 1) as nat,
        );
        let before = operations_created(
            t,
            signature,
            operands,
            iterators,
            body,
            choices,
            variables,
            (n - 1) as nat,
        )->Ok_0;
        lemma_defaults_set_scoped(
            before.globals,
            base,
            signature,
            operands,
            choices[n - 1],
            signature.len(),
        );
    }
}

/// A declaration leaves the global variables as they were: what it
/// declares, defines and sets is in its own layer, which is gone afterwards.
pub proof fn lemma_declaration_keeps_globals(
    t: TranslatorView,
    signature: Seq<WordView>,
    operands: Seq<Seq<char>>,
    iterators: Seq<usize>,
    body: Seq<StatementView>,
)
    requires
        operation_handled(t, signature, operands, iterators, body) is Ok,
    ensures
        operation_handled(t, signature, operands, iterators, body)->Ok_0.globals == t.globals,
        operation_handled(t, signature, operands, iterators, body)->Ok_0.builtins == t.builtins,
        operation_handled(t, signature, operands, iterators, body)->Ok_0.actions == t.actions,
{
    let l1 = operands_declared(t.globals.push(Map::empty()), operands, operands.len())->Ok_0;
    lemma_operands_declared_scoped(t.globals, operands, operands.len());
    let (l2, usages, variables) = body_read(
        t.with_globals(l1),
        body,
        operands.len(),
        body.len(),
    )->Ok_0;
    lemma_body_read_scoped(t.with_globals(l1), t.globals, operands, body, operands.len(), body.len());
    let choices = choices_of(usages, operands.len());
    lemma_operations_created_scoped(
        t.with_globals(l2),
        t.globals,
        signature,
        operands,
        iterators,
        body,
        choices,
        variables,
        choices.len(),
    );
    lemma_operations_created_rest(
        t.with_globals(l2),
        signature,
        operands,
        iterators,
        body,
        choices,
        variables,
        choices.len(),
    );
}

/// Registering operations leaves the built-in operations and the actions as
/// they were.
pub proof fn lemma_operations_created_rest(
    t: TranslatorView,
    signature: Seq<WordView>,
    operands: Seq<Seq<char>>,
    iterators: Seq<usize>,
    body: Seq<StatementView>,
    choices: Seq<Seq<VariableType>>,
    variables: Map<Seq<char>, ValueView>,
    n: nat,
)
    requires
        operations_created(t, signature, operands, iterators, body, choices, variables, n) is Ok,
    ensures
        operations_created(
            t,
            signature,
            operands,
            iterators,
            body,
            choices,
            variables,
            n,
        )->Ok_0.builtins == t.builtins,
        operations_created(
            t,
            signature,
            operands,
            iterators,
            body,
            choices,
            variables,
            n,
        )->Ok_0.actions == t.actions,
    decreases n,
{
    if n > 0 {
        lemma_operations_created_rest(
            t,
            signature,
            operands,
            iterators,
            body,
            choices,
            variables,
            (n - 1) as nat,
        );
    }
}

/// Handling declarations leaves the global variables, the built-in
/// operations and the actions as they were.
pub proof fn lemma_declarations_keep_globals(t: TranslatorView, l: Seq<DeclarationView>, n: nat)
    requires
        declarations_loaded(t, l, n) is Ok,
    ensures
        declarations_loaded(t, l, n)->Ok_0.globals == t.globals,
        declarations_loaded(t, l, n)->Ok_0.builtins == t.builtins,
        declarations_loaded(t, l, n)->Ok_0.actions == t.actions,
    decreases n,
{
    if n > 0 {
        lemma_declarations_keep_globals(t, l, (n - 1) as nat);
        let before = declarations_loaded(t, l, (n - 1) as nat)->Ok_0;
        let head = head_read(l[n - 1].head, l[n - 1].head.len())->Ok_0;
        lemma_declaration_keeps_globals(
            before,
            head.signature,
            head.operands,
            head.iterators,
            l[n - 1].body,
        );
    }
}

/// Handling definitions keeps the actions well formed, and leaves the
/// automaton and the operations as they were.
pub proof fn lemma_definitions_keep_actions_wf(t: TranslatorView, l: Seq<DefinitionView>, n: nat)
    requires
        actions_wf(t.actions),
        definitions_loaded(t, l, n) is Ok,
    ensures
        actions_wf(definitions_loaded(t, l, n)->Ok_0.actions),
        definitions_loaded(t, l, n)->Ok_0.automaton == t.automaton,
        definitions_loaded(t, l, n)->Ok_0.operations == t.operations,
    decreases n,
{
    if n > 0 {
        lemma_definitions_keep_actions_wf(t, l, (n - 1) as nat);
    }
}

/// The actions of a program that was loaded are well formed, so that the
/// program can be run.
pub proof fn lemma_loaded_actions_wf(
    t: TranslatorView,
    declarations: Seq<DeclarationView>,
    definitions: Seq<DefinitionView>,
)
    requires
        actions_wf(t.actions),
        loaded(t, declarations, definitions) is Ok,
    ensures
        actions_wf(loaded(t, declarations, definitions)->Ok_0.actions),
{
    lemma_declarations_keep_globals(t, declarations, declarations.len());
    let t1 = declarations_loaded(t, declarations, declarations.len())->Ok_0;
    lemma_definitions_keep_actions_wf(t1, definitions, definitions.len());
}

/// Adds a variable to the innermost layer; see `variable_added`. After an
/// error the layers are as they were.
pub fn add_variable(scope: &mut Stack, name: String, value: VariableValue) -> (r: Result<
    (),
    TranslateError,
>)
    ensures
        match variable_added(old(scope)@, name@, value@) {
            Ok(l) => r is Ok && final(scope)@ == l,
            Err(e) => r == Err::<(), TranslateError>(e) && final(scope)@ == old(scope)@,
        },
{
    let n = scope.layers.len();
    assert(scope@.len() == scope.layers@.len());
    if n == 0 {
        return Err(TranslateError::EmptyScope);
    }
    assert(scope@.last() == scope.layers@[n - 1]@);
    if scope.layers[n - 1].contains_key(name.as_str()) {
        return Err(TranslateError::DuplicateVariable);
    }
    scope.add_variable(name, value);
    Ok(())
}

/// Declares the operands of a declaration in the innermost layer; see
/// `operands_declared`.
pub fn declare_operands(scope: &mut Stack, operands: &Vec<String>) -> (r: Result<
    (),
    TranslateError,
>)
    ensures
        match operands_declared(old(scope)@, names_view(operands@), operands@.len()) {
            Ok(l) => r is Ok && final(scope)@ == l,
            Err(e) => r == Err::<(), TranslateError>(e),
        },
{
    let ghost start = scope@;
    let ghost names = names_view(operands@);
    let mut i: usize = 0;
    while i < operands.len()
        invariant
            i <= operands.len(),
            start == old(scope)@,
            names == names_view(operands@),
            operands_declared(start, names, i as nat) == Ok::<Layers, TranslateError>(scope@),
        decreases operands.len() - i,
    {
        match add_variable(scope, operands[i].clone(), VariableValue::Any(i)) {
            Ok(()) => {},
            Err(e) => {
                proof {
                    lemma_operands_declared_error(
                        start,
                        names,
                        (i + 1) as nat,
                        operands@.len() as nat,
                    );
                }
                return Err(e);
            },
        }
        i += 1;
    }
    Ok(())
}

/// Gives the operands that a signature names the values that variables of
/// their types start with; see `defaults_set`.
pub fn set_defaults(
    scope: &mut Stack,
    signature: &Vec<Word>,
    operands: &Vec<String>,
    types: &Vec<VariableType>,
) -> (r: Result<(), TranslateError>)
    ensures
        match defaults_set(
            old(scope)@,
            sequence_view(signature@),
            names_view(operands@),
            types@,
            signature@.len(),
        ) {
            Ok(l) => r is Ok && final(scope)@ == l,
            Err(e) => r == Err::<(), TranslateError>(e),
        },
{
    let ghost start = scope@;
    let ghost words = sequence_view(signature@);
    let ghost names = names_view(operands@);
    let mut i: usize = 0;
    while i < signature.len()
        invariant
            i <= signature.len(),
            start == old(scope)@,
            words == sequence_view(signature@),
            names == names_view(operands@),
            defaults_set(start, words, names, types@, i as nat) == Ok::<Layers, TranslateError>(
                scope@,
            ),
        decreases signature.len() - i,
    {
        let ghost before = scope@;
        let mut failure: Option<TranslateError> = None;
        match &signature[i] {
            Word::Type(VariableType::Any(var_id)) => {
                if *var_id >= types.len() || *var_id >= operands.len() {
                    failure = Some(TranslateError::UnknownOperand);
                } else if !is_resolved(&types[*var_id]) {
                    failure = Some(TranslateError::UnresolvedType);
                } else {
                    scope.update_variable(operands[*var_id].as_str(), types[*var_id].default());
                }
            },
            _ => {},
        }
        match failure {
            Some(e) => {
                proof {
                    lemma_defaults_set_error(
                        start,
                        words,
                        names,
                        types@,
                        (i + 1) as nat,
                        signature@.len() as nat,
                    );
                }
                return Err(e);
            },
            None => {},
        }
        i += 1;
    }
    Ok(())
}

/// Whether a value of the type can be made up.
pub fn is_resolved(t: &VariableType) -> (r: bool)
    ensures
        r == t.resolved(),
    decreases *t,
{
    match t {
        VariableType::Unresolved => false,
        VariableType::Vec(x) => is_resolved(x),
        _ => true,
    }
}

impl Translator {
    /// The value that a value template stands for; see `value_of`.
    pub fn get_atomic_value(&self, v: &ValueTemplate) -> (r: Result<VariableValue, TranslateError>)
        ensures
            match value_of(self@.globals, v@) {
                Ok(x) => r is Ok && r->Ok_0@ == x,
                Err(e) => r is Err && r->Err_0 == e,
            },
        decreases *v, 0nat,
    {
        match v {
            ValueTemplate::Literal(x) => Ok(x.clone()),
            ValueTemplate::Reference(n) => match self.globals.get_variable(n.as_str()) {
                Some(x) => Ok(x.clone()),
                None => Err(TranslateError::UnknownVariable),
            },
            ValueTemplate::Vector(items) => {
                proof {
                    lemma_vector_view(*items);
                }
                let ghost views = templates_view(items@);
                let mut vars: Vec<Variable> = Vec::new();
                assert(variables_view(vars@) =~= Seq::<VariableView>::empty());
                let mut i: usize = 0;
                while i < items.len()
                    invariant
                        i <= items.len(),
                        *v == ValueTemplate::Vector(*items),
                        views == templates_view(items@),
                        v@ == ValueTemplateView::Vector(views),
                        variables_of(self@.globals, views, i as nat) == Ok::<
                            Seq<VariableView>,
                            TranslateError,
                        >(variables_view(vars@)),
                    decreases items.len() - i,
                {
                    proof {
                        vstd::std_specs::vec::axiom_vec_index_decreases(*items, i as int);
                        assert((*v)->Vector_0 == *items);
                        assert(decreases_to!(*v => (*v)->Vector_0));
                    }
                    let ghost before = vars@;
                    assert(views[i as int] == items@[i as int]@);
                    match self.get_variable(&items[i]) {
                        Ok(x) => {
                            vars.push(x);
                            assert(variables_view(vars@) =~= variables_view(before).push(x@));
                        },
                        Err(e) => {
                            proof {
                                lemma_variables_of_error(
                                    self@.globals,
                                    views,
                                    (i + 1) as nat,
                                    items@.len() as nat,
                                );
                            }
                            return Err(e);
                        },
                    }
                    i += 1;
                }
                proof {
                    lemma_vec_view(vars);
                }
                Ok(VariableValue::Vec(vars))
            },
        }
    }

    /// The variable that an element of a list stands for; see
    /// `variable_of`.
    pub fn get_variable(&self, item: &ValueTemplate) -> (r: Result<Variable, TranslateError>)
        ensures
            match variable_of(self@.globals, item@) {
                Ok(x) => r is Ok && r->Ok_0@ == x,
                Err(e) => r is Err && r->Err_0 == e,
            },
        decreases *item, 1nat,
    {
        match item {
            ValueTemplate::Reference(n) => match self.globals.get_variable(n.as_str()) {
                Some(x) => Ok(Variable::new(n.as_str(), x.get_type())),
                None => Err(TranslateError::UnknownVariable),
            },
            _ => match self.get_atomic_value(item) {
                Ok(x) => Ok(x.to_var()),
                Err(e) => Err(e),
            },
        }
    }

    /// The words of a sequence and the variables that stand for its values;
    /// see `parts`.
    pub fn sequence_parts(&self, seq: &Vec<Token>) -> (r: Result<
        (Vec<Word>, Vec<Variable>),
        TranslateError,
    >)
        ensures
            match parts(self@.globals, tokens_view(seq@), seq@.len()) {
                Ok((words, params)) => {
                    &&& r is Ok
                    &&& sequence_view(r->Ok_0.0@) == words
                    &&& variables_view(r->Ok_0.1@) == params
                },
                Err(e) => r is Err && r->Err_0 == e,
            },
    {
        let ghost tokens = tokens_view(seq@);
        let mut words: Vec<Word> = Vec::new();
        let mut params: Vec<Variable> = Vec::new();
        assert(sequence_view(words@) =~= Seq::<WordView>::empty());
        assert(variables_view(params@) =~= Seq::<VariableView>::empty());
        let mut i: usize = 0;
        while i < seq.len()
            invariant
                i <= seq.len(),
                tokens == tokens_view(seq@),
                parts(self@.globals, tokens, i as nat) == Ok::<
                    (Seq<WordView>, Seq<VariableView>),
                    TranslateError,
                >((sequence_view(words@), variables_view(params@))),
            decreases seq.len() - i,
        {
            let ghost words_before = words@;
            let ghost params_before = params@;
            assert(tokens[i as int] == seq@[i as int]@);
            match &seq[i] {
                Token::Keyword(k) => {
                    let word = Word::Keyword(k.clone());
                    words.push(word);
                    assert(sequence_view(words@) =~= sequence_view(words_before).push(word@));
                },
                Token::Value(v) => {
                    let val = match self.get_atomic_value(v) {
                        Ok(val) => val,
                        Err(e) => {
                            proof {
                                lemma_parts_error(
                                    self@.globals,
                                    tokens,
                                    (i + 1) as nat,
                                    seq@.len() as nat,
                                );
                            }
                            return Err(e);
                        },
                    };
                    let word = Word::Type(val.get_type());
                    let param = match v {
                        ValueTemplate::Reference(name) => Variable::new(
                            name.as_str(),
                            val.get_type(),
                        ),
                        _ => Variable::new_static(val),
                    };
                    words.push(word);
                    params.push(param);
                    assert(sequence_view(words@) =~= sequence_view(words_before).push(word@));
                    assert(variables_view(params@) =~= variables_view(params_before).push(param@));
                },
            }
            i += 1;
        }
        Ok((words, params))
    }

    /// The words of a sequence.
    pub fn get_sequence(&self, seq: &Vec<Token>) -> (r: Result<Vec<Word>, TranslateError>)
        ensures
            match parts(self@.globals, tokens_view(seq@), seq@.len()) {
                Ok((words, _)) => r is Ok && sequence_view(r->Ok_0@) == words,
                Err(e) => r is Err && r->Err_0 == e,
            },
    {
        match self.sequence_parts(seq) {
            Ok((words, _)) => Ok(words),
            Err(e) => Err(e),
        }
    }

    /// The event that a sequence stands for; see `TranslatorView::event_of`.
    pub fn get_event(&self, seq: &Vec<Token>) -> (r: Result<Event, TranslateError>)
        requires
            self@.automaton.wf(),
        ensures
            match self@.event_of(tokens_view(seq@)) {
                Ok(event) => r is Ok && r->Ok_0@ == event,
                Err(e) => r is Err && r->Err_0 == e,
            },
    {
        match self.sequence_parts(seq) {
            Ok((words, params)) => self.sequence_to_event(&words, params),
            Err(e) => Err(e),
        }
    }

    /// The value that a sequence stands for; see
    /// `TranslatorView::sequence_value`.
    pub fn get_sequence_value(&self, seq: &Vec<Token>) -> (r: Result<VariableValue, TranslateError>)
        requires
            self@.automaton.wf(),
        ensures
            match self@.sequence_value(tokens_view(seq@)) {
                Ok(x) => r is Ok && r->Ok_0@ == x,
                Err(e) => r is Err && r->Err_0 == e,
            },
    {
        if seq.len() == 1 {
            return match &seq[0] {
                Token::Value(v) => self.get_atomic_value(v),
                Token::Keyword(_) => Err(TranslateError::NotAValue),
            };
        }
        let words = match self.get_sequence(seq) {
            Ok(words) => words,
            Err(e) => {
                return Err(e);
            },
        };
        match self.action_decision_automaton.run(&words) {
            None => Err(TranslateError::InvalidSequence),
            Some(SequenceValue::Component(id)) => Ok(VariableValue::Component(*id)),
            Some(_) => Err(TranslateError::NotAValue),
        }
    }

    /// Defines a global variable by the value that a sequence stands for;
    /// see `variable_defined`. After an error the translator is as it was.
    pub fn define_variable(&mut self, name: &str, seq: &Vec<Token>) -> (r: Result<
        (),
        TranslateError,
    >)
        requires
            old(self)@.automaton.wf(),
        ensures
            final(self)@.automaton.wf(),
            match variable_defined(old(self)@, name@, tokens_view(seq@)) {
                Ok(t) => r is Ok && final(self)@ == t,
                Err(e) => r == Err::<(), TranslateError>(e) && final(self)@ == old(self)@,
            },
    {
        let value = match self.get_sequence_value(seq) {
            Ok(value) => value,
            Err(e) => {
                return Err(e);
            },
        };
        add_variable(&mut self.globals, name.to_owned(), value)
    }

    /// Reads the body of a declaration; see `body_read`. Returns what each
    /// call may mean for the operands, and the static variables.
    pub fn read_body(&mut self, body: &Vec<Statement>, operand_count: usize) -> (r: Result<
        (Vec<Vec<TypeConstraints>>, VariableMap),
        TranslateError,
    >)
        requires
            old(self)@.automaton.wf(),
        ensures
            final(self)@.automaton == old(self)@.automaton,
            match body_read(
                old(self)@,
                statements_view(body@),
                operand_count as nat,
                body@.len(),
            ) {
                Ok((layers, usages, variables)) => {
                    &&& r is Ok
                    &&& final(self)@ == old(self)@.with_globals(layers)
                    &&& usages_view(r->Ok_0.0@) == usages
                    &&& r->Ok_0.1@ == variables
                },
                Err(e) => r is Err && r->Err_0 == e,
            },
    {
        let ghost start = self@;
        let ghost statements = statements_view(body@);
        let mut interpretations: Vec<Vec<TypeConstraints>> = Vec::new();
        let mut variables = VariableMap::new();
        assert(usages_view(interpretations@) =~= Seq::<Seq<Seq<VariableType>>>::empty());
        let mut i: usize = 0;
        while i < body.len()
            invariant
                i <= body.len(),
                start == old(self)@,
                start.automaton.wf(),
                statements == statements_view(body@),
                self@ == start.with_globals(self@.globals),
                body_read(start, statements, operand_count as nat, i as nat) == Ok::<
                    (Layers, Seq<Seq<Seq<VariableType>>>, Map<Seq<char>, ValueView>),
                    TranslateError,
                >((self@.globals, usages_view(interpretations@), variables@)),
            decreases body.len() - i,
        {
            let mut failure: Option<TranslateError> = None;
            match &body[i] {
                Statement::Definition(name, seq) => match self.get_sequence_value(seq) {
                    Err(e) => {
                        failure = Some(e);
                    },
                    Ok(value) => match add_variable(
                        &mut self.globals,
                        name.clone(),
                        value.clone(),
                    ) {
                        Err(e) => {
                            failure = Some(e);
                        },
                        Ok(()) => {
                            variables.insert(name.clone(), value);
                        },
                    },
                },
                Statement::Call(seq) => match self.get_sequence(seq) {
                    Err(e) => {
                        failure = Some(e);
                    },
                    Ok(words) => {
                        let found = get_event_interpretations(
                            &self.action_decision_automaton,
                            &words,
                            operand_count,
                            &mut interpretations,
                        );
                        if !found {
                            failure = Some(TranslateError::NoInterpretation);
                        }
                    },
                },
            }
            match failure {
                Some(e) => {
                    proof {
                        lemma_body_read_error(
                            start,
                            statements,
                            operand_count as nat,
                            (i + 1) as nat,
                            body@.len() as nat,
                        );
                    }
                    return Err(e);
                },
                None => {},
            }
            i += 1;
        }
        Ok((interpretations, variables))
    }

    /// The events that the calls of a body stand for; see `body_events`.
    pub fn get_body_events(&self, body: &Vec<Statement>) -> (r: Result<Vec<Event>, TranslateError>)
        requires
            self@.automaton.wf(),
        ensures
            match body_events(self@, statements_view(body@), body@.len()) {
                Ok(events) => r is Ok && events_view(r->Ok_0@) == events,
                Err(e) => r is Err && r->Err_0 == e,
            },
    {
        let ghost statements = statements_view(body@);
        let mut events: Vec<Event> = Vec::new();
        assert(events_view(events@) =~= Seq::<EventView>::empty());
        let mut i: usize = 0;
        while i < body.len()
            invariant
                i <= body.len(),
                self@.automaton.wf(),
                statements == statements_view(body@),
                body_events(self@, statements, i as nat) == Ok::<Seq<EventView>, TranslateError>(
                    events_view(events@),
                ),
            decreases body.len() - i,
        {
            let ghost before = events@;
            match &body[i] {
                Statement::Definition(_, _) => {},
                Statement::Call(seq) => match self.get_event(seq) {
                    Ok(event) => {
                        events.push(event);
                        assert(events_view(events@) =~= events_view(before).push(event@));
                    },
                    Err(e) => {
                        proof {
                            lemma_body_events_error(
                                self@,
                                statements,
                                (i + 1) as nat,
                                body@.len() as nat,
                            );
                        }
                        return Err(e);
                    },
                },
            }
            i += 1;
        }
        Ok(events)
    }

    /// The events that a list of sequences stands for; see `events_of`.
    pub fn get_events(&self, sequences: &Vec<Vec<Token>>) -> (r: Result<Vec<Event>, TranslateError>)
        requires
            self@.automaton.wf(),
        ensures
            match events_of(self@, sequences_of_tokens_view(sequences@), sequences@.len()) {
                Ok(events) => r is Ok && events_view(r->Ok_0@) == events,
                Err(e) => r is Err && r->Err_0 == e,
            },
    {
        let ghost views = sequences_of_tokens_view(sequences@);
        let mut events: Vec<Event> = Vec::new();
        assert(events_view(events@) =~= Seq::<EventView>::empty());
        let mut i: usize = 0;
        while i < sequences.len()
            invariant
                i <= sequences.len(),
                self@.automaton.wf(),
                views == sequences_of_tokens_view(sequences@),
                events_of(self@, views, i as nat) == Ok::<Seq<EventView>, TranslateError>(
                    events_view(events@),
                ),
            decreases sequences.len() - i,
        {
            let ghost before = events@;
            match self.get_event(&sequences[i]) {
                Ok(event) => {
                    events.push(event);
                    assert(events_view(events@) =~= events_view(before).push(event@));
                },
                Err(e) => {
                    proof {
                        lemma_events_of_error(
                            self@,
                            views,
                            (i + 1) as nat,
                            sequences@.len() as nat,
                        );
                    }
                    return Err(e);
                },
            }
            i += 1;
        }
        Ok(events)
    }

    /// Registers the operation of a declaration for the operand types
    /// `types`, and returns whether it was registered; see
    /// `typed_operation_created`.
    pub fn create_typed_operation(
        &mut self,
        signature: &Vec<Word>,
        operands: &Vec<String>,
        types: &Vec<VariableType>,
        body: &Vec<Statement>,
        iterators: &Vec<usize>,
        variables: &VariableMap,
    ) -> (r: Result<bool, TranslateError>)
        requires
            old(self)@.automaton.wf(),
        ensures
            final(self)@.automaton.wf(),
            match typed_operation_created(
                old(self)@,
                sequence_view(signature@),
                names_view(operands@),
                iterators@,
                statements_view(body@),
                types@,
                variables@,
            ) {
                Ok((t, registered)) => r == Ok::<bool, TranslateError>(registered) && final(self)@
                    == t,
                Err(e) => r == Err::<bool, TranslateError>(e),
            },
    {
        let new_signature = typed_signature(
            signature,
            types,
            iterators,
        );
        match set_defaults(
            &mut self.globals,
            signature,
            operands,
            types,
        ) {
            Ok(()) => {},
            Err(e) => {
                return Err(e);
            },
        }
        let events = match self.get_body_events(body) {
            Ok(events) => events,
            Err(e) => {
                return Err(e);
            },
        };
        let operands = clone_names(operands);
        Ok(self.add_operation(new_signature, operands, events, iterators, variables))
    }

    /// Handles the declaration of an operation; see `operation_handled`.
    pub fn handle_operation(
        &mut self,
        body: &Vec<Statement>,
        operands: &Vec<String>,
        signature: &Vec<Word>,
        iterators: &Vec<usize>,
    ) -> (r: Result<
        (),
        TranslateError,
    >)
        requires
            old(self)@.automaton.wf(),
        ensures
            final(self)@.automaton.wf(),
            match operation_handled(
                old(self)@,
                sequence_view(signature@),
                names_view(operands@),
                iterators@,
                statements_view(body@),
            ) {
                Ok(t) => r is Ok && final(self)@ == t,
                Err(e) => r == Err::<(), TranslateError>(e),
            },
    {
        let ghost start = self@;
        let ghost words = sequence_view(signature@);
        let ghost names = names_view(operands@);
        let ghost statements = statements_view(body@);
        let operand_count = operands.len();
        self.globals.push_layer();
        match declare_operands(&mut self.globals, operands) {
            Ok(()) => {},
            Err(e) => {
                return Err(e);
            },
        }
        let ghost declared = self@;
        assert(declared == start.with_globals(declared.globals));
        proof {
            lemma_operands_declared_scoped(start.globals, names, names.len());
        }
        let (interpretations, variables) = match self.read_body(body, operand_count) {
            Ok(found) => found,
            Err(e) => {
                return Err(e);
            },
        };
        let ghost read = self@;
        assert(read == start.with_globals(read.globals));
        proof {
            lemma_body_read_scoped(
                declared,
                start.globals,
                names,
                statements,
                names.len(),
                statements.len(),
            );
        }
        let choices = if interpretations.len() == 0 {
            let mut one: Vec<TypeConstraints> = Vec::new();
            one.push(TypeConstraints::new(operand_count));
            assert(constraints_view(one@) =~= seq![unconstrained(operand_count as nat)]);
            one
        } else {
            infer_datatypes_from_interpretations(&interpretations, operand_count)
        };
        assert(constraints_view(choices@) == choices_of(
            usages_view(interpretations@),
            operand_count as nat,
        ));
        if choices.len() == 0 {
            return Err(TranslateError::Unsatisfiable);
        }
        let ghost options = constraints_view(choices@);
        let ghost outcome = operation_handled(
            start,
            words,
            names,
            iterators@,
            statements,
        );
        assert(outcome == closed_declaration(
            operations_created(
                read,
                words,
                names,
                iterators@,
                statements,
                options,
                variables@,
                options.len(),
            ),
        ));
        let mut i: usize = 0;
        while i < choices.len()
            invariant
                i <= choices.len(),
                self@.automaton.wf(),
                outcome == closed_declaration(
                    operations_created(
                        read,
                        words,
                        names,
                        iterators@,
                        statements,
                        options,
                        variables@,
                        options.len(),
                    ),
                ),
                outcome == operation_handled(
                    old(self)@,
                    sequence_view(signature@),
                    names_view(operands@),
                    iterators@,
                    statements_view(body@),
                ),
                options == constraints_view(choices@),
                words == sequence_view(signature@),
                names == names_view(operands@),
                statements == statements_view(body@),
                operations_created(
                    read,
                    words,
                    names,
                    iterators@,
                    statements,
                    options,
                    variables@,
                    i as nat,
                ) == Ok::<TranslatorView, TranslateError>(self@),
            decreases choices.len() - i,
        {
            assert(options[i as int] == choices@[i as int]@);
            match self.create_typed_operation(
                signature,
                operands,
                choices[i].get_types(),
                body,
                iterators,
                &variables,
            ) {
                Ok(_) => {},
                Err(e) => {
                    proof {
                        lemma_operations_created_error(
                            read,
                            words,
                            names,
                            iterators@,
                            statements,
                            options,
                            variables@,
                            (i + 1) as nat,
                            choices@.len() as nat,
                        );
                    }
                    return Err(e);
                },
            }
            i += 1;
        }
        proof {
            lemma_operations_created_scoped(
                read,
                start.globals,
                words,
                names,
                iterators@,
                statements,
                options,
                variables@,
                options.len(),
            );
        }
        self.globals.pop_layer();
        Ok(())
    }

    /// Reads the head of a declaration and handles the declaration; see
    /// `operation_parsed`.
    pub fn parse_operation(&mut self, declaration: &Declaration) -> (r: Result<(), TranslateError>)
        requires
            old(self)@.automaton.wf(),
        ensures
            final(self)@.automaton.wf(),
            match operation_parsed(old(self)@, declaration@) {
                Ok(t) => r is Ok && final(self)@ == t,
                Err(e) => r == Err::<(), TranslateError>(e),
            },
    {
        let (signature, operands, iterators) = match parse_lhs(&declaration.head) {
            Ok(read) => read,
            Err(e) => {
                return Err(e);
            },
        };
        self.handle_operation(&declaration.body, &operands, &signature, &iterators)
    }

    /// Adds the action that a declaration stands for; see `action_defined`.
    /// After an error the translator is as it was.
    pub fn get_action_definition(&mut self, declaration: &ActionDeclaration) -> (r: Result<
        (),
        TranslateError,
    >)
        requires
            old(self)@.automaton.wf(),
        ensures
            final(self)@.automaton.wf(),
            match action_defined(old(self)@, declaration@) {
                Ok(t) => r is Ok && final(self)@ == t,
                Err(e) => r == Err::<(), TranslateError>(e) && final(self)@ == old(self)@,
            },
    {
        let (to_activate, time_accumulator) = match get_action_timestamp_and_acc(
            declaration.quantifier,
            declaration.unit.as_str(),
        ) {
            Some(found) => found,
            None => {
                return Err(TranslateError::UnknownUnit);
            },
        };
        let events = match self.get_events(&declaration.events) {
            Ok(events) => events,
            Err(e) => {
                return Err(e);
            },
        };
        if !declaration.active && declaration.label.as_str().is_empty() {
            return Ok(());
        }
        let target = match to_activate {
            Timestamp::Frame(t) => t,
            Timestamp::Millis(t) => t,
        };
        if target == 0 {
            return Err(TranslateError::ZeroTarget);
        }
        let action = Action::new(
            declaration.label.clone(),
            declaration.active,
            to_activate,
            time_accumulator,
            events,
            declaration.onetime,
        );
        self.actions.push(action);
        assert(self@.actions =~= old(self)@.actions.push(action@));
        Ok(())
    }

    /// Handles the declarations of a file in turn; see
    /// `declarations_loaded`.
    pub fn load_declarations(&mut self, declarations: &Vec<Declaration>) -> (r: Result<
        (),
        TranslateError,
    >)
        requires
            old(self)@.automaton.wf(),
        ensures
            final(self)@.automaton.wf(),
            match declarations_loaded(
                old(self)@,
                declarations_view(declarations@),
                declarations@.len(),
            ) {
                Ok(t) => r is Ok && final(self)@ == t,
                Err(e) => r == Err::<(), TranslateError>(e),
            },
    {
        let ghost start = self@;
        let ghost views = declarations_view(declarations@);
        let mut i: usize = 0;
        while i < declarations.len()
            invariant
                i <= declarations.len(),
                self@.automaton.wf(),
                start == old(self)@,
                views == declarations_view(declarations@),
                declarations_loaded(start, views, i as nat) == Ok::<TranslatorView, TranslateError>(
                    self@,
                ),
            decreases declarations.len() - i,
        {
            assert(views[i as int] == declarations@[i as int]@);
            match self.parse_operation(&declarations[i]) {
                Ok(()) => {},
                Err(e) => {
                    proof {
                        lemma_declarations_loaded_error(
                            start,
                            views,
                            (i + 1) as nat,
                            declarations@.len() as nat,
                        );
                    }
                    return Err(e);
                },
            }
            i += 1;
        }
        Ok(())
    }

    /// Handles the definitions of a file in turn; see `definitions_loaded`.
    pub fn load_definitions(&mut self, definitions: &Vec<Definition>) -> (r: Result<
        (),
        TranslateError,
    >)
        requires
            old(self)@.automaton.wf(),
        ensures
            final(self)@.automaton.wf(),
            match definitions_loaded(
                old(self)@,
                definitions_view(definitions@),
                definitions@.len(),
            ) {
                Ok(t) => r is Ok && final(self)@ == t,
                Err(e) => r == Err::<(), TranslateError>(e),
            },
    {
        let ghost start = self@;
        let ghost views = definitions_view(definitions@);
        let mut i: usize = 0;
        while i < definitions.len()
            invariant
                i <= definitions.len(),
                self@.automaton.wf(),
                start == old(self)@,
                views == definitions_view(definitions@),
                definitions_loaded(start, views, i as nat) == Ok::<TranslatorView, TranslateError>(
                    self@,
                ),
            decreases definitions.len() - i,
        {
            assert(views[i as int] == definitions@[i as int]@);
            let done = match &definitions[i] {
                Definition::Variable(name, seq) => self.define_variable(name.as_str(), seq),
                Definition::Action(declaration) => self.get_action_definition(declaration),
            };
            match done {
                Ok(()) => {},
                Err(e) => {
                    proof {
                        lemma_definitions_loaded_error(
                            start,
                            views,
                            (i + 1) as nat,
                            definitions@.len() as nat,
                        );
                    }
                    return Err(e);
                },
            }
            i += 1;
        }
        Ok(())
    }

    /// Loads a file: its declarations first, then its definitions; see
    /// `loaded`.
    pub fn load(&mut self, declarations: &Vec<Declaration>, definitions: &Vec<Definition>) -> (r:
        Result<(), TranslateError>)
        requires
            old(self)@.automaton.wf(),
        ensures
            final(self)@.automaton.wf(),
            match loaded(
                old(self)@,
                declarations_view(declarations@),
                definitions_view(definitions@),
            ) {
                Ok(t) => r is Ok && final(self)@ == t,
                Err(e) => r == Err::<(), TranslateError>(e),
            },
            r is Ok && actions_wf(old(self)@.actions) ==> actions_wf(final(self)@.actions),
    {
        proof {
            let views = declarations_view(declarations@);
            let others = definitions_view(definitions@);
            if actions_wf(self@.actions) && loaded(self@, views, others) is Ok {
                lemma_loaded_actions_wf(self@, views, others);
            }
        }
        match self.load_declarations(declarations) {
            Ok(()) => {},
            Err(e) => {
                return Err(e);
            },
        }
        self.load_definitions(definitions)
    }
}

/// A copy of a list of names.
pub fn clone_names(names: &Vec<String>) -> (r: Vec<String>)
    ensures
        names_view(r@) == names_view(names@),
{
    let mut out: Vec<String> = Vec::new();
    let mut i: usize = 0;
    while i < names.len()
        invariant
            i <= names.len(),
            out@.len() == i,
            forall|k: int| 0 <= k < i ==> (#[trigger] out@[k])@ == names@[k]@,
        decreases names.len() - i,
    {
        out.push(names[i].clone());
        i += 1;
    }
    assert(names_view(out@) =~= names_view(names@));
    out
}


} // verus!
