use crate::text::{decimal, digit as printed_digit};
use crate::translator::syntax::{
    head_view, lemma_vector_view, sequences_of_tokens_view, statements_view, templates_view,
    tokens_view, ActionDeclaration, ActionDeclarationView, Declaration, DeclarationView,
    Definition, DefinitionView, HeadItem, HeadItemView, Program, ProgramView, Statement,
    StatementView, Token, TokenView, ValueTemplate, ValueTemplateView,
};
use crate::translator::translation::{
    color_name_to_val, color_named, direction_named, direction_to_val, effect_named,
    effect_to_val, get_action_active, get_action_repeats, TranslateError,
};
use crate::translator::tree::{
    field_place, lemma_node_view, named_place, nodes_view, SyntaxNode, SyntaxNodeView,
};
use crate::variable::values::{ValueView, VariableValue};
use vstd::prelude::*;
use vstd::string::*;

verus! {

/// The number that a digit stands for.
pub open spec fn digit_of(c: char) -> Option<nat> {
    if c == '0' {
        Some(0)
    } else if c == '1' {
        Some(1)
    } else if c == '2' {
        Some(2)
    } else if c == '3' {
        Some(3)
    } else if c == '4' {
        Some(4)
    } else if c == '5' {
        Some(5)
    } else if c == '6' {
        Some(6)
    } else if c == '7' {
        Some(7)
    } else if c == '8' {
        Some(8)
    } else if c == '9' {
        Some(9)
    } else {
        None
    }
}

/// The number that the first `n` characters from `from` on stand for, if
/// they are digits.
pub open spec fn digits_read(text: Seq<char>, from: nat, n: nat) -> Option<nat>
    decreases n,
{
    if n == 0 {
        Some(0)
    } else {
        match (digits_read(text, from, (n - 1) as nat), digit_of(text[from + n - 1])) {
            (Some(v), Some(d)) => Some(10 * v + d),
            _ => None,
        }
    }
}

/// The number that a text stands for: the text is made of digits, at least
/// one, which a `+` may precede, and the number fits.
pub open spec fn number_of(text: Seq<char>) -> Option<usize> {
    let from: nat = if text.len() > 0 && text[0] == '+' {
        1
    } else {
        0
    };
    if text.len() <= from {
        None
    } else {
        match digits_read(text, from, (text.len() - from) as nat) {
            Some(v) => if v <= usize::MAX {
                Some(v as usize)
            } else {
                None
            },
            None => None,
        }
    }
}

/// More digits do not stand for less, and what is no number does not become
/// one by more characters.
pub proof fn lemma_digits_grow(text: Seq<char>, from: nat, k: nat, n: nat)
    requires
        k <= n,
    ensures
        digits_read(text, from, k) is None ==> digits_read(text, from, n) is None,
        digits_read(text, from, n) is Some ==> digits_read(text, from, k) is Some && digits_read(
            text,
            from,
            k,
        )->Some_0 <= digits_read(text, from, n)->Some_0,
    decreases n,
{
    if k < n {
        lemma_digits_grow(text, from, k, (n - 1) as nat);
    }
}

/// What the first characters of a text stand for does not depend on the
/// characters behind them.
pub proof fn lemma_digits_of_prefix(text: Seq<char>, last: char, k: nat)
    requires
        k <= text.len(),
    ensures
        digits_read(text.push(last), 0, k) == digits_read(text, 0, k),
    decreases k,
{
    if k > 0 {
        lemma_digits_of_prefix(text, last, (k - 1) as nat);
        assert(text.push(last)[k - 1] == text[k - 1]);
    }
}

/// The digits of a number stand for the number, and start with a digit.
pub proof fn lemma_digits_of_decimal(n: nat)
    ensures
        decimal(n).len() > 0,
        digit_of(decimal(n)[0]) is Some,
        digits_read(decimal(n), 0, decimal(n).len()) == Some(n),
    decreases n,
{
    if n < 10 {
        let text = decimal(n);
        assert(text.len() == 1 && text[0] == printed_digit(n));
        assert(digits_read(text, 0, 0) == Some(0nat));
        assert(digit_of(printed_digit(n)) == Some(n));
    } else {
        let front = decimal(n / 10);
        let last = printed_digit(n % 10);
        let text = front.push(last);
        lemma_digits_of_decimal(n / 10);
        lemma_digits_of_prefix(front, last, front.len());
        assert(text.len() == front.len() + 1);
        assert(text[text.len() - 1] == last);
        assert(text[0] == front[0]);
        assert(digit_of(last) == Some(n % 10));
        assert(digits_read(text, 0, (text.len() - 1) as nat) == Some(n / 10));
        assert(10 * (n / 10) + n % 10 == n);
    }
}

/// Reading what was printed: the text of a number, read as a number, is
/// the number.
pub proof fn lemma_number_read_back(n: usize)
    ensures
        number_of(decimal(n as nat)) == Some(n),
{
    lemma_digits_of_decimal(n as nat);
}

/// The number that a digit stands for; see `digit_of`.
pub fn digit(c: char) -> (r: Option<usize>)
    ensures
        match digit_of(c) {
            Some(d) => r == Some(d as usize) && d <= 9,
            None => r is None,
        },
{
    if c == '0' {
        Some(0)
    } else if c == '1' {
        Some(1)
    } else if c == '2' {
        Some(2)
    } else if c == '3' {
        Some(3)
    } else if c == '4' {
        Some(4)
    } else if c == '5' {
        Some(5)
    } else if c == '6' {
        Some(6)
    } else if c == '7' {
        Some(7)
    } else if c == '8' {
        Some(8)
    } else if c == '9' {
        Some(9)
    } else {
        None
    }
}

/// The number that a text stands for; see `number_of`.
pub fn node_to_int(text: &str) -> (r: Option<usize>)
    ensures
        r == number_of(text@),
{
    let len = text.unicode_len();
    let from: usize = if len > 0 && text.get_char(0) == '+' {
        1
    } else {
        0
    };
    if len <= from {
        return None;
    }
    let mut value: usize = 0;
    let mut i: usize = from;
    while i < len
        invariant
            from <= i <= len,
            from < len,
            len == text@.len(),
            from == (if text@.len() > 0 && text@[0] == '+' {
                1usize
            } else {
                0usize
            }),
            digits_read(text@, from as nat, (i - from) as nat) == Some(value as nat),
        decreases len - i,
    {
        proof {
            lemma_digits_grow(text@, from as nat, (i + 1 - from) as nat, (len - from) as nat);
            assert(digits_read(text@, from as nat, (i + 1 - from) as nat) == match (
                digits_read(text@, from as nat, (i - from) as nat),
                digit_of(text@[i as int]),
            ) {
                (Some(v), Some(d)) => Some(10 * v + d),
                _ => None,
            });
        }
        let d = match digit(text.get_char(i)) {
            Some(d) => d,
            None => {
                return None;
            },
        };
        let tens = match value.checked_mul(10) {
            Some(tens) => tens,
            None => {
                return None;
            },
        };
        value = match tens.checked_add(d) {
            Some(sum) => sum,
            None => {
                return None;
            },
        };
        i += 1;
    }
    Some(value)
}

/// The text between the quotes: a text without its first and its last
/// character.
pub open spec fn unquoted(text: Seq<char>) -> Option<Seq<char>> {
    if text.len() >= 2 {
        Some(text.subrange(1, text.len() - 1))
    } else {
        None
    }
}

/// The text of a string without its quotes.
pub fn node_to_string(node: &SyntaxNode) -> (r: Result<String, TranslateError>)
    ensures
        match string_of(node@) {
            Ok(s) => r is Ok && r->Ok_0@ == s,
            Err(e) => r is Err && r->Err_0 == e,
        },
{
    if !node.is("string") {
        return Err(TranslateError::Malformed);
    }
    let text = node.text.as_str();
    let len = text.unicode_len();
    if len < 2 {
        return Err(TranslateError::Malformed);
    }
    Ok(text.substring_char(1, len - 1).to_owned())
}

/// The text that a string stands for.
pub open spec fn string_of(node: SyntaxNodeView) -> Result<Seq<char>, TranslateError> {
    if node.kind != "string"@ {
        Err(TranslateError::Malformed)
    } else {
        match unquoted(node.text) {
            Some(s) => Ok(s),
            None => Err(TranslateError::Malformed),
        }
    }
}

/// The position that a node stands for: its first two named children are
/// its coordinates.
pub open spec fn position_of(node: SyntaxNodeView) -> Result<ValueView, TranslateError> {
    match (named_place(node.children, 0, 0), named_place(node.children, 1, 0)) {
        (Some(i), Some(j)) => match (
            number_of(node.children[i as int].text),
            number_of(node.children[j as int].text),
        ) {
            (Some(x), Some(y)) => Ok(ValueView::Pos(x, y)),
            _ => Err(TranslateError::UnreadableNumber),
        },
        _ => Err(TranslateError::Malformed),
    }
}

/// The color that a node stands for: the color of its name. A color that is
/// given by its code is not read.
pub open spec fn color_of(node: SyntaxNodeView) -> Result<ValueView, TranslateError> {
    if node.children.len() == 0 {
        Err(TranslateError::Malformed)
    } else if node.children[0].kind == "color_name"@ {
        match color_named(node.text) {
            Some(c) => Ok(ValueView::Color(c)),
            None => Err(TranslateError::UnknownColor),
        }
    } else {
        Err(TranslateError::ColorCode)
    }
}

/// The value that a node which is neither a variable nor a list stands for,
/// by its kind.
pub open spec fn literal_of(node: SyntaxNodeView) -> Result<ValueView, TranslateError> {
    if node.kind == "position"@ {
        position_of(node)
    } else if node.kind == "color"@ {
        color_of(node)
    } else if node.kind == "effect"@ {
        match effect_named(node.text) {
            Some(e) => Ok(ValueView::Effect(e)),
            None => Err(TranslateError::UnknownEffect),
        }
    } else if node.kind == "direction"@ {
        match direction_named(node.text) {
            Some(d) => Ok(ValueView::Direction(d)),
            None => Err(TranslateError::UnknownDirection),
        }
    } else if node.kind == "number"@ {
        match number_of(node.text) {
            Some(n) => Ok(ValueView::Int(n as i32)),
            None => Err(TranslateError::UnreadableNumber),
        }
    } else if node.kind == "string"@ {
        match string_of(node) {
            Ok(s) => Ok(ValueView::String(s)),
            Err(e) => Err(e),
        }
    } else {
        Err(TranslateError::UnknownValue)
    }
}

/// The value template that a value stands for: the name of a variable, a
/// list of the templates of its elements, or a literal.
pub open spec fn template_of(node: SyntaxNodeView) -> Result<ValueTemplateView, TranslateError>
    decreases node, 1nat,
{
    if node.kind != "value"@ || node.children.len() == 0 {
        Err(TranslateError::Malformed)
    } else {
        let val = node.children[0];
        if val.kind == "variable"@ {
            Ok(ValueTemplateView::Reference(val.text))
        } else if val.kind == "vector"@ {
            match elements_of(val.children, val.children.len()) {
                Ok(items) => Ok(ValueTemplateView::Vector(items)),
                Err(e) => Err(e),
            }
        } else {
            match literal_of(val) {
                Ok(v) => Ok(ValueTemplateView::Literal(v)),
                Err(e) => Err(e),
            }
        }
    }
}

/// The templates of the elements of a list: those of the named ones among
/// the first `n` nodes.
pub open spec fn elements_of(nodes: Seq<SyntaxNodeView>, n: nat) -> Result<
    Seq<ValueTemplateView>,
    TranslateError,
>
    decreases nodes, n,
{
    if n == 0 || n > nodes.len() {
        Ok(Seq::empty())
    } else {
        match elements_of(nodes, (n - 1) as nat) {
            Err(e) => Err(e),
            Ok(items) => if nodes[n - 1].named {
                match element_of(nodes[n - 1]) {
                    Err(e) => Err(e),
                    Ok(item) => Ok(items.push(item)),
                }
            } else {
                Ok(items)
            },
        }
    }
}

/// The template of an element of a list; a string cannot be one.
pub open spec fn element_of(node: SyntaxNodeView) -> Result<ValueTemplateView, TranslateError>
    decreases node, 2nat,
{
    if node.kind == "value"@ && node.children.len() > 0 && node.children[0].kind == "string"@ {
        Err(TranslateError::UnknownValue)
    } else {
        template_of(node)
    }
}

/// An error among the first `k` nodes is the error of any more.
pub proof fn lemma_elements_of_error(nodes: Seq<SyntaxNodeView>, k: nat, n: nat)
    requires
        elements_of(nodes, k) is Err,
        k <= n <= nodes.len(),
    ensures
        elements_of(nodes, n) == elements_of(nodes, k),
    decreases n,
{
    if k < n {
        lemma_elements_of_error(nodes, k, (n - 1) as nat);
    }
}

/// The name of the variable that a node stands for: the text of a
/// variable, or of a value that is a variable.
pub open spec fn variable_name_of(node: SyntaxNodeView) -> Option<Seq<char>> {
    if node.kind == "value"@ {
        if node.children.len() > 0 && node.children[0].kind == "variable"@ {
            Some(node.text)
        } else {
            None
        }
    } else if node.kind == "variable"@ {
        Some(node.text)
    } else {
        None
    }
}

/// The name of the variable that a node stands for; see
/// `variable_name_of`.
pub fn get_variable_name(node: &SyntaxNode) -> (r: Option<&str>)
    ensures
        match variable_name_of(node@) {
            Some(name) => r is Some && r->Some_0@ == name,
            None => r is None,
        },
{
    proof {
        lemma_node_view(*node);
    }
    if node.is("value") {
        if node.children.len() > 0 && node.children[0].is("variable") {
            Some(node.text.as_str())
        } else {
            None
        }
    } else if node.is("variable") {
        Some(node.text.as_str())
    } else {
        None
    }
}

/// The position that a node stands for; see `position_of`.
pub fn pos_to_val(node: &SyntaxNode) -> (r: Result<VariableValue, TranslateError>)
    ensures
        match position_of(node@) {
            Ok(v) => r is Ok && r->Ok_0@ == v,
            Err(e) => r is Err && r->Err_0 == e,
        },
{
    proof {
        lemma_node_view(*node);
    }
    let (i, j) = match (node.named_child(0), node.named_child(1)) {
        (Some(i), Some(j)) => (i, j),
        _ => {
            return Err(TranslateError::Malformed);
        },
    };
    match (
        node_to_int(node.children[i].text.as_str()),
        node_to_int(node.children[j].text.as_str()),
    ) {
        (Some(x), Some(y)) => Ok(VariableValue::Pos(x, y)),
        _ => Err(TranslateError::UnreadableNumber),
    }
}

/// The color that a node stands for; see `color_of`.
pub fn color_to_val(node: &SyntaxNode) -> (r: Result<VariableValue, TranslateError>)
    ensures
        match color_of(node@) {
            Ok(v) => r is Ok && r->Ok_0@ == v,
            Err(e) => r is Err && r->Err_0 == e,
        },
{
    proof {
        lemma_node_view(*node);
    }
    if node.children.len() == 0 {
        return Err(TranslateError::Malformed);
    }
    if !node.children[0].is("color_name") {
        return Err(TranslateError::ColorCode);
    }
    match color_name_to_val(node.text.as_str()) {
        Some(c) => Ok(VariableValue::Color(c)),
        None => Err(TranslateError::UnknownColor),
    }
}

/// The value that a node which is neither a variable nor a list stands
/// for; see `literal_of`.
pub fn get_literal(node: &SyntaxNode) -> (r: Result<VariableValue, TranslateError>)
    ensures
        match literal_of(node@) {
            Ok(v) => r is Ok && r->Ok_0@ == v,
            Err(e) => r is Err && r->Err_0 == e,
        },
{
    if node.is("position") {
        pos_to_val(node)
    } else if node.is("color") {
        color_to_val(node)
    } else if node.is("effect") {
        match effect_to_val(node.text.as_str()) {
            Some(e) => Ok(VariableValue::Effect(e)),
            None => Err(TranslateError::UnknownEffect),
        }
    } else if node.is("direction") {
        match direction_to_val(node.text.as_str()) {
            Some(d) => Ok(VariableValue::Direction(d)),
            None => Err(TranslateError::UnknownDirection),
        }
    } else if node.is("number") {
        match node_to_int(node.text.as_str()) {
            Some(n) => Ok(VariableValue::Int(#[verifier::truncate] (n as i32))),
            None => Err(TranslateError::UnreadableNumber),
        }
    } else if node.is("string") {
        match node_to_string(node) {
            Ok(s) => Ok(VariableValue::String(s)),
            Err(e) => Err(e),
        }
    } else {
        Err(TranslateError::UnknownValue)
    }
}

/// The value template that a value stands for; see `template_of`.
pub fn get_template(node: &SyntaxNode) -> (r: Result<ValueTemplate, TranslateError>)
    ensures
        match template_of(node@) {
            Ok(t) => r is Ok && r->Ok_0@ == t,
            Err(e) => r is Err && r->Err_0 == e,
        },
    decreases *node, 1nat,
{
    proof {
        lemma_node_view(*node);
    }
    if !node.is("value") || node.children.len() == 0 {
        return Err(TranslateError::Malformed);
    }
    let val = &node.children[0];
    proof {
        lemma_node_view(*val);
    }
    if val.is("variable") {
        return Ok(ValueTemplate::Reference(val.text.clone()));
    }
    if !val.is("vector") {
        return match get_literal(val) {
            Ok(v) => Ok(ValueTemplate::Literal(v)),
            Err(e) => Err(e),
        };
    }
    let mut items: Vec<ValueTemplate> = Vec::new();
    assert(templates_view(items@) =~= Seq::<ValueTemplateView>::empty());
    let ghost outcome = template_of(node@);
    assert(outcome == match elements_of(val@.children, val@.children.len()) {
        Ok(items) => Ok::<ValueTemplateView, TranslateError>(ValueTemplateView::Vector(items)),
        Err(e) => Err(e),
    });
    let mut i: usize = 0;
    while i < val.children.len()
        invariant
            i <= val.children.len(),
            outcome == template_of(node@),
            outcome == match elements_of(val@.children, val@.children.len()) {
                Ok(items) => Ok::<ValueTemplateView, TranslateError>(
                    ValueTemplateView::Vector(items),
                ),
                Err(e) => Err(e),
            },
            *val == node.children@[0],
            node.children@.len() > 0,
            val@.children.len() == val.children@.len(),
            forall|j: int|
                0 <= j < val.children@.len() ==> (#[trigger] val@.children[j]) == val.children@[j]@,
            elements_of(val@.children, i as nat) == Ok::<Seq<ValueTemplateView>, TranslateError>(
                templates_view(items@),
            ),
        decreases val.children.len() - i,
    {
        let ghost before = items@;
        if val.children[i].named {
            proof {
                vstd::std_specs::vec::axiom_vec_index_decreases(node.children, 0);
                vstd::std_specs::vec::axiom_vec_index_decreases(val.children, i as int);
                assert(decreases_to!(*node => node.children));
                assert(decreases_to!(*val => val.children));
            }
            match get_element(&val.children[i]) {
                Ok(item) => {
                    items.push(item);
                    assert(templates_view(items@) =~= templates_view(before).push(item@));
                },
                Err(e) => {
                    proof {
                        lemma_elements_of_error(
                            val@.children,
                            (i + 1) as nat,
                            val.children@.len() as nat,
                        );
                    }
                    return Err(e);
                },
            }
        }
        i += 1;
    }
    proof {
        lemma_vector_view(items);
    }
    Ok(ValueTemplate::Vector(items))
}

/// The template of an element of a list; see `element_of`.
pub fn get_element(node: &SyntaxNode) -> (r: Result<ValueTemplate, TranslateError>)
    ensures
        match element_of(node@) {
            Ok(t) => r is Ok && r->Ok_0@ == t,
            Err(e) => r is Err && r->Err_0 == e,
        },
    decreases *node, 2nat,
{
    proof {
        lemma_node_view(*node);
    }
    if node.is("value") && node.children.len() > 0 && node.children[0].is("string") {
        return Err(TranslateError::UnknownValue);
    }
    get_template(node)
}

/// The tokens that the first `n` nodes of a sequence stand for: a keyword
/// for itself, a value for its template.
pub open spec fn tokens_read(nodes: Seq<SyntaxNodeView>, n: nat) -> Result<
    Seq<TokenView>,
    TranslateError,
>
    decreases n,
{
    if n == 0 {
        Ok(Seq::empty())
    } else {
        match tokens_read(nodes, (n - 1) as nat) {
            Err(e) => Err(e),
            Ok(tokens) => {
                let node = nodes[n - 1];
                if node.kind == "keyword"@ {
                    Ok(tokens.push(TokenView::Keyword(node.text)))
                } else if node.kind == "value"@ {
                    match template_of(node) {
                        Ok(t) => Ok(tokens.push(TokenView::Value(t))),
                        Err(e) => Err(e),
                    }
                } else if node.kind == ";"@ {
                    Ok(tokens)
                } else {
                    Err(TranslateError::Malformed)
                }
            },
        }
    }
}

/// The tokens that a sequence stands for.
pub open spec fn sequence_of(node: SyntaxNodeView) -> Result<Seq<TokenView>, TranslateError> {
    if node.kind != "sequence"@ {
        Err(TranslateError::Malformed)
    } else {
        tokens_read(node.children, node.children.len())
    }
}

/// The name and the sequence of the definition of a variable: its first
/// and its third child.
pub open spec fn definition_of(node: SyntaxNodeView) -> Result<
    (Seq<char>, Seq<TokenView>),
    TranslateError,
> {
    if node.children.len() < 3 {
        Err(TranslateError::Malformed)
    } else {
        match sequence_of(node.children[2]) {
            Ok(tokens) => Ok((node.children[0].text, tokens)),
            Err(e) => Err(e),
        }
    }
}

/// The statements that the first `n` nodes of a body stand for: the
/// definitions of variables and the sequences among its named nodes.
pub open spec fn statements_read(nodes: Seq<SyntaxNodeView>, n: nat) -> Result<
    Seq<StatementView>,
    TranslateError,
>
    decreases n,
{
    if n == 0 {
        Ok(Seq::empty())
    } else {
        match statements_read(nodes, (n - 1) as nat) {
            Err(e) => Err(e),
            Ok(statements) => {
                let node = nodes[n - 1];
                if node.named && node.kind == "var_definition"@ {
                    match definition_of(node) {
                        Ok((name, tokens)) => Ok(
                            statements.push(StatementView::Definition(name, tokens)),
                        ),
                        Err(e) => Err(e),
                    }
                } else if node.named && node.kind == "sequence"@ {
                    match sequence_of(node) {
                        Ok(tokens) => Ok(statements.push(StatementView::Call(tokens))),
                        Err(e) => Err(e),
                    }
                } else {
                    Ok(statements)
                }
            },
        }
    }
}

/// The part of a head that an iterator stands for: its variable, as the
/// main iterator where the field `main` is filled.
pub open spec fn iterator_of(node: SyntaxNodeView) -> Result<HeadItemView, TranslateError> {
    match field_place(node.children, "variable"@, 0) {
        None => Err(TranslateError::Malformed),
        Some(i) => {
            let variable = node.children[i as int];
            if variable.kind != "variable"@ {
                Err(TranslateError::Malformed)
            } else if field_place(node.children, "main"@, 0) is Some {
                Ok(HeadItemView::MainIterator(variable.text))
            } else {
                Ok(HeadItemView::Iterator(variable.text))
            }
        },
    }
}

/// The parts of a head that the named ones among the first `n` nodes of a
/// signature stand for.
pub open spec fn head_items_read(nodes: Seq<SyntaxNodeView>, n: nat) -> Result<
    Seq<HeadItemView>,
    TranslateError,
>
    decreases n,
{
    if n == 0 {
        Ok(Seq::empty())
    } else {
        match head_items_read(nodes, (n - 1) as nat) {
            Err(e) => Err(e),
            Ok(items) => {
                let node = nodes[n - 1];
                if !node.named {
                    Ok(items)
                } else if node.kind == "keyword"@ {
                    Ok(items.push(HeadItemView::Keyword(node.text)))
                } else if node.kind == "variable"@ {
                    Ok(items.push(HeadItemView::Operand(node.text)))
                } else if node.kind == "iterator"@ {
                    match iterator_of(node) {
                        Ok(item) => Ok(items.push(item)),
                        Err(e) => Err(e),
                    }
                } else {
                    Err(TranslateError::Malformed)
                }
            },
        }
    }
}

/// The declaration of an operation that a node stands for: its first named
/// child is the signature, its second the body. A declaration of anything
/// else than an operation stands for nothing.
pub open spec fn declaration_of(node: SyntaxNodeView) -> Result<
    Option<DeclarationView>,
    TranslateError,
> {
    if field_place(node.children, "operation"@, 0) is None {
        Ok(None)
    } else {
        match (named_place(node.children, 0, 0), named_place(node.children, 1, 0)) {
            (Some(i), Some(j)) => {
                let signature = node.children[i as int];
                let body = node.children[j as int];
                match head_items_read(signature.children, signature.children.len()) {
                    Err(e) => Err(e),
                    Ok(head) => match statements_read(body.children, body.children.len()) {
                        Err(e) => Err(e),
                        Ok(body) => Ok(Some(DeclarationView { head, body })),
                    },
                }
            },
            _ => Err(TranslateError::Malformed),
        }
    }
}

/// What a trigger says: whether the action is active from the start,
/// whether it fires once only, and its time as a number of units. The
/// trigger of an action that is not active starts with `!`; a trigger that
/// repeats goes on with `every`; the number may be left out and is 1 then.
pub open spec fn trigger_of(node: SyntaxNodeView) -> Result<
    (bool, bool, usize, Seq<char>),
    TranslateError,
> {
    let parts = node.children;
    if parts.len() == 0 {
        Err(TranslateError::Malformed)
    } else {
        let active = parts[0].text != "!"@;
        let at: int = if active {
            0
        } else {
            1
        };
        if parts.len() < at + 2 {
            Err(TranslateError::Malformed)
        } else {
            let onetime = parts[at].text != "every"@;
            if parts[at + 1].kind == "number"@ {
                if parts.len() < at + 3 {
                    Err(TranslateError::Malformed)
                } else {
                    match number_of(parts[at + 1].text) {
                        None => Err(TranslateError::UnreadableNumber),
                        Some(q) => Ok((active, onetime, q, parts[at + 2].text)),
                    }
                }
            } else {
                Ok((active, onetime, 1, parts[at + 1].text))
            }
        }
    }
}

/// The sequences among the first `n` nodes of the events of an action: the
/// named nodes that are sequences.
pub open spec fn sequences_read(nodes: Seq<SyntaxNodeView>, n: nat) -> Result<
    Seq<Seq<TokenView>>,
    TranslateError,
>
    decreases n,
{
    if n == 0 {
        Ok(Seq::empty())
    } else {
        match sequences_read(nodes, (n - 1) as nat) {
            Err(e) => Err(e),
            Ok(sequences) => {
                let node = nodes[n - 1];
                if node.named && node.kind == "sequence"@ {
                    match sequence_of(node) {
                        Ok(tokens) => Ok(sequences.push(tokens)),
                        Err(e) => Err(e),
                    }
                } else {
                    Ok(sequences)
                }
            },
        }
    }
}

/// The label of an action and the number of the nodes that it takes up: its
/// first node, if that is a string, and else none.
pub open spec fn action_label_of(node: SyntaxNodeView) -> Result<(Seq<char>, usize), TranslateError> {
    if node.children.len() > 0 && node.children[0].kind == "string"@ {
        match string_of(node.children[0]) {
            Ok(label) => Ok((label, 1)),
            Err(e) => Err(e),
        }
    } else {
        Ok((Seq::empty(), 0))
    }
}

/// The declaration of an action that a node stands for: a label, which may
/// be left out, a trigger and the events.
pub open spec fn action_declared(node: SyntaxNodeView) -> Result<
    ActionDeclarationView,
    TranslateError,
> {
    let parts = node.children;
    match action_label_of(node) {
        Err(e) => Err(e),
        Ok((label, at)) => if parts.len() < at + 2 {
            Err(TranslateError::Malformed)
        } else {
            match trigger_of(parts[at as int]) {
                Err(e) => Err(e),
                Ok((active, onetime, quantifier, unit)) => {
                    let events = parts[at + 1];
                    if events.kind != "events"@ {
                        Err(TranslateError::Malformed)
                    } else {
                        match sequences_read(events.children, events.children.len()) {
                            Err(e) => Err(e),
                            Ok(events) => Ok(
                                ActionDeclarationView {
                                    label,
                                    active,
                                    onetime,
                                    quantifier,
                                    unit,
                                    events,
                                },
                            ),
                        }
                    }
                },
            }
        },
    }
}

/// The name of the file that a node asks for.
pub open spec fn file_of(node: SyntaxNodeView) -> Result<Seq<char>, TranslateError> {
    match field_place(node.children, "filename"@, 0) {
        None => Err(TranslateError::Malformed),
        Some(i) => string_of(node.children[i as int]),
    }
}

/// The program with what one more node of the file stands for: a file that
/// is asked for, the declaration of an operation, the definition of a
/// variable or of an action. A comment stands for nothing.
pub open spec fn item_read(program: ProgramView, node: SyntaxNodeView) -> Result<
    ProgramView,
    TranslateError,
> {
    if node.kind == "file_load"@ {
        match file_of(node) {
            Err(e) => Err(e),
            Ok(file) => Ok(ProgramView { files: program.files.push(file), ..program }),
        }
    } else if node.kind == "declaration"@ {
        match declaration_of(node) {
            Err(e) => Err(e),
            Ok(None) => Ok(program),
            Ok(Some(d)) => Ok(
                ProgramView { declarations: program.declarations.push(d), ..program },
            ),
        }
    } else if node.kind == "var_definition"@ {
        match definition_of(node) {
            Err(e) => Err(e),
            Ok((name, tokens)) => Ok(
                ProgramView {
                    definitions: program.definitions.push(DefinitionView::Variable(name, tokens)),
                    ..program
                },
            ),
        }
    } else if node.kind == "action"@ {
        match action_declared(node) {
            Err(e) => Err(e),
            Ok(a) => Ok(
                ProgramView {
                    definitions: program.definitions.push(DefinitionView::Action(a)),
                    ..program
                },
            ),
        }
    } else if node.kind == "comment"@ {
        Ok(program)
    } else {
        Err(TranslateError::Malformed)
    }
}

/// The program that the first `n` nodes of a file stand for.
pub open spec fn program_read(nodes: Seq<SyntaxNodeView>, n: nat) -> Result<
    ProgramView,
    TranslateError,
>
    decreases n,
{
    if n == 0 {
        Ok(
            ProgramView {
                files: Seq::empty(),
                declarations: Seq::empty(),
                definitions: Seq::empty(),
            },
        )
    } else {
        match program_read(nodes, (n - 1) as nat) {
            Err(e) => Err(e),
            Ok(program) => item_read(program, nodes[n - 1]),
        }
    }
}

/// The program that a file stands for, given the root of its syntax tree.
pub open spec fn program_of(root: SyntaxNodeView) -> Result<ProgramView, TranslateError> {
    program_read(root.children, root.children.len())
}

/// An error among the first `k` nodes is the error of any more.
pub proof fn lemma_tokens_read_error(nodes: Seq<SyntaxNodeView>, k: nat, n: nat)
    requires
        tokens_read(nodes, k) is Err,
        k <= n,
    ensures
        tokens_read(nodes, n) == tokens_read(nodes, k),
    decreases n,
{
    if k < n {
        lemma_tokens_read_error(nodes, k, (n - 1) as nat);
    }
}

/// An error among the first `k` nodes is the error of any more.
pub proof fn lemma_statements_read_error(nodes: Seq<SyntaxNodeView>, k: nat, n: nat)
    requires
        statements_read(nodes, k) is Err,
        k <= n,
    ensures
        statements_read(nodes, n) == statements_read(nodes, k),
    decreases n,
{
    if k < n {
        lemma_statements_read_error(nodes, k, (n - 1) as nat);
    }
}

/// An error among the first `k` nodes is the error of any more.
pub proof fn lemma_head_items_read_error(nodes: Seq<SyntaxNodeView>, k: nat, n: nat)
    requires
        head_items_read(nodes, k) is Err,
        k <= n,
    ensures
        head_items_read(nodes, n) == head_items_read(nodes, k),
    decreases n,
{
    if k < n {
        lemma_head_items_read_error(nodes, k, (n - 1) as nat);
    }
}

/// An error among the first `k` nodes is the error of any more.
pub proof fn lemma_sequences_read_error(nodes: Seq<SyntaxNodeView>, k: nat, n: nat)
    requires
        sequences_read(nodes, k) is Err,
        k <= n,
    ensures
        sequences_read(nodes, n) == sequences_read(nodes, k),
    decreases n,
{
    if k < n {
        lemma_sequences_read_error(nodes, k, (n - 1) as nat);
    }
}

/// An error among the first `k` nodes is the error of any more.
pub proof fn lemma_program_read_error(nodes: Seq<SyntaxNodeView>, k: nat, n: nat)
    requires
        program_read(nodes, k) is Err,
        k <= n,
    ensures
        program_read(nodes, n) == program_read(nodes, k),
    decreases n,
{
    if k < n {
        lemma_program_read_error(nodes, k, (n - 1) as nat);
    }
}

/// The tokens that a sequence stands for; see `sequence_of`.
pub fn get_tokens(node: &SyntaxNode) -> (r: Result<Vec<Token>, TranslateError>)
    ensures
        match sequence_of(node@) {
            Ok(tokens) => r is Ok && tokens_view(r->Ok_0@) == tokens,
            Err(e) => r is Err && r->Err_0 == e,
        },
{
    proof {
        lemma_node_view(*node);
    }
    if !node.is("sequence") {
        return Err(TranslateError::Malformed);
    }
    let ghost nodes = node@.children;
    let mut tokens: Vec<Token> = Vec::new();
    assert(tokens_view(tokens@) =~= Seq::<TokenView>::empty());
    let mut i: usize = 0;
    while i < node.children.len()
        invariant
            i <= node.children.len(),
            nodes == nodes_view(node.children@),
            nodes == node@.children,
            nodes.len() == node.children@.len(),
            node@.kind == "sequence"@,
            tokens_read(nodes, i as nat) == Ok::<Seq<TokenView>, TranslateError>(
                tokens_view(tokens@),
            ),
        decreases node.children.len() - i,
    {
        let ghost before = tokens@;
        let child = &node.children[i];
        assert(nodes[i as int] == child@);
        let mut failure: Option<TranslateError> = None;
        if child.is("keyword") {
            let token = Token::Keyword(child.text.clone());
            tokens.push(token);
            assert(tokens_view(tokens@) =~= tokens_view(before).push(token@));
        } else if child.is("value") {
            match get_template(child) {
                Ok(t) => {
                    let token = Token::Value(t);
                    tokens.push(token);
                    assert(tokens_view(tokens@) =~= tokens_view(before).push(token@));
                },
                Err(e) => {
                    failure = Some(e);
                },
            }
        } else if !child.is(";") {
            failure = Some(TranslateError::Malformed);
        }
        match failure {
            Some(e) => {
                proof {
                    lemma_tokens_read_error(nodes, (i + 1) as nat, node.children@.len() as nat);
                }
                return Err(e);
            },
            None => {},
        }
        i += 1;
    }
    Ok(tokens)
}

/// The name and the sequence of the definition of a variable; see
/// `definition_of`.
pub fn get_var_definition(node: &SyntaxNode) -> (r: Result<(String, Vec<Token>), TranslateError>)
    ensures
        match definition_of(node@) {
            Ok((name, tokens)) => {
                &&& r is Ok
                &&& r->Ok_0.0@ == name
                &&& tokens_view(r->Ok_0.1@) == tokens
            },
            Err(e) => r is Err && r->Err_0 == e,
        },
{
    proof {
        lemma_node_view(*node);
    }
    if node.children.len() < 3 {
        return Err(TranslateError::Malformed);
    }
    match get_tokens(&node.children[2]) {
        Ok(tokens) => Ok((node.children[0].text.clone(), tokens)),
        Err(e) => Err(e),
    }
}

/// The statements of a body; see `statements_read`.
pub fn get_statements(node: &SyntaxNode) -> (r: Result<Vec<Statement>, TranslateError>)
    ensures
        match statements_read(node@.children, node@.children.len()) {
            Ok(statements) => r is Ok && statements_view(r->Ok_0@) == statements,
            Err(e) => r is Err && r->Err_0 == e,
        },
{
    proof {
        lemma_node_view(*node);
    }
    let ghost nodes = node@.children;
    let mut statements: Vec<Statement> = Vec::new();
    assert(statements_view(statements@) =~= Seq::<StatementView>::empty());
    let mut i: usize = 0;
    while i < node.children.len()
        invariant
            i <= node.children.len(),
            nodes == nodes_view(node.children@),
            nodes == node@.children,
            nodes.len() == node.children@.len(),
            statements_read(nodes, i as nat) == Ok::<Seq<StatementView>, TranslateError>(
                statements_view(statements@),
            ),
        decreases node.children.len() - i,
    {
        let ghost before = statements@;
        let child = &node.children[i];
        assert(nodes[i as int] == child@);
        let mut failure: Option<TranslateError> = None;
        if child.named && child.is("var_definition") {
            match get_var_definition(child) {
                Ok((name, tokens)) => {
                    let statement = Statement::Definition(name, tokens);
                    statements.push(statement);
                    assert(statements_view(statements@) =~= statements_view(before).push(
                        statement@,
                    ));
                },
                Err(e) => {
                    failure = Some(e);
                },
            }
        } else if child.named && child.is("sequence") {
            match get_tokens(child) {
                Ok(tokens) => {
                    let statement = Statement::Call(tokens);
                    statements.push(statement);
                    assert(statements_view(statements@) =~= statements_view(before).push(
                        statement@,
                    ));
                },
                Err(e) => {
                    failure = Some(e);
                },
            }
        }
        match failure {
            Some(e) => {
                proof {
                    lemma_statements_read_error(
                        nodes,
                        (i + 1) as nat,
                        node.children@.len() as nat,
                    );
                }
                return Err(e);
            },
            None => {},
        }
        i += 1;
    }
    Ok(statements)
}

/// The part of a head that an iterator stands for; see `iterator_of`.
pub fn get_iterator(node: &SyntaxNode) -> (r: Result<HeadItem, TranslateError>)
    ensures
        match iterator_of(node@) {
            Ok(item) => r is Ok && r->Ok_0@ == item,
            Err(e) => r is Err && r->Err_0 == e,
        },
{
    proof {
        lemma_node_view(*node);
    }
    let place = match node.child_by_field_name("variable") {
        Some(place) => place,
        None => {
            return Err(TranslateError::Malformed);
        },
    };
    let variable = &node.children[place];
    if !variable.is("variable") {
        return Err(TranslateError::Malformed);
    }
    if node.child_by_field_name("main").is_some() {
        Ok(HeadItem::MainIterator(variable.text.clone()))
    } else {
        Ok(HeadItem::Iterator(variable.text.clone()))
    }
}

/// The parts of the head that a signature stands for; see
/// `head_items_read`.
pub fn get_head(node: &SyntaxNode) -> (r: Result<Vec<HeadItem>, TranslateError>)
    ensures
        match head_items_read(node@.children, node@.children.len()) {
            Ok(items) => r is Ok && head_view(r->Ok_0@) == items,
            Err(e) => r is Err && r->Err_0 == e,
        },
{
    proof {
        lemma_node_view(*node);
    }
    let ghost nodes = node@.children;
    let mut items: Vec<HeadItem> = Vec::new();
    assert(head_view(items@) =~= Seq::<HeadItemView>::empty());
    let mut i: usize = 0;
    while i < node.children.len()
        invariant
            i <= node.children.len(),
            nodes == nodes_view(node.children@),
            nodes == node@.children,
            nodes.len() == node.children@.len(),
            head_items_read(nodes, i as nat) == Ok::<Seq<HeadItemView>, TranslateError>(
                head_view(items@),
            ),
        decreases node.children.len() - i,
    {
        let ghost before = items@;
        let child = &node.children[i];
        assert(nodes[i as int] == child@);
        let found: Result<Option<HeadItem>, TranslateError> = if !child.named {
            Ok(None)
        } else if child.is("keyword") {
            Ok(Some(HeadItem::Keyword(child.text.clone())))
        } else if child.is("variable") {
            Ok(Some(HeadItem::Operand(child.text.clone())))
        } else if child.is("iterator") {
            match get_iterator(child) {
                Ok(item) => Ok(Some(item)),
                Err(e) => Err(e),
            }
        } else {
            Err(TranslateError::Malformed)
        };
        match found {
            Ok(Some(item)) => {
                items.push(item);
                assert(head_view(items@) =~= head_view(before).push(item@));
            },
            Ok(None) => {},
            Err(e) => {
                proof {
                    lemma_head_items_read_error(
                        nodes,
                        (i + 1) as nat,
                        node.children@.len() as nat,
                    );
                }
                return Err(e);
            },
        }
        i += 1;
    }
    Ok(items)
}

/// The declaration of an operation that a node stands for; see
/// `declaration_of`.
pub fn get_declaration(node: &SyntaxNode) -> (r: Result<Option<Declaration>, TranslateError>)
    ensures
        match declaration_of(node@) {
            Ok(Some(d)) => r is Ok && r->Ok_0 is Some && r->Ok_0->Some_0@ == d,
            Ok(None) => r is Ok && r->Ok_0 is None,
            Err(e) => r is Err && r->Err_0 == e,
        },
{
    proof {
        lemma_node_view(*node);
    }
    if node.child_by_field_name("operation").is_none() {
        return Ok(None);
    }
    let (i, j) = match (node.named_child(0), node.named_child(1)) {
        (Some(i), Some(j)) => (i, j),
        _ => {
            return Err(TranslateError::Malformed);
        },
    };
    let head = match get_head(&node.children[i]) {
        Ok(head) => head,
        Err(e) => {
            return Err(e);
        },
    };
    let body = match get_statements(&node.children[j]) {
        Ok(body) => body,
        Err(e) => {
            return Err(e);
        },
    };
    Ok(Some(Declaration { head, body }))
}

/// What a trigger says; see `trigger_of`.
pub fn get_action_trigger(node: &SyntaxNode) -> (r: Result<
    (bool, bool, usize, String),
    TranslateError,
>)
    ensures
        match trigger_of(node@) {
            Ok((active, onetime, quantifier, unit)) => {
                &&& r is Ok
                &&& r->Ok_0.0 == active
                &&& r->Ok_0.1 == onetime
                &&& r->Ok_0.2 == quantifier
                &&& r->Ok_0.3@ == unit
            },
            Err(e) => r is Err && r->Err_0 == e,
        },
{
    proof {
        lemma_node_view(*node);
    }
    let parts = &node.children;
    if parts.len() == 0 {
        return Err(TranslateError::Malformed);
    }
    let active = get_action_active(parts[0].text.as_str());
    let at: usize = if active {
        0
    } else {
        1
    };
    if parts.len() - at < 2 {
        return Err(TranslateError::Malformed);
    }
    let onetime = !get_action_repeats(parts[at].text.as_str());
    if parts[at + 1].is("number") {
        if parts.len() - at < 3 {
            return Err(TranslateError::Malformed);
        }
        match node_to_int(parts[at + 1].text.as_str()) {
            None => Err(TranslateError::UnreadableNumber),
            Some(q) => Ok((active, onetime, q, parts[at + 2].text.clone())),
        }
    } else {
        Ok((active, onetime, 1, parts[at + 1].text.clone()))
    }
}

/// The sequences of the events of an action; see `sequences_read`.
pub fn get_action_events(node: &SyntaxNode) -> (r: Result<Vec<Vec<Token>>, TranslateError>)
    ensures
        match sequences_read(node@.children, node@.children.len()) {
            Ok(sequences) => r is Ok && sequences_of_tokens_view(r->Ok_0@) == sequences,
            Err(e) => r is Err && r->Err_0 == e,
        },
{
    proof {
        lemma_node_view(*node);
    }
    let ghost nodes = node@.children;
    let mut sequences: Vec<Vec<Token>> = Vec::new();
    assert(sequences_of_tokens_view(sequences@) =~= Seq::<Seq<TokenView>>::empty());
    let mut i: usize = 0;
    while i < node.children.len()
        invariant
            i <= node.children.len(),
            nodes == nodes_view(node.children@),
            nodes == node@.children,
            nodes.len() == node.children@.len(),
            sequences_read(nodes, i as nat) == Ok::<Seq<Seq<TokenView>>, TranslateError>(
                sequences_of_tokens_view(sequences@),
            ),
        decreases node.children.len() - i,
    {
        let ghost before = sequences@;
        let child = &node.children[i];
        assert(nodes[i as int] == child@);
        if child.named && child.is("sequence") {
            match get_tokens(child) {
                Ok(tokens) => {
                    sequences.push(tokens);
                    assert(sequences_of_tokens_view(sequences@) =~= sequences_of_tokens_view(
                        before,
                    ).push(tokens_view(tokens@)));
                },
                Err(e) => {
                    proof {
                        lemma_sequences_read_error(
                            nodes,
                            (i + 1) as nat,
                            node.children@.len() as nat,
                        );
                    }
                    return Err(e);
                },
            }
        }
        i += 1;
    }
    Ok(sequences)
}

/// The label of an action and the number of the nodes that it takes up;
/// see `action_label_of`.
pub fn get_action_label(node: &SyntaxNode) -> (r: Result<(String, usize), TranslateError>)
    ensures
        match action_label_of(node@) {
            Ok((label, at)) => r is Ok && r->Ok_0.0@ == label && r->Ok_0.1 == at,
            Err(e) => r is Err && r->Err_0 == e,
        },
{
    proof {
        lemma_node_view(*node);
    }
    if node.children.len() > 0 && node.children[0].is("string") {
        match node_to_string(&node.children[0]) {
            Ok(label) => Ok((label, 1)),
            Err(e) => Err(e),
        }
    } else {
        Ok((String::new(), 0))
    }
}

/// The declaration of an action that a node stands for; see
/// `action_declared`.
pub fn get_action(node: &SyntaxNode) -> (r: Result<ActionDeclaration, TranslateError>)
    ensures
        match action_declared(node@) {
            Ok(a) => r is Ok && r->Ok_0@ == a,
            Err(e) => r is Err && r->Err_0 == e,
        },
{
    proof {
        lemma_node_view(*node);
    }
    let parts = &node.children;
    let (label, at) = match get_action_label(node) {
        Ok(found) => found,
        Err(e) => {
            return Err(e);
        },
    };
    if parts.len() < 2 || parts.len() - 2 < at {
        return Err(TranslateError::Malformed);
    }
    let (active, onetime, quantifier, unit) = match get_action_trigger(&parts[at]) {
        Ok(trigger) => trigger,
        Err(e) => {
            return Err(e);
        },
    };
    if !parts[at + 1].is("events") {
        return Err(TranslateError::Malformed);
    }
    match get_action_events(&parts[at + 1]) {
        Ok(events) => Ok(ActionDeclaration { label, active, onetime, quantifier, unit, events }),
        Err(e) => Err(e),
    }
}

/// The name of the file that a node asks for; see `file_of`.
pub fn get_file(node: &SyntaxNode) -> (r: Result<String, TranslateError>)
    ensures
        match file_of(node@) {
            Ok(s) => r is Ok && r->Ok_0@ == s,
            Err(e) => r is Err && r->Err_0 == e,
        },
{
    proof {
        lemma_node_view(*node);
    }
    match node.child_by_field_name("filename") {
        Some(i) => node_to_string(&node.children[i]),
        None => Err(TranslateError::Malformed),
    }
}

/// Adds what one more node of the file stands for to the program; see
/// `item_read`. After an error the program is as it was.
pub fn get_item(program: &mut Program, node: &SyntaxNode) -> (r: Result<(), TranslateError>)
    ensures
        match item_read(old(program)@, node@) {
            Ok(p) => r is Ok && final(program)@ == p,
            Err(e) => r == Err::<(), TranslateError>(e) && final(program)@ == old(program)@,
        },
{
    let ghost before = program@;
    if node.is("file_load") {
        match get_file(node) {
            Ok(file) => {
                program.files.push(file);
                assert(program@.files =~= before.files.push(file@));
                Ok(())
            },
            Err(e) => Err(e),
        }
    } else if node.is("declaration") {
        match get_declaration(node) {
            Ok(Some(d)) => {
                program.declarations.push(d);
                assert(program@.declarations =~= before.declarations.push(d@));
                Ok(())
            },
            Ok(None) => Ok(()),
            Err(e) => Err(e),
        }
    } else if node.is("var_definition") {
        match get_var_definition(node) {
            Ok((name, tokens)) => {
                let d = Definition::Variable(name, tokens);
                program.definitions.push(d);
                assert(program@.definitions =~= before.definitions.push(d@));
                Ok(())
            },
            Err(e) => Err(e),
        }
    } else if node.is("action") {
        match get_action(node) {
            Ok(a) => {
                let d = Definition::Action(a);
                program.definitions.push(d);
                assert(program@.definitions =~= before.definitions.push(d@));
                Ok(())
            },
            Err(e) => Err(e),
        }
    } else if node.is("comment") {
        Ok(())
    } else {
        Err(TranslateError::Malformed)
    }
}

/// The program that a file stands for, given the root of its syntax tree;
/// see `program_of`.
pub fn get_program(root: &SyntaxNode) -> (r: Result<Program, TranslateError>)
    ensures
        match program_of(root@) {
            Ok(program) => r is Ok && r->Ok_0@ == program,
            Err(e) => r is Err && r->Err_0 == e,
        },
{
    proof {
        lemma_node_view(*root);
    }
    let ghost nodes = root@.children;
    let mut program = Program {
        files: Vec::new(),
        declarations: Vec::new(),
        definitions: Vec::new(),
    };
    assert(program@.files =~= Seq::<Seq<char>>::empty());
    assert(program@.declarations =~= Seq::<DeclarationView>::empty());
    assert(program@.definitions =~= Seq::<DefinitionView>::empty());
    let mut i: usize = 0;
    while i < root.children.len()
        invariant
            i <= root.children.len(),
            nodes == nodes_view(root.children@),
            nodes == root@.children,
            nodes.len() == root.children@.len(),
            program_read(nodes, i as nat) == Ok::<ProgramView, TranslateError>(program@),
        decreases root.children.len() - i,
    {
        assert(nodes[i as int] == root.children@[i as int]@);
        match get_item(&mut program, &root.children[i]) {
            Ok(()) => {},
            Err(e) => {
                proof {
                    lemma_program_read_error(nodes, (i + 1) as nat, root.children@.len() as nat);
                }
                return Err(e);
            },
        }
        i += 1;
    }
    Ok(program)
}

} // verus!
