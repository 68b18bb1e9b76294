use crate::variable::values::{ValueView, VariableValue};
use vstd::prelude::*;

verus! {

/// A value as a program writes it: a literal, the name of a variable, or a
/// list of such values.
#[derive(Debug)]
pub enum ValueTemplate {
    Literal(VariableValue),
    Reference(String),
    Vector(Vec<ValueTemplate>),
}

/// A word of a sequence as a program writes it: a keyword or a value.
#[derive(Debug)]
pub enum Token {
    Keyword(String),
    Value(ValueTemplate),
}

/// A statement of the body of an operation: the definition of a static
/// variable, or a sequence that calls an operation.
#[derive(Debug)]
pub enum Statement {
    Definition(String, Vec<Token>),
    Call(Vec<Token>),
}

/// A part of the head of a declaration: a keyword, an operand, an operand
/// that is iterated over, or the operand that is the main iterator.
#[derive(Debug)]
pub enum HeadItem {
    Keyword(String),
    Operand(String),
    Iterator(String),
    MainIterator(String),
}

/// What a part of the head of a declaration is to the contracts.
pub enum HeadItemView {
    Keyword(Seq<char>),
    Operand(Seq<char>),
    Iterator(Seq<char>),
    MainIterator(Seq<char>),
}

impl View for HeadItem {
    type V = HeadItemView;

    open spec fn view(&self) -> HeadItemView {
        match self {
            HeadItem::Keyword(k) => HeadItemView::Keyword(k@),
            HeadItem::Operand(n) => HeadItemView::Operand(n@),
            HeadItem::Iterator(n) => HeadItemView::Iterator(n@),
            HeadItem::MainIterator(n) => HeadItemView::MainIterator(n@),
        }
    }
}

/// The views of the parts of a head.
pub open spec fn head_view(l: Seq<HeadItem>) -> Seq<HeadItemView> {
    l.map_values(|h: HeadItem| h@)
}

/// The declaration of an operation: its head and its body.
#[derive(Debug)]
pub struct Declaration {
    pub head: Vec<HeadItem>,
    pub body: Vec<Statement>,
}

/// The declaration of an action: its label, which may be empty, whether it
/// is active from the start, whether it fires once only, its trigger as a
/// number of units of time, and its events.
#[derive(Debug)]
pub struct ActionDeclaration {
    pub label: String,
    pub active: bool,
    pub onetime: bool,
    pub quantifier: usize,
    pub unit: String,
    pub events: Vec<Vec<Token>>,
}

/// A definition of a program: that of a global variable by the sequence
/// that stands for its value, or that of an action.
#[derive(Debug)]
pub enum Definition {
    Variable(String, Vec<Token>),
    Action(ActionDeclaration),
}

/// A program as it is written in one file: the files that it asks for,
/// the declarations of its operations, and its definitions.
#[derive(Debug)]
pub struct Program {
    pub files: Vec<String>,
    pub declarations: Vec<Declaration>,
    pub definitions: Vec<Definition>,
}

/// What a value template is to the contracts.
pub enum ValueTemplateView {
    Literal(ValueView),
    Reference(Seq<char>),
    Vector(Seq<ValueTemplateView>),
}

/// What a token is to the contracts.
pub enum TokenView {
    Keyword(Seq<char>),
    Value(ValueTemplateView),
}

/// What a statement is to the contracts.
pub enum StatementView {
    Definition(Seq<char>, Seq<TokenView>),
    Call(Seq<TokenView>),
}

/// The view of a value template.
pub open spec fn template_view(v: ValueTemplate) -> ValueTemplateView
    decreases v,
{
    match v {
        ValueTemplate::Literal(x) => ValueTemplateView::Literal(x@),
        ValueTemplate::Reference(n) => ValueTemplateView::Reference(n@),
        ValueTemplate::Vector(l) => ValueTemplateView::Vector(
            Seq::new(
                l.len() as nat,
                |i: int|
                    if 0 <= i < l.len() {
                        template_view(l[i])
                    } else {
                        ValueTemplateView::Reference(Seq::empty())
                    },
            ),
        ),
    }
}

/// The views of a list of value templates.
pub open spec fn templates_view(l: Seq<ValueTemplate>) -> Seq<ValueTemplateView> {
    l.map_values(|v: ValueTemplate| template_view(v))
}

impl View for ValueTemplate {
    type V = ValueTemplateView;

    open spec fn view(&self) -> ValueTemplateView {
        template_view(*self)
    }
}

impl View for Token {
    type V = TokenView;

    open spec fn view(&self) -> TokenView {
        match self {
            Token::Keyword(k) => TokenView::Keyword(k@),
            Token::Value(v) => TokenView::Value(v@),
        }
    }
}

/// The views of a list of tokens.
pub open spec fn tokens_view(l: Seq<Token>) -> Seq<TokenView> {
    l.map_values(|t: Token| t@)
}

impl View for Statement {
    type V = StatementView;

    open spec fn view(&self) -> StatementView {
        match self {
            Statement::Definition(name, seq) => StatementView::Definition(name@, tokens_view(seq@)),
            Statement::Call(seq) => StatementView::Call(tokens_view(seq@)),
        }
    }
}

/// The views of a list of statements.
pub open spec fn statements_view(l: Seq<Statement>) -> Seq<StatementView> {
    l.map_values(|s: Statement| s@)
}

/// The views of a list of sequences.
pub open spec fn sequences_of_tokens_view(l: Seq<Vec<Token>>) -> Seq<Seq<TokenView>> {
    l.map_values(|s: Vec<Token>| tokens_view(s@))
}

/// What the declaration of an operation is to the contracts.
pub struct DeclarationView {
    pub head: Seq<HeadItemView>,
    pub body: Seq<StatementView>,
}

impl View for Declaration {
    type V = DeclarationView;

    open spec fn view(&self) -> DeclarationView {
        DeclarationView { head: head_view(self.head@), body: statements_view(self.body@) }
    }
}

/// The views of a list of declarations.
pub open spec fn declarations_view(l: Seq<Declaration>) -> Seq<DeclarationView> {
    l.map_values(|d: Declaration| d@)
}

/// What the declaration of an action is to the contracts.
pub struct ActionDeclarationView {
    pub label: Seq<char>,
    pub active: bool,
    pub onetime: bool,
    pub quantifier: usize,
    pub unit: Seq<char>,
    pub events: Seq<Seq<TokenView>>,
}

impl View for ActionDeclaration {
    type V = ActionDeclarationView;

    open spec fn view(&self) -> ActionDeclarationView {
        ActionDeclarationView {
            label: self.label@,
            active: self.active,
            onetime: self.onetime,
            quantifier: self.quantifier,
            unit: self.unit@,
            events: sequences_of_tokens_view(self.events@),
        }
    }
}

/// What a definition is to the contracts.
pub enum DefinitionView {
    Variable(Seq<char>, Seq<TokenView>),
    Action(ActionDeclarationView),
}

impl View for Definition {
    type V = DefinitionView;

    open spec fn view(&self) -> DefinitionView {
        match self {
            Definition::Variable(name, seq) => DefinitionView::Variable(name@, tokens_view(seq@)),
            Definition::Action(a) => DefinitionView::Action(a@),
        }
    }
}

/// The views of a list of definitions.
pub open spec fn definitions_view(l: Seq<Definition>) -> Seq<DefinitionView> {
    l.map_values(|d: Definition| d@)
}

/// What a program is to the contracts.
pub struct ProgramView {
    pub files: Seq<Seq<char>>,
    pub declarations: Seq<DeclarationView>,
    pub definitions: Seq<DefinitionView>,
}

impl View for Program {
    type V = ProgramView;

    open spec fn view(&self) -> ProgramView {
        ProgramView {
            files: self.files@.map_values(|s: String| s@),
            declarations: declarations_view(self.declarations@),
            definitions: definitions_view(self.definitions@),
        }
    }
}

/// The view of a list of values is the list of the views of the values.
pub proof fn lemma_vector_view(l: Vec<ValueTemplate>)
    ensures
        template_view(ValueTemplate::Vector(l)) == ValueTemplateView::Vector(templates_view(l@)),
{
    assert(template_view(ValueTemplate::Vector(l))->Vector_0 =~= templates_view(l@));
}

} // verus!
