use vinx::action::Timestamp;
use vinx::translator::loading::{
    add_variable, clone_names, declare_operands, is_resolved, parse_lhs, set_defaults,
};
use vinx::translator::syntax::{
    ActionDeclaration, Declaration, Definition, HeadItem, Statement, Token, ValueTemplate,
};
use vinx::translator::translation::TranslateError;
use vinx::translator::{SequenceValue, Translator, Word};
use vinx::variable::stack::{Stack, VariableMap};
use vinx::variable::types::VariableType;
use vinx::variable::values::{Direction, VariableValue};
use vinx::variable::VariableLocation;

fn word(text: &str) -> Token {
    Token::Keyword(text.to_string())
}

fn number(n: i32) -> Token {
    Token::Value(ValueTemplate::Literal(VariableValue::Int(n)))
}

fn named(name: &str) -> Token {
    Token::Value(ValueTemplate::Reference(name.to_string()))
}

fn right() -> Token {
    Token::Value(ValueTemplate::Literal(VariableValue::Direction(Direction::Right)))
}

fn names(list: &[&str]) -> Vec<String> {
    list.iter().map(|s| s.to_string()).collect()
}

fn every_frame(label: &str, active: bool, events: Vec<Vec<Token>>) -> ActionDeclaration {
    ActionDeclaration {
        label: label.to_string(),
        active,
        onetime: false,
        quantifier: 1,
        unit: "frame".to_string(),
        events,
    }
}

#[test]
fn a_variable_is_added_to_the_innermost_layer_once() {
    let mut scope = Stack::new();
    assert_eq!(add_variable(&mut scope, "$a".to_string(), VariableValue::Int(1)), Ok(()));
    assert_eq!(
        add_variable(&mut scope, "$a".to_string(), VariableValue::Int(2)),
        Err(TranslateError::DuplicateVariable)
    );
    assert!(matches!(scope.get_variable("$a"), Some(VariableValue::Int(1))));
    scope.push_layer();
    assert_eq!(add_variable(&mut scope, "$a".to_string(), VariableValue::Int(3)), Ok(()));
    assert!(matches!(scope.get_variable("$a"), Some(VariableValue::Int(3))));
    scope.pop_layer();
    scope.pop_layer();
    assert_eq!(
        add_variable(&mut scope, "$a".to_string(), VariableValue::Int(4)),
        Err(TranslateError::EmptyScope)
    );
}

#[test]
fn operands_are_declared_by_their_numbers() {
    let mut scope = Stack::new();
    assert_eq!(declare_operands(&mut scope, &names(&["$a", "$b"])), Ok(()));
    assert!(matches!(scope.get_variable("$a"), Some(VariableValue::Any(0))));
    assert!(matches!(scope.get_variable("$b"), Some(VariableValue::Any(1))));
    let mut scope = Stack::new();
    assert_eq!(
        declare_operands(&mut scope, &names(&["$a", "$b", "$a"])),
        Err(TranslateError::DuplicateVariable)
    );
}

#[test]
fn operands_start_with_the_values_of_their_types() {
    let signature =
        vec![Word::Keyword("f".to_string()), Word::Type(VariableType::Any(1)), Word::Type(VariableType::Int)];
    let operands = names(&["$a", "$b"]);
    let list = VariableType::Vec(Box::new(VariableType::Pos));
    let mut scope = Stack::new();
    declare_operands(&mut scope, &operands).unwrap();
    assert_eq!(
        set_defaults(&mut scope, &signature, &operands, &vec![VariableType::Int, list.clone()]),
        Ok(())
    );
    assert!(matches!(scope.get_variable("$a"), Some(VariableValue::Any(0))));
    match scope.get_variable("$b") {
        Some(VariableValue::Vec(items)) => {
            assert_eq!(items.len(), 1);
            assert_eq!(*items[0].get_type(), VariableType::Pos);
        },
        other => panic!("unexpected {:?}", other),
    }
    assert_eq!(
        set_defaults(&mut scope, &signature, &operands, &vec![VariableType::Int]),
        Err(TranslateError::UnknownOperand)
    );
    assert_eq!(
        set_defaults(&mut scope, &signature, &names(&["$a"]), &vec![VariableType::Int, list]),
        Err(TranslateError::UnknownOperand)
    );
    assert_eq!(
        set_defaults(
            &mut scope,
            &signature,
            &operands,
            &vec![VariableType::Int, VariableType::Unresolved]
        ),
        Err(TranslateError::UnresolvedType)
    );
}

#[test]
fn types_with_a_gap_are_not_resolved() {
    assert!(is_resolved(&VariableType::Int));
    assert!(is_resolved(&VariableType::Any(3)));
    assert!(is_resolved(&VariableType::Vec(Box::new(VariableType::Pos))));
    assert!(!is_resolved(&VariableType::Unresolved));
    assert!(!is_resolved(&VariableType::Vec(Box::new(VariableType::Vec(Box::new(
        VariableType::Unresolved
    ))))));
}

#[test]
fn names_are_copied() {
    assert_eq!(clone_names(&names(&["$a", "", "$b"])), names(&["$a", "", "$b"]));
    assert_eq!(clone_names(&vec![]), Vec::<String>::new());
}

#[test]
fn the_head_gives_signature_operands_and_iterators() {
    let head = vec![
        HeadItem::Keyword("zip".to_string()),
        HeadItem::Iterator("$a".to_string()),
        HeadItem::Operand("$b".to_string()),
        HeadItem::MainIterator("$c".to_string()),
        HeadItem::Iterator("$d".to_string()),
    ];
    let (signature, operands, iterators) = parse_lhs(&head).unwrap();
    assert_eq!(
        signature,
        vec![
            Word::Keyword("zip".to_string()),
            Word::Type(VariableType::Any(0)),
            Word::Type(VariableType::Any(1)),
            Word::Type(VariableType::Any(2)),
            Word::Type(VariableType::Any(3)),
        ]
    );
    assert_eq!(operands, names(&["$a", "$b", "$c", "$d"]));
    assert_eq!(iterators, vec![2, 0, 3]);
    let twice = vec![
        HeadItem::MainIterator("$a".to_string()),
        HeadItem::MainIterator("$b".to_string()),
    ];
    assert_eq!(parse_lhs(&twice).err(), Some(TranslateError::SecondMainIterator));
    let (signature, operands, iterators) = parse_lhs(&vec![]).unwrap();
    assert!(signature.is_empty() && operands.is_empty() && iterators.is_empty());
}

#[test]
fn templates_stand_for_values() {
    let mut translator = Translator::new();
    add_variable(&mut translator.globals, "$n".to_string(), VariableValue::Int(4)).unwrap();
    assert!(matches!(
        translator.get_atomic_value(&ValueTemplate::Literal(VariableValue::Pos(1, 2))),
        Ok(VariableValue::Pos(1, 2))
    ));
    assert!(matches!(
        translator.get_atomic_value(&ValueTemplate::Reference("$n".to_string())),
        Ok(VariableValue::Int(4))
    ));
    assert!(matches!(
        translator.get_atomic_value(&ValueTemplate::Reference("$m".to_string())),
        Err(TranslateError::UnknownVariable)
    ));
    let list = ValueTemplate::Vector(vec![
        ValueTemplate::Literal(VariableValue::Int(1)),
        ValueTemplate::Reference("$n".to_string()),
    ]);
    match translator.get_atomic_value(&list) {
        Ok(VariableValue::Vec(items)) => {
            assert_eq!(items.len(), 2);
            assert_eq!(items[0].get_location(), VariableLocation::Static);
            assert_eq!(items[1].get_location(), VariableLocation::Scope);
            assert_eq!(items[1].get_name(), "$n");
            assert_eq!(*items[1].get_type(), VariableType::Int);
        },
        other => panic!("unexpected {:?}", other),
    }
    let broken = ValueTemplate::Vector(vec![ValueTemplate::Reference("$m".to_string())]);
    assert!(matches!(
        translator.get_atomic_value(&broken),
        Err(TranslateError::UnknownVariable)
    ));
    let variable = translator.get_variable(&ValueTemplate::Reference("$n".to_string())).unwrap();
    assert_eq!(variable.get_name(), "$n");
    assert_eq!(variable.get_location(), VariableLocation::Scope);
    let carried = translator.get_variable(&ValueTemplate::Literal(VariableValue::Int(9))).unwrap();
    assert_eq!(carried.get_location(), VariableLocation::Static);
}

#[test]
fn sequences_give_words_and_parameters() {
    let mut translator = Translator::new();
    add_variable(&mut translator.globals, "$n".to_string(), VariableValue::Int(4)).unwrap();
    let sequence = vec![word("add"), number(1), word("to"), named("$n")];
    let (words, params) = translator.sequence_parts(&sequence).unwrap();
    assert_eq!(
        words,
        vec![
            Word::Keyword("add".to_string()),
            Word::Type(VariableType::Int),
            Word::Keyword("to".to_string()),
            Word::Type(VariableType::Int),
        ]
    );
    assert_eq!(params.len(), 2);
    assert_eq!(params[0].get_location(), VariableLocation::Static);
    assert_eq!(params[1].get_location(), VariableLocation::Scope);
    assert_eq!(params[1].get_name(), "$n");
    assert_eq!(translator.get_sequence(&sequence).unwrap(), words);
    let event = translator.get_event(&sequence).unwrap();
    assert_eq!(event.id, 9);
    assert_eq!(event.params.len(), 2);
    assert_eq!(
        translator.sequence_parts(&vec![word("add"), named("$m")]).err(),
        Some(TranslateError::UnknownVariable)
    );
    assert_eq!(
        translator.get_event(&vec![word("jump")]).err(),
        Some(TranslateError::InvalidSequence)
    );
}

#[test]
fn a_sequence_of_one_value_stands_for_the_value() {
    let mut translator = Translator::new();
    assert!(matches!(translator.get_sequence_value(&vec![number(3)]), Ok(VariableValue::Int(3))));
    assert!(matches!(
        translator.get_sequence_value(&vec![word("add")]),
        Err(TranslateError::NotAValue)
    ));
    assert!(matches!(
        translator.get_sequence_value(&vec![word("add"), number(1), word("to"), number(2)]),
        Err(TranslateError::NotAValue)
    ));
    assert!(matches!(
        translator.get_sequence_value(&vec![]),
        Err(TranslateError::InvalidSequence)
    ));
    assert_eq!(translator.define_variable("$n", &vec![number(3)]), Ok(()));
    assert!(matches!(translator.globals.get_variable("$n"), Some(VariableValue::Int(3))));
    assert_eq!(
        translator.define_variable("$n", &vec![number(4)]),
        Err(TranslateError::DuplicateVariable)
    );
    assert_eq!(
        translator.define_variable("$m", &vec![named("$k")]),
        Err(TranslateError::UnknownVariable)
    );
    assert!(translator.globals.get_variable("$m").is_none());
    assert!(matches!(translator.globals.get_variable("$n"), Some(VariableValue::Int(3))));
}

#[test]
fn a_declaration_is_handled_in_a_layer_of_its_own() {
    let mut translator = Translator::new();
    translator.define_variable("$n", &vec![number(3)]).unwrap();
    let declaration = Declaration {
        head: vec![HeadItem::Keyword("shift".to_string()), HeadItem::Operand("$x".to_string())],
        body: vec![
            Statement::Definition("$step".to_string(), vec![number(2)]),
            Statement::Call(vec![word("move"), named("$x"), right(), word("by"), named("$step")]),
            Statement::Call(vec![word("add"), named("$step"), word("to"), named("$n")]),
        ],
    };
    assert_eq!(translator.parse_operation(&declaration), Ok(()));
    assert_eq!(translator.globals.layers.len(), 1);
    assert!(matches!(translator.globals.get_variable("$n"), Some(VariableValue::Int(3))));
    assert!(translator.globals.get_variable("$x").is_none());
    assert!(translator.globals.get_variable("$step").is_none());
    assert_eq!(translator.operations.len(), 1);
    let operation = &translator.operations[&14];
    assert_eq!(operation.operands, names(&["$x"]));
    assert_eq!(operation.events.len(), 2);
    assert_eq!(operation.events[0].id, 2);
    assert_eq!(operation.events[1].id, 9);
    assert!(matches!(operation.variables.get("$step"), Some(VariableValue::Int(2))));
    assert_eq!(
        translator
            .action_decision_automaton
            .run(&vec![Word::Keyword("shift".to_string()), Word::Type(VariableType::Pos)])
            .copied(),
        Some(SequenceValue::Operation(14))
    );
    assert_eq!(translator.parse_operation(&declaration), Ok(()));
    assert_eq!(translator.operations.len(), 1);
}

#[test]
fn typed_operations_are_registered_once() {
    let mut translator = Translator::new();
    translator.globals.push_layer();
    let operands = names(&["$x"]);
    declare_operands(&mut translator.globals, &operands).unwrap();
    let signature = vec![Word::Keyword("shift".to_string()), Word::Type(VariableType::Any(0))];
    let body = vec![Statement::Call(vec![word("move"), named("$x"), right(), word("by"), number(1)])];
    let (usages, variables) = translator.read_body(&body, 1).unwrap();
    assert_eq!(usages.len(), 1);
    assert_eq!(usages[0].len(), 1);
    assert_eq!(*usages[0][0].get_types(), vec![VariableType::Pos]);
    assert!(variables.get("$x").is_none());
    let types = vec![VariableType::Pos];
    let none: Vec<usize> = vec![];
    assert_eq!(
        translator.create_typed_operation(&signature, &operands, &types, &body, &none, &variables),
        Ok(true)
    );
    assert!(matches!(translator.globals.get_variable("$x"), Some(VariableValue::Pos(0, 0))));
    assert_eq!(
        translator.create_typed_operation(&signature, &operands, &types, &body, &none, &variables),
        Ok(false)
    );
    assert_eq!(translator.operations.len(), 1);
    let events = translator.get_body_events(&body).unwrap();
    assert_eq!(events.len(), 1);
    assert_eq!(events[0].id, 2);
    assert_eq!(
        translator.create_typed_operation(
            &signature,
            &operands,
            &vec![VariableType::Int],
            &body,
            &none,
            &VariableMap::new()
        ),
        Err(TranslateError::InvalidSequence)
    );
    assert!(matches!(translator.globals.get_variable("$x"), Some(VariableValue::Int(0))));
    assert_eq!(
        translator.get_body_events(&body).err(),
        Some(TranslateError::InvalidSequence)
    );
}

#[test]
fn actions_are_defined_by_their_declarations() {
    let mut translator = Translator::new();
    let events = || vec![vec![word("add"), number(1), word("to"), number(2)]];
    assert_eq!(translator.get_action_definition(&every_frame("a", true, events())), Ok(()));
    assert_eq!(translator.get_action_definition(&every_frame("", false, events())), Ok(()));
    assert_eq!(translator.get_action_definition(&every_frame("b", false, events())), Ok(()));
    assert_eq!(translator.get_action_definition(&every_frame("", true, events())), Ok(()));
    assert_eq!(translator.actions.len(), 3);
    assert_eq!(translator.actions[0].get_name(), "a");
    assert_eq!(translator.actions[1].get_name(), "b");
    assert_eq!(translator.actions[2].get_name(), "");
    assert_eq!(translator.actions[0].get_target(), Timestamp::Frame(1));
    let mut odd = every_frame("c", true, events());
    odd.unit = "hours".to_string();
    assert_eq!(translator.get_action_definition(&odd), Err(TranslateError::UnknownUnit));
    let mut long = every_frame("c", true, events());
    long.unit = "s".to_string();
    long.quantifier = usize::MAX;
    assert_eq!(translator.get_action_definition(&long), Err(TranslateError::UnknownUnit));
    let mut never = every_frame("c", true, events());
    never.quantifier = 0;
    assert_eq!(translator.get_action_definition(&never), Err(TranslateError::ZeroTarget));
    let broken = every_frame("c", true, vec![vec![word("jump")]]);
    assert_eq!(translator.get_action_definition(&broken), Err(TranslateError::InvalidSequence));
    assert_eq!(translator.actions.len(), 3);
    let found = translator.get_events(&events()).unwrap();
    assert_eq!(found.len(), 1);
    assert_eq!(found[0].id, 9);
}

#[test]
fn definitions_are_loaded_in_turn() {
    let mut translator = Translator::new();
    let definitions = vec![
        Definition::Variable("$n".to_string(), vec![number(1)]),
        Definition::Action(every_frame(
            "count",
            true,
            vec![vec![word("add"), number(1), word("to"), named("$n")]],
        )),
    ];
    assert_eq!(translator.load_definitions(&definitions), Ok(()));
    assert_eq!(translator.actions.len(), 1);
    assert!(matches!(translator.globals.get_variable("$n"), Some(VariableValue::Int(1))));
    assert_eq!(
        translator.load_definitions(&definitions),
        Err(TranslateError::DuplicateVariable)
    );
    assert_eq!(translator.actions.len(), 1);
    let mut other = Translator::new();
    let swapped = vec![
        Definition::Action(every_frame(
            "count",
            true,
            vec![vec![word("add"), number(1), word("to"), named("$n")]],
        )),
        Definition::Variable("$n".to_string(), vec![number(1)]),
    ];
    assert_eq!(other.load_definitions(&swapped), Err(TranslateError::UnknownVariable));
    assert_eq!(other.load_declarations(&vec![]), Ok(()));
    assert_eq!(other.load(&vec![], &vec![]), Ok(()));
}
