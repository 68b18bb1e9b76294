use vinx::action::Timestamp;
use vinx::translator::parsing::{
    build_subtree, build_tree, parse_program, program_from_nodes, FlatNode,
};
use vinx::translator::reading::{
    digit, get_action_label, get_element, get_literal, get_program, get_template, get_tokens,
    get_variable_name, node_to_int, node_to_string,
};
use vinx::translator::syntax::{Definition, HeadItem, Statement, Token, ValueTemplate};
use vinx::translator::translation::TranslateError;
use vinx::translator::tree::SyntaxNode;
use vinx::translator::{SequenceValue, Translator, Word};
use vinx::variable::types::VariableType;
use vinx::variable::values::{Direction, Effect, Rgb, VariableValue};

fn leaf(kind: &str, text: &str) -> SyntaxNode {
    SyntaxNode {
        kind: kind.to_string(),
        text: text.to_string(),
        field: String::new(),
        named: true,
        children: vec![],
    }
}

fn mark(text: &str) -> SyntaxNode {
    SyntaxNode {
        kind: text.to_string(),
        text: text.to_string(),
        field: String::new(),
        named: false,
        children: vec![],
    }
}

fn inner(kind: &str, text: &str, children: Vec<SyntaxNode>) -> SyntaxNode {
    SyntaxNode {
        kind: kind.to_string(),
        text: text.to_string(),
        field: String::new(),
        named: true,
        children,
    }
}

fn value(child: SyntaxNode) -> SyntaxNode {
    let text = child.text.clone();
    inner("value", &text, vec![child])
}

fn flat(depth: usize, kind: &str, text: &str) -> FlatNode {
    FlatNode {
        depth,
        kind: kind.to_string(),
        text: text.to_string(),
        field: String::new(),
        named: true,
    }
}

fn keyword(text: &str) -> Word {
    Word::Keyword(text.to_string())
}

fn loaded(text: &str) -> Result<Translator, TranslateError> {
    let program = parse_program(text)?;
    let mut translator = Translator::new();
    translator.load(&program.declarations, &program.definitions)?;
    Ok(translator)
}

#[test]
fn digits_stand_for_numbers() {
    assert_eq!(digit('0'), Some(0));
    assert_eq!(digit('7'), Some(7));
    assert_eq!(digit('9'), Some(9));
    assert_eq!(digit('a'), None);
    assert_eq!(digit('+'), None);
}

#[test]
fn numbers_are_read_from_their_digits() {
    assert_eq!(node_to_int("0"), Some(0));
    assert_eq!(node_to_int("42"), Some(42));
    assert_eq!(node_to_int("007"), Some(7));
    assert_eq!(node_to_int("+7"), Some(7));
    assert_eq!(node_to_int(""), None);
    assert_eq!(node_to_int("+"), None);
    assert_eq!(node_to_int("4a"), None);
    assert_eq!(node_to_int("-4"), None);
    assert_eq!(node_to_int("4 "), None);
    assert_eq!(node_to_int(&usize::MAX.to_string()), Some(usize::MAX));
    assert_eq!(node_to_int("340282366920938463463374607431768211456"), None);
    for n in [1usize, 10, 99, 1000, 65535, 123456789] {
        assert_eq!(node_to_int(&n.to_string()), n.to_string().parse::<usize>().ok());
    }
}

#[test]
fn strings_lose_their_quotes() {
    assert_eq!(node_to_string(&leaf("string", "\"blink\"")), Ok("blink".to_string()));
    assert_eq!(node_to_string(&leaf("string", "\"\"")), Ok(String::new()));
    assert_eq!(node_to_string(&leaf("string", "\"")), Err(TranslateError::Malformed));
    assert_eq!(node_to_string(&leaf("keyword", "\"blink\"")), Err(TranslateError::Malformed));
}

#[test]
fn literals_are_read_by_their_kind() {
    let position = inner(
        "position",
        "(3, 4)",
        vec![mark("("), leaf("number", "3"), mark(","), leaf("number", "4"), mark(")")],
    );
    assert!(matches!(get_literal(&position), Ok(VariableValue::Pos(3, 4))));
    let short = inner("position", "(3)", vec![mark("("), leaf("number", "3"), mark(")")]);
    assert!(matches!(get_literal(&short), Err(TranslateError::Malformed)));
    let wrong = inner(
        "position",
        "(3, x)",
        vec![mark("("), leaf("number", "3"), mark(","), leaf("number", "x"), mark(")")],
    );
    assert!(matches!(get_literal(&wrong), Err(TranslateError::UnreadableNumber)));
    let red = inner("color", "red", vec![leaf("color_name", "red")]);
    assert!(matches!(get_literal(&red), Ok(VariableValue::Color(Rgb { r: 255, g: 0, b: 0 }))));
    let mauve = inner("color", "mauve", vec![leaf("color_name", "mauve")]);
    assert!(matches!(get_literal(&mauve), Err(TranslateError::UnknownColor)));
    let coded = inner("color", "#ff0000", vec![leaf("color_value", "#ff0000")]);
    assert!(matches!(get_literal(&coded), Err(TranslateError::ColorCode)));
    assert!(matches!(get_literal(&leaf("color", "red")), Err(TranslateError::Malformed)));
    assert!(matches!(
        get_literal(&leaf("effect", "inversed")),
        Ok(VariableValue::Effect(Effect::Inverse))
    ));
    assert!(matches!(get_literal(&leaf("effect", "sharp")), Err(TranslateError::UnknownEffect)));
    assert!(matches!(
        get_literal(&leaf("direction", "left")),
        Ok(VariableValue::Direction(Direction::Left))
    ));
    assert!(matches!(
        get_literal(&leaf("direction", "north")),
        Err(TranslateError::UnknownDirection)
    ));
    assert!(matches!(get_literal(&leaf("number", "12")), Ok(VariableValue::Int(12))));
    assert!(matches!(get_literal(&leaf("number", "x")), Err(TranslateError::UnreadableNumber)));
    match get_literal(&leaf("string", "\"a b\"")) {
        Ok(VariableValue::String(s)) => assert_eq!(s, "a b"),
        other => panic!("unexpected {:?}", other),
    }
    assert!(matches!(get_literal(&leaf("keyword", "move")), Err(TranslateError::UnknownValue)));
}

#[test]
fn values_become_templates() {
    match get_template(&value(leaf("variable", "$x"))) {
        Ok(ValueTemplate::Reference(name)) => assert_eq!(name, "$x"),
        other => panic!("unexpected {:?}", other),
    }
    assert!(matches!(
        get_template(&value(leaf("number", "5"))),
        Ok(ValueTemplate::Literal(VariableValue::Int(5)))
    ));
    let list = inner(
        "vector",
        "[1, $x]",
        vec![
            mark("["),
            value(leaf("number", "1")),
            mark(","),
            value(leaf("variable", "$x")),
            mark("]"),
        ],
    );
    match get_template(&value(list)) {
        Ok(ValueTemplate::Vector(items)) => {
            assert_eq!(items.len(), 2);
            assert!(matches!(items[0], ValueTemplate::Literal(VariableValue::Int(1))));
            assert!(matches!(&items[1], ValueTemplate::Reference(name) if name == "$x"));
        },
        other => panic!("unexpected {:?}", other),
    }
    assert!(matches!(get_template(&leaf("value", "")), Err(TranslateError::Malformed)));
    assert!(matches!(get_template(&leaf("number", "5")), Err(TranslateError::Malformed)));
}

#[test]
fn variables_are_known_by_their_names() {
    assert_eq!(get_variable_name(&leaf("variable", "$x")), Some("$x"));
    assert_eq!(get_variable_name(&value(leaf("variable", "$x"))), Some("$x"));
    assert_eq!(get_variable_name(&value(leaf("number", "5"))), None);
    assert_eq!(get_variable_name(&leaf("value", "$x")), None);
    assert_eq!(get_variable_name(&leaf("keyword", "x")), None);
}

#[test]
fn an_action_may_start_with_its_label() {
    let labelled = inner("action", "", vec![leaf("string", "\"a\""), leaf("trigger", "")]);
    assert_eq!(get_action_label(&labelled), Ok(("a".to_string(), 1)));
    let plain = inner("action", "", vec![leaf("trigger", ""), leaf("string", "\"a\"")]);
    assert_eq!(get_action_label(&plain), Ok((String::new(), 0)));
    assert_eq!(get_action_label(&leaf("action", "")), Ok((String::new(), 0)));
    let broken = inner("action", "", vec![leaf("string", "a")]);
    assert_eq!(get_action_label(&broken), Err(TranslateError::Malformed));
}

#[test]
fn a_string_is_no_element_of_a_list() {
    let text = value(leaf("string", "\"a\""));
    assert!(matches!(get_element(&text), Err(TranslateError::UnknownValue)));
    assert!(matches!(get_template(&text), Ok(ValueTemplate::Literal(VariableValue::String(_)))));
    let list = inner("vector", "[\"a\"]", vec![mark("["), value(leaf("string", "\"a\"")), mark("]")]);
    assert!(matches!(get_template(&value(list)), Err(TranslateError::UnknownValue)));
    assert!(matches!(
        get_element(&value(leaf("number", "5"))),
        Ok(ValueTemplate::Literal(VariableValue::Int(5)))
    ));
}

#[test]
fn sequences_become_tokens() {
    let sequence = inner(
        "sequence",
        "add 1 to $x",
        vec![
            leaf("keyword", "add"),
            value(leaf("number", "1")),
            leaf("keyword", "to"),
            value(leaf("variable", "$x")),
        ],
    );
    let tokens = get_tokens(&sequence).unwrap();
    assert_eq!(tokens.len(), 4);
    assert!(matches!(&tokens[0], Token::Keyword(k) if k == "add"));
    assert!(matches!(&tokens[1], Token::Value(ValueTemplate::Literal(VariableValue::Int(1)))));
    assert!(matches!(&tokens[2], Token::Keyword(k) if k == "to"));
    assert!(matches!(&tokens[3], Token::Value(ValueTemplate::Reference(n)) if n == "$x"));
    let odd = inner("sequence", "add =", vec![leaf("keyword", "add"), mark("=")]);
    assert!(matches!(get_tokens(&odd), Err(TranslateError::Malformed)));
    assert!(matches!(get_tokens(&leaf("keyword", "add")), Err(TranslateError::Malformed)));
}

#[test]
fn a_list_of_nodes_stands_for_a_tree() {
    let nodes = vec![
        flat(0, "source_file", "a 1"),
        flat(1, "sequence", "a 1"),
        flat(2, "keyword", "a"),
        flat(2, "value", "1"),
        flat(3, "number", "1"),
        flat(1, "comment", "// x"),
    ];
    let root = build_tree(&nodes).unwrap();
    assert_eq!(root.kind, "source_file");
    assert_eq!(root.children.len(), 2);
    assert_eq!(root.children[0].kind, "sequence");
    assert_eq!(root.children[0].children.len(), 2);
    assert_eq!(root.children[0].children[0].text, "a");
    assert_eq!(root.children[0].children[1].children.len(), 1);
    assert_eq!(root.children[0].children[1].children[0].kind, "number");
    assert_eq!(root.children[1].kind, "comment");
    assert_eq!(root.children[1].children.len(), 0);
    let (sub, end) = build_subtree(&nodes, 1);
    assert_eq!(sub.kind, "sequence");
    assert_eq!(sub.children.len(), 2);
    assert_eq!(end, 5);
    let (last, end) = build_subtree(&nodes, 5);
    assert_eq!(last.kind, "comment");
    assert_eq!(end, 6);
}

#[test]
fn a_list_that_is_no_tree_stands_for_nothing() {
    assert!(build_tree(&vec![]).is_none());
    let two_roots = vec![flat(0, "source_file", ""), flat(0, "source_file", "")];
    assert!(build_tree(&two_roots).is_none());
    let gap = vec![flat(0, "source_file", ""), flat(2, "keyword", "a")];
    assert!(build_tree(&gap).is_none());
    assert!(matches!(program_from_nodes(&gap), Err(TranslateError::Malformed)));
    let deep = vec![flat(usize::MAX, "source_file", ""), flat(0, "comment", "")];
    assert!(build_tree(&deep).is_none());
    let alone = vec![flat(5, "source_file", "")];
    assert!(build_tree(&alone).is_some());
}

#[test]
fn a_tree_stands_for_a_program() {
    let definition = inner(
        "var_definition",
        "$x = 5;",
        vec![
            leaf("variable", "$x"),
            mark("="),
            inner("sequence", "5", vec![value(leaf("number", "5"))]),
            mark(";"),
        ],
    );
    let root = inner("source_file", "", vec![leaf("comment", "// c"), definition]);
    let program = get_program(&root).unwrap();
    assert_eq!(program.files.len(), 0);
    assert_eq!(program.declarations.len(), 0);
    assert_eq!(program.definitions.len(), 1);
    match &program.definitions[0] {
        Definition::Variable(name, tokens) => {
            assert_eq!(name, "$x");
            assert_eq!(tokens.len(), 1);
        },
        other => panic!("unexpected {:?}", other),
    }
    let odd = inner("source_file", "", vec![leaf("ERROR", "?")]);
    assert!(matches!(get_program(&odd), Err(TranslateError::Malformed)));
}

#[test]
fn a_text_is_parsed_into_a_program() {
    let text = "load \"lib\";\n// a comment\n$p = (1, 2);\nshift $x = move $x right by 3;\n\"blink\" every 2 frames { shift $p; }\n";
    let program = parse_program(text).unwrap();
    assert_eq!(program.files, vec!["lib".to_string()]);
    assert_eq!(program.declarations.len(), 1);
    let declaration = &program.declarations[0];
    assert_eq!(declaration.head.len(), 2);
    assert!(matches!(&declaration.head[0], HeadItem::Keyword(k) if k == "shift"));
    assert!(matches!(&declaration.head[1], HeadItem::Operand(n) if n == "$x"));
    assert_eq!(declaration.body.len(), 1);
    match &declaration.body[0] {
        Statement::Call(tokens) => {
            assert_eq!(tokens.len(), 5);
            assert!(matches!(&tokens[0], Token::Keyword(k) if k == "move"));
            assert!(matches!(&tokens[1], Token::Value(ValueTemplate::Reference(n)) if n == "$x"));
            assert!(matches!(
                &tokens[2],
                Token::Value(ValueTemplate::Literal(VariableValue::Direction(Direction::Right)))
            ));
            assert!(matches!(&tokens[3], Token::Keyword(k) if k == "by"));
            assert!(matches!(
                &tokens[4],
                Token::Value(ValueTemplate::Literal(VariableValue::Int(3)))
            ));
        },
        other => panic!("unexpected {:?}", other),
    }
    assert_eq!(program.definitions.len(), 2);
    match &program.definitions[0] {
        Definition::Variable(name, tokens) => {
            assert_eq!(name, "$p");
            assert_eq!(tokens.len(), 1);
            assert!(matches!(
                &tokens[0],
                Token::Value(ValueTemplate::Literal(VariableValue::Pos(1, 2)))
            ));
        },
        other => panic!("unexpected {:?}", other),
    }
    match &program.definitions[1] {
        Definition::Action(action) => {
            assert_eq!(action.label, "blink");
            assert!(action.active);
            assert!(!action.onetime);
            assert_eq!(action.quantifier, 2);
            assert_eq!(action.unit, "frames");
            assert_eq!(action.events.len(), 1);
            assert_eq!(action.events[0].len(), 2);
        },
        other => panic!("unexpected {:?}", other),
    }
}

#[test]
fn triggers_are_read_from_their_parts() {
    let program = parse_program("! at 3 s toggle \"a\";\nevery frame toggle \"b\";\n").unwrap();
    assert_eq!(program.definitions.len(), 2);
    match &program.definitions[0] {
        Definition::Action(action) => {
            assert_eq!(action.label, "");
            assert!(!action.active);
            assert!(action.onetime);
            assert_eq!(action.quantifier, 3);
            assert_eq!(action.unit, "s");
        },
        other => panic!("unexpected {:?}", other),
    }
    match &program.definitions[1] {
        Definition::Action(action) => {
            assert!(action.active);
            assert!(!action.onetime);
            assert_eq!(action.quantifier, 1);
            assert_eq!(action.unit, "frame");
            assert_eq!(action.events.len(), 1);
        },
        other => panic!("unexpected {:?}", other),
    }
}

#[test]
fn iterators_are_read_from_the_head() {
    let program = parse_program("shift all [$ps*] with [$qs] = move $ps right by 1;\n").unwrap();
    let head = &program.declarations[0].head;
    assert_eq!(head.len(), 5);
    assert!(matches!(&head[0], HeadItem::Keyword(k) if k == "shift"));
    assert!(matches!(&head[1], HeadItem::Keyword(k) if k == "all"));
    assert!(matches!(&head[2], HeadItem::MainIterator(n) if n == "$ps"));
    assert!(matches!(&head[3], HeadItem::Keyword(k) if k == "with"));
    assert!(matches!(&head[4], HeadItem::Iterator(n) if n == "$qs"));
}

#[test]
fn a_program_is_loaded_from_its_text() {
    let text = "$p = (1, 2);\nshift $x = move $x right by 3;\n\"blink\" every 2 frames { shift $p; add 1 to 2; }\n";
    let translator = loaded(text).unwrap();
    assert_eq!(translator.operations.len(), 1);
    let operation = &translator.operations[&14];
    assert_eq!(operation.id, 14);
    assert_eq!(operation.operands, vec!["$x".to_string()]);
    assert_eq!(operation.events.len(), 1);
    assert_eq!(operation.events[0].id, 2);
    assert_eq!(
        translator
            .action_decision_automaton
            .run(&vec![keyword("shift"), Word::Type(VariableType::Pos)])
            .copied(),
        Some(SequenceValue::Operation(14))
    );
    assert_eq!(
        translator
            .action_decision_automaton
            .run(&vec![keyword("shift"), Word::Type(VariableType::Int)])
            .copied(),
        None
    );
    assert_eq!(translator.globals.layers.len(), 1);
    assert!(matches!(translator.globals.get_variable("$p"), Some(VariableValue::Pos(1, 2))));
    assert!(translator.globals.get_variable("$x").is_none());
    assert_eq!(translator.actions.len(), 1);
    let action = &translator.actions[0];
    assert_eq!(action.get_name(), "blink");
    assert_eq!(action.get_target(), Timestamp::Frame(2));
    assert_eq!(action.get_accumulator(), Timestamp::Frame(0));
    assert!(!action.is_onetime());
    assert!(action.default_activeness());
    assert_eq!(action.get_events().len(), 2);
    assert_eq!(action.get_events()[0].id, 14);
    assert_eq!(action.get_events()[0].events.len(), 1);
    assert_eq!(action.get_events()[0].params.len(), 1);
    assert_eq!(action.get_events()[0].params[0].get_name(), "$p");
    assert_eq!(action.get_events()[1].id, 9);
    assert_eq!(action.get_events()[1].params.len(), 2);
}

#[test]
fn a_declaration_is_registered_for_each_choice_of_types() {
    let translator = loaded("paint $what = draw $what rectangle from (0, 0) to (5, 5);\n").unwrap();
    assert_eq!(translator.operations.len(), 2);
    let run = |t: VariableType| {
        translator.action_decision_automaton.run(&vec![keyword("paint"), Word::Type(t)]).copied()
    };
    let color = run(VariableType::Color);
    let effect = run(VariableType::Effect);
    assert!(matches!(color, Some(SequenceValue::Operation(14 | 15))));
    assert!(matches!(effect, Some(SequenceValue::Operation(14 | 15))));
    assert_ne!(color, effect);
    assert_eq!(run(VariableType::Int), None);
    let drawn = |found: Option<SequenceValue>| match found {
        Some(SequenceValue::Operation(id)) => translator.operations[&id].events[0].id,
        other => panic!("unexpected {:?}", other),
    };
    assert_eq!(drawn(color), 10);
    assert_eq!(drawn(effect), 11);
}

#[test]
fn the_main_iterator_stands_as_a_list_in_the_signature() {
    let translator = loaded("shift all [$ps*] = move $ps right by 1;\n").unwrap();
    assert_eq!(translator.operations.len(), 1);
    let list = VariableType::Vec(Box::new(VariableType::Pos));
    assert_eq!(
        translator
            .action_decision_automaton
            .run(&vec![keyword("shift"), keyword("all"), Word::Type(list)])
            .copied(),
        Some(SequenceValue::Operation(14))
    );
    assert_eq!(translator.operations[&14].iterators, vec![0]);
}

#[test]
fn a_body_defines_its_static_variables() {
    let translator = loaded("count $x = { $n = 1; add $n to $x; }\n").unwrap();
    assert_eq!(translator.operations.len(), 1);
    let operation = &translator.operations[&14];
    assert_eq!(operation.events.len(), 1);
    assert_eq!(operation.events[0].id, 9);
    assert!(matches!(operation.variables.get("$n"), Some(VariableValue::Int(1))));
    assert!(translator.globals.get_variable("$n").is_none());
    assert_eq!(translator.globals.layers.len(), 1);
}

#[test]
fn an_empty_declaration_is_registered_as_it_stands() {
    let translator = loaded("nothing $x = { }\n").unwrap();
    assert_eq!(translator.operations.len(), 1);
    assert_eq!(translator.operations[&14].events.len(), 0);
}

#[test]
fn programs_that_cannot_be_loaded_are_errors() {
    let failed = |text: &str| loaded(text).err();
    assert_eq!(failed("every 1 frame add 1 to $x;\n"), Some(TranslateError::UnknownVariable));
    assert_eq!(failed("$p = 1;\n$p = 2;\n"), Some(TranslateError::DuplicateVariable));
    assert_eq!(failed("every 1 frame jump 1;\n"), Some(TranslateError::InvalidSequence));
    assert_eq!(failed("every 0 frames add 1 to 2;\n"), Some(TranslateError::ZeroTarget));
    assert_eq!(failed("f $a = jump $a;\n"), Some(TranslateError::NoInterpretation));
    assert_eq!(
        failed("f $a = { add $a to $a; move $a right by 1; }\n"),
        Some(TranslateError::Unsatisfiable)
    );
    assert_eq!(failed("f [$a*] [$b*] = add $a to $b;\n"), Some(TranslateError::SecondMainIterator));
    assert_eq!(failed("f $a $a = add $a to $a;\n"), Some(TranslateError::DuplicateVariable));
    assert_eq!(failed("$c = #ff0000;\n"), Some(TranslateError::ColorCode));
    assert_eq!(failed("$p = shift 1;\n"), Some(TranslateError::InvalidSequence));
    assert_eq!(failed("$p = add 1 to 2;\n"), Some(TranslateError::NotAValue));
    assert_eq!(failed("$l = [\"a\"];\n"), Some(TranslateError::UnknownValue));
}

#[test]
fn an_action_that_cannot_become_active_is_left_out() {
    let translator = loaded("! every 1 frame add 1 to 2;\n\"later\" ! at 2 s add 1 to 2;\n").unwrap();
    assert_eq!(translator.actions.len(), 1);
    let action = &translator.actions[0];
    assert_eq!(action.get_name(), "later");
    assert!(!action.default_activeness());
    assert!(action.is_onetime());
    assert_eq!(action.get_target(), Timestamp::Millis(2000));
    assert_eq!(action.get_accumulator(), Timestamp::Millis(0));
}

#[test]
fn later_declarations_use_earlier_ones() {
    let text = "shift $x = move $x right by 3;\nshift twice $x = { shift $x; shift $x; }\n";
    let translator = loaded(text).unwrap();
    assert_eq!(translator.operations.len(), 2);
    let twice = &translator.operations[&15];
    assert_eq!(twice.events.len(), 2);
    assert_eq!(twice.events[0].id, 14);
    assert_eq!(twice.events[0].events.len(), 1);
    assert_eq!(twice.events[0].events[0].id, 2);
}
