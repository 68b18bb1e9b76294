use vinx::action::{Action, Timestamp};
use vinx::event::{Event, Operation};
use vinx::text::{number_text, seq_to_str, signed_text, variables_to_string};
use vinx::translator::type_constraints::TypeConstraints;
use vinx::translator::Word;
use vinx::variable::stack::VariableMap;
use vinx::variable::types::VariableType;
use vinx::variable::values::{Direction, Effect, Rgb, VariableValue};
use vinx::variable::Variable;

fn list_of(t: VariableType) -> VariableType {
    VariableType::Vec(Box::new(t))
}

fn lit(v: VariableValue) -> Variable {
    Variable::new_static(v)
}

#[test]
fn numbers_are_written_in_decimal() {
    assert_eq!(number_text(0), "0");
    assert_eq!(number_text(7), "7");
    assert_eq!(number_text(10), "10");
    assert_eq!(number_text(1234567890), "1234567890");
    assert_eq!(number_text(usize::MAX), usize::MAX.to_string());
    assert_eq!(signed_text(0), "0");
    assert_eq!(signed_text(-5), "-5");
    assert_eq!(signed_text(i32::MAX), "2147483647");
    assert_eq!(signed_text(i32::MIN), "-2147483648");
}

#[test]
fn types_are_written_by_their_names() {
    assert_eq!(VariableType::Int.to_string(), "Int");
    assert_eq!(VariableType::Pos.to_string(), "Pos");
    assert_eq!(VariableType::Color.to_string(), "Color");
    assert_eq!(VariableType::String.to_string(), "String");
    assert_eq!(VariableType::Effect.to_string(), "Effect");
    assert_eq!(VariableType::Direction.to_string(), "Direction");
    assert_eq!(VariableType::Any(12).to_string(), "Any(12)");
    assert_eq!(VariableType::Component(0).to_string(), "Component(0)");
    assert_eq!(VariableType::Unresolved.to_string(), "None");
    assert_eq!(list_of(list_of(VariableType::Any(3))).to_string(), "Vec(Vec(Any(3)))");
}

#[test]
fn sequences_are_written_between_brackets() {
    let seq = vec![
        Word::Keyword("move".to_string()),
        Word::Type(VariableType::Pos),
        Word::Type(VariableType::Direction),
        Word::Keyword("by".to_string()),
        Word::Type(list_of(VariableType::Int)),
    ];
    assert_eq!(seq_to_str(&seq), "[ move Pos Direction by Vec(Int) ]");
    assert_eq!(seq_to_str(&vec![]), "[ ]");
    assert_eq!(seq[0].to_string(), "move");
    assert_eq!(seq[4].to_string(), "Vec(Int)");
}

#[test]
fn values_are_written_as_in_a_program() {
    assert_eq!(VariableValue::Int(-3).to_string(), "-3");
    assert_eq!(VariableValue::Pos(1, 20).to_string(), "(1,20)");
    assert_eq!(VariableValue::String("blink".to_string()).to_string(), "\"blink\"");
    assert_eq!(VariableValue::Color(Rgb::new(255, 0, 10)).to_string(), "{255,0,10}");
    assert_eq!(VariableValue::Effect(Effect::Blur).to_string(), "blur");
    assert_eq!(VariableValue::Effect(Effect::Random).to_string(), "random");
    assert_eq!(VariableValue::Effect(Effect::Inverse).to_string(), "inverse");
    assert_eq!(VariableValue::Direction(Direction::Left).to_string(), "left");
    assert_eq!(VariableValue::Direction(Direction::Right).to_string(), "right");
    assert_eq!(VariableValue::Direction(Direction::Up).to_string(), "up");
    assert_eq!(VariableValue::Direction(Direction::Down).to_string(), "down");
    assert_eq!(VariableValue::Component(3).to_string(), "component(3)");
    assert_eq!(VariableValue::Any(4).to_string(), "Any(4)");
    assert_eq!(VariableValue::Vec(vec![]).to_string(), "[]");
    let list = VariableValue::Vec(vec![
        lit(VariableValue::Int(1)),
        Variable::new("x", VariableType::Int),
        lit(VariableValue::Vec(vec![lit(VariableValue::Pos(0, 0))])),
        Variable::new_component("c", 1),
    ]);
    assert_eq!(list.to_string(), "[1,x,[(0,0)],component]");
    assert_eq!(Direction::Down.to_string(), "down");
    assert_eq!(Effect::Random.to_string(), "random");
}

#[test]
fn variables_are_written_by_name_or_value() {
    assert_eq!(Variable::new("$x", VariableType::Int).to_string(), "$x");
    assert_eq!(lit(VariableValue::Int(5)).to_string(), "5");
    assert_eq!(Variable::new_component("c", 1).to_string(), "component");
    let list = vec![lit(VariableValue::Int(5)), Variable::new("y", VariableType::Pos)];
    assert_eq!(variables_to_string(&list), "5,y");
    assert_eq!(variables_to_string(&vec![]), "");
}

fn add(name: &str) -> Event {
    Event::new(
        9,
        vec![lit(VariableValue::Int(1)), Variable::new(name, VariableType::Int)],
        vec![],
        VariableMap::new(),
    )
}

#[test]
fn events_are_written_with_their_bodies() {
    assert_eq!(add("x").to_string_with_indent(4), "event 9 with params (1,x)");
    assert_eq!(add("x").to_string(), "event 9 with params (1,x)");
    let inner = Event::new(15, vec![], vec![add("$y")], VariableMap::new());
    let call = Event::new(
        14,
        vec![Variable::new("n", VariableType::Int)],
        vec![add("$x"), inner],
        VariableMap::new(),
    );
    assert_eq!(
        call.to_string_with_indent(4),
        "event 14 with params (n):\n    event 9 with params (1,$x)\n    event 15 with params ():\n      event 9 with params (1,$y)"
    );
    // without an indent the margin is one blank
    assert_eq!(
        call.to_string_with_indent(0),
        "event 14 with params (n):\n event 9 with params (1,$x)\n event 15 with params ():\n  event 9 with params (1,$y)"
    );
}

#[test]
fn actions_are_written_with_their_events() {
    let a = Action::new(
        "tick".to_string(),
        true,
        Timestamp::Frame(3),
        Timestamp::Frame(0),
        vec![add("fired"), add("other")],
        false,
    );
    assert_eq!(
        a.to_string(),
        "every 3 frames do {\n  event 9 with params (1,fired)\n  event 9 with params (1,other)\n}"
    );
    let b = Action::new(
        "once".to_string(),
        true,
        Timestamp::Millis(250),
        Timestamp::Millis(0),
        vec![],
        true,
    );
    assert_eq!(b.to_string(), "at 250 ms do {\n  \n}");
}

#[test]
fn constraints_and_iterated_names_are_written_out() {
    let tc = TypeConstraints::from(vec![VariableType::Int, list_of(VariableType::Any(0))]);
    assert_eq!(tc.to_string(), "[Int Vec(Any(0))]");
    assert_eq!(TypeConstraints::new(0).to_string(), "[]");
    let op = Operation::new(
        14,
        vec!["$x".to_string(), "$list".to_string()],
        vec![],
        vec![1],
        VariableMap::new(),
    );
    assert_eq!(op.get_iterated_param_name(1), "$list!");
    assert_eq!(op.get_iterated_param_name(0), "$x!");
}
