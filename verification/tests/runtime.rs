use std::collections::HashMap;
use vinx::context::{Context, DrawCommand, Shape};
use vinx::error::RuntimeError;
use vinx::event::activeness::Activeness;
use vinx::event::arithmetic::{
    magnitude, move_phase, move_restricted, place_behind, saturating_add, saturating_sub,
};
use vinx::event::component::Components;
use vinx::event::operations::{
    draw_effect_rect, draw_rect, draw_rect_outline, move_pos, move_pos_phase, rotate_left,
    rotate_right, rotate_vec, set_activeness, toggle_activeness, top_into,
};
use vinx::event::{Event, Operation, Operations};
use vinx::variable::stack::{Stack, VariableMap};
use vinx::variable::types::VariableType;
use vinx::variable::values::{Direction, Effect, Rgb, VariableValue};
use vinx::variable::{Variable, VariableLocation};

fn list_of(t: VariableType) -> VariableType {
    VariableType::Vec(Box::new(t))
}

fn lit(v: VariableValue) -> Variable {
    Variable::new_static(v)
}

fn numbers(values: &[i32]) -> VariableValue {
    VariableValue::Vec(values.iter().map(|i| lit(VariableValue::Int(*i))).collect())
}

fn frame() -> Context {
    let mut context = Context::new(100, 50, 10);
    context.step();
    context
}

fn scope_with(entries: Vec<(&str, VariableValue)>) -> Stack {
    let mut scope = Stack::new();
    for (name, value) in entries {
        scope.add_variable(name.to_string(), value);
    }
    scope
}

#[test]
fn stack_looks_names_up_from_the_innermost_layer() {
    let mut scope = Stack::new();
    assert_eq!(scope.layers.len(), 1);
    scope.add_variable("x".to_string(), VariableValue::Int(1));
    scope.push_layer();
    assert_eq!(scope.get_variable("x"), Some(&VariableValue::Int(1)));
    scope.add_variable("x".to_string(), VariableValue::Int(2));
    scope.add_variable("y".to_string(), VariableValue::Pos(3, 4));
    assert_eq!(scope.get_variable("x"), Some(&VariableValue::Int(2)));
    assert_eq!(scope.get_variable("z"), None);
    assert_eq!(scope.layer_of("x"), Some(1));
    assert_eq!(scope.layer_of("z"), None);
    let top = scope.pop_layer();
    assert_eq!(top.get("y"), Some(&VariableValue::Pos(3, 4)));
    assert_eq!(top.keys().len(), 2);
    assert_eq!(scope.get_variable("x"), Some(&VariableValue::Int(1)));
    assert_eq!(scope.get_variable("y"), None);
}

#[test]
fn stack_updates_the_innermost_layer_that_holds_the_name() {
    let mut scope = scope_with(vec![("x", VariableValue::Int(1)), ("y", VariableValue::Int(7))]);
    scope.push_layer();
    scope.add_variable("x".to_string(), VariableValue::Int(2));
    scope.update_variable("x", VariableValue::Int(20));
    scope.update_variable("y", VariableValue::Int(70));
    scope.update_variable("nobody", VariableValue::Int(0));
    assert_eq!(scope.get_variable("x"), Some(&VariableValue::Int(20)));
    assert_eq!(scope.get_variable("nobody"), None);
    scope.pop_layer();
    assert_eq!(scope.get_variable("x"), Some(&VariableValue::Int(1)));
    assert_eq!(scope.get_variable("y"), Some(&VariableValue::Int(70)));
}

#[test]
fn stack_finds_variables_by_type() {
    let mut scope = scope_with(vec![("v", numbers(&[1, 2]))]);
    scope.push_layer();
    scope.add_variable("v".to_string(), VariableValue::Int(9));
    assert_eq!(
        scope.get_variable_of_type("v", &list_of(VariableType::Int)),
        Some(&numbers(&[1, 2]))
    );
    assert_eq!(scope.get_variable_of_type("v", &VariableType::Int), Some(&VariableValue::Int(9)));
    assert_eq!(scope.get_variable_of_type("v", &VariableType::Pos), None);
    assert_eq!(scope.typed_layer_of("v", &list_of(VariableType::Int)), Some(0));
    assert_eq!(scope.typed_layer_of("v", &VariableType::Int), Some(1));
}

#[test]
fn push_layer_with_brings_its_variables() {
    let mut layer = VariableMap::new();
    assert_eq!(layer.insert("a".to_string(), VariableValue::Int(1)), None);
    assert_eq!(layer.insert("a".to_string(), VariableValue::Int(2)), Some(VariableValue::Int(1)));
    assert!(layer.contains_key("a"));
    assert!(!layer.contains_key("b"));
    assert_eq!(layer.keys(), vec!["a".to_string()]);
    let mut scope = Stack::new();
    scope.push_layer_with(layer.clone());
    assert_eq!(scope.get_variable("a"), Some(&VariableValue::Int(2)));
    assert_eq!(scope.clone().layers.len(), 2);
}

#[test]
fn update_vec_at_writes_to_the_element() {
    let list_type = list_of(VariableType::Int);
    let mixed = VariableValue::Vec(vec![
        lit(VariableValue::Int(1)),
        Variable::new("a", VariableType::Int),
    ]);
    let mut scope = scope_with(vec![("a", VariableValue::Int(10)), ("v", mixed)]);
    // an element that carries its value gets the value in place
    assert_eq!(scope.update_vec_at("v", 0, VariableValue::Int(5), &list_type), Ok(()));
    assert_eq!(
        scope.get_variable("v"),
        Some(&VariableValue::Vec(vec![
            lit(VariableValue::Int(5)),
            Variable::new("a", VariableType::Int),
        ]))
    );
    // an element that names a variable hands the value on
    assert_eq!(scope.update_vec_at("v", 1, VariableValue::Int(6), &list_type), Ok(()));
    assert_eq!(scope.get_variable("a"), Some(&VariableValue::Int(6)));
    // what cannot be done
    assert_eq!(
        scope.update_vec_at("v", 2, VariableValue::Int(0), &list_type),
        Err(RuntimeError::EmptyCollection)
    );
    assert_eq!(
        scope.update_vec_at("w", 0, VariableValue::Int(0), &list_type),
        Err(RuntimeError::UnknownVariable)
    );
    assert_eq!(
        scope.update_vec_at("a", 0, VariableValue::Int(0), &VariableType::Int),
        Err(RuntimeError::TypeMismatch)
    );
    let dangling = VariableValue::Vec(vec![Variable::new("gone", VariableType::Int)]);
    let mut scope = scope_with(vec![("v", dangling)]);
    assert_eq!(
        scope.update_vec_at("v", 0, VariableValue::Int(0), &list_type),
        Err(RuntimeError::UnknownVariable)
    );
    let component = VariableValue::Vec(vec![Variable::new_component("c", 3)]);
    let mut scope = scope_with(vec![("v", component)]);
    assert_eq!(
        scope.update_vec_at("v", 0, VariableValue::Int(0), &list_of(VariableType::Component(3))),
        Err(RuntimeError::Unsupported)
    );
}

#[test]
fn variables_know_what_they_are() {
    let v = Variable::new("x", VariableType::Pos);
    assert_eq!(v.get_name(), "x");
    assert_eq!(v.get_location(), VariableLocation::Scope);
    assert_eq!(v.get_type(), &VariableType::Pos);
    assert!(!v.is_static());
    let s = lit(VariableValue::Int(3));
    assert!(s.is_static());
    assert_eq!(s.get_name(), "");
    assert_eq!(s.get_type(), &VariableType::Int);
    let c = Variable::new_component("c", 2);
    assert_eq!(c.get_location(), VariableLocation::Component);
    assert_eq!(c.get_type(), &VariableType::Component(2));
    assert_eq!(VariableValue::Int(3).to_var(), s);
    assert_ne!(v, s);
}

#[test]
fn get_value_reads_literals_and_the_scope() {
    let context = frame();
    let scope = scope_with(vec![("x", VariableValue::Int(4))]);
    assert_eq!(lit(VariableValue::Int(3)).get_value(&context, &scope), Ok(VariableValue::Int(3)));
    let x = Variable::new("x", VariableType::Int);
    assert_eq!(x.get_value(&context, &scope), Ok(VariableValue::Int(4)));
    assert_eq!(x.get_value_ref(&context, &scope), Ok(&VariableValue::Int(4)));
    let width = Variable::new("$width", VariableType::Int);
    assert_eq!(width.get_value(&context, &scope), Ok(VariableValue::Int(100)));
    assert_eq!(width.get_value_ref(&context, &scope), Err(RuntimeError::UnknownVariable));
    let height = Variable::new("$height", VariableType::Int);
    assert_eq!(height.get_value(&context, &scope), Ok(VariableValue::Int(50)));
    let gone = Variable::new("gone", VariableType::Int);
    assert_eq!(gone.get_value(&context, &scope), Err(RuntimeError::UnknownVariable));
    let component = Variable::new_component("c", 1);
    assert_eq!(component.get_value(&context, &scope), Err(RuntimeError::UnsetValue));
}

#[test]
fn a_variable_named_like_the_frame_size_wins_over_it() {
    let context = frame();
    let scope = scope_with(vec![("$width", VariableValue::Int(7))]);
    let width = Variable::new("$width", VariableType::Int);
    assert_eq!(width.get_value(&context, &scope), Ok(VariableValue::Int(7)));
}

#[test]
fn get_value_of_type_asks_for_the_type() {
    let context = frame();
    let mut scope = scope_with(vec![("v", numbers(&[1]))]);
    scope.push_layer();
    scope.add_variable("v".to_string(), VariableValue::Int(2));
    let v = Variable::new("v", list_of(VariableType::Int));
    assert_eq!(v.get_value_of_type(&context, &scope, v.get_type()), Ok(numbers(&[1])));
    assert_eq!(
        v.get_value_of_type(&context, &scope, &VariableType::Int),
        Ok(VariableValue::Int(2))
    );
    assert_eq!(
        v.get_value_of_type(&context, &scope, &VariableType::Pos),
        Err(RuntimeError::UnknownVariable)
    );
    let three = lit(VariableValue::Int(3));
    assert_eq!(
        three.get_value_of_type(&context, &scope, &VariableType::Int),
        Ok(VariableValue::Int(3))
    );
    assert_eq!(
        three.get_value_of_type(&context, &scope, &VariableType::Pos),
        Err(RuntimeError::TypeMismatch)
    );
}

#[test]
fn set_value_writes_to_the_scope_only() {
    let context = frame();
    let mut scope = scope_with(vec![("x", VariableValue::Int(4))]);
    let x = Variable::new("x", VariableType::Int);
    assert_eq!(x.set_value(&context, &mut scope, VariableValue::Int(5)), Ok(()));
    assert_eq!(scope.get_variable("x"), Some(&VariableValue::Int(5)));
    assert_eq!(
        x.set_value(&context, &mut scope, VariableValue::Pos(1, 1)),
        Err(RuntimeError::TypeMismatch)
    );
    assert_eq!(scope.get_variable("x"), Some(&VariableValue::Int(5)));
    let gone = Variable::new("gone", VariableType::Int);
    assert_eq!(
        gone.set_value(&context, &mut scope, VariableValue::Int(5)),
        Err(RuntimeError::UnknownVariable)
    );
    assert_eq!(
        lit(VariableValue::Int(1)).set_value(&context, &mut scope, VariableValue::Int(5)),
        Err(RuntimeError::StaticMutation)
    );
    assert_eq!(
        Variable::new_component("c", 1).set_value(&context, &mut scope, VariableValue::Int(5)),
        Err(RuntimeError::Unsupported)
    );
}

#[test]
fn values_have_types() {
    assert_eq!(VariableValue::Int(1).get_type(), VariableType::Int);
    assert_eq!(VariableValue::Pos(1, 2).get_type(), VariableType::Pos);
    assert_eq!(VariableValue::String("s".to_string()).get_type(), VariableType::String);
    assert_eq!(VariableValue::Color(Rgb::black()).get_type(), VariableType::Color);
    assert_eq!(VariableValue::Effect(Effect::Blur).get_type(), VariableType::Effect);
    assert_eq!(VariableValue::Direction(Direction::Up).get_type(), VariableType::Direction);
    assert_eq!(VariableValue::Component(3).get_type(), VariableType::Component(3));
    assert_eq!(VariableValue::Any(2).get_type().get_binding(), Some(2));
    assert_eq!(numbers(&[1, 2]).get_type(), list_of(VariableType::Int));
    assert_eq!(
        VariableValue::Vec(vec![lit(numbers(&[1]))]).get_type(),
        list_of(list_of(VariableType::Int))
    );
    // the type of a collection without elements, or of mixed elements, is not known
    assert_eq!(numbers(&[]).get_type(), VariableType::Unresolved);
    let mixed = VariableValue::Vec(vec![lit(VariableValue::Int(1)), lit(VariableValue::Pos(1, 1))]);
    assert_eq!(mixed.get_type(), VariableType::Unresolved);
    assert_eq!(VariableValue::empty(), VariableValue::Any(0));
    assert!(VariableValue::Int(1).type_check(&VariableValue::Int(2)));
    assert!(!VariableValue::Int(1).type_check(&VariableValue::Pos(1, 1)));
    assert!(numbers(&[]).type_check(&numbers(&[1])));
}

#[test]
fn types_have_default_values() {
    assert_eq!(VariableType::Int.default(), VariableValue::Int(0));
    assert_eq!(VariableType::Pos.default(), VariableValue::Pos(0, 0));
    assert_eq!(VariableType::Direction.default(), VariableValue::Direction(Direction::Left));
    assert_eq!(VariableType::Color.default(), VariableValue::Color(Rgb::new(0, 0, 0)));
    assert_eq!(VariableType::String.default(), VariableValue::String(String::new()));
    assert_eq!(VariableType::Effect.default(), VariableValue::Effect(Effect::Blur));
    assert_eq!(VariableType::Any(4).default(), VariableValue::Any(4));
    assert_eq!(VariableType::Component(5).default(), VariableValue::Component(5));
    assert_eq!(list_of(VariableType::Int).default(), numbers(&[0]));
    assert_eq!(list_of(VariableType::Int).default().get_type(), list_of(VariableType::Int));
}

#[test]
fn restricted_steps_stop_at_the_edges() {
    // towards the origin
    assert_eq!(move_restricted(0, 5, true, 100), 0);
    assert_eq!(move_restricted(3, 5, true, 100), 0);
    assert_eq!(move_restricted(7, 5, true, 100), 2);
    // away from it
    assert_eq!(move_restricted(90, 5, false, 100), 95);
    assert_eq!(move_restricted(98, 5, false, 100), 100);
    assert_eq!(move_restricted(usize::MAX, 5, false, usize::MAX), usize::MAX);
    assert_eq!(move_restricted(usize::MAX - 1, 5, false, 7), 7);
    // a negative step leads the other way
    assert_eq!(move_restricted(7, -5, true, 100), 12);
    assert_eq!(move_restricted(7, -5, false, 100), 2);
    assert_eq!(move_restricted(7, 0, false, 3), 7);
    assert_eq!(move_restricted(1, i32::MIN, false, 100), 0);
}

#[test]
fn wrapping_steps_come_in_at_the_other_edge() {
    assert_eq!(move_phase(0, 5, true, 100), 95);
    assert_eq!(move_phase(98, 5, false, 100), 3);
    assert_eq!(move_phase(10, 5, true, 100), 5);
    assert_eq!(move_phase(10, 205, false, 100), 15);
    assert_eq!(move_phase(10, 205, true, 100), 5);
    assert_eq!(move_phase(10, -5, true, 100), 15);
    assert_eq!(move_phase(250, 0, false, 100), 50);
    assert_eq!(move_phase(0, 1, true, 1), 0);
    assert_eq!(move_phase(3, i32::MIN, false, 10), 5);
}

#[test]
fn sums_stay_in_range() {
    assert_eq!(saturating_add(2, 3), 5);
    assert_eq!(saturating_add(i32::MAX, 1), i32::MAX);
    assert_eq!(saturating_add(i32::MIN, -1), i32::MIN);
    assert_eq!(saturating_sub(5, 3), 2);
    assert_eq!(saturating_sub(i32::MIN, 1), i32::MIN);
    assert_eq!(saturating_sub(i32::MAX, -1), i32::MAX);
    assert_eq!(saturating_sub(0, i32::MIN), i32::MAX);
    assert_eq!(magnitude(-7), 7);
    assert_eq!(magnitude(7), 7);
    assert_eq!(magnitude(i32::MIN), 2147483648);
    assert_eq!(place_behind(2, 2, 3), 1);
    assert_eq!(place_behind(0, 2, 3), 2);
}

fn move_args() -> (Stack, Vec<Variable>) {
    let scope = scope_with(vec![("p", VariableValue::Pos(0, 0))]);
    let params = vec![
        Variable::new("p", VariableType::Pos),
        lit(VariableValue::Direction(Direction::Left)),
        lit(VariableValue::Int(5)),
    ];
    (scope, params)
}

#[test]
fn move_saturates_or_wraps() {
    let context = frame();
    let (mut scope, params) = move_args();
    assert_eq!(move_pos(&context, &mut scope, &params), Ok(()));
    assert_eq!(scope.get_variable("p"), Some(&VariableValue::Pos(0, 0)));
    assert_eq!(move_pos_phase(&context, &mut scope, &params), Ok(()));
    assert_eq!(scope.get_variable("p"), Some(&VariableValue::Pos(95, 0)));
    let down = vec![
        Variable::new("p", VariableType::Pos),
        lit(VariableValue::Direction(Direction::Down)),
        lit(VariableValue::Int(60)),
    ];
    assert_eq!(move_pos(&context, &mut scope, &down), Ok(()));
    assert_eq!(scope.get_variable("p"), Some(&VariableValue::Pos(95, 50)));
    assert_eq!(move_pos_phase(&context, &mut scope, &down), Ok(()));
    assert_eq!(scope.get_variable("p"), Some(&VariableValue::Pos(95, 10)));
    let up = vec![
        Variable::new("p", VariableType::Pos),
        lit(VariableValue::Direction(Direction::Up)),
        lit(VariableValue::Int(4)),
    ];
    assert_eq!(move_pos(&context, &mut scope, &up), Ok(()));
    assert_eq!(scope.get_variable("p"), Some(&VariableValue::Pos(95, 6)));
    let right = vec![
        Variable::new("p", VariableType::Pos),
        lit(VariableValue::Direction(Direction::Right)),
        lit(VariableValue::Int(4)),
    ];
    assert_eq!(move_pos(&context, &mut scope, &right), Ok(()));
    assert_eq!(scope.get_variable("p"), Some(&VariableValue::Pos(99, 6)));
    assert_eq!(move_pos(&context, &mut scope, &right), Ok(()));
    assert_eq!(scope.get_variable("p"), Some(&VariableValue::Pos(100, 6)));
}

#[test]
fn move_rejects_what_it_cannot_move() {
    let context = frame();
    let (mut scope, mut params) = move_args();
    params.pop();
    assert_eq!(move_pos(&context, &mut scope, &params), Err(RuntimeError::ParameterCount));
    params.push(lit(VariableValue::Pos(1, 1)));
    assert_eq!(move_pos(&context, &mut scope, &params), Err(RuntimeError::TypeMismatch));
    params[2] = Variable::new("step", VariableType::Int);
    assert_eq!(move_pos(&context, &mut scope, &params), Err(RuntimeError::UnknownVariable));
    params[2] = lit(VariableValue::Int(1));
    params[0] = lit(VariableValue::Pos(3, 3));
    assert_eq!(move_pos(&context, &mut scope, &params), Err(RuntimeError::StaticMutation));
    let empty = Context::new(0, 0, 1);
    let (mut scope, params) = move_args();
    assert_eq!(move_pos_phase(&empty, &mut scope, &params), Err(RuntimeError::EmptyFrame));
    assert_eq!(move_pos(&empty, &mut scope, &params), Ok(()));
}

fn rotate(values: &[i32], d: Direction, step: Option<i32>) -> Option<VariableValue> {
    let context = frame();
    let mut scope = scope_with(vec![("v", numbers(values))]);
    let mut params = vec![Variable::new("v", list_of(VariableType::Int)), lit(VariableValue::Direction(d))];
    if let Some(step) = step {
        params.push(lit(VariableValue::Int(step)));
    }
    assert_eq!(rotate_vec(&context, &mut scope, &params), Ok(()));
    scope.get_variable("v").cloned()
}

#[test]
fn rotate_moves_the_elements_round() {
    assert_eq!(rotate(&[1, 2, 3], Direction::Left, Some(1)), Some(numbers(&[2, 3, 1])));
    assert_eq!(rotate(&[1, 2, 3], Direction::Right, Some(1)), Some(numbers(&[3, 1, 2])));
    assert_eq!(rotate(&[1, 2, 3], Direction::Left, None), Some(numbers(&[2, 3, 1])));
    assert_eq!(rotate(&[1, 2, 3], Direction::Left, Some(5)), Some(numbers(&[3, 1, 2])));
    assert_eq!(rotate(&[1, 2, 3], Direction::Right, Some(3)), Some(numbers(&[1, 2, 3])));
    assert_eq!(rotate(&[1, 2, 3], Direction::Left, Some(0)), Some(numbers(&[1, 2, 3])));
    assert_eq!(rotate(&[1, 2, 3], Direction::Left, Some(-1)), Some(numbers(&[1, 2, 3])));
    assert_eq!(rotate(&[], Direction::Left, Some(1)), Some(numbers(&[])));
    assert_eq!(rotate(&[], Direction::Right, Some(4)), Some(numbers(&[])));
    assert_eq!(rotate(&[7], Direction::Right, Some(4)), Some(numbers(&[7])));
}

#[test]
fn rotate_left_and_right_undo_each_other() {
    let items: Vec<Variable> = (1..=5).map(|i| lit(VariableValue::Int(i))).collect();
    for k in 0..12 {
        assert_eq!(rotate_right(&rotate_left(&items, k), k), items);
        assert_eq!(rotate_left(&rotate_right(&items, k), k), items);
    }
    assert_eq!(rotate_left(&items, 2)[0], lit(VariableValue::Int(3)));
    assert_eq!(rotate_right(&items, 2)[0], lit(VariableValue::Int(4)));
}

#[test]
fn rotate_rejects_what_it_cannot_turn() {
    let context = frame();
    let mut scope = scope_with(vec![("v", numbers(&[1, 2])), ("n", VariableValue::Int(1))]);
    let v = Variable::new("v", list_of(VariableType::Int));
    let left = lit(VariableValue::Direction(Direction::Left));
    assert_eq!(rotate_vec(&context, &mut scope, &vec![v.clone()]), Err(RuntimeError::ParameterCount));
    assert_eq!(
        rotate_vec(&context, &mut scope, &vec![v.clone(), lit(VariableValue::Direction(Direction::Up))]),
        Err(RuntimeError::TypeMismatch)
    );
    assert_eq!(
        rotate_vec(&context, &mut scope, &vec![Variable::new("n", VariableType::Int), left.clone()]),
        Err(RuntimeError::TypeMismatch)
    );
    assert_eq!(
        rotate_vec(&context, &mut scope, &vec![v.clone(), left.clone(), lit(VariableValue::Pos(1, 1))]),
        Err(RuntimeError::TypeMismatch)
    );
    assert_eq!(
        rotate_vec(&context, &mut scope, &vec![lit(numbers(&[1, 2])), left.clone()]),
        Err(RuntimeError::StaticMutation)
    );
    // an empty collection is left alone, whatever holds it
    assert_eq!(rotate_vec(&context, &mut scope, &vec![lit(numbers(&[])), left]), Ok(()));
}

#[test]
fn add_sub_set_and_top() {
    let context = frame();
    let mut scope = scope_with(vec![
        ("a", VariableValue::Int(i32::MAX - 1)),
        ("p", VariableValue::Pos(0, 0)),
        ("v", VariableValue::Vec(vec![Variable::new("a", VariableType::Int), lit(VariableValue::Int(0))])),
    ]);
    let a = Variable::new("a", VariableType::Int);
    let two = lit(VariableValue::Int(2));
    assert_eq!(vinx::event::operations::add(&context, &mut scope, &vec![two.clone(), a.clone()]), Ok(()));
    assert_eq!(scope.get_variable("a"), Some(&VariableValue::Int(i32::MAX)));
    assert_eq!(vinx::event::operations::sub(&context, &mut scope, &vec![two.clone(), a.clone()]), Ok(()));
    assert_eq!(scope.get_variable("a"), Some(&VariableValue::Int(i32::MAX - 2)));
    assert_eq!(
        vinx::event::operations::set(&context, &mut scope, &vec![a.clone(), lit(VariableValue::Int(-5))]),
        Ok(())
    );
    assert_eq!(scope.get_variable("a"), Some(&VariableValue::Int(-5)));
    assert_eq!(vinx::event::operations::sub(&context, &mut scope, &vec![two.clone(), a.clone()]), Ok(()));
    assert_eq!(scope.get_variable("a"), Some(&VariableValue::Int(-7)));
    assert_eq!(
        vinx::event::operations::set(&context, &mut scope, &vec![a.clone(), lit(VariableValue::Pos(1, 1))]),
        Err(RuntimeError::TypeMismatch)
    );
    assert_eq!(
        vinx::event::operations::set(&context, &mut scope, &vec![a.clone()]),
        Err(RuntimeError::ParameterCount)
    );
    assert_eq!(
        vinx::event::operations::add(&context, &mut scope, &vec![a.clone()]),
        Err(RuntimeError::ParameterCount)
    );
    assert_eq!(
        vinx::event::operations::add(
            &context,
            &mut scope,
            &vec![a.clone(), Variable::new("p", VariableType::Pos)]
        ),
        Err(RuntimeError::TypeMismatch)
    );
    // top takes the value of the first element, whatever it names
    let v = Variable::new("v", list_of(VariableType::Int));
    scope.add_variable("t".to_string(), VariableValue::Int(0));
    let t = Variable::new("t", VariableType::Int);
    assert_eq!(top_into(&context, &mut scope, &vec![v.clone(), t.clone()]), Ok(()));
    assert_eq!(scope.get_variable("t"), Some(&VariableValue::Int(-7)));
    assert_eq!(
        top_into(&context, &mut scope, &vec![lit(numbers(&[])), t.clone()]),
        Err(RuntimeError::EmptyCollection)
    );
    assert_eq!(
        top_into(&context, &mut scope, &vec![a.clone(), t.clone()]),
        Err(RuntimeError::TypeMismatch)
    );
    assert_eq!(top_into(&context, &mut scope, &vec![v]), Err(RuntimeError::ParameterCount));
}

#[test]
fn activeness_is_set_and_toggled_by_name() {
    let context = frame();
    let scope = Stack::new();
    let mut flags = Activeness::new();
    assert_eq!(flags.insert("blink".to_string(), false), None);
    let blink = vec![lit(VariableValue::String("blink".to_string()))];
    assert_eq!(set_activeness(&context, &scope, &mut flags, &blink, true), Ok(()));
    assert_eq!(flags.get("blink"), Some(true));
    assert_eq!(toggle_activeness(&context, &scope, &mut flags, &blink), Ok(()));
    assert_eq!(flags.get("blink"), Some(false));
    assert_eq!(toggle_activeness(&context, &scope, &mut flags, &blink), Ok(()));
    assert_eq!(flags.get("blink"), Some(true));
    assert_eq!(set_activeness(&context, &scope, &mut flags, &blink, false), Ok(()));
    assert_eq!(flags.clone().get("blink"), Some(false));
    let unknown = vec![lit(VariableValue::String("other".to_string()))];
    assert_eq!(
        set_activeness(&context, &scope, &mut flags, &unknown, true),
        Err(RuntimeError::UnknownAction)
    );
    assert_eq!(
        toggle_activeness(&context, &scope, &mut flags, &unknown),
        Err(RuntimeError::UnknownAction)
    );
    assert_eq!(flags.get("other"), None);
    let number = vec![lit(VariableValue::Int(1))];
    assert_eq!(
        set_activeness(&context, &scope, &mut flags, &number, true),
        Err(RuntimeError::TypeMismatch)
    );
    assert_eq!(
        toggle_activeness(&context, &scope, &mut flags, &vec![]),
        Err(RuntimeError::ParameterCount)
    );
}

#[test]
fn drawing_issues_calls_for_the_current_frame() {
    let mut context = Context::new(100, 50, 10);
    let scope = scope_with(vec![("a", VariableValue::Pos(1, 2)), ("b", VariableValue::Pos(30, 40))]);
    let red = Rgb::new(255, 0, 0);
    let params = vec![
        lit(VariableValue::Color(red)),
        Variable::new("a", VariableType::Pos),
        Variable::new("b", VariableType::Pos),
    ];
    // before the first frame there is nothing to draw on
    assert_eq!(draw_rect(&mut context, &scope, &params), Err(RuntimeError::NoFrame));
    context.step();
    context.step();
    assert_eq!(context.get_frame_index(), 2);
    assert_eq!(draw_rect(&mut context, &scope, &params), Ok(()));
    assert_eq!(draw_rect_outline(&mut context, &scope, &params), Ok(()));
    let effect = vec![
        lit(VariableValue::Effect(Effect::Inverse)),
        Variable::new("a", VariableType::Pos),
        Variable::new("b", VariableType::Pos),
    ];
    assert_eq!(draw_effect_rect(&mut context, &scope, &effect), Ok(()));
    assert_eq!(draw_rect(&mut context, &scope, &effect), Err(RuntimeError::TypeMismatch));
    assert_eq!(draw_effect_rect(&mut context, &scope, &params), Err(RuntimeError::TypeMismatch));
    assert_eq!(draw_rect(&mut context, &scope, &vec![]), Err(RuntimeError::ParameterCount));
    let draws = context.take_draws();
    let command = |shape: Shape| DrawCommand { frame: 1, top_left: (1, 2), bottom_right: (30, 40), shape };
    assert_eq!(
        draws,
        vec![
            command(Shape::Rect(red)),
            command(Shape::RectOutline(red)),
            command(Shape::EffectRect(Effect::Inverse)),
        ]
    );
    assert_eq!(context.take_draws(), vec![]);
}

#[test]
fn context_keeps_size_length_and_register() {
    let mut context = Context::new(640, 480, 25);
    assert_eq!(context.get_width(), 640);
    assert_eq!(context.get_height(), 480);
    assert_eq!(context.get_video_length(), 25);
    assert_eq!(context.get_frame_index(), 0);
    context.set_register(VariableValue::Int(4));
    assert_eq!(context.get_register(), VariableValue::Int(4));
    assert_eq!(context.draw((0, 0), (1, 1), Shape::Rect(Rgb::black())), Err(RuntimeError::NoFrame));
}

fn run(event: &Event, scope: &mut Stack, operations: &Operations) -> Result<(), RuntimeError> {
    let mut context = frame();
    let mut components: Components = HashMap::new();
    let mut flags = Activeness::new();
    event.process(&mut context, scope, &mut components, &mut flags, operations)
}

/// `add 1 to $x`
fn increment(name: &str) -> Event {
    Event::new(
        9,
        vec![lit(VariableValue::Int(1)), Variable::new(name, VariableType::Int)],
        vec![],
        VariableMap::new(),
    )
}

#[test]
fn events_dispatch_the_built_in_operations() {
    let mut scope = scope_with(vec![("x", VariableValue::Int(1)), ("p", VariableValue::Pos(5, 5))]);
    let operations: Operations = HashMap::new();
    assert_eq!(run(&increment("x"), &mut scope, &operations), Ok(()));
    assert_eq!(scope.get_variable("x"), Some(&VariableValue::Int(2)));
    let sub = Event::new(
        13,
        vec![lit(VariableValue::Int(5)), Variable::new("x", VariableType::Int)],
        vec![],
        VariableMap::new(),
    );
    assert_eq!(run(&sub, &mut scope, &operations), Ok(()));
    assert_eq!(scope.get_variable("x"), Some(&VariableValue::Int(-3)));
    let params = vec![
        Variable::new("p", VariableType::Pos),
        lit(VariableValue::Direction(Direction::Left)),
        lit(VariableValue::Int(10)),
    ];
    let restricted = Event::new(1, params.clone(), vec![], VariableMap::new());
    assert_eq!(run(&restricted, &mut scope, &operations), Ok(()));
    assert_eq!(scope.get_variable("p"), Some(&VariableValue::Pos(0, 5)));
    let wrapping = Event::new(2, params, vec![], VariableMap::new());
    assert_eq!(run(&wrapping, &mut scope, &operations), Ok(()));
    assert_eq!(scope.get_variable("p"), Some(&VariableValue::Pos(90, 5)));
    let unknown = Event::new(14, vec![], vec![], VariableMap::new());
    assert_eq!(run(&unknown, &mut scope, &operations), Err(RuntimeError::UnknownOperation));
    assert_eq!(
        run(&Event::new(0, vec![], vec![], VariableMap::new()), &mut scope, &operations),
        Err(RuntimeError::UnknownOperation)
    );
}

fn operations_with(op: Operation) -> Operations {
    let mut operations: Operations = HashMap::new();
    operations.insert(op.id, op);
    operations
}

#[test]
fn a_call_binds_by_value_and_copies_back() {
    // increase $x { add 1 to $x }
    let op = Operation::new(14, vec!["$x".to_string()], vec![increment("$x")], vec![], VariableMap::new());
    let operations = operations_with(op);
    let mut scope = scope_with(vec![("counter", VariableValue::Int(5))]);
    let call = operations[&14].instantiate(vec![Variable::new("counter", VariableType::Int)]);
    assert_eq!(run(&call, &mut scope, &operations), Ok(()));
    assert_eq!(scope.get_variable("counter"), Some(&VariableValue::Int(6)));
    assert_eq!(scope.get_variable("$x"), None);
    assert_eq!(scope.layers.len(), 1);
    // a literal is not written back, and stays what it is
    let literal = operations[&14].instantiate(vec![lit(VariableValue::Int(5))]);
    assert_eq!(run(&literal, &mut scope, &operations), Ok(()));
    assert_eq!(literal.params[0], lit(VariableValue::Int(5)));
    assert_eq!(scope.get_variable("counter"), Some(&VariableValue::Int(6)));
    // the wrong number of parameters
    let none = operations[&14].instantiate(vec![]);
    assert_eq!(run(&none, &mut scope, &operations), Err(RuntimeError::ParameterCount));
    let gone = operations[&14].instantiate(vec![Variable::new("gone", VariableType::Int)]);
    assert_eq!(run(&gone, &mut scope, &operations), Err(RuntimeError::UnknownVariable));
}

#[test]
fn a_call_sees_its_static_variables() {
    // total $x { $sum is 10; add $sum to $x }
    let mut variables = VariableMap::new();
    variables.insert("$sum".to_string(), VariableValue::Int(10));
    let body = Event::new(
        9,
        vec![Variable::new("$sum", VariableType::Int), Variable::new("$x", VariableType::Int)],
        vec![],
        VariableMap::new(),
    );
    let op = Operation::new(14, vec!["$x".to_string()], vec![body], vec![], variables);
    let operations = operations_with(op);
    let mut scope = scope_with(vec![("n", VariableValue::Int(1))]);
    let call = operations[&14].instantiate(vec![Variable::new("n", VariableType::Int)]);
    assert_eq!(run(&call, &mut scope, &operations), Ok(()));
    assert_eq!(scope.get_variable("n"), Some(&VariableValue::Int(11)));
    assert_eq!(run(&call, &mut scope, &operations), Ok(()));
    assert_eq!(scope.get_variable("n"), Some(&VariableValue::Int(21)));
    // an operand named like a static variable cannot be bound
    let mut variables = VariableMap::new();
    variables.insert("$x".to_string(), VariableValue::Int(10));
    let clash = Operation::new(15, vec!["$x".to_string()], vec![], vec![], variables);
    let operations = operations_with(clash);
    let call = operations[&15].instantiate(vec![Variable::new("n", VariableType::Int)]);
    assert_eq!(run(&call, &mut scope, &operations), Err(RuntimeError::DuplicateVariable));
}

#[test]
fn a_call_iterates_over_its_collections() {
    // increase each [$v] { add 1 to $v }
    let op = Operation::new(14, vec!["$v".to_string()], vec![increment("$v")], vec![0], VariableMap::new());
    let operations = operations_with(op);
    let mut scope = scope_with(vec![("list", numbers(&[1, 2, 3]))]);
    let call = operations[&14].instantiate(vec![Variable::new("list", list_of(VariableType::Int))]);
    assert_eq!(call.get_iterations(&vec![0], &scope, &frame()), Ok(3));
    assert_eq!(call.get_iterations(&vec![], &scope, &frame()), Ok(1));
    assert_eq!(call.get_iterations(&vec![4], &scope, &frame()), Err(RuntimeError::ParameterCount));
    assert_eq!(call.get_iterated_params(&vec![0]), Ok(vec![true]));
    assert_eq!(call.get_iterated_params(&vec![1]), Err(RuntimeError::ParameterCount));
    assert_eq!(run(&call, &mut scope, &operations), Ok(()));
    assert_eq!(scope.get_variable("list"), Some(&numbers(&[2, 3, 4])));
    assert_eq!(scope.layers.len(), 1);
    // elements that name variables hand the values on
    let named = VariableValue::Vec(vec![
        Variable::new("a", VariableType::Int),
        Variable::new("b", VariableType::Int),
    ]);
    let mut scope = scope_with(vec![
        ("a", VariableValue::Int(10)),
        ("b", VariableValue::Int(20)),
        ("list", named.clone()),
    ]);
    assert_eq!(run(&call, &mut scope, &operations), Ok(()));
    assert_eq!(scope.get_variable("a"), Some(&VariableValue::Int(11)));
    assert_eq!(scope.get_variable("b"), Some(&VariableValue::Int(21)));
    assert_eq!(scope.get_variable("list"), Some(&named));
    // no element, no iteration
    let mut scope = scope_with(vec![("list", numbers(&[]))]);
    assert_eq!(run(&call, &mut scope, &operations), Ok(()));
    assert_eq!(scope.get_variable("list"), Some(&numbers(&[])));
}

#[test]
fn a_shorter_iterator_is_gone_round() {
    // spread [$a] over [$b] { add $b to $a }, the first being the main iterator
    let body = Event::new(
        9,
        vec![Variable::new("$b", VariableType::Int), Variable::new("$a", VariableType::Int)],
        vec![],
        VariableMap::new(),
    );
    let op = Operation::new(
        14,
        vec!["$a".to_string(), "$b".to_string()],
        vec![body],
        vec![0, 1],
        VariableMap::new(),
    );
    let operations = operations_with(op);
    let mut scope = scope_with(vec![("long", numbers(&[0, 0, 0, 0, 0])), ("short", numbers(&[1, 2]))]);
    let call = operations[&14].instantiate(vec![
        Variable::new("long", list_of(VariableType::Int)),
        Variable::new("short", list_of(VariableType::Int)),
    ]);
    assert_eq!(call.get_iterated_params(&vec![1, 0]), Ok(vec![true, true]));
    assert_eq!(run(&call, &mut scope, &operations), Ok(()));
    assert_eq!(scope.get_variable("long"), Some(&numbers(&[1, 2, 1, 2, 1])));
    assert_eq!(scope.get_variable("short"), Some(&numbers(&[1, 2])));
}

#[test]
fn calls_nest() {
    // twice $x { increase $x; increase $x }, increase $x { add 1 to $x }
    let increase = Operation::new(14, vec!["$x".to_string()], vec![increment("$x")], vec![], VariableMap::new());
    let inner = increase.instantiate(vec![Variable::new("$y", VariableType::Int)]);
    let twice = Operation::new(
        15,
        vec!["$y".to_string()],
        vec![inner.clone(), inner],
        vec![],
        VariableMap::new(),
    );
    let mut operations = operations_with(increase);
    operations.insert(15, twice);
    let mut scope = scope_with(vec![("n", VariableValue::Int(0))]);
    let call = operations[&15].instantiate(vec![Variable::new("n", VariableType::Int)]);
    assert_eq!(call.clone().events.len(), 2);
    assert_eq!(run(&call, &mut scope, &operations), Ok(()));
    assert_eq!(scope.get_variable("n"), Some(&VariableValue::Int(2)));
    assert_eq!(operations[&15].get_operands(), &vec!["$y".to_string()]);
    assert_eq!(operations[&15].get_iterators(), &Vec::<usize>::new());
    assert_eq!(operations[&15].clone().id, 15);
}

#[test]
fn push_and_pop_bracket_a_call() {
    let context = frame();
    let op = Operation::new(14, vec!["$x".to_string()], vec![], vec![], VariableMap::new());
    let mut scope = scope_with(vec![("n", VariableValue::Int(3))]);
    let params = vec![Variable::new("n", VariableType::Int)];
    assert_eq!(op.push_to_stack(&params, &VariableMap::new(), &context, &mut scope), Ok(()));
    assert_eq!(scope.layers.len(), 2);
    assert_eq!(scope.get_variable("$x"), Some(&VariableValue::Int(3)));
    scope.update_variable("$x", VariableValue::Int(4));
    assert_eq!(op.pop_from_stack(&params, &context, &mut scope), Ok(()));
    assert_eq!(scope.layers.len(), 1);
    assert_eq!(scope.get_variable("n"), Some(&VariableValue::Int(4)));
    // the kind of a value cannot change on the way back
    op.push_to_stack(&params, &VariableMap::new(), &context, &mut scope).unwrap();
    scope.update_variable("$x", VariableValue::Pos(0, 0));
    assert_eq!(op.pop_from_stack(&params, &context, &mut scope), Err(RuntimeError::TypeMismatch));
    let call = op.instantiate(params);
    assert_eq!(call.get_param_values(&context, &scope), Ok(vec![VariableValue::Int(4)]));
}
