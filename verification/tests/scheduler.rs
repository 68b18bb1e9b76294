use std::collections::HashMap;
use vinx::action::{Action, ActionBuilder, Timestamp};
use vinx::context::Context;
use vinx::error::RuntimeError;
use vinx::event::activeness::Activeness;
use vinx::event::component::Components;
use vinx::event::{Event, Operations};
use vinx::schedule::{get_action_activeness, run_frame};
use vinx::variable::stack::{Stack, VariableMap};
use vinx::variable::types::VariableType;
use vinx::variable::values::VariableValue;
use vinx::variable::Variable;

/// `add 1 to fired`
fn count() -> Event {
    Event::new(
        9,
        vec![
            Variable::new_static(VariableValue::Int(1)),
            Variable::new("fired", VariableType::Int),
        ],
        vec![],
        VariableMap::new(),
    )
}

struct World {
    context: Context,
    scope: Stack,
    components: Components,
    flags: Activeness,
    operations: Operations,
}

fn world() -> World {
    let mut scope = Stack::new();
    scope.add_variable("fired".to_string(), VariableValue::Int(0));
    World {
        context: Context::new(10, 10, 100),
        scope,
        components: HashMap::new(),
        flags: Activeness::new(),
        operations: HashMap::new(),
    }
}

fn fired(w: &World) -> i32 {
    match w.scope.get_variable("fired") {
        Some(VariableValue::Int(i)) => *i,
        _ => panic!("the counter is gone"),
    }
}

fn pair(a: &mut Action, w: &mut World, millis: usize) {
    a.step(millis);
    a.trigger(&mut w.context, &mut w.scope, &mut w.components, &mut w.flags, &w.operations).unwrap();
}

#[test]
fn a_frame_action_fires_once_every_target_pairs() {
    let mut w = world();
    let mut a = ActionBuilder::new()
        .named("tick")
        .activated_at(Timestamp::Frame(3))
        .with_events(vec![count()])
        .build();
    let mut seen = vec![];
    for _ in 0..9 {
        pair(&mut a, &mut w, 1000);
        seen.push(fired(&w));
    }
    assert_eq!(seen, vec![0, 0, 1, 1, 1, 2, 2, 2, 3]);
    assert_eq!(a.get_accumulator(), Timestamp::Frame(0));
    pair(&mut a, &mut w, 0);
    assert_eq!(a.get_accumulator(), Timestamp::Frame(1));
    assert!(!a.has_fired());
}

#[test]
fn a_one_shot_action_fires_once() {
    let mut w = world();
    let mut a = ActionBuilder::new()
        .named("once")
        .activated_at(Timestamp::Frame(2))
        .onetime(true)
        .with_events(vec![count()])
        .build();
    assert!(a.is_onetime());
    pair(&mut a, &mut w, 1);
    assert_eq!(fired(&w), 0);
    pair(&mut a, &mut w, 1);
    assert_eq!(fired(&w), 1);
    assert!(a.has_fired());
    for _ in 0..5 {
        pair(&mut a, &mut w, 1);
    }
    assert_eq!(fired(&w), 1);
    // activating it again does not make it fire again
    a.deactivate();
    a.activate();
    assert!(a.default_activeness());
    for _ in 0..5 {
        pair(&mut a, &mut w, 1);
    }
    assert_eq!(fired(&w), 1);
}

#[test]
fn a_millisecond_action_catches_up() {
    let mut w = world();
    let mut a = Action::new(
        "ms".to_string(),
        true,
        Timestamp::Millis(100),
        Timestamp::Millis(0),
        vec![count()],
        false,
    );
    pair(&mut a, &mut w, 250);
    assert_eq!(fired(&w), 2);
    assert_eq!(a.get_accumulator(), Timestamp::Millis(50));
    pair(&mut a, &mut w, 49);
    assert_eq!(fired(&w), 2);
    assert_eq!(a.get_accumulator(), Timestamp::Millis(99));
    pair(&mut a, &mut w, 1);
    assert_eq!(fired(&w), 3);
    assert_eq!(a.get_accumulator(), Timestamp::Millis(0));
    pair(&mut a, &mut w, 1000);
    assert_eq!(fired(&w), 13);
}

#[test]
fn a_one_shot_millisecond_action_fires_once_and_keeps_its_clock() {
    let mut w = world();
    let mut a = Action::new(
        "ms".to_string(),
        true,
        Timestamp::Millis(100),
        Timestamp::Millis(0),
        vec![count()],
        true,
    );
    pair(&mut a, &mut w, 350);
    assert_eq!(fired(&w), 1);
    assert_eq!(a.get_accumulator(), Timestamp::Millis(350));
    pair(&mut a, &mut w, 350);
    assert_eq!(fired(&w), 1);
}

#[test]
fn an_action_reports_the_error_of_its_events() {
    let mut w = world();
    let broken = Event::new(9, vec![], vec![], VariableMap::new());
    let mut a = Action::new(
        "broken".to_string(),
        true,
        Timestamp::Frame(1),
        Timestamp::Frame(0),
        vec![count(), broken, count()],
        false,
    );
    a.step(1);
    let r = a.trigger(&mut w.context, &mut w.scope, &mut w.components, &mut w.flags, &w.operations);
    assert_eq!(r, Err(RuntimeError::ParameterCount));
    assert_eq!(fired(&w), 1);
}

#[test]
fn actions_are_built_from_their_parts() {
    let a = ActionBuilder::new().named("a").activated_at(Timestamp::Millis(20)).build();
    assert_eq!(a.get_name(), "a");
    assert_eq!(a.get_events().len(), 0);
    assert!(!a.is_onetime());
    assert!(a.default_activeness());
    assert_eq!(a.get_target(), Timestamp::Millis(20));
    assert_eq!(a.get_accumulator(), Timestamp::Millis(0));
    let mut b = a.clone();
    b.step(5);
    assert_eq!(b.get_accumulator(), Timestamp::Millis(5));
    b.clear_accumulator();
    assert_eq!(b.get_accumulator(), Timestamp::Millis(0));
    let mut flags = Activeness::new();
    flags.insert("a".to_string(), false);
    assert!(!a.is_active(&flags));
    flags.insert("a".to_string(), true);
    assert!(a.is_active(&flags));
}

fn named(name: &str, active: bool, events: Vec<Event>) -> Action {
    Action::new(name.to_string(), active, Timestamp::Frame(1), Timestamp::Frame(0), events, false)
}

#[test]
fn the_activeness_of_actions_starts_with_their_own() {
    let actions = vec![named("a", true, vec![]), named("b", false, vec![]), named("", true, vec![])];
    let flags = get_action_activeness(&actions).unwrap();
    assert_eq!(flags.get("a"), Some(true));
    assert_eq!(flags.get("b"), Some(false));
    assert_eq!(flags.get(""), Some(true));
    assert_eq!(flags.get("c"), None);
    // actions without a name may be many, the last decides
    let anonymous = vec![named("", true, vec![]), named("", false, vec![])];
    assert_eq!(get_action_activeness(&anonymous).unwrap().get(""), Some(false));
    let twice = vec![named("a", true, vec![]), named("a", true, vec![])];
    assert_eq!(get_action_activeness(&twice).err(), Some(RuntimeError::DuplicateAction));
}

/// `toggle "counter"`
fn toggle(name: &str) -> Event {
    Event::new(
        12,
        vec![Variable::new_static(VariableValue::String(name.to_string()))],
        vec![],
        VariableMap::new(),
    )
}

#[test]
fn a_frame_steps_the_active_actions_in_their_order() {
    let mut w = world();
    let mut actions = vec![
        named("switch", true, vec![toggle("counter")]),
        named("counter", true, vec![count()]),
        named("asleep", false, vec![count(), count()]),
    ];
    w.flags = get_action_activeness(&actions).unwrap();
    let mut seen = vec![];
    for _ in 0..4 {
        run_frame(
            &mut actions,
            &mut w.context,
            &mut w.scope,
            &mut w.components,
            &mut w.flags,
            &w.operations,
            1,
        )
        .unwrap();
        seen.push((fired(&w), w.flags.get("counter").unwrap()));
    }
    // the switch turns the counter off in the first frame, but the counter still
    // runs in that frame: a flag counts from the next pass on
    assert_eq!(seen, vec![(1, false), (1, true), (2, false), (2, true)]);
    assert_eq!(w.context.get_frame_index(), 4);
    assert_eq!(actions[2].get_accumulator(), Timestamp::Frame(0));
}

#[test]
fn a_frame_needs_the_flags_of_its_actions() {
    let mut w = world();
    let mut actions = vec![named("a", true, vec![])];
    let r = run_frame(
        &mut actions,
        &mut w.context,
        &mut w.scope,
        &mut w.components,
        &mut w.flags,
        &w.operations,
        1,
    );
    assert_eq!(r, Err(RuntimeError::UnknownAction));
    let mut full = vec![Action::new(
        "a".to_string(),
        true,
        Timestamp::Millis(10),
        Timestamp::Millis(usize::MAX),
        vec![],
        false,
    )];
    w.flags.insert("a".to_string(), true);
    let r = run_frame(
        &mut full,
        &mut w.context,
        &mut w.scope,
        &mut w.components,
        &mut w.flags,
        &w.operations,
        1,
    );
    assert_eq!(r, Err(RuntimeError::Overflow));
}
