use std::collections::HashMap;
use vinx::translator::automata::automaton::Automaton;
use vinx::translator::automata::linear_automaton::LinearAutomaton;
use vinx::translator::automata::state::State;
use vinx::translator::type_constraints::TypeConstraints;
use vinx::translator::{SequenceValue, Word};
use vinx::variable::types::VariableType;

fn kw(text: &str) -> Word {
    Word::Keyword(text.to_string())
}

fn ty(t: VariableType) -> Word {
    Word::Type(t)
}

fn vec_of(t: VariableType) -> VariableType {
    VariableType::Vec(Box::new(t))
}

fn any_word(binding: usize) -> Word {
    Word::Type(VariableType::Any(binding))
}

fn int_word() -> Word {
    Word::Type(VariableType::Int)
}

fn pos_word() -> Word {
    Word::Type(VariableType::Pos)
}

fn automaton_of(ops: &[Vec<Word>]) -> Automaton {
    let mut a = Automaton::new();
    for i in 0..ops.len() {
        let la = LinearAutomaton::new(ops[i].clone(), SequenceValue::Operation(i));
        a.union(la);
    }
    a
}

#[test]
fn test_box_behavior() {
    let vt1 = VariableType::Vec(Box::new(VariableType::Int));
    let vt2 = VariableType::Vec(Box::new(VariableType::Int));
    let vt3 = VariableType::Vec(Box::new(VariableType::Any(1)));
    let vt4 = VariableType::Vec(Box::new(VariableType::Vec(Box::new(VariableType::Int))));
    let vt4_ = VariableType::Vec(Box::new(VariableType::Vec(Box::new(VariableType::Int))));
    assert_eq!(vt1, vt2);
    assert_ne!(vt1, vt3);
    assert_ne!(vt1, vt4);
    let w1 = Word::Type(vt1);
    let w2 = Word::Type(vt2);
    let w3 = Word::Type(vt3);
    let w4 = Word::Type(vt4);
    let w4_ = Word::Type(vt4_);
    assert_eq!(w1, w2);
    assert_ne!(w1, w3);
    assert_ne!(w1, w4);
    assert_eq!(w4, w4_);
}

#[test]
fn test_state_get_possible_transitions() {
    let mut s = State::new();
    s.add_transition(Word::Type(VariableType::Int), 1);
    s.add_transition(Word::Type(VariableType::Vec(Box::new(VariableType::Int))), 2);
    s.add_transition(Word::Type(VariableType::Vec(Box::new(VariableType::Any(1)))), 3);
    s.add_transition(Word::Type(VariableType::Any(1)), 4);
    let wti = Word::Type(VariableType::Int);
    let wtvi = Word::Type(VariableType::Vec(Box::new(VariableType::Int)));
    let wtva = Word::Type(VariableType::Vec(Box::new(VariableType::Any(1))));
    let wta = Word::Type(VariableType::Any(1));
    let ps_wti = s.get_possible_transitions(&wti, &mut HashMap::new());
    let ps_wtvi = s.get_possible_transitions(&wtvi, &mut HashMap::new());
    assert_eq!(ps_wtvi.len(), 3);
    assert_eq!(ps_wtvi, vec![&wtvi, &wtva, &wta]);
    assert_eq!(ps_wti.len(), 2);
    assert_eq!(ps_wti, vec![&wti, &wta]);
}

#[test]
fn test_linear_automaton() {
    let la = LinearAutomaton::new(
        vec![
            Word::Keyword("a".to_string()),
            Word::Type(VariableType::Vec(Box::new(VariableType::Int))),
            Word::Keyword("b".to_string()),
        ],
        SequenceValue::Operation(1),
    );
    assert_eq!(la.transitions.len(), 3);
    assert_eq!(la.return_value, Some(SequenceValue::Operation(1)));
}

#[test]
fn linear_automaton_from_has_no_value_until_it_is_given_one() {
    let words = vec![kw("a"), int_word()];
    let mut la = LinearAutomaton::from(&words);
    assert_eq!(la.transitions, words);
    assert_eq!(la.return_value, None);
    la.returning(SequenceValue::Component(4));
    assert_eq!(la.return_value, Some(SequenceValue::Component(4)));
    assert_eq!(la.transitions, words);
}

#[test]
fn test_automaton_run() {
    let la = LinearAutomaton::new(
        vec![
            Word::Keyword("a".to_string()),
            Word::Type(VariableType::Vec(Box::new(VariableType::Int))),
            Word::Keyword("b".to_string()),
        ],
        SequenceValue::Operation(1),
    );
    let a = Automaton::from(la);
    assert_eq!(a.len(), 4);
    assert_eq!(
        a.run(&vec![
            Word::Keyword("a".to_string()),
            Word::Type(VariableType::Vec(Box::new(VariableType::Int))),
            Word::Keyword("b".to_string()),
        ]),
        Some(&SequenceValue::Operation(1))
    );
    assert_eq!(
        a.run(&vec![
            Word::Keyword("a".to_string()),
            Word::Type(VariableType::Vec(Box::new(VariableType::Pos))),
            Word::Keyword("b".to_string()),
        ]),
        None
    );
    assert_eq!(
        a.run(&vec![
            Word::Keyword("a".to_string()),
            Word::Type(VariableType::Vec(Box::new(VariableType::Int))),
            Word::Keyword("c".to_string()),
        ]),
        None
    );
}

#[test]
fn test_automaton_union() {
    let la1 = LinearAutomaton::new(
        vec![
            Word::Keyword("a".to_string()),
            Word::Type(VariableType::Vec(Box::new(VariableType::Int))),
            Word::Keyword("b".to_string()),
        ],
        SequenceValue::Operation(1),
    );
    let la2 = LinearAutomaton::new(
        vec![
            Word::Keyword("a".to_string()),
            Word::Type(VariableType::Pos),
            Word::Keyword("c".to_string()),
        ],
        SequenceValue::Operation(2),
    );
    let mut a = Automaton::from(la1);
    assert_eq!(a.len(), 4);
    a.union(la2);
    assert_eq!(a.len(), 6);
    assert_eq!(
        a.run(&vec![
            Word::Keyword("a".to_string()),
            Word::Type(VariableType::Vec(Box::new(VariableType::Int))),
            Word::Keyword("b".to_string()),
        ]),
        Some(&SequenceValue::Operation(1))
    );
    assert_eq!(
        a.run(&vec![
            Word::Keyword("a".to_string()),
            Word::Type(VariableType::Pos),
            Word::Keyword("c".to_string()),
        ]),
        Some(&SequenceValue::Operation(2))
    );
    assert_eq!(
        a.run(&vec![
            Word::Keyword("a".to_string()),
            Word::Type(VariableType::Pos),
            Word::Keyword("b".to_string()),
        ]),
        None
    );
}

#[test]
fn union_reports_whether_the_automaton_changed() {
    let mut a = Automaton::new();
    let seq = vec![kw("a"), int_word(), kw("b")];
    assert!(a.union(LinearAutomaton::new(seq.clone(), SequenceValue::Operation(1))));
    assert_eq!(a.len(), 4);
    // the same sequence again, with another value: nothing happens
    assert!(!a.union(LinearAutomaton::new(seq.clone(), SequenceValue::Operation(2))));
    assert_eq!(a.len(), 4);
    assert_eq!(a.run(&seq), Some(&SequenceValue::Operation(1)));
    // a prefix of a registered sequence gets its value on an existing state
    assert!(a.union(LinearAutomaton::new(vec![kw("a"), int_word()], SequenceValue::Operation(3))));
    assert_eq!(a.len(), 4);
    assert_eq!(a.run(&vec![kw("a"), int_word()]), Some(&SequenceValue::Operation(3)));
    // a sequence without a value only lays its path
    assert!(a.union(LinearAutomaton::from(&vec![kw("z")])));
    assert_eq!(a.len(), 5);
    assert_eq!(a.run(&vec![kw("z")]), None);
    assert!(!a.union(LinearAutomaton::from(&vec![kw("z")])));
}

#[test]
fn union_keeps_edges_of_different_bindings_apart() {
    let mut a = Automaton::new();
    assert!(a.union(LinearAutomaton::new(vec![kw("x"), any_word(1)], SequenceValue::Operation(1))));
    assert_eq!(a.len(), 3);
    assert!(a.union(LinearAutomaton::new(vec![kw("x"), any_word(2)], SequenceValue::Operation(2))));
    assert_eq!(a.len(), 4);
    assert!(!a.union(LinearAutomaton::new(vec![kw("x"), any_word(1)], SequenceValue::Operation(3))));
    assert_eq!(a.len(), 4);
}

#[test]
fn test_automaton_priority_choice() {
    let la1 = LinearAutomaton::new(vec![kw("a"), int_word(), kw("b")], SequenceValue::Operation(1));
    let la2 = LinearAutomaton::new(vec![kw("a"), any_word(1), kw("b")], SequenceValue::Operation(2));
    let mut a = Automaton::from(la1);
    assert_eq!(a.len(), 4);
    a.union(la2);
    assert_eq!(a.len(), 6);
    assert_eq!(a.run(&vec![kw("a"), int_word(), kw("b")]), Some(&SequenceValue::Operation(1)));
}

#[test]
fn priority_choice_does_not_depend_on_the_order_of_registration() {
    let la1 = LinearAutomaton::new(vec![kw("a"), any_word(1), kw("b")], SequenceValue::Operation(2));
    let la2 = LinearAutomaton::new(vec![kw("a"), int_word(), kw("b")], SequenceValue::Operation(1));
    let mut a = Automaton::from(la1);
    a.union(la2);
    assert_eq!(a.run(&vec![kw("a"), int_word(), kw("b")]), Some(&SequenceValue::Operation(1)));
    assert_eq!(a.run(&vec![kw("a"), pos_word(), kw("b")]), Some(&SequenceValue::Operation(2)));
}

#[test]
fn test_automaton_priority_choice_vec() {
    let la1 = LinearAutomaton::new(
        vec![
            Word::Keyword("a".to_string()),
            Word::Type(VariableType::Vec(Box::new(VariableType::Int))),
            Word::Keyword("b".to_string()),
        ],
        SequenceValue::Operation(1),
    );
    let la2 = LinearAutomaton::new(
        vec![
            Word::Keyword("a".to_string()),
            Word::Type(VariableType::Any(1)),
            Word::Keyword("b".to_string()),
        ],
        SequenceValue::Operation(2),
    );
    let la3 = LinearAutomaton::new(
        vec![
            Word::Keyword("a".to_string()),
            Word::Type(VariableType::Vec(Box::new(VariableType::Any(1)))),
            Word::Keyword("b".to_string()),
        ],
        SequenceValue::Operation(3),
    );
    let mut a = Automaton::from(la1);
    assert_eq!(a.len(), 4);
    a.union(la2);
    assert_eq!(a.len(), 6);
    a.union(la3);
    assert_eq!(a.len(), 8);
    assert_eq!(
        a.run(&vec![
            Word::Keyword("a".to_string()),
            Word::Type(VariableType::Vec(Box::new(VariableType::Int))),
            Word::Keyword("b".to_string()),
        ]),
        Some(&SequenceValue::Operation(1))
    );
    assert_ne!(
        a.run(&vec![
            Word::Keyword("a".to_string()),
            Word::Type(VariableType::Vec(Box::new(VariableType::Pos))),
            Word::Keyword("c".to_string()),
        ]),
        Some(&SequenceValue::Operation(3))
    );
    assert_eq!(
        a.run(&vec![
            Word::Keyword("a".to_string()),
            Word::Type(VariableType::Int),
            Word::Keyword("b".to_string()),
        ]),
        Some(&SequenceValue::Operation(2))
    );
}

#[test]
fn a_collection_prefers_the_edge_of_a_collection() {
    let mut a = Automaton::new();
    a.union(LinearAutomaton::new(vec![kw("a"), any_word(1)], SequenceValue::Operation(2)));
    a.union(LinearAutomaton::new(vec![kw("a"), ty(vec_of(VariableType::Any(1)))], SequenceValue::Operation(3)));
    assert_eq!(
        a.run(&vec![kw("a"), ty(vec_of(VariableType::Pos))]),
        Some(&SequenceValue::Operation(3))
    );
    assert_eq!(a.run(&vec![kw("a"), pos_word()]), Some(&SequenceValue::Operation(2)));
}

#[test]
fn test_automaton_backtrace_small() {
    let la1 = LinearAutomaton::new(vec![kw("a"), int_word(), kw("b")], SequenceValue::Operation(1));
    let la2 = LinearAutomaton::new(vec![kw("a"), any_word(1), kw("c")], SequenceValue::Operation(2));
    let mut a = Automaton::from(la1);
    a.union(la2);
    assert_eq!(a.run(&vec![kw("a"), int_word(), kw("c")]), Some(&SequenceValue::Operation(2)));
}

#[test]
fn test_automaton_backtrace_large() {
    let la1 = LinearAutomaton::new(
        vec![kw("a"), int_word(), kw("a"), int_word(), kw("a")],
        SequenceValue::Operation(1),
    );
    let la2 = LinearAutomaton::new(
        vec![kw("a"), any_word(1), kw("a"), pos_word(), kw("a")],
        SequenceValue::Operation(2),
    );
    let la3 = LinearAutomaton::new(
        vec![kw("a"), any_word(1), kw("a"), int_word(), kw("a")],
        SequenceValue::Operation(3),
    );
    let la4 = LinearAutomaton::new(
        vec![kw("a"), int_word(), kw("a"), any_word(1), kw("b")],
        SequenceValue::Operation(4),
    );
    let la5 = LinearAutomaton::new(
        vec![kw("a"), int_word(), kw("a"), pos_word(), kw("b")],
        SequenceValue::Operation(5),
    );
    let mut a = Automaton::from(la1);
    a.union(la2);
    a.union(la3);
    a.union(la4);
    a.union(la5);
    assert_eq!(
        a.run(&vec![kw("a"), int_word(), kw("a"), int_word(), kw("a")]),
        Some(&SequenceValue::Operation(1))
    );
    assert_eq!(
        a.run(&vec![kw("a"), int_word(), kw("a"), pos_word(), kw("a")]),
        Some(&SequenceValue::Operation(2))
    );
    assert_eq!(
        a.run(&vec![kw("a"), ty(VariableType::Color), kw("a"), int_word(), kw("a")]),
        Some(&SequenceValue::Operation(3))
    );
    assert_eq!(
        a.run(&vec![kw("a"), int_word(), kw("a"), int_word(), kw("b")]),
        Some(&SequenceValue::Operation(4))
    );
    assert_eq!(
        a.run(&vec![kw("a"), int_word(), kw("a"), pos_word(), kw("b")]),
        Some(&SequenceValue::Operation(5))
    );
}

#[test]
fn backtracking_recovers_from_the_preferred_branch() {
    let mut a = Automaton::new();
    a.union(LinearAutomaton::new(
        vec![kw("a"), int_word(), kw("a"), int_word(), kw("a")],
        SequenceValue::Operation(1),
    ));
    a.union(LinearAutomaton::new(
        vec![kw("a"), any_word(0), kw("a"), pos_word(), kw("a")],
        SequenceValue::Operation(2),
    ));
    assert_eq!(
        a.run(&vec![kw("a"), int_word(), kw("a"), pos_word(), kw("a")]),
        Some(&SequenceValue::Operation(2))
    );
}

#[test]
fn a_bound_placeholder_is_held_to_its_type() {
    let mut a = Automaton::new();
    a.union(LinearAutomaton::new(
        vec![kw("set"), any_word(1), kw("to"), any_word(1)],
        SequenceValue::Operation(6),
    ));
    assert_eq!(
        a.run(&vec![kw("set"), int_word(), kw("to"), int_word()]),
        Some(&SequenceValue::Operation(6))
    );
    assert_eq!(a.run(&vec![kw("set"), int_word(), kw("to"), pos_word()]), None);
    a.union(LinearAutomaton::new(
        vec![kw("top"), ty(vec_of(VariableType::Any(1))), kw("into"), any_word(1)],
        SequenceValue::Operation(8),
    ));
    assert_eq!(
        a.run(&vec![kw("top"), ty(vec_of(VariableType::Pos)), kw("into"), pos_word()]),
        Some(&SequenceValue::Operation(8))
    );
    assert_eq!(a.run(&vec![kw("top"), ty(vec_of(VariableType::Pos)), kw("into"), int_word()]), None);
}

#[test]
fn test_get_type_transitions() {
    let mut s = State::new();
    s.add_transition(Word::Keyword("a".to_string()), 1);
    s.add_transition(Word::Type(VariableType::Int), 2);
    s.add_transition(Word::Type(VariableType::Vec(Box::new(VariableType::Int))), 3);
    s.add_transition(Word::Keyword("b".to_string()), 4);
    let tts = s.get_type_transitions();
    assert_eq!(tts.len(), 2);
    assert_eq!(
        tts,
        vec![
            &Word::Type(VariableType::Int),
            &Word::Type(VariableType::Vec(Box::new(VariableType::Int))),
        ]
    );
}

#[test]
fn automaton_test_get_interpretations() {
    // 1)
    let a = automaton_of(&[
        vec![kw("a"), any_word(0), kw("b")],
        vec![kw("a"), int_word(), kw("b")],
        vec![kw("a"), pos_word(), kw("b")],
    ]);
    let paths = a.get_interpretations(&vec![kw("a"), any_word(0), kw("b")], 1);
    assert_eq!(paths.len(), 3);
    // 2)
    let a = automaton_of(&[
        vec![kw("a"), int_word(), kw("b"), int_word(), kw("c")],
        vec![kw("a"), int_word(), kw("b"), any_word(1), kw("c")],
        vec![kw("a"), int_word(), kw("b"), pos_word(), kw("c")],
        vec![kw("a"), pos_word(), kw("b"), int_word(), kw("c")],
        vec![kw("a"), pos_word(), kw("b"), pos_word(), kw("c")],
        vec![kw("a"), any_word(1), kw("b"), any_word(1), kw("b")], // bad ending keyword
    ]);
    let paths = a.get_interpretations(&vec![kw("a"), any_word(0), kw("b"), any_word(0), kw("c")], 2);
    assert_eq!(paths.len(), 3);
    // 3)
    let a = automaton_of(&[
        vec![kw("a"), ty(vec_of(VariableType::Int)), kw("b")],
        vec![kw("a"), ty(vec_of(VariableType::Pos)), kw("b")],
        vec![kw("a"), ty(vec_of(VariableType::Any(0))), kw("b")],
    ]);
    let paths = a.get_interpretations(&vec![kw("a"), any_word(0), kw("b")], 2);
    assert_eq!(paths.len(), 3);
    let paths = a.get_interpretations(&vec![kw("a"), ty(vec_of(VariableType::Any(0))), kw("b")], 2);
    assert_eq!(paths.len(), 3);
    let paths = a.get_interpretations(&vec![kw("a"), ty(vec_of(VariableType::Int)), kw("b")], 2);
    assert_eq!(paths.len(), 1);
    // 4)
    let a = automaton_of(&[
        vec![kw("a"), ty(vec_of(VariableType::Any(0))), any_word(0)],
        vec![kw("a"), ty(vec_of(VariableType::Any(0))), int_word()],
        vec![kw("a"), ty(vec_of(VariableType::Any(0))), pos_word()],
    ]);
    let paths = a.get_interpretations(&vec![kw("a"), ty(vec_of(VariableType::Any(0))), any_word(0)], 2);
    assert_eq!(paths.len(), 3);
    let paths = a.get_interpretations(&vec![kw("a"), any_word(0), any_word(0)], 2);
    assert_eq!(paths.len(), 0);
    let paths = a.get_interpretations(
        &vec![kw("a"), ty(vec_of(VariableType::Int)), ty(VariableType::Color)],
        2,
    );
    assert_eq!(paths.len(), 0);
}

#[test]
fn test_get_interpretations() {
    // an operand that is used where a number or a position may stand
    let a = automaton_of(&[
        vec![kw("shift"), int_word()],
        vec![kw("shift"), pos_word()],
        vec![kw("paint"), ty(VariableType::Color)],
    ]);
    let paths = a.get_interpretations(&vec![kw("shift"), any_word(0)], 1);
    assert_eq!(
        paths,
        vec![
            TypeConstraints::from(vec![VariableType::Int]),
            TypeConstraints::from(vec![VariableType::Pos]),
        ]
    );
    assert_eq!(paths[0].get_types()[0].get_binding(), None);
    // the operands keep their places: the second operand is the one used
    let paths = a.get_interpretations(&vec![kw("paint"), any_word(1)], 2);
    assert_eq!(paths.len(), 1);
    assert_eq!(paths[0].get_types(), &vec![VariableType::Any(0), VariableType::Color]);
    // a token that names no operand rules the path out
    let paths = a.get_interpretations(&vec![kw("paint"), any_word(5)], 2);
    assert_eq!(paths.len(), 0);
}

#[test]
fn interpretations_record_shared_bindings() {
    let a = automaton_of(&[vec![kw("set"), any_word(1), kw("to"), any_word(1)]]);
    let paths = a.get_interpretations(&vec![kw("set"), any_word(0), kw("to"), any_word(1)], 2);
    assert_eq!(paths.len(), 1);
    let types = paths[0].get_types();
    assert_eq!(types[0].get_binding(), Some(0));
    assert_eq!(types[1].get_binding(), Some(0));
}

#[test]
fn test_run() {
    let la = LinearAutomaton::new(
        vec![kw("move"), pos_word(), ty(VariableType::Direction), kw("by"), int_word()],
        SequenceValue::Operation(1),
    );
    let a = Automaton::from(la);
    let s = vec![kw("move"), pos_word(), ty(VariableType::Direction), kw("by"), int_word()];
    let x = a.run(&s);
    assert_eq!(x.unwrap(), &SequenceValue::Operation(1));
}

#[test]
fn run_of_an_empty_automaton_finds_nothing() {
    let a = Automaton::new();
    assert_eq!(a.len(), 1);
    assert_eq!(a.run(&vec![]), None);
    assert_eq!(a.run(&vec![kw("a")]), None);
    assert_eq!(a.run(&vec![int_word()]), None);
}

#[test]
fn get_all_sequences_lists_what_was_registered() {
    let mut a = Automaton::new();
    a.union(LinearAutomaton::new(vec![kw("a"), int_word()], SequenceValue::Operation(1)));
    a.union(LinearAutomaton::new(vec![kw("a"), pos_word()], SequenceValue::Operation(2)));
    a.union(LinearAutomaton::new(vec![kw("a")], SequenceValue::Component(3)));
    a.union(LinearAutomaton::new(vec![kw("b"), any_word(4)], SequenceValue::Value(4)));
    let all = a.get_all_sequences();
    assert_eq!(
        all,
        vec![
            (vec![kw("a")], SequenceValue::Component(3)),
            (vec![kw("a"), int_word()], SequenceValue::Operation(1)),
            (vec![kw("a"), pos_word()], SequenceValue::Operation(2)),
            (vec![kw("b"), any_word(4)], SequenceValue::Value(4)),
        ]
    );
    assert_eq!(all[3].0[1].get_binding(), Some(4));
}

#[test]
fn test_possible_transition_ordering() {
    let mut s = State::new();
    s.add_transition(int_word(), 1);
    s.add_transition(any_word(1), 2);
    s.add_transition(pos_word(), 4);
    let mut any_mapping = HashMap::new();
    any_mapping.insert(1, VariableType::Int);
    let pos_trans = s.get_possible_transitions(&int_word(), &mut any_mapping);
    assert_eq!(pos_trans, [&int_word(), &any_word(1)]);
    any_mapping.insert(1, VariableType::Pos);
    let pos_trans = s.get_possible_transitions(&int_word(), &mut any_mapping);
    assert_eq!(pos_trans, [&int_word()]);
}

#[test]
fn transition_applicability_scores() {
    let none: HashMap<usize, VariableType> = HashMap::new();
    let score = |t: &Word, s: &Word, m: &HashMap<usize, VariableType>| {
        State::transition_applicability(t, s, m)
    };
    assert_eq!(score(&int_word(), &int_word(), &none), Some(usize::MAX));
    assert_eq!(score(&int_word(), &pos_word(), &none), None);
    assert_eq!(score(&kw("a"), &kw("a"), &none), Some(usize::MAX));
    assert_eq!(score(&kw("a"), &kw("b"), &none), None);
    assert_eq!(score(&kw("a"), &int_word(), &none), None);
    assert_eq!(score(&any_word(1), &int_word(), &none), Some(0));
    assert_eq!(score(&any_word(1), &any_word(7), &none), Some(usize::MAX));
    assert_eq!(score(&ty(vec_of(VariableType::Any(1))), &ty(vec_of(VariableType::Int)), &none), Some(2));
    assert_eq!(
        score(
            &ty(vec_of(vec_of(VariableType::Any(1)))),
            &ty(vec_of(vec_of(VariableType::Int))),
            &none
        ),
        Some(4)
    );
    assert_eq!(score(&ty(vec_of(VariableType::Any(1))), &int_word(), &none), None);
    let mut bound = HashMap::new();
    bound.insert(1, VariableType::Int);
    assert_eq!(score(&any_word(1), &int_word(), &bound), Some(usize::MAX - 1));
    assert_eq!(score(&any_word(1), &pos_word(), &bound), None);
    assert_eq!(
        score(&ty(vec_of(VariableType::Any(1))), &ty(vec_of(VariableType::Int)), &bound),
        Some(usize::MAX - 1)
    );
    bound.insert(2, VariableType::Any(9));
    assert_eq!(score(&any_word(2), &pos_word(), &bound), Some(0));
}

#[test]
fn state_transitions_by_word() {
    let mut s = State::new();
    assert!(!s.has_transition(&int_word()));
    s.add_transition(int_word(), 1);
    s.add_transition(any_word(1), 2);
    s.add_transition(kw("k"), 3);
    assert!(s.has_transition(&int_word()));
    assert!(s.has_transition(&any_word(1)));
    assert!(!s.has_transition(&any_word(2)));
    assert!(!s.has_transition(&kw("other")));
    assert_eq!(s.get_exact_transition(&kw("k")), Some(3));
    assert_eq!(s.get_exact_transition(&any_word(1)), Some(2));
    assert_eq!(s.get_exact_transition(&any_word(2)), None);
    assert_eq!(s.get_all_transitions().len(), 3);
    let mut mapping = HashMap::new();
    assert_eq!(s.get_transition(&pos_word(), &mut mapping), Some(2));
    assert_eq!(mapping.get(&1), Some(&VariableType::Pos));
    assert_eq!(s.get_transition(&int_word(), &mut mapping), Some(1));
    assert_eq!(s.get_transition(&kw("k"), &mut mapping), Some(3));
    assert_eq!(s.get_transition(&kw("x"), &mut mapping), None);
    assert_eq!(s.get_transition(&ty(VariableType::Color), &mut mapping), None);
    assert_eq!(mapping.len(), 1);
    assert_eq!(State::word_type(&pos_word()), VariableType::Pos);
}

#[test]
fn a_token_with_a_placeholder_takes_the_first_edge_that_is_loosely_equal() {
    let mut a = Automaton::new();
    a.union(LinearAutomaton::new(vec![kw("x"), any_word(1)], SequenceValue::Operation(1)));
    a.union(LinearAutomaton::new(vec![kw("x"), any_word(2)], SequenceValue::Operation(2)));
    // the edge of `Any(1)` stands beside that of `Any(2)` and comes first
    assert_eq!(a.run(&vec![kw("x"), any_word(2)]), Some(&SequenceValue::Operation(1)));
    assert_eq!(a.run(&vec![kw("x"), any_word(1)]), Some(&SequenceValue::Operation(1)));
    // where it stands alone, a sequence with a placeholder finds its own value
    let mut b = Automaton::new();
    b.union(LinearAutomaton::new(
        vec![kw("set"), any_word(1), kw("to"), any_word(1)],
        SequenceValue::Operation(6),
    ));
    assert_eq!(
        b.run(&vec![kw("set"), any_word(1), kw("to"), any_word(1)]),
        Some(&SequenceValue::Operation(6))
    );
}

#[test]
fn registered_sequences_resolve_to_their_values() {
    let sequences = vec![
        vec![kw("a")],
        vec![kw("a"), int_word()],
        vec![kw("a"), pos_word(), kw("b")],
        vec![kw("b"), ty(vec_of(VariableType::Int)), ty(VariableType::Color)],
        vec![ty(VariableType::Effect)],
    ];
    let a = automaton_of(&sequences);
    for (i, seq) in sequences.iter().enumerate() {
        assert_eq!(a.run(seq), Some(&SequenceValue::Operation(i)));
    }
    // a keyword or a type that does not fit leads nowhere
    assert_eq!(a.run(&vec![kw("c")]), None);
    assert_eq!(a.run(&vec![kw("a"), ty(VariableType::Color)]), None);
    assert_eq!(a.run(&vec![kw("a"), pos_word()]), None);
    assert_eq!(a.run(&vec![kw("a"), pos_word(), kw("b"), kw("b")]), None);
}

#[test]
fn new_state_adds_a_state_without_edges() {
    let mut a = Automaton::new();
    assert_eq!(a.new_state(), 1);
    assert_eq!(a.new_state(), 2);
    assert_eq!(a.len(), 3);
    assert_eq!(a.get_all_sequences(), vec![]);
}
