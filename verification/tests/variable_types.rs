use vinx::variable::types::VariableType;

fn vec_of(t: VariableType) -> VariableType {
    VariableType::Vec(Box::new(t))
}

#[test]
fn mod_test_variable_type_macro() {
    let t1 = VariableType::Int;
    assert_eq!(t1, VariableType::Int);
    let t2 = VariableType::String;
    assert_eq!(t2, VariableType::String);
    let t3 = VariableType::Pos;
    assert_eq!(t3, VariableType::Pos);
    let t4 = VariableType::Color;
    assert_eq!(t4, VariableType::Color);
    let t5 = VariableType::Direction;
    assert_eq!(t5, VariableType::Direction);
    let t6 = VariableType::Any(3);
    assert_eq!(t6, VariableType::Any(3));
    let t7 = vec_of(VariableType::Int);
    assert_eq!(t7, VariableType::Vec(Box::new(VariableType::Int)));
    assert!(vec_of(VariableType::Any(2)).is_ambiguous());
    assert_eq!(
        vec_of(vec_of(VariableType::Int)),
        VariableType::Vec(Box::new(VariableType::Vec(Box::new(VariableType::Int))))
    );
}

#[test]
fn types_test_macro() {
    let t = vec_of(VariableType::Component(4));
    assert_eq!(t, VariableType::Vec(Box::new(VariableType::Component(4))));
    assert_ne!(t, VariableType::Vec(Box::new(VariableType::Component(5))));
}

#[test]
fn types_test_is_ambiguous() {
    assert!(!VariableType::Int.is_ambiguous());
    assert!(VariableType::Any(0).is_ambiguous());
    assert!(vec_of(VariableType::Any(7)).is_ambiguous());
    assert!(!vec_of(VariableType::Pos).is_ambiguous());
    assert!(!VariableType::Unresolved.is_ambiguous());
}

#[test]
fn types_test_intersect() {
    let vt1 = VariableType::Pos;
    let vt2 = VariableType::Int;
    let vt3 = VariableType::Any(1);
    let vt4 = VariableType::Any(2);
    let vt5 = vec_of(VariableType::Any(1));
    let vt6 = vec_of(vec_of(VariableType::Int));
    // Pos + Int -> None
    assert_eq!(vt1.intersect(&vt2), None);
    // Int + Int -> Int
    assert_eq!(vt2.intersect(&vt2), Some(VariableType::Int));
    // Any(1) + Int -> Int
    assert_eq!(vt3.intersect(&vt2), Some(VariableType::Int));
    // [Any(1)] + [[Int]] -> [[Int]]
    assert_eq!(vt5.intersect(&vt6), Some(vec_of(vec_of(VariableType::Int))));
    // Any(1) + Any(2) -> Any(1)
    assert_eq!(vt3.intersect(&vt4), Some(VariableType::Any(1)));
    // Any(1) + [Any(1)] -> None !!! think about it
    assert_eq!(vt3.intersect(&vt5), None);
}

#[test]
fn intersect_of_two_placeholders_keeps_the_left_binding() {
    let left = VariableType::Any(1);
    let right = VariableType::Any(2);
    assert_eq!(left.intersect(&right).unwrap().get_binding(), Some(1));
    assert_eq!(right.intersect(&left).unwrap().get_binding(), Some(2));
    let nested = vec_of(VariableType::Any(5)).intersect(&vec_of(VariableType::Any(6)));
    assert_eq!(nested.unwrap().get_binding(), Some(5));
}

#[test]
fn intersect_never_meets_the_failure_marker() {
    assert_eq!(VariableType::Unresolved.intersect(&VariableType::Unresolved), None);
    assert_eq!(VariableType::Any(1).intersect(&VariableType::Unresolved), None);
    assert_eq!(VariableType::Unresolved.intersect(&VariableType::Int), None);
}

#[test]
fn intersect_distinguishes_components() {
    assert_eq!(
        VariableType::Component(1).intersect(&VariableType::Component(1)),
        Some(VariableType::Component(1))
    );
    assert_eq!(VariableType::Component(1).intersect(&VariableType::Component(2)), None);
    assert_eq!(vec_of(VariableType::Int).intersect(&VariableType::Int), None);
}

#[test]
fn types_test_strictly_matches() {
    let vt1 = VariableType::Any(1);
    let vt2 = VariableType::Any(2);
    assert!(vt1.strictly_matches(&vt1));
    assert!(!vt1.strictly_matches(&vt2));
}

#[test]
fn types_test_get_binding() {
    let vt1 = VariableType::Int;
    let vt2 = VariableType::Any(1);
    let vt3 = vec_of(VariableType::Any(2));
    let vt4 = vec_of(VariableType::Int);

    assert_eq!(vt1.get_binding(), None);
    assert_eq!(vt2.get_binding(), Some(1));
    assert_eq!(vt3.get_binding(), Some(2));
    assert_eq!(vt4.get_binding(), None);
}

#[test]
fn types_test_invert_binding() {
    let vt1 = VariableType::Int;
    let vt2 = VariableType::Any(1);
    let vt3 = vec_of(VariableType::Any(2));
    let vt4 = vec_of(VariableType::Int);

    assert_eq!(vt1.with_inverted_binding().get_binding(), None);
    assert_eq!(vt2.with_inverted_binding().get_binding(), Some(usize::MAX - 1));
    assert_eq!(vt3.with_inverted_binding().get_binding(), Some(usize::MAX - 2));
    assert_eq!(vt4.with_inverted_binding().get_binding(), None);
}

#[test]
fn inverting_twice_gives_the_binding_back() {
    let vt = vec_of(VariableType::Any(9));
    let back = vt.with_inverted_binding().with_inverted_binding();
    assert!(back.strictly_matches(&vt));
}

#[test]
fn types_test_set_binding() {
    let mut vt1 = VariableType::Int;
    let mut vt2 = VariableType::Any(1);
    let mut vt3 = vec_of(VariableType::Any(2));
    let mut vt4 = vec_of(VariableType::Int);

    vt1.set_binding(0);
    vt2.set_binding(0);
    vt3.set_binding(0);
    vt4.set_binding(0);

    assert_eq!(vt1.get_binding(), None);
    assert_eq!(vt2.get_binding(), Some(0));
    assert_eq!(vt3.get_binding(), Some(0));
    assert_eq!(vt4.get_binding(), None);
}

#[test]
fn set_binding_folds_large_numbers() {
    let mut vt = VariableType::Any(1);
    vt.set_binding(42);
    assert_eq!(vt.get_binding(), Some(42));
    vt.set_binding(usize::MAX - 3);
    assert_eq!(vt.get_binding(), Some(3));
}

#[test]
fn types_test_set_binding_type() {
    let mut vt1 = VariableType::Pos;
    let mut vt2 = VariableType::Any(1);
    let mut vt3 = VariableType::Any(2);
    let mut vt4 = vec_of(VariableType::Any(1));

    vt1.set_binding_type(1, &VariableType::Int);
    vt2.set_binding_type(1, &VariableType::Int);
    vt3.set_binding_type(1, &VariableType::Int);
    vt4.set_binding_type(1, &VariableType::Int);

    assert_eq!(vt1, VariableType::Pos);
    assert_eq!(vt2, VariableType::Int);
    assert_eq!(vt3, VariableType::Any(2));
    assert_eq!(vt3.get_binding(), Some(2));
    assert_eq!(vt4, vec_of(VariableType::Int));
}

#[test]
fn test_common_depth() {
    let vt1 = VariableType::Any(1);
    let vt2 = vec_of(VariableType::Any(1));
    let vt3 = vec_of(vec_of(VariableType::Any(1)));
    let vt4 = vec_of(vec_of(vec_of(VariableType::Any(1))));
    assert_eq!(vt1.common_depth(&vt4), 0);
    assert_eq!(vt2.common_depth(&vt4), 1);
    assert_eq!(vt3.common_depth(&vt4), 2);
    assert_eq!(vt4.common_depth(&vt4), 3);
}

#[test]
fn test_get_depth() {
    let vt1 = VariableType::Any(0);
    let vt2 = vec_of(VariableType::Any(0));
    let vt3 = vec_of(vec_of(VariableType::Any(0)));
    let vt4 = vec_of(vec_of(vec_of(VariableType::Any(0))));
    let vt5 = vec_of(vec_of(vec_of(VariableType::Any(1))));
    assert_eq!(vt1.get_depth(), 0);
    assert_eq!(vt2.get_depth(), 1);
    assert_eq!(vt3.get_depth(), 2);
    assert_eq!(vt4.get_depth(), 3);
    assert_eq!(vt5.get_depth(), 3);
}

#[test]
fn types_test_unwrap_depth() {
    let vt1 = VariableType::Int;
    let vt2 = vec_of(VariableType::Int);
    let vt3 = vec_of(vec_of(VariableType::Int));
    let vt4 = vec_of(vec_of(vec_of(VariableType::Int)));
    assert_eq!(vt1.unwrap_depth(0), VariableType::Int);
    assert_eq!(vt2.unwrap_depth(1), VariableType::Int);
    assert_eq!(vt3.unwrap_depth(2), VariableType::Int);
    assert_eq!(vt4.unwrap_depth(3), VariableType::Int);
}

#[test]
fn unwrap_like_follows_the_pattern() {
    let deep = vec_of(vec_of(VariableType::Pos));
    assert_eq!(deep.unwrap_like(&vec_of(VariableType::Any(0))), Some(vec_of(VariableType::Pos)));
    assert_eq!(deep.unwrap_like(&VariableType::Any(0)), Some(deep.clone()));
    assert_eq!(VariableType::Int.unwrap_like(&vec_of(VariableType::Any(0))), None);
}

#[test]
fn is_subset_of_follows_its_table() {
    let int = VariableType::Int;
    let any1 = VariableType::Any(1);
    let any2 = VariableType::Any(2);
    assert!(!int.is_subset_of(&int));
    assert!(!int.is_subset_of(&VariableType::Pos));
    assert!(int.is_subset_of(&any1));
    assert!(!any1.is_subset_of(&int));
    assert!(any1.is_subset_of(&any2));
    assert!(vec_of(int.clone()).is_subset_of(&vec_of(any1.clone())));
    assert!(vec_of(int.clone()).is_subset_of(&any1));
    assert!(!int.is_subset_of(&vec_of(any1)));
}

#[test]
fn test_variable_type_macro() {
    let t1 = VariableType::Int;
    assert_eq!(t1, VariableType::Int);
    let t2 = VariableType::String;
    assert_eq!(t2, VariableType::String);
    let t3 = VariableType::Pos;
    assert_eq!(t3, VariableType::Pos);
    let t4 = VariableType::Color;
    assert_eq!(t4, VariableType::Color);
    let t5 = VariableType::Direction;
    assert_eq!(t5, VariableType::Direction);
    let t6 = VariableType::Any(3);
    assert_eq!(t6, VariableType::Any(3));
    let t7 = vec_of(VariableType::Int);
    assert_eq!(t7, VariableType::Vec(Box::new(VariableType::Int)));
    assert!(vec_of(VariableType::Any(2)).is_ambiguous());
    assert_eq!(
        vec_of(vec_of(VariableType::Int)),
        VariableType::Vec(Box::new(VariableType::Vec(Box::new(VariableType::Int))))
    );
}

#[test]
fn test_is_ambiguous() {
    assert!(vec_of(vec_of(VariableType::Any(1))).is_ambiguous());
    assert!(!vec_of(vec_of(VariableType::Component(1))).is_ambiguous());
    assert!(!VariableType::Effect.is_ambiguous());
}

#[test]
fn test_strictly_matches() {
    let vt1 = VariableType::Any(1);
    let vt2 = VariableType::Any(2);
    assert!(vt1.strictly_matches(&vt1));
    assert!(!vt1.strictly_matches(&vt2));
}

#[test]
fn test_get_binding() {
    let vt1 = VariableType::Int;
    let vt2 = VariableType::Any(1);
    let vt3 = vec_of(VariableType::Any(2));
    let vt4 = vec_of(VariableType::Int);

    assert_eq!(vt1.get_binding(), None);
    assert_eq!(vt2.get_binding(), Some(1));
    assert_eq!(vt3.get_binding(), Some(2));
    assert_eq!(vt4.get_binding(), None);
}

#[test]
fn test_invert_binding() {
    let vt1 = VariableType::Int;
    let vt2 = VariableType::Any(1);
    let vt3 = vec_of(VariableType::Any(2));
    let vt4 = vec_of(VariableType::Int);

    assert_eq!(vt1.with_inverted_binding().get_binding(), None);
    assert_eq!(vt2.with_inverted_binding().get_binding(), Some(usize::MAX - 1));
    assert_eq!(vt3.with_inverted_binding().get_binding(), Some(usize::MAX - 2));
    assert_eq!(vt4.with_inverted_binding().get_binding(), None);
}

#[test]
fn test_set_binding() {
    let mut vt1 = VariableType::Int;
    let mut vt2 = VariableType::Any(1);
    let mut vt3 = vec_of(VariableType::Any(2));
    let mut vt4 = vec_of(VariableType::Int);

    vt1.set_binding(0);
    vt2.set_binding(0);
    vt3.set_binding(0);
    vt4.set_binding(0);

    assert_eq!(vt1.get_binding(), None);
    assert_eq!(vt2.get_binding(), Some(0));
    assert_eq!(vt3.get_binding(), Some(0));
    assert_eq!(vt4.get_binding(), None);
}

#[test]
fn test_set_binding_type() {
    let mut vt1 = VariableType::Pos;
    let mut vt2 = VariableType::Any(1);
    let mut vt3 = VariableType::Any(2);
    let mut vt4 = vec_of(VariableType::Any(1));

    vt1.set_binding_type(1, &VariableType::Int);
    vt2.set_binding_type(1, &VariableType::Int);
    vt3.set_binding_type(1, &VariableType::Int);
    vt4.set_binding_type(1, &VariableType::Int);

    assert_eq!(vt1, VariableType::Pos);
    assert_eq!(vt2, VariableType::Int);
    assert_eq!(vt3, VariableType::Any(2));
    assert_eq!(vt3.get_binding(), Some(2));
    assert_eq!(vt4, vec_of(VariableType::Int));
}

#[test]
fn test_unwrap_depth() {
    let vt1 = VariableType::Int;
    let vt2 = vec_of(VariableType::Int);
    let vt3 = vec_of(vec_of(VariableType::Int));
    let vt4 = vec_of(vec_of(vec_of(VariableType::Int)));
    assert_eq!(vt1.unwrap_depth(0), VariableType::Int);
    assert_eq!(vt2.unwrap_depth(1), VariableType::Int);
    assert_eq!(vt3.unwrap_depth(2), VariableType::Int);
    assert_eq!(vt4.unwrap_depth(3), VariableType::Int);
    assert_eq!(vt4.unwrap_depth(1), vt3);
}

#[test]
fn with_binding_and_with_binding_type_leave_the_type_alone() {
    let vt = vec_of(VariableType::Any(1));
    assert_eq!(vt.with_binding(6).get_binding(), Some(6));
    assert_eq!(vt.with_binding_type(1, &VariableType::Pos), vec_of(VariableType::Pos));
    assert_eq!(vt.with_binding_type(2, &VariableType::Pos).get_binding(), Some(1));
    assert_eq!(vt.get_binding(), Some(1));
    assert!(vt.loosely_matches(&vec_of(VariableType::Any(8))));
    assert!(!vt.loosely_matches(&VariableType::Any(8)));
}
