use vinx::translator::type_constraints::TypeConstraints;
use vinx::variable::types::VariableType;

fn vec_of(t: VariableType) -> VariableType {
    VariableType::Vec(Box::new(t))
}

fn constraint(types: &[VariableType]) -> TypeConstraints {
    TypeConstraints::from(types.to_vec())
}

fn anything(b: usize) -> VariableType {
    VariableType::Any(b)
}

#[test]
fn type_constraints_test_macro() {
    let tc = constraint(&[anything(0), anything(1)]);
    assert_eq!(tc, TypeConstraints::new(2));
    assert_eq!(tc.get_types()[0].get_binding(), Some(0));
    assert_eq!(tc.get_types()[1].get_binding(), Some(1));
}

#[test]
fn test_macro() {
    let tc = TypeConstraints::new(3);
    assert_eq!(tc.get_types().len(), 3);
    assert_eq!(tc.get_types()[2].get_binding(), Some(2));
    assert_eq!(TypeConstraints::new(0).get_types().len(), 0);
}

#[test]
fn test_refresh_bindings() {
    let mut tc = constraint(&[anything(12), vec_of(anything(89)), VariableType::Int, anything(89)]);
    tc.refresh_bindings();

    assert_eq!(tc.get_types()[0].get_binding(), Some(0));
    assert_eq!(tc.get_types()[1].get_binding(), Some(1));
    assert_eq!(tc.get_types()[2].get_binding(), None);
    assert_eq!(tc.get_types()[3].get_binding(), Some(1));
    assert_eq!(tc.get_types()[1], vec_of(anything(0)));
    assert_eq!(tc.get_types()[2], VariableType::Int);
}

#[test]
fn type_constraints_test_intersect() {
    // basic
    let tc1 = constraint(&[anything(1), anything(1)]);
    let tc2 = constraint(&[VariableType::Int, anything(1)]);
    let tc3 = constraint(&[anything(1), VariableType::Int]);
    let out = constraint(&[VariableType::Int, VariableType::Int]);
    assert_eq!(tc1.clone().intersect(tc2), Some(out.clone()));
    assert_eq!(tc1.clone().intersect(tc3), Some(out.clone()));
    // with 1 backtrace
    let tc1 = constraint(&[anything(1), anything(1), anything(1)]);
    let tc2 = constraint(&[anything(1), anything(1), VariableType::Int]);
    let ints = constraint(&[VariableType::Int, VariableType::Int, VariableType::Int]);
    assert_eq!(tc1.clone().intersect(tc2.clone()).unwrap(), ints);
    assert_eq!(tc2.clone().intersect(tc1.clone()).unwrap(), ints);
    // complex
    let tc1 = constraint(&[anything(1), vec_of(anything(3)), anything(2), anything(2), vec_of(VariableType::Int)]);
    let tc2 = constraint(&[anything(1), anything(1), anything(2), anything(1), anything(2)]);
    let lists = vec_of(VariableType::Int);
    assert_eq!(
        tc1.clone().intersect(tc2.clone()).unwrap(),
        constraint(&[lists.clone(), lists.clone(), lists.clone(), lists.clone(), lists.clone()])
    );
}

#[test]
fn test_intersect() {
    // constraints of which nothing is known change nothing about concrete ones
    let concrete = constraint(&[VariableType::Int, vec_of(VariableType::Pos), VariableType::Color]);
    let joint = TypeConstraints::new(3).intersect(concrete.clone()).unwrap();
    assert_eq!(joint, concrete);
    assert_eq!(joint.get_types()[1], vec_of(VariableType::Pos));
    // two different concrete types for one operand have no joint result
    let other = constraint(&[VariableType::Int, vec_of(VariableType::Int), VariableType::Color]);
    assert_eq!(concrete.clone().intersect(other), None);
    assert_eq!(
        constraint(&[VariableType::Int]).intersect(constraint(&[VariableType::Pos])),
        None
    );
}

#[test]
fn intersect_keeps_shared_bindings() {
    // the pair shares a binding in one snapshot ...
    let shared = TypeConstraints::new(2).intersect(constraint(&[anything(0), anything(0)])).unwrap();
    assert_eq!(shared.get_types()[0].get_binding(), Some(0));
    assert_eq!(shared.get_types()[1].get_binding(), Some(0));
    // ... and one of the pair is bound concretely by another
    let both = shared.intersect(constraint(&[VariableType::Pos, anything(1)])).unwrap();
    assert_eq!(both, constraint(&[VariableType::Pos, VariableType::Pos]));
    // without the shared binding the other operand stays open
    let open = TypeConstraints::new(2).intersect(constraint(&[VariableType::Pos, anything(1)])).unwrap();
    assert_eq!(open.get_types()[0], VariableType::Pos);
    assert_eq!(open.get_types()[1].get_binding(), Some(0));
}

#[test]
fn intersect_gives_up_on_a_type_that_would_hold_itself() {
    let tc1 = constraint(&[anything(1), anything(1)]);
    let tc2 = constraint(&[vec_of(vec_of(anything(usize::MAX - 1))), vec_of(anything(usize::MAX - 1))]);
    assert_eq!(tc1.intersect(tc2), None);
}

#[test]
fn intersect_var_narrows_one_operand() {
    let mut tc = TypeConstraints::new(2);
    assert!(tc.intersect_var(&VariableType::Int, 1));
    assert_eq!(tc.get_types(), &vec![anything(0), VariableType::Int]);
    assert!(!tc.intersect_var(&VariableType::Pos, 1));
    assert_eq!(tc.get_types(), &vec![anything(0), VariableType::Int]);
    // of two placeholders the given one decides the binding
    assert!(tc.intersect_var(&anything(9), 0));
    assert_eq!(tc.get_types()[0].get_binding(), Some(9));
    // a type cannot hold itself
    assert!(!tc.intersect_var(&vec_of(anything(9)), 0));
}

#[test]
fn update_binding_reports_the_operands_that_changed() {
    let mut tc = constraint(&[anything(1), VariableType::Int, vec_of(anything(1)), anything(2)]);
    let changed = tc.update_binding(1, VariableType::Pos);
    assert_eq!(changed, vec![0, 2]);
    assert_eq!(
        tc.get_types(),
        &vec![VariableType::Pos, VariableType::Int, vec_of(VariableType::Pos), anything(2)]
    );
    assert_eq!(tc.update_binding(1, VariableType::Color), Vec::<usize>::new());
    // another binding for the same placeholder counts as a change
    assert_eq!(tc.update_binding(2, anything(7)), vec![3]);
}

#[test]
fn infer_intersect_bindings_settles() {
    let mut a = constraint(&[anything(1), anything(1)]);
    let mut b = constraint(&[VariableType::Int, anything(1)]);
    assert!(a.infer_intersect_bindings(&mut b));
    assert_eq!(a, constraint(&[VariableType::Int, VariableType::Int]));
    assert_eq!(b, constraint(&[VariableType::Int, VariableType::Int]));
}
