use vinx::translator::type_inference::type_bounds::TypeBounds;
use vinx::translator::type_inference::type_range::{get_type_intersection, TypeRange};
use vinx::variable::types::VariableType;

fn vec_of(t: VariableType) -> VariableType {
    VariableType::Vec(Box::new(t))
}

#[test]
fn test_type_bounds_new() {
    let tb = TypeBounds::new(5);
    assert_eq!(tb.ranges().len(), 5);
    assert_eq!(tb.identity_groups().len(), 0);
}

#[test]
fn test_type_bounds_add_identity_group() {
    let mut tb = TypeBounds::new(5);
    tb.add_identity_group(vec![0, 1]);
    assert_eq!(tb.identity_groups().len(), 1);
    assert_eq!(tb.identity_groups()[0], vec![0, 1]);
    tb.add_identity_group(vec![2, 3]);
    assert_eq!(tb.identity_groups().len(), 2);
    assert_eq!(tb.identity_groups()[1], vec![2, 3]);
}

#[test]
fn test_type_bounds_add_identity_group_merge1() {
    let mut tb = TypeBounds::new(5);
    tb.add_identity_group(vec![0, 1]);
    assert_eq!(tb.identity_groups().len(), 1);
    assert_eq!(tb.identity_groups()[0], vec![0, 1]);
    tb.add_identity_group(vec![1, 2]);
    assert_eq!(tb.identity_groups().len(), 1);
    assert_eq!(tb.identity_groups()[0], vec![0, 1, 2]);
}

#[test]
fn test_type_bounds_add_identity_group_merge2() {
    let mut tb = TypeBounds::new(5);
    tb.add_identity_group(vec![0, 1]);
    assert_eq!(tb.identity_groups().len(), 1);
    assert_eq!(tb.identity_groups()[0], vec![0, 1]);
    tb.add_identity_group(vec![2, 3]);
    assert_eq!(tb.identity_groups().len(), 2);
    assert_eq!(tb.identity_groups()[1], vec![2, 3]);
    tb.add_identity_group(vec![1, 3]);
    assert_eq!(tb.identity_groups().len(), 1);
    assert_eq!(tb.identity_groups()[0], vec![1, 3, 2, 0]);
}

#[test]
fn test_type_bounds_simple() {
    let mut tb = TypeBounds::new(2);
    tb.add_identity_group(vec![0, 1]);
    tb.intersect_variable_type(0, &VariableType::Int);
    tb.intersect_variable_type(1, &VariableType::Pos);
    tb.apply_type_identities();
    assert!(tb.is_unsat());
}

#[test]
fn test_type_bounds() {
    let mut tb = TypeBounds::new(2);
    tb.add_identity_group(vec![0, 1]);
    tb.intersect_variable_type(0, &VariableType::Int);
    tb.intersect_variable_type(1, &VariableType::Any(0));
    tb.apply_type_identities();
    assert_eq!(tb.ranges()[0].get(), &vec![VariableType::Int]);
    assert_eq!(tb.ranges()[1].get(), &vec![VariableType::Int]);
}

fn bounds(first: VariableType, second: VariableType) -> TypeBounds {
    let mut tb = TypeBounds::new(2);
    tb.intersect_variable_type(0, &first);
    tb.intersect_variable_type(1, &second);
    tb
}

#[test]
fn test_intersect_bounds_noninline() {
    let usages = vec![true, true];
    // [[Pos],[Int]] + [[Any(0)],[Int]] = [[Pos],[Int]]
    let tb1 = bounds(VariableType::Pos, VariableType::Int);
    let tb2 = bounds(VariableType::Any(0), VariableType::Int);
    let tb3 = tb1.intersect_bounds_noninline(&tb2, &usages);
    assert_eq!(tb3.ranges()[0].get(), &vec![VariableType::Pos]);
    assert_eq!(tb3.ranges()[1].get(), &vec![VariableType::Int]);
    // [[Pos],[Int]] + [[Any(0)],[Pos]] = unsat
    let tb4 = bounds(VariableType::Pos, VariableType::Int);
    let tb5 = bounds(VariableType::Any(0), VariableType::Pos);
    let tb6 = tb4.intersect_bounds_noninline(&tb5, &usages);
    assert!(tb6.is_unsat());
    // [[Any(1)],[Any(1)]] + [[Any(0)],[Int]] = [[Int],[Int]]
    let tb7 = bounds(VariableType::Any(1), VariableType::Any(1));
    let tb8 = bounds(VariableType::Any(0), VariableType::Int);
    let tb9 = tb7.intersect_bounds_noninline(&tb8, &usages);
    assert_eq!(tb9.ranges()[0].get(), &vec![VariableType::Int]);
    assert_eq!(tb9.ranges()[1].get(), &vec![VariableType::Int]);
    // [[Any(1)],[Any(1)]] + [[Any(0)],[Pos]] = [[Pos],[Pos]]
    let tb10 = bounds(VariableType::Any(1), VariableType::Any(1));
    let tb11 = bounds(VariableType::Any(0), VariableType::Pos);
    let tb12 = tb10.intersect_bounds_noninline(&tb11, &usages);
    assert_eq!(tb12.ranges()[0].get(), &vec![VariableType::Pos]);
    assert_eq!(tb12.ranges()[1].get(), &vec![VariableType::Pos]);
    // [[Any(1)],[Any(1)]] + [[Int],[Pos]] = unsat
    let tb13 = bounds(VariableType::Any(1), VariableType::Any(1));
    let tb14 = bounds(VariableType::Int, VariableType::Pos);
    let tb15 = tb13.intersect_bounds_noninline(&tb14, &usages);
    assert!(tb15.is_unsat());
    // [[Int],[Pos]] + [[Any(1)],[Any(1)]] = unsat
    let tb16 = tb14.intersect_bounds_noninline(&tb13, &usages);
    assert!(tb16.is_unsat());
}

#[test]
fn test_infer_type_identities() {
    let mut tb = TypeBounds::new(4);
    tb.intersect_variable_type(0, &VariableType::Any(1));
    tb.intersect_variable_type(1, &VariableType::Any(1));
    tb.intersect_variable_type(2, &VariableType::Int);
    tb.intersect_variable_type(3, &VariableType::Any(2));
    let id_groups = tb.infer_type_identites();
    assert_eq!(id_groups.len(), 1);
    assert_eq!(id_groups[0], vec![0, 1]);
}

#[test]
fn infer_type_identities_passes_over_unused_variables() {
    let mut tb = TypeBounds::new(4);
    tb.intersect_variable_type(0, &VariableType::Any(1));
    tb.intersect_variable_type(1, &VariableType::Any(1));
    tb.intersect_variable_type(2, &VariableType::Any(1));
    tb.intersect_variable_type(3, &VariableType::Any(2));
    let groups = tb.infer_type_identites_with_usages(&vec![true, false, true, true]);
    assert_eq!(groups, vec![vec![0, 2]]);
    let groups = tb.infer_type_identites_with_usages(&vec![true, false, false, true]);
    assert_eq!(groups, Vec::<Vec<usize>>::new());
}

#[test]
fn type_bounds_test_get_interpretations() {
    let mut tb = TypeBounds::new(3);
    tb.intersect_variable_type(0, &VariableType::Int);
    tb.intersect_variable_type(1, &VariableType::Pos);
    tb.intersect_variable_type(2, &VariableType::Any(0));
    let interpretations = tb.get_interpretations();
    assert_eq!(interpretations.len(), 1);
    let mut tb2 = TypeBounds::new(3);
    tb2.intersect_variable_type(0, &VariableType::Pos);
    tb2.intersect_variable_type(1, &VariableType::Int);
    tb2.intersect_variable_type(2, &VariableType::Int);
    let interpretations2 = tb2.get_interpretations();
    assert_eq!(interpretations2.len(), 1);
    tb.unify(&tb2);
    let interpretations3 = tb.get_interpretations();
    assert_eq!(interpretations3.len(), 8);
}

#[test]
fn get_interpretations_lists_the_choices_in_order() {
    let mut tb = TypeBounds::new(2);
    tb.intersect_variable_type(0, &VariableType::Int);
    tb.intersect_variable_type(1, &VariableType::Color);
    let mut more = TypeBounds::new(2);
    more.intersect_variable_type(0, &VariableType::Pos);
    more.intersect_variable_type(1, &VariableType::Color);
    tb.unify(&more);
    assert_eq!(
        tb.get_interpretations(),
        vec![
            vec![VariableType::Int, VariableType::Color],
            vec![VariableType::Pos, VariableType::Color],
        ]
    );
    assert_eq!(TypeBounds::new(0).get_interpretations(), vec![Vec::<VariableType>::new()]);
    assert_eq!(TypeBounds::empty(2).get_interpretations(), Vec::<Vec<VariableType>>::new());
}

#[test]
fn type_bounds_queries() {
    let mut tb = TypeBounds::new(2);
    assert_eq!(tb.var_count(), 2);
    assert!(!tb.is_ambiguous());
    assert!(tb.contains_ambiguous_vars());
    assert!(!tb.is_unsat());
    assert_eq!(tb.of_var(1).get(), &vec![VariableType::Any(1)]);
    tb.intersect_variable_type(0, &VariableType::Int);
    tb.intersect_variable_type(1, &VariableType::Int);
    assert!(!tb.contains_ambiguous_vars());
    let mut other = TypeBounds::new(2);
    other.intersect_variable_type(0, &VariableType::Pos);
    tb.unify(&other);
    assert!(tb.is_ambiguous());
    let empty = TypeBounds::empty(3);
    assert!(empty.is_unsat());
    assert_eq!(empty.var_count(), 3);
    let emptied = tb.empty_out();
    assert_eq!(emptied.var_count(), 2);
    assert!(emptied.is_unsat());
    assert!(TypeBounds::identity_group_is_nontrivial(&vec![1, 2]));
    assert!(!TypeBounds::identity_group_is_nontrivial(&vec![1, 1]));
    assert!(!TypeBounds::identity_group_is_nontrivial(&vec![1]));
    assert!(TypeBounds::identity_groups_common_var(&vec![1, 2], &vec![2, 3]));
    assert!(!TypeBounds::identity_groups_common_var(&vec![1, 2], &vec![3, 4]));
    let mut group = vec![1, 2];
    TypeBounds::merge_identity_groups(&mut group, vec![2, 3, 1, 4]);
    assert_eq!(group, vec![1, 2, 3, 4]);
}

#[test]
fn test_type_intersection() {
    let vt1 = VariableType::Int;
    let vt2 = VariableType::Int;
    let vt3 = VariableType::Pos;
    let vt4 = VariableType::Any(1);
    let vt5 = VariableType::Vec(Box::new(VariableType::Int));
    let vt6 = VariableType::Vec(Box::new(VariableType::Any(1)));
    let vt7 = VariableType::Vec(Box::new(VariableType::Pos));
    assert_eq!(get_type_intersection(&vt1, &vt2), Some(VariableType::Int));
    assert_eq!(get_type_intersection(&vt1, &vt3), None);
    assert_eq!(get_type_intersection(&vt1, &vt4), Some(VariableType::Int));
    assert_eq!(get_type_intersection(&vt4, &vt3), Some(VariableType::Pos));
    assert_eq!(
        get_type_intersection(&vt5, &vt6),
        Some(VariableType::Vec(Box::new(VariableType::Int)))
    );
    assert_eq!(get_type_intersection(&vt5, &vt7), None);
    assert_eq!(
        get_type_intersection(&vt6, &vt7),
        Some(VariableType::Vec(Box::new(VariableType::Pos)))
    );
    assert_eq!(
        get_type_intersection(&vt4, &vt6),
        Some(VariableType::Vec(Box::new(VariableType::Any(1))))
    );
    assert_eq!(
        get_type_intersection(&vt6, &vt4),
        Some(VariableType::Vec(Box::new(VariableType::Any(1))))
    );
}

#[test]
fn test_type_range_intersect() {
    let mut tr = TypeRange::new(0);
    assert_eq!(tr.get(), &vec![VariableType::Any(0)]);
    assert!(tr.intersect_one(&VariableType::Pos));
    assert_eq!(tr.get(), &vec![VariableType::Pos]);
    assert!(!tr.intersect_one(&VariableType::Color));
}

#[test]
fn test_contains_ambiguous() {
    let mut tr = TypeRange::empty();
    tr.unify_vec(vec![VariableType::Int, VariableType::Pos, vec_of(VariableType::Any(1))]);
    assert!(tr.contains_unambiguous(&VariableType::Int));
    assert!(tr.contains_unambiguous(&VariableType::Pos));
    assert!(!tr.contains_unambiguous(&VariableType::Color));
    assert!(tr.contains_ambiguous(&vec_of(VariableType::Any(2))));
    assert!(!tr.contains_ambiguous(&VariableType::Any(1)));
}

#[test]
fn type_range_test_intersect() {
    let tr1 = TypeRange::of(vec![VariableType::Int, VariableType::Pos, VariableType::Any(1)]);
    let tr2 = TypeRange::of(vec![VariableType::Int, VariableType::Any(2)]);
    let tr3 = TypeRange::of(vec![VariableType::Int, VariableType::Pos, VariableType::Color]);
    let tr4 = TypeRange::of(vec![vec_of(VariableType::Any(1))]);
    assert_eq!(
        TypeRange::intersect(vec![&tr1, &tr2, &tr3]).suck_out(),
        vec![VariableType::Int, VariableType::Pos, VariableType::Color]
    );
    assert_eq!(
        TypeRange::intersect(vec![&tr1, &tr2]).suck_out(),
        vec![VariableType::Int, VariableType::Pos, VariableType::Any(1)]
    );
    assert_eq!(
        TypeRange::intersect(vec![&tr2, &tr3]).suck_out(),
        vec![VariableType::Int, VariableType::Pos, VariableType::Color]
    );
    assert_eq!(
        TypeRange::intersect(vec![&tr1, &tr2, &tr4]).suck_out(),
        vec![vec_of(VariableType::Any(1))]
    );
}

#[test]
fn type_range_of_no_or_one_range() {
    assert_eq!(TypeRange::intersect(vec![]).suck_out(), vec![VariableType::Any(1)]);
    let tr = TypeRange::of(vec![VariableType::Int, VariableType::Pos]);
    assert_eq!(TypeRange::intersect(vec![&tr]), tr);
}

#[test]
fn type_range_unify_adds_what_is_new() {
    let mut tr = TypeRange::empty();
    assert!(tr.is_empty());
    tr.unify_one(VariableType::Int);
    tr.unify_one(VariableType::Int);
    tr.unify_one_ref(&VariableType::Any(1));
    tr.unify_one_ref(&VariableType::Any(2));
    assert_eq!(tr.get().len(), 2);
    assert!(tr.contains_ambiguous_vars());
    assert!(tr.contains(&VariableType::Any(7)));
    assert!(!tr.contains(&VariableType::Pos));
    let mut other = TypeRange::new(3);
    other.unify(TypeRange::of(vec![VariableType::Pos, VariableType::Int]));
    assert_eq!(other.get(), &vec![VariableType::Any(3), VariableType::Pos, VariableType::Int]);
    tr.unify_ref(&other);
    assert_eq!(tr.get(), &vec![VariableType::Int, VariableType::Any(1), VariableType::Pos]);
    assert!(!tr.is_empty());
    let met = tr.get_ambiguous_intersect(&VariableType::Any(9));
    assert_eq!(met.get(), &vec![VariableType::Int, VariableType::Any(9), VariableType::Pos]);
}
