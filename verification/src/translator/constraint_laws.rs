use crate::translator::type_constraints::{
    all_indices, below, changed, intersected, met, propagated,
    propagation_limit, propagation_step, refreshed, refreshed_from, stripped, substituted_all,
    unconstrained,
};
use crate::variable::types::{lemma_loosely_equal_unambiguous, VariableType};
use vstd::prelude::*;

verus! {

/// A concrete type holds no placeholder, so nothing about bindings changes
/// it, and it is what it has in common with itself.
pub proof fn lemma_concrete_facts(t: VariableType)
    requires
        t.concrete(),
    ensures
        !t.ambiguous(),
        t.binding() is None,
        t.inverted() == t,
        t.intersection(t) == Some(t),
        forall|x: usize| #[trigger] t.rebound(x) == t,
        forall|b: usize, nt: VariableType| #[trigger] t.substituted(b, nt) == t,
    decreases t,
{
    match t {
        VariableType::Vec(x) => {
            lemma_concrete_facts(*x);
            assert forall|y: usize| #[trigger] t.rebound(y) == t by {
                assert(x.rebound(y) == *x);
            }
            assert forall|b: usize, nt: VariableType| #[trigger] t.substituted(b, nt) == t by {
                assert(x.substituted(b, nt) == *x);
            }
        },
        _ => {},
    }
}

/// Nothing is a subset of a concrete type.
pub proof fn lemma_not_subset_of_concrete(t: VariableType, c: VariableType)
    requires
        c.concrete(),
    ensures
        !t.subset_of(c),
    decreases t,
{
    match (t, c) {
        (VariableType::Vec(a), VariableType::Vec(b)) => {
            lemma_not_subset_of_concrete(*a, *b);
        },
        _ => {},
    }
}

/// What a concrete type is not a subset of, it is not a subset of after a
/// placeholder was replaced there.
pub proof fn lemma_subset_preserved(t: VariableType, x: VariableType, b: usize, nt: VariableType)
    requires
        t.concrete(),
        !t.subset_of(x),
    ensures
        !t.subset_of(x.substituted(b, nt)),
    decreases x,
{
    match (t, x) {
        (VariableType::Vec(t1), VariableType::Vec(x1)) => {
            lemma_subset_preserved(*t1, *x1, b, nt);
        },
        _ => {},
    }
}

/// Where a concrete type is a subset of another type, that type holds a
/// placeholder, and replacing the placeholder by the part of the concrete
/// type that it stands for gives the concrete type.
pub proof fn lemma_concrete_fills_placeholder(t: VariableType, x: VariableType)
    requires
        t.concrete(),
        t.subset_of(x),
    ensures
        x.binding() is Some,
        x.substituted(x.binding()->Some_0, stripped(t, x).inverted()) == t,
        x != t,
    decreases x,
{
    match (t, x) {
        (VariableType::Vec(t1), VariableType::Vec(x1)) => {
            lemma_concrete_fills_placeholder(*t1, *x1);
        },
        (_, VariableType::Any(_)) => {
            lemma_concrete_facts(t);
        },
        _ => {},
    }
}

/// What a concrete type has in common with another type is the concrete
/// type, whichever of the two stands first.
pub proof fn lemma_meet_with_concrete(t: VariableType, x: VariableType)
    requires
        t.concrete(),
    ensures
        t.intersection(x) is Some ==> t.intersection(x) == Some(t),
        x.intersection(t) is Some ==> x.intersection(t) == Some(t),
    decreases t,
{
    lemma_concrete_facts(t);
    match (t, x) {
        (VariableType::Vec(t1), VariableType::Vec(x1)) => {
            lemma_meet_with_concrete(*t1, *x1);
        },
        (_, VariableType::Any(_)) => {},
        (_, VariableType::Unresolved) => {},
        _ => {
            if x.loosely_equal(t) {
                crate::variable::types::lemma_loosely_equal_symmetric(x, t);
                lemma_loosely_equal_unambiguous(t, x);
            }
        },
    }
}

/// A type that has something in common with a concrete type, and that the
/// concrete type is not a subset of, is the concrete type.
pub proof fn lemma_meet_forces(t: VariableType, x: VariableType)
    requires
        t.concrete(),
        t.intersection(x) is Some,
        !t.subset_of(x),
    ensures
        x == t,
    decreases t,
{
    lemma_concrete_facts(t);
    match (t, x) {
        (VariableType::Vec(t1), VariableType::Vec(x1)) => {
            lemma_meet_forces(*t1, *x1);
        },
        (_, VariableType::Any(_)) => {},
        (_, VariableType::Unresolved) => {},
        _ => {
            lemma_loosely_equal_unambiguous(t, x);
        },
    }
}

/// Two concrete types that differ have nothing in common.
pub proof fn lemma_distinct_concrete_types(a: VariableType, b: VariableType)
    requires
        a.concrete(),
        b.concrete(),
        a != b,
    ensures
        a.intersection(b) is None,
    decreases a,
{
    match (a, b) {
        (VariableType::Vec(x), VariableType::Vec(y)) => {
            lemma_distinct_concrete_types(*x, *y);
        },
        _ => {
            lemma_concrete_facts(a);
            if a.loosely_equal(b) {
                lemma_loosely_equal_unambiguous(a, b);
            }
        },
    }
}

/// A replacement replaces in each type.
pub proof fn lemma_substituted_all(types: Seq<VariableType>, b: usize, nt: VariableType)
    ensures
        substituted_all(types, b, nt).len() == types.len(),
        forall|k: int|
            0 <= k < types.len() ==> #[trigger] substituted_all(types, b, nt)[k]
                == types[k].substituted(b, nt),
{
}

/// The operands at which two lists of types differ are among the changed
/// ones, and no others are.
pub proof fn lemma_changed(before: Seq<VariableType>, after: Seq<VariableType>, n: nat)
    requires
        n <= usize::MAX,
    ensures
        forall|k: int|
            0 <= k < n && before[k] != after[k] ==> changed(before, after, n).contains(k as usize),
        forall|x: usize| #[trigger]
            changed(before, after, n).contains(x) ==> x < n && before[x as int] != after[x as int],
    decreases n,
{
    if n > 0 {
        lemma_changed(before, after, (n - 1) as nat);
        let prev = changed(before, after, (n - 1) as nat);
        let next = changed(before, after, n);
        assert forall|k: int| 0 <= k < n && before[k] != after[k] implies next.contains(
            k as usize,
        ) by {
            if k < n - 1 {
                let at = choose|at: int| 0 <= at < prev.len() && prev[at] == k as usize;
                assert(next[at] == k as usize);
            } else {
                assert(next[next.len() - 1] == k as usize);
            }
        }
        assert forall|x: usize| next.contains(x) implies x < n && before[x as int] != after[x as int] by {
            let at = choose|at: int| 0 <= at < next.len() && next[at] == x;
            assert(next[at] == x);
            if before[n - 1] != after[n - 1] {
                assert(next == prev.push((n - 1) as usize));
                if at < prev.len() {
                    assert(prev[at] == x);
                    assert(prev.contains(x));
                    assert(x < n - 1 && before[x as int] != after[x as int]);
                } else {
                    assert(at == prev.len());
                    assert(x == (n - 1) as usize);
                }
            } else {
                assert(next == prev);
                assert(prev[at] == x);
                assert(prev.contains(x));
                assert(x < n - 1 && before[x as int] != after[x as int]);
            }
        }
    }
}

/// The entries that were picked from a list are entries of the list.
pub proof fn lemma_below(indices: Seq<usize>, bound: usize, from: nat)
    ensures
        forall|x: usize| #[trigger]
            below(indices, bound, from).contains(x) ==> indices.contains(x),
    decreases indices.len() - from,
{
    if from < indices.len() {
        lemma_below(indices, bound, from + 1);
        let rest = below(indices, bound, from + 1);
        let all = below(indices, bound, from);
        assert forall|x: usize| all.contains(x) implies indices.contains(x) by {
            let at = choose|at: int| 0 <= at < all.len() && all[at] == x;
            if indices[from as int] < bound {
                if at == 0 {
                    assert(indices[from as int] == x);
                } else {
                    assert(rest[at - 1] == x);
                    assert(rest.contains(x));
                }
            } else {
                assert(rest.contains(x));
            }
        }
    }
}

/// What the renumbering of the bindings makes of a list of types: as many
/// types, and each concrete type as it was.
pub proof fn lemma_refreshed_from(types: Seq<VariableType>, from: nat, found: Seq<usize>)
    ensures
        refreshed_from(types, from, found).len() == types.len(),
        forall|k: int|
            0 <= k < types.len() && types[k].concrete() ==> #[trigger] refreshed_from(
                types,
                from,
                found,
            )[k] == types[k],
    decreases types.len() - from,
{
    if from < types.len() {
        let t = types[from as int];
        match t.binding() {
            Some(b) => {
                if t.concrete() {
                    lemma_concrete_facts(t);
                }
                match crate::translator::type_constraints::place_of(found, b, 0) {
                    Some(n) => {
                        let next = types.update(from as int, t.rebound(n as usize));
                        lemma_refreshed_from(next, from + 1, found);
                        assert forall|k: int|
                            0 <= k < types.len() && types[k].concrete() implies #[trigger] refreshed_from(
                            types,
                            from,
                            found,
                        )[k] == types[k] by {
                            assert(next[k] == types[k]);
                        }
                    },
                    None => {
                        let next = types.update(from as int, t.rebound(found.len() as usize));
                        lemma_refreshed_from(next, from + 1, found.push(b));
                        assert forall|k: int|
                            0 <= k < types.len() && types[k].concrete() implies #[trigger] refreshed_from(
                            types,
                            from,
                            found,
                        )[k] == types[k] by {
                            assert(next[k] == types[k]);
                        }
                    },
                }
            },
            None => {
                lemma_refreshed_from(types, from + 1, found);
            },
        }
    }
}

/// What the operands have in common, one by one.
pub proof fn lemma_met(o: Seq<VariableType>, s: Seq<VariableType>, n: nat)
    ensures
        match met(o, s, n) {
            Some(m) => m.len() == n && forall|k: int|
                0 <= k < n ==> o[k].intersection(s[k]) == Some(#[trigger] m[k]),
            None => exists|k: int| 0 <= k < n && o[k].intersection(s[k]) is None,
        },
    decreases n,
{
    if n > 0 {
        lemma_met(o, s, (n - 1) as nat);
        match met(o, s, (n - 1) as nat) {
            Some(prev) => {
                match o[n - 1].intersection(s[n - 1]) {
                    Some(t) => {
                        let m = prev.push(t);
                        assert forall|k: int| 0 <= k < n implies o[k].intersection(s[k]) == Some(
                            #[trigger] m[k],
                        ) by {
                            if k < n - 1 {
                                assert(m[k] == prev[k]);
                            }
                        }
                    },
                    None => {},
                }
            },
            None => {},
        }
    }
}

/// The constraints of which nothing is known yet, but for the operands from
/// `k` on, which have their concrete types already.
spec fn partly_known(c: Seq<VariableType>, k: nat) -> Seq<VariableType> {
    Seq::new(
        c.len(),
        |i: int|
            if i < k {
                VariableType::Any(i as usize)
            } else {
                c[i]
            },
    )
}

/// All the types are concrete.
pub open spec fn all_concrete(c: Seq<VariableType>) -> bool {
    forall|i: int| 0 <= i < c.len() ==> (#[trigger] c[i]).concrete()
}

/// Held against concrete constraints, the operands of which nothing is known
/// take the concrete types one by one, the last first.
proof fn lemma_propagate_into_unknown(c: Seq<VariableType>, k: nat, fuel: nat)
    requires
        all_concrete(c),
        k <= c.len() <= usize::MAX,
        fuel >= 2 * k,
    ensures
        propagated(partly_known(c, k), c, all_indices(k), fuel) == Some((c, c)),
    decreases k,
{
    let s = partly_known(c, k);
    if k == 0 {
        assert(s =~= c);
        assert(all_indices(0).len() == 0);
    } else {
        let work = all_indices(k);
        let i = (k - 1) as usize;
        assert(work.last() == i);
        assert(work.drop_last() =~= all_indices((k - 1) as nat));
        let ci = c[i as int];
        lemma_concrete_facts(ci);
        // the first step at `i` gives the operand its concrete type
        assert(s[i as int] == VariableType::Any(i));
        assert(!s[i as int].subset_of(ci));
        assert(ci.subset_of(s[i as int]));
        assert(stripped(ci, s[i as int]) == ci);
        let s1 = substituted_all(s, i, ci);
        lemma_substituted_all(s, i, ci);
        assert(s1 =~= partly_known(c, (k - 1) as nat)) by {
            assert forall|j: int| 0 <= j < c.len() implies s1[j] == partly_known(
                c,
                (k - 1) as nat,
            )[j] by {
                if j >= k {
                    lemma_concrete_facts(c[j]);
                }
            }
        }
        lemma_changed_single(s, s1, i as int, c.len());
        let w1 = work.drop_last() + changed(s, s1, s.len());
        assert(w1 =~= work);
        assert(propagation_step(s, c, work.drop_last(), i) == (s1, c, w1));
        // the second step at `i` changes nothing
        lemma_not_subset_of_concrete(ci, ci);
        assert(propagation_step(s1, c, work.drop_last(), i) == (s1, c, work.drop_last()));
        assert(propagated(s, c, work, fuel) == propagated(s1, c, work, (fuel - 1) as nat));
        assert(propagated(s1, c, work, (fuel - 1) as nat) == propagated(
            s1,
            c,
            work.drop_last(),
            (fuel - 2) as nat,
        ));
        lemma_propagate_into_unknown(c, (k - 1) as nat, (fuel - 2) as nat);
    }
}

/// Where two lists of types differ in the operand `i` alone, that operand
/// alone has changed.
proof fn lemma_changed_single(before: Seq<VariableType>, after: Seq<VariableType>, i: int, n: nat)
    requires
        before.len() == after.len(),
        0 <= i < before.len(),
        n <= before.len(),
        before.len() <= usize::MAX,
        before[i] != after[i],
        forall|k: int| 0 <= k < before.len() && k != i ==> before[k] == after[k],
    ensures
        changed(before, after, n) == (if n > i {
            seq![i as usize]
        } else {
            Seq::<usize>::empty()
        }),
    decreases n,
{
    if n > 0 {
        lemma_changed_single(before, after, i, (n - 1) as nat);
        if n - 1 == i {
            assert(changed(before, after, n) =~= seq![i as usize]);
        }
    }
}

/// Constraints of which nothing is known change nothing about concrete
/// constraints that they are held against.
pub proof fn lemma_unconstrained_is_neutral(c: Seq<VariableType>)
    requires
        all_concrete(c),
        2 * c.len() <= usize::MAX,
    ensures
        intersected(unconstrained(c.len()), c) == Some(c),
{
    let n = c.len();
    assert(unconstrained(n) =~= partly_known(c, n));
    assert(propagation_limit(n) >= 2 * n) by (nonlinear_arith)
        requires
            2 * n <= usize::MAX,
            propagation_limit(n) == (if 8 * n * n + 64 <= usize::MAX {
                8 * n * n + 64
            } else {
                usize::MAX as nat
            }),
    ;
    lemma_propagate_into_unknown(c, n, propagation_limit(n));
    lemma_met(c, c, n);
    assert forall|k: int| 0 <= k < n implies c[k].intersection(c[k]) == Some(c[k]) by {
        lemma_concrete_facts(c[k]);
    }
    let m = met(c, c, n)->Some_0;
    assert(m =~= c);
    lemma_refreshed_from(c, 0, Seq::empty());
    assert(refreshed(c) =~= c);
}

/// Two concrete sets of constraints are left as they are by the
/// propagation.
proof fn lemma_propagate_concrete(a: Seq<VariableType>, b: Seq<VariableType>, k: nat, fuel: nat)
    requires
        all_concrete(a),
        all_concrete(b),
        a.len() == b.len(),
        k <= a.len() <= usize::MAX,
        fuel >= k,
    ensures
        propagated(a, b, all_indices(k), fuel) == Some((a, b)),
    decreases k,
{
    if k == 0 {
        assert(all_indices(0).len() == 0);
    } else {
        let work = all_indices(k);
        let i = (k - 1) as usize;
        assert(work.last() == i);
        assert(work.drop_last() =~= all_indices((k - 1) as nat));
        lemma_not_subset_of_concrete(a[i as int], b[i as int]);
        lemma_not_subset_of_concrete(b[i as int], a[i as int]);
        assert(propagation_step(a, b, work.drop_last(), i) == (a, b, work.drop_last()));
        lemma_propagate_concrete(a, b, (k - 1) as nat, (fuel - 1) as nat);
    }
}

/// Two concrete sets of constraints that give one operand two different
/// types have no joint result.
pub proof fn lemma_exclusive_assignments_fail(a: Seq<VariableType>, b: Seq<VariableType>, i: int)
    requires
        all_concrete(a),
        all_concrete(b),
        a.len() == b.len(),
        a.len() <= usize::MAX,
        0 <= i < a.len(),
        a[i] != b[i],
    ensures
        intersected(a, b) is None,
{
    let n = a.len();
    assert(propagation_limit(n) >= n) by (nonlinear_arith)
        requires
            n <= usize::MAX,
            propagation_limit(n) == (if 8 * n * n + 64 <= usize::MAX {
                8 * n * n + 64
            } else {
                usize::MAX as nat
            }),
    ;
    lemma_propagate_concrete(a, b, n, propagation_limit(n));
    lemma_distinct_concrete_types(b[i], a[i]);
    lemma_met(b, a, n);
    if met(b, a, n) is Some {
        let m = met(b, a, n)->Some_0;
        assert(b[i].intersection(a[i]) == Some(m[i]));
    }
}

/// What the propagation keeps: the concrete types of `o`, the equality of
/// the types of the operands `i` and `j` in `s`, and, for every operand that
/// is not on the work list and has a concrete type in `o`, that this type is
/// not a subset of the type that the operand has in `s`.
spec fn settled(
    s: Seq<VariableType>,
    o: Seq<VariableType>,
    work: Seq<usize>,
    first: Seq<VariableType>,
    i: int,
    j: int,
) -> bool {
    &&& s.len() == first.len()
    &&& o.len() == first.len()
    &&& first.len() <= usize::MAX
    &&& 0 <= i < s.len()
    &&& 0 <= j < s.len()
    &&& s[i] == s[j]
    &&& forall|k: int| 0 <= k < first.len() && first[k].concrete() ==> #[trigger] o[k] == first[k]
    &&& forall|k: int|
        0 <= k < first.len() && first[k].concrete() && !work.contains(k as usize) ==> !(
        #[trigger] o[k]).subset_of(s[k])
    &&& forall|x: usize| work.contains(x) ==> x < first.len()
}

/// One step of the propagation keeps what `settled` says.
proof fn lemma_step_keeps_settled(
    s: Seq<VariableType>,
    o: Seq<VariableType>,
    work: Seq<usize>,
    first: Seq<VariableType>,
    i: int,
    j: int,
)
    requires
        work.len() > 0,
        settled(s, o, work, first, i, j),
    ensures
        ({
            let (s1, o1, w1) = propagation_step(s, o, work.drop_last(), work.last());
            settled(s1, o1, w1, first, i, j)
        }),
{
    let at = work.last();
    let rest = work.drop_last();
    assert(work.contains(at)) by {
        assert(work[work.len() - 1] == at);
    }
    let (s1, o1, w1) = propagation_step(s, o, rest, at);
    // the first half of the step: `o` changes
    let first_half = s[at as int].subset_of(o[at as int]) && o[at as int].binding() is Some;
    let o_mid = if first_half {
        substituted_all(o, o[at as int].binding()->Some_0, stripped(s[at as int], o[at as int]).inverted())
    } else {
        o
    };
    let w_mid = if first_half {
        rest + below(changed(o, o_mid, o.len()), at, 0)
    } else {
        rest
    };
    assert(o1 == o_mid);
    if first_half {
        lemma_substituted_all(
            o,
            o[at as int].binding()->Some_0,
            stripped(s[at as int], o[at as int]).inverted(),
        );
        lemma_changed(o, o_mid, o.len());
        lemma_below(changed(o, o_mid, o.len()), at, 0);
    }
    assert forall|k: int| 0 <= k < first.len() && first[k].concrete() implies #[trigger] o1[k]
        == first[k] by {
        lemma_concrete_facts(first[k]);
        assert(o[k] == first[k]);
    }
    // the second half of the step: `s` changes
    let second_half = o1[at as int].subset_of(s[at as int]) && s[at as int].binding() is Some;
    if second_half {
        let b = s[at as int].binding()->Some_0;
        let nt = stripped(o1[at as int], s[at as int]).inverted();
        lemma_substituted_all(s, b, nt);
        lemma_changed(s, s1, s.len());
        assert(w1 == w_mid + changed(s, s1, s.len()));
    } else {
        assert(s1 == s);
        assert(w1 == w_mid);
    }
    assert(s1[i] == s1[j]);
    assert forall|x: usize| w1.contains(x) implies x < first.len() by {
        let p = choose|p: int| 0 <= p < w1.len() && w1[p] == x;
        if p < rest.len() {
            assert(work[p] == x);
            assert(work.contains(x));
        } else if p < w_mid.len() {
            assert(below(changed(o, o_mid, o.len()), at, 0)[p - rest.len()] == x);
            assert(below(changed(o, o_mid, o.len()), at, 0).contains(x));
        } else {
            assert(changed(s, s1, s.len())[p - w_mid.len()] == x);
            assert(changed(s, s1, s.len()).contains(x));
        }
    }
    assert forall|k: int|
        0 <= k < first.len() && first[k].concrete() && !w1.contains(k as usize) implies !(
    #[trigger] o1[k]).subset_of(s1[k]) by {
        let t = first[k];
        assert(o1[k] == t);
        assert(o[k] == t);
        if k == at {
            if t.subset_of(s[k]) {
                // then the second half of the step has given the operand the
                // concrete type, and put it on the work list
                lemma_concrete_fills_placeholder(t, s[k]);
                assert(second_half);
                assert(s1[k] == t);
                assert(s[k] != s1[k]);
                assert(changed(s, s1, s.len()).contains(k as usize));
                let q = choose|q: int|
                    0 <= q < changed(s, s1, s.len()).len() && changed(s, s1, s.len())[q]
                        == k as usize;
                assert(w1[w_mid.len() + q] == k as usize);
                assert(false);
            } else {
                if second_half {
                    lemma_subset_preserved(
                        t,
                        s[k],
                        s[at as int].binding()->Some_0,
                        stripped(o1[at as int], s[at as int]).inverted(),
                    );
                }
            }
        } else {
            if work.contains(k as usize) {
                let p = choose|p: int| 0 <= p < work.len() && work[p] == k as usize;
                assert(p < rest.len());
                assert(w1[p] == k as usize);
                assert(false);
            }
            assert(!t.subset_of(s[k]));
            if second_half {
                lemma_subset_preserved(
                    t,
                    s[k],
                    s[at as int].binding()->Some_0,
                    stripped(o1[at as int], s[at as int]).inverted(),
                );
            }
        }
    }
}

/// The propagation keeps what `settled` says, to its end.
proof fn lemma_propagation_keeps_settled(
    s: Seq<VariableType>,
    o: Seq<VariableType>,
    work: Seq<usize>,
    fuel: nat,
    first: Seq<VariableType>,
    i: int,
    j: int,
)
    requires
        settled(s, o, work, first, i, j),
        propagated(s, o, work, fuel) is Some,
    ensures
        ({
            let (s1, o1) = propagated(s, o, work, fuel)->Some_0;
            settled(s1, o1, Seq::empty(), first, i, j)
        }),
    decreases fuel,
{
    if work.len() == 0 {
        assert(work =~= Seq::<usize>::empty());
    } else {
        lemma_step_keeps_settled(s, o, work, first, i, j);
        let (s1, o1, w1) = propagation_step(s, o, work.drop_last(), work.last());
        lemma_propagation_keeps_settled(s1, o1, w1, (fuel - 1) as nat, first, i, j);
    }
}

/// Identity propagation: where two operands have the same type in one set
/// of constraints, and the other set gives one of them a concrete type,
/// both operands have that concrete type in the joint result.
pub proof fn lemma_identity_propagation(s: Seq<VariableType>, o: Seq<VariableType>, i: int, j: int)
    requires
        s.len() == o.len(),
        s.len() <= usize::MAX,
        0 <= i < s.len(),
        0 <= j < s.len(),
        s[i] == s[j],
        o[i].concrete(),
        intersected(s, o) is Some,
    ensures
        intersected(s, o)->Some_0.len() == s.len(),
        intersected(s, o)->Some_0[i] == o[i],
        intersected(s, o)->Some_0[j] == o[i],
{
    let n = s.len();
    let work = all_indices(n);
    let t = o[i];
    assert(settled(s, o, work, o, i, j)) by {
        assert forall|k: int|
            0 <= k < n && o[k].concrete() && !work.contains(k as usize) implies !(
        #[trigger] o[k]).subset_of(s[k]) by {
            assert(work[k] == k as usize);
        }
        assert forall|x: usize| work.contains(x) implies x < n by {
            let p = choose|p: int| 0 <= p < work.len() && work[p] == x;
        }
    }
    lemma_propagation_keeps_settled(s, o, work, propagation_limit(n), o, i, j);
    let (s1, o1) = propagated(s, o, work, propagation_limit(n))->Some_0;
    let none = Seq::<usize>::empty();
    assert(!none.contains(i as usize));
    assert(o1[i] == t);
    assert(!o1[i].subset_of(s1[i]));
    lemma_met(o1, s1, n);
    let m = met(o1, s1, n)->Some_0;
    // the operand `i` has the concrete type in `s` by now
    assert(o1[i].intersection(s1[i]) == Some(m[i]));
    lemma_meet_forces(t, s1[i]);
    lemma_meet_with_concrete(t, s1[i]);
    assert(m[i] == t);
    // and so has the operand `j`
    assert(s1[j] == t);
    assert(o1[j].intersection(s1[j]) == Some(m[j]));
    lemma_meet_with_concrete(t, o1[j]);
    assert(m[j] == t);
    lemma_refreshed_from(m, 0, Seq::empty());
}

/// A type that has something in common with a concrete type that stands
/// behind it, and that the concrete type is not a subset of, is the concrete
/// type.
pub proof fn lemma_meet_forces_behind(t: VariableType, x: VariableType)
    requires
        t.concrete(),
        x.intersection(t) is Some,
        !t.subset_of(x),
    ensures
        x == t,
    decreases t,
{
    lemma_concrete_facts(t);
    match (t, x) {
        (VariableType::Vec(t1), VariableType::Vec(x1)) => {
            lemma_meet_forces_behind(*t1, *x1);
        },
        (_, VariableType::Any(_)) => {},
        (_, VariableType::Unresolved) => {},
        _ => {
            if x.loosely_equal(t) {
                crate::variable::types::lemma_loosely_equal_symmetric(x, t);
                lemma_loosely_equal_unambiguous(t, x);
            }
        },
    }
}

/// What the propagation keeps where the concrete types stand in `s`: those
/// types, the equality of the types of the operands `i` and `j` in `o`, and,
/// for every operand that is not on the work list and has a concrete type in
/// `s`, that this type is not a subset of the type that the operand has in
/// `o`.
spec fn settled_behind(
    s: Seq<VariableType>,
    o: Seq<VariableType>,
    work: Seq<usize>,
    first: Seq<VariableType>,
    i: int,
    j: int,
) -> bool {
    &&& s.len() == first.len()
    &&& o.len() == first.len()
    &&& first.len() <= usize::MAX
    &&& 0 <= i < s.len()
    &&& 0 <= j < s.len()
    &&& o[i] == o[j]
    &&& forall|k: int| 0 <= k < first.len() && first[k].concrete() ==> #[trigger] s[k] == first[k]
    &&& forall|k: int|
        0 <= k < first.len() && first[k].concrete() && !work.contains(k as usize) ==> !(
        #[trigger] s[k]).subset_of(o[k])
    &&& forall|x: usize| work.contains(x) ==> x < first.len()
}

/// One step of the propagation keeps what `settled_behind` says.
proof fn lemma_step_keeps_settled_behind(
    s: Seq<VariableType>,
    o: Seq<VariableType>,
    work: Seq<usize>,
    first: Seq<VariableType>,
    i: int,
    j: int,
)
    requires
        work.len() > 0,
        settled_behind(s, o, work, first, i, j),
    ensures
        ({
            let (s1, o1, w1) = propagation_step(s, o, work.drop_last(), work.last());
            settled_behind(s1, o1, w1, first, i, j)
        }),
{
    let at = work.last();
    let rest = work.drop_last();
    assert(work.contains(at)) by {
        assert(work[work.len() - 1] == at);
    }
    let (s1, o1, w1) = propagation_step(s, o, rest, at);
    let first_half = s[at as int].subset_of(o[at as int]) && o[at as int].binding() is Some;
    let b1 = o[at as int].binding()->Some_0;
    let nt1 = stripped(s[at as int], o[at as int]).inverted();
    let w_mid = if first_half {
        rest + below(changed(o, o1, o.len()), at, 0)
    } else {
        rest
    };
    if first_half {
        lemma_substituted_all(o, b1, nt1);
        lemma_changed(o, o1, o.len());
        lemma_below(changed(o, o1, o.len()), at, 0);
    }
    let second_half = o1[at as int].subset_of(s[at as int]) && s[at as int].binding() is Some;
    if second_half {
        let b = s[at as int].binding()->Some_0;
        let nt = stripped(o1[at as int], s[at as int]).inverted();
        lemma_substituted_all(s, b, nt);
        lemma_changed(s, s1, s.len());
        assert(w1 == w_mid + changed(s, s1, s.len()));
    } else {
        assert(s1 == s);
        assert(w1 == w_mid);
    }
    assert(o1[i] == o1[j]);
    assert forall|k: int| 0 <= k < first.len() && first[k].concrete() implies #[trigger] s1[k]
        == first[k] by {
        lemma_concrete_facts(first[k]);
        assert(s[k] == first[k]);
    }
    assert forall|x: usize| w1.contains(x) implies x < first.len() by {
        let p = choose|p: int| 0 <= p < w1.len() && w1[p] == x;
        if p < rest.len() {
            assert(work[p] == x);
            assert(work.contains(x));
        } else if p < w_mid.len() {
            assert(below(changed(o, o1, o.len()), at, 0)[p - rest.len()] == x);
            assert(below(changed(o, o1, o.len()), at, 0).contains(x));
        } else {
            assert(changed(s, s1, s.len())[p - w_mid.len()] == x);
            assert(changed(s, s1, s.len()).contains(x));
        }
    }
    assert forall|k: int|
        0 <= k < first.len() && first[k].concrete() && !w1.contains(k as usize) implies !(
    #[trigger] s1[k]).subset_of(o1[k]) by {
        let t = first[k];
        assert(s[k] == t);
        assert(s1[k] == t);
        if k == at {
            if t.subset_of(o[k]) {
                // the first half of the step has given the operand the
                // concrete type
                lemma_concrete_fills_placeholder(t, o[k]);
                assert(first_half);
                assert(o1[k] == t);
                lemma_not_subset_of_concrete(t, t);
            } else if first_half {
                lemma_subset_preserved(t, o[k], b1, nt1);
            }
        } else {
            if work.contains(k as usize) {
                let p = choose|p: int| 0 <= p < work.len() && work[p] == k as usize;
                assert(p < rest.len());
                assert(w1[p] == k as usize);
                assert(false);
            }
            assert(!t.subset_of(o[k]));
            if first_half {
                lemma_subset_preserved(t, o[k], b1, nt1);
            }
        }
    }
}

/// The propagation keeps what `settled_behind` says, to its end.
proof fn lemma_propagation_keeps_settled_behind(
    s: Seq<VariableType>,
    o: Seq<VariableType>,
    work: Seq<usize>,
    fuel: nat,
    first: Seq<VariableType>,
    i: int,
    j: int,
)
    requires
        settled_behind(s, o, work, first, i, j),
        propagated(s, o, work, fuel) is Some,
    ensures
        ({
            let (s1, o1) = propagated(s, o, work, fuel)->Some_0;
            settled_behind(s1, o1, Seq::empty(), first, i, j)
        }),
    decreases fuel,
{
    if work.len() == 0 {
        assert(work =~= Seq::<usize>::empty());
    } else {
        lemma_step_keeps_settled_behind(s, o, work, first, i, j);
        let (s1, o1, w1) = propagation_step(s, o, work.drop_last(), work.last());
        lemma_propagation_keeps_settled_behind(s1, o1, w1, (fuel - 1) as nat, first, i, j);
    }
}

/// Identity propagation, the other way round: where two operands have the
/// same type in the set of constraints that is held against another, and
/// that other set has a concrete type for one of them, both operands have
/// that concrete type in the joint result.
pub proof fn lemma_identity_propagation_behind(
    s: Seq<VariableType>,
    o: Seq<VariableType>,
    i: int,
    j: int,
)
    requires
        s.len() == o.len(),
        s.len() <= usize::MAX,
        0 <= i < s.len(),
        0 <= j < s.len(),
        o[i] == o[j],
        s[i].concrete(),
        intersected(s, o) is Some,
    ensures
        intersected(s, o)->Some_0.len() == s.len(),
        intersected(s, o)->Some_0[i] == s[i],
        intersected(s, o)->Some_0[j] == s[i],
{
    let n = s.len();
    let work = all_indices(n);
    let t = s[i];
    assert(settled_behind(s, o, work, s, i, j)) by {
        assert forall|k: int|
            0 <= k < n && s[k].concrete() && !work.contains(k as usize) implies !(
        #[trigger] s[k]).subset_of(o[k]) by {
            assert(work[k] == k as usize);
        }
        assert forall|x: usize| work.contains(x) implies x < n by {
            let p = choose|p: int| 0 <= p < work.len() && work[p] == x;
        }
    }
    lemma_propagation_keeps_settled_behind(s, o, work, propagation_limit(n), s, i, j);
    let (s1, o1) = propagated(s, o, work, propagation_limit(n))->Some_0;
    let none = Seq::<usize>::empty();
    assert(!none.contains(i as usize));
    assert(s1[i] == t);
    assert(!s1[i].subset_of(o1[i]));
    lemma_met(o1, s1, n);
    let m = met(o1, s1, n)->Some_0;
    // the operand `i` has the concrete type in `o` by now
    assert(o1[i].intersection(s1[i]) == Some(m[i]));
    lemma_meet_forces_behind(t, o1[i]);
    lemma_meet_with_concrete(t, o1[i]);
    assert(m[i] == t);
    // and so has the operand `j`
    assert(o1[j] == t);
    assert(o1[j].intersection(s1[j]) == Some(m[j]));
    lemma_meet_with_concrete(t, s1[j]);
    assert(m[j] == t);
    lemma_refreshed_from(m, 0, Seq::empty());
}

} // verus!
