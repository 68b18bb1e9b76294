use crate::variable::types::VariableType;
use vstd::prelude::*;

verus! {

/// The types that one operand may have, in the order in which they were
/// found; no two of them are loosely equal unless the range was built from
/// such a list.
#[derive(Debug, Eq)]
pub struct TypeRange {
    possible_types: Vec<VariableType>,
}

impl View for TypeRange {
    type V = Seq<VariableType>;

    closed spec fn view(&self) -> Seq<VariableType> {
        self.possible_types@
    }
}

/// What two types have in common, where bindings play no part: loosely equal
/// types meet in the first; two `Vec`s meet in the `Vec` of what their
/// elements meet in; a placeholder and another type meet in that type.
pub open spec fn type_meet(a: VariableType, b: VariableType) -> Option<VariableType>
    decreases a,
{
    if a.loosely_equal(b) {
        Some(a)
    } else {
        match (a, b) {
            (VariableType::Vec(x), VariableType::Vec(y)) => match type_meet(*x, *y) {
                Some(t) => Some(VariableType::Vec(Box::new(t))),
                None => None,
            },
            (VariableType::Any(_), t) => Some(t),
            (t, VariableType::Any(_)) => Some(t),
            _ => None,
        }
    }
}

/// Whether one of the first `n` types is loosely equal to `t`.
pub open spec fn holds(types: Seq<VariableType>, t: VariableType, n: nat) -> bool
    decreases n,
{
    n > 0 && (holds(types, t, (n - 1) as nat) || types[n - 1].loosely_equal(t))
}

/// The types with `t` behind them, unless one of them is loosely equal to
/// `t`.
pub open spec fn with_type(types: Seq<VariableType>, t: VariableType) -> Seq<VariableType> {
    if holds(types, t, types.len()) {
        types
    } else {
        types.push(t)
    }
}

/// The types with the first `n` of `more` added one by one.
pub open spec fn joined(types: Seq<VariableType>, more: Seq<VariableType>, n: nat) -> Seq<
    VariableType,
>
    decreases n,
{
    if n == 0 {
        types
    } else {
        with_type(joined(types, more, (n - 1) as nat), more[n - 1])
    }
}

/// Whether one of the first `n` types holds a placeholder.
pub open spec fn some_ambiguous(types: Seq<VariableType>, n: nat) -> bool
    decreases n,
{
    n > 0 && (some_ambiguous(types, (n - 1) as nat) || types[n - 1].ambiguous())
}

/// Whether one of the first `n` types has something in common with `v`.
pub open spec fn admits_type(types: Seq<VariableType>, v: VariableType, n: nat) -> bool
    decreases n,
{
    n > 0 && (admits_type(types, v, (n - 1) as nat) || type_meet(types[n - 1], v) is Some)
}

/// Whether `v` is what it has in common with one of the first `n` types.
pub open spec fn covers_type(types: Seq<VariableType>, v: VariableType, n: nat) -> bool
    decreases n,
{
    n > 0 && (covers_type(types, v, (n - 1) as nat) || match type_meet(types[n - 1], v) {
        Some(x) => x.loosely_equal(v),
        None => false,
    })
}

/// What `v` has in common with each of the first `n` types, without
/// repetition.
pub open spec fn meets(types: Seq<VariableType>, v: VariableType, n: nat) -> Seq<VariableType>
    decreases n,
{
    if n == 0 {
        Seq::empty()
    } else {
        let prev = meets(types, v, (n - 1) as nat);
        match type_meet(v, types[n - 1]) {
            Some(x) => with_type(prev, x),
            None => prev,
        }
    }
}

/// Whether each of the ranges from `from` on up to `upto` admits the type
/// `v`.
pub open spec fn all_admit(ranges: Seq<Seq<VariableType>>, v: VariableType, from: nat, upto: nat) -> bool
    decreases upto,
{
    upto <= from || (all_admit(ranges, v, from, (upto - 1) as nat) && admits_type(
        ranges[upto - 1],
        v,
        ranges[upto - 1].len(),
    ))
}

/// Whether each of the ranges from the third on up to `upto`, but for the
/// range `skip`, covers the type `v`.
pub open spec fn others_cover(ranges: Seq<Seq<VariableType>>, v: VariableType, skip: nat, upto: nat) -> bool
    decreases upto,
{
    upto <= 2 || (others_cover(ranges, v, skip, (upto - 1) as nat) && (upto - 1 == skip
        || covers_type(ranges[upto - 1], v, ranges[upto - 1].len())))
}

/// The result after the first `p` candidates were looked at: a candidate
/// enters unless the result covers it already or another range does not
/// cover it.
pub open spec fn with_candidates(
    ranges: Seq<Seq<VariableType>>,
    skip: nat,
    candidates: Seq<VariableType>,
    acc: Seq<VariableType>,
    p: nat,
) -> Seq<VariableType>
    decreases p,
{
    if p == 0 {
        acc
    } else {
        let prev = with_candidates(ranges, skip, candidates, acc, (p - 1) as nat);
        let t = candidates[p - 1];
        if covers_type(prev, t, prev.len()) {
            prev
        } else if others_cover(ranges, t, skip, ranges.len()) {
            with_type(prev, t)
        } else {
            prev
        }
    }
}

/// The result after the ambiguous type `vt` of the first range was held
/// against the ranges from the second on up to `m`.
pub open spec fn with_ambiguous(
    ranges: Seq<Seq<VariableType>>,
    vt: VariableType,
    acc: Seq<VariableType>,
    m: nat,
) -> Seq<VariableType>
    decreases m,
{
    if m <= 1 {
        acc
    } else {
        let prev = with_ambiguous(ranges, vt, acc, (m - 1) as nat);
        let candidates = meets(ranges[m - 1], vt, ranges[m - 1].len());
        with_candidates(ranges, (m - 1) as nat, candidates, prev, candidates.len())
    }
}

/// The result after the first `n` types of the first range were looked at.
pub open spec fn range_intersection_upto(ranges: Seq<Seq<VariableType>>, n: nat) -> Seq<VariableType>
    decreases n,
{
    if n == 0 {
        Seq::empty()
    } else {
        let prev = range_intersection_upto(ranges, (n - 1) as nat);
        let vt = ranges[0][n - 1];
        if !vt.ambiguous() {
            if all_admit(ranges, vt, 1, ranges.len()) {
                with_type(prev, vt)
            } else {
                prev
            }
        } else {
            with_ambiguous(ranges, vt, prev, ranges.len())
        }
    }
}

/// The intersection of type ranges that are bound to one variable.
///
/// Of no range it is the range of `Any(1)`, of one range that range. Of
/// more, each type of the first range is looked at in turn: a type without a
/// placeholder stays if every other range admits it; a type with one gives
/// way to what it has in common with the types of each other range, as far
/// as the remaining ranges cover that.
pub open spec fn range_intersection(ranges: Seq<Seq<VariableType>>) -> Seq<VariableType> {
    if ranges.len() == 0 {
        seq![VariableType::Any(1)]
    } else if ranges.len() == 1 {
        ranges[0]
    } else {
        range_intersection_upto(ranges, ranges[0].len())
    }
}

/// What a list of ranges is to the contracts.
pub open spec fn ranges_view(list: Seq<&TypeRange>) -> Seq<Seq<VariableType>> {
    list.map_values(|r: &TypeRange| r@)
}

impl TypeRange {
    pub fn new(var_id: usize) -> (r: Self)
        ensures
            r@ == seq![VariableType::Any(var_id)],
    {
        let mut possible_types: Vec<VariableType> = Vec::new();
        possible_types.push(VariableType::Any(var_id));
        assert(possible_types@ =~= seq![VariableType::Any(var_id)]);
        Self { possible_types }
    }

    pub fn empty() -> (r: Self)
        ensures
            r@ == Seq::<VariableType>::empty(),
    {
        Self { possible_types: Vec::new() }
    }

    /// The range of the given types, as they are.
    pub fn of(possible_types: Vec<VariableType>) -> (r: Self)
        ensures
            r@ == possible_types@,
    {
        Self { possible_types }
    }

    pub fn is_empty(&self) -> (r: bool)
        ensures
            r == (self@.len() == 0),
    {
        self.possible_types.len() == 0
    }

    pub fn contains_ambiguous_vars(&self) -> (r: bool)
        ensures
            r == some_ambiguous(self@, self@.len()),
    {
        let mut i: usize = 0;
        while i < self.possible_types.len()
            invariant
                i <= self.possible_types.len(),
                !some_ambiguous(self@, i as nat),
            decreases self.possible_types.len() - i,
        {
            if self.possible_types[i].is_ambiguous() {
                proof {
                    lemma_some_ambiguous_grows(self@, (i + 1) as nat, self@.len());
                }
                return true;
            }
            i += 1;
        }
        false
    }

    pub fn get(&self) -> (r: &Vec<VariableType>)
        ensures
            r@ == self@,
    {
        &self.possible_types
    }

    pub fn suck_out(self) -> (r: Vec<VariableType>)
        ensures
            r@ == self@,
    {
        self.possible_types
    }

    /// Whether a type loosely equal to `t` is in the range.
    pub fn contains(&self, t: &VariableType) -> (r: bool)
        ensures
            r == holds(self@, *t, self@.len()),
    {
        let mut i: usize = 0;
        while i < self.possible_types.len()
            invariant
                i <= self.possible_types.len(),
                !holds(self@, *t, i as nat),
            decreases self.possible_types.len() - i,
        {
            if self.possible_types[i].loosely_matches(t) {
                proof {
                    lemma_holds_grows(self@, *t, (i + 1) as nat, self@.len());
                }
                return true;
            }
            i += 1;
        }
        false
    }

    /// Adds the types of `tr2` that the range does not hold yet.
    /// Unification is meant for type ranges bound to the same variable.
    pub fn unify(&mut self, tr2: Self)
        ensures
            final(self)@ == joined(old(self)@, tr2@, tr2@.len()),
    {
        // we do not unify Pos+Any into Any, because we want to split these cases
        self.unify_vec(tr2.suck_out());
    }

    pub fn unify_ref(&mut self, tr2: &Self)
        ensures
            final(self)@ == joined(old(self)@, tr2@, tr2@.len()),
    {
        let mut i: usize = 0;
        while i < tr2.possible_types.len()
            invariant
                i <= tr2.possible_types.len(),
                self@ == joined(old(self)@, tr2@, i as nat),
            decreases tr2.possible_types.len() - i,
        {
            self.unify_one_ref(&tr2.possible_types[i]);
            i += 1;
        }
    }

    pub fn unify_one_ref(&mut self, t: &VariableType)
        ensures
            final(self)@ == with_type(old(self)@, *t),
    {
        if !self.contains(t) {
            self.possible_types.push(t.clone());
        }
    }

    pub fn unify_vec(&mut self, v: Vec<VariableType>)
        ensures
            final(self)@ == joined(old(self)@, v@, v@.len()),
    {
        let mut i: usize = 0;
        while i < v.len()
            invariant
                i <= v.len(),
                self@ == joined(old(self)@, v@, i as nat),
            decreases v.len() - i,
        {
            self.unify_one(v[i].clone());
            i += 1;
        }
    }

    pub fn unify_one(&mut self, t: VariableType)
        ensures
            final(self)@ == with_type(old(self)@, t),
    {
        if !self.contains(&t) {
            self.possible_types.push(t);
        }
    }

    /// Intersect a new type
    /// Return whether the intersection is non-empty
    /// * We expect that there is only one possible type at this point
    /// * This is because the decision automaton is tree-like
    pub fn intersect_one(&mut self, v: &VariableType) -> (r: bool)
        requires
            old(self)@.len() == 1,
        ensures
            final(self)@.len() == 1,
            match (old(self)@[0], *v) {
                (VariableType::Any(_), _) => r && final(self)@[0] == *v,
                (_, VariableType::Any(_)) => r && final(self)@ == old(self)@,
                (a, b) => match type_meet(a, b) {
                    Some(x) => r && final(self)@[0] == x,
                    None => !r && final(self)@ == old(self)@,
                },
            },
    {
        match (&self.possible_types[0], v) {
            (VariableType::Any(_), _) => {
                self.possible_types[0] = v.clone();
                true
            },
            (_, VariableType::Any(_)) => true,
            (a, b) => {
                match get_type_intersection(a, b) {
                    Some(x) => {
                        self.possible_types[0] = x;
                        true
                    },
                    None => false,
                }
            },
        }
    }

    /// Checks if an unambiguous type is contained
    /// Examples:
    /// Int in { Int|Pos } -> true
    /// Int in { Pos } -> false
    /// Int in { Any } -> true
    pub fn contains_unambiguous(&self, v: &VariableType) -> (r: bool)
        requires
            !v.ambiguous(),
        ensures
            r == admits_type(self@, *v, self@.len()),
    {
        let mut i: usize = 0;
        while i < self.possible_types.len()
            invariant
                i <= self.possible_types.len(),
                !admits_type(self@, *v, i as nat),
            decreases self.possible_types.len() - i,
        {
            if get_type_intersection(&self.possible_types[i], v).is_some() {
                proof {
                    lemma_admits_grows(self@, *v, (i + 1) as nat, self@.len());
                }
                return true;
            }
            i += 1;
        }
        false
    }

    /// Whether `v` is what it has in common with one of the types.
    pub fn contains_ambiguous(&self, v: &VariableType) -> (r: bool)
        ensures
            r == covers_type(self@, *v, self@.len()),
    {
        let mut i: usize = 0;
        while i < self.possible_types.len()
            invariant
                i <= self.possible_types.len(),
                !covers_type(self@, *v, i as nat),
            decreases self.possible_types.len() - i,
        {
            let found = match get_type_intersection(&self.possible_types[i], v) {
                Some(x) => x.loosely_matches(v),
                None => false,
            };
            if found {
                proof {
                    lemma_covers_grows(self@, *v, (i + 1) as nat, self@.len());
                }
                return true;
            }
            i += 1;
        }
        false
    }

    /// What `v` has in common with each type of the range.
    pub fn get_ambiguous_intersect(&self, v: &VariableType) -> (r: Self)
        ensures
            r@ == meets(self@, *v, self@.len()),
    {
        let mut intersect = Self { possible_types: Vec::new() };
        let mut i: usize = 0;
        while i < self.possible_types.len()
            invariant
                i <= self.possible_types.len(),
                intersect@ == meets(self@, *v, i as nat),
            decreases self.possible_types.len() - i,
        {
            match get_type_intersection(v, &self.possible_types[i]) {
                Some(x) => {
                    intersect.unify_one(x);
                },
                None => {},
            }
            i += 1;
        }
        intersect
    }

    /// Calculate intersection of type ranges
    /// This is used for bound variables
    /// Example:
    /// intersect([ { Int|Pos },{ Pos|Color },{ Any(4) } ]) = { Pos }
    /// intersect([ { Any(1) },{ Any(2) },{ Any(4) } ]) = { Any(1) }
    pub fn intersect(trs: Vec<&Self>) -> (r: Self)
        ensures
            r@ == range_intersection(ranges_view(trs@)),
    {
        let ghost ranges = ranges_view(trs@);
        if trs.len() == 0 {
            return Self::new(1);
        }
        if trs.len() == 1 {
            let only = trs[0].clone();
            assert(ranges[0] == trs@[0]@);
            return only;
        }
        let mut intersect = Self { possible_types: Vec::new() };
        let first = trs[0];
        assert(ranges[0] == first@);
        let mut n: usize = 0;
        while n < first.possible_types.len()
            invariant
                n <= first.possible_types.len(),
                trs@.len() >= 2,
                ranges == ranges_view(trs@),
                ranges[0] == first@,
                intersect@ == range_intersection_upto(ranges, n as nat),
            decreases first.possible_types.len() - n,
        {
            let vt = &first.possible_types[n];
            if !vt.is_ambiguous() {
                if Self::all_contain_unambiguous(&trs, vt) {
                    intersect.unify_one(vt.clone());
                }
            } else {
                // ambiguous: get all possible types
                let ghost start = intersect@;
                let mut itr1: usize = 1;
                while itr1 < trs.len()
                    invariant
                        1 <= itr1 <= trs.len(),
                        ranges == ranges_view(trs@),
                        intersect@ == with_ambiguous(ranges, *vt, start, itr1 as nat),
                    decreases trs.len() - itr1,
                {
                    let possible_types = trs[itr1].get_ambiguous_intersect(vt);
                    assert(ranges[itr1 as int] == trs@[itr1 as int]@);
                    let ghost before = intersect@;
                    let mut p: usize = 0;
                    while p < possible_types.possible_types.len()
                        invariant
                            p <= possible_types.possible_types.len(),
                            itr1 < trs.len(),
                            ranges == ranges_view(trs@),
                            intersect@ == with_candidates(
                                ranges,
                                itr1 as nat,
                                possible_types@,
                                before,
                                p as nat,
                            ),
                        decreases possible_types.possible_types.len() - p,
                    {
                        let intersected_t = &possible_types.possible_types[p];
                        if !intersect.contains_ambiguous(intersected_t) {
                            if Self::others_contain_ambiguous(&trs, intersected_t, itr1) {
                                intersect.unify_one(intersected_t.clone());
                            }
                        }
                        p += 1;
                    }
                    itr1 += 1;
                }
            }
            n += 1;
        }
        intersect
    }

    /// Whether every range but the first admits the type `vt`.
    fn all_contain_unambiguous(trs: &Vec<&Self>, vt: &VariableType) -> (r: bool)
        requires
            !vt.ambiguous(),
        ensures
            r == all_admit(ranges_view(trs@), *vt, 1, trs@.len()),
    {
        let ghost ranges = ranges_view(trs@);
        let mut i: usize = 1;
        while i < trs.len()
            invariant
                1 <= i,
                !vt.ambiguous(),
                ranges == ranges_view(trs@),
                i <= trs.len() ==> all_admit(ranges, *vt, 1, i as nat),
                i > trs.len() ==> all_admit(ranges, *vt, 1, trs@.len()),
            decreases trs.len() - i,
        {
            assert(ranges[i as int] == trs@[i as int]@);
            if !trs[i].contains_unambiguous(vt) {
                proof {
                    lemma_all_admit_fails(ranges, *vt, 1, (i + 1) as nat, trs@.len());
                }
                return false;
            }
            i += 1;
        }
        true
    }

    /// Whether every range from the third on, but for the range `skip`,
    /// covers the type `t`.
    fn others_contain_ambiguous(trs: &Vec<&Self>, t: &VariableType, skip: usize) -> (r: bool)
        ensures
            r == others_cover(ranges_view(trs@), *t, skip as nat, trs@.len()),
    {
        let ghost ranges = ranges_view(trs@);
        let mut i: usize = 2;
        while i < trs.len()
            invariant
                2 <= i,
                ranges == ranges_view(trs@),
                i <= trs.len() ==> others_cover(ranges, *t, skip as nat, i as nat),
                i > trs.len() ==> others_cover(ranges, *t, skip as nat, trs@.len()),
            decreases trs.len() - i,
        {
            assert(ranges[i as int] == trs@[i as int]@);
            if i != skip {
                if !trs[i].contains_ambiguous(t) {
                    proof {
                        lemma_others_cover_fails(
                            ranges,
                            *t,
                            skip as nat,
                            (i + 1) as nat,
                            trs@.len(),
                        );
                    }
                    return false;
                }
            }
            i += 1;
        }
        true
    }
}

impl Clone for TypeRange {
    fn clone(&self) -> (r: Self)
        ensures
            r@ == self@,
    {
        let possible_types = self.possible_types.clone();
        assert(possible_types@ =~= self.possible_types@);
        Self { possible_types }
    }
}

impl PartialEq for TypeRange {
    fn eq(&self, other: &Self) -> (r: bool) {
        if self.possible_types.len() != other.possible_types.len() {
            return false;
        }
        let mut i: usize = 0;
        while i < self.possible_types.len()
            invariant
                i <= self.possible_types.len(),
                self.possible_types@.len() == other.possible_types@.len(),
                forall|k: int|
                    0 <= k < i ==> self.possible_types@[k].loosely_equal(other.possible_types@[k]),
            decreases self.possible_types.len() - i,
        {
            if !self.possible_types[i].loosely_matches(&other.possible_types[i]) {
                return false;
            }
            i += 1;
        }
        true
    }
}

impl vstd::std_specs::cmp::PartialEqSpecImpl for TypeRange {
    open spec fn obeys_eq_spec() -> bool {
        true
    }

    open spec fn eq_spec(&self, other: &Self) -> bool {
        ranges_match(self@, other@)
    }
}

/// Whether two ranges hold loosely equal types in the same order.
pub open spec fn ranges_match(a: Seq<VariableType>, b: Seq<VariableType>) -> bool {
    &&& a.len() == b.len()
    &&& forall|k: int| 0 <= k < a.len() ==> (#[trigger] a[k]).loosely_equal(b[k])
}

/// What two types have in common, where bindings play no part.
pub fn get_type_intersection(a: &VariableType, b: &VariableType) -> (r: Option<VariableType>)
    ensures
        r == type_meet(*a, *b),
    decreases *a,
{
    if a.loosely_matches(b) {
        return Some(a.clone());
    }
    match (a, b) {
        (VariableType::Vec(x), VariableType::Vec(y)) => {
            match get_type_intersection(x, y) {
                Some(t) => Some(VariableType::Vec(Box::new(t))),
                None => None,
            }
        },
        (VariableType::Any(_), t) => Some(t.clone()),
        (t, VariableType::Any(_)) => Some(t.clone()),
        _ => None,
    }
}

/// A type that is among the first `k` is among the first `n`.
pub proof fn lemma_holds_grows(types: Seq<VariableType>, t: VariableType, k: nat, n: nat)
    requires
        holds(types, t, k),
        k <= n,
    ensures
        holds(types, t, n),
    decreases n,
{
    if k < n {
        lemma_holds_grows(types, t, k, (n - 1) as nat);
    }
}

/// A placeholder among the first `k` types is one among the first `n`.
pub proof fn lemma_some_ambiguous_grows(types: Seq<VariableType>, k: nat, n: nat)
    requires
        some_ambiguous(types, k),
        k <= n,
    ensures
        some_ambiguous(types, n),
    decreases n,
{
    if k < n {
        lemma_some_ambiguous_grows(types, k, (n - 1) as nat);
    }
}

/// What the first `k` types admit, the first `n` admit.
pub proof fn lemma_admits_grows(types: Seq<VariableType>, v: VariableType, k: nat, n: nat)
    requires
        admits_type(types, v, k),
        k <= n,
    ensures
        admits_type(types, v, n),
    decreases n,
{
    if k < n {
        lemma_admits_grows(types, v, k, (n - 1) as nat);
    }
}

/// What the first `k` types cover, the first `n` cover.
pub proof fn lemma_covers_grows(types: Seq<VariableType>, v: VariableType, k: nat, n: nat)
    requires
        covers_type(types, v, k),
        k <= n,
    ensures
        covers_type(types, v, n),
    decreases n,
{
    if k < n {
        lemma_covers_grows(types, v, k, (n - 1) as nat);
    }
}

/// Where the ranges up to `k` do not all admit a type, those up to `n` do not.
pub proof fn lemma_all_admit_fails(
    ranges: Seq<Seq<VariableType>>,
    v: VariableType,
    from: nat,
    k: nat,
    n: nat,
)
    requires
        !all_admit(ranges, v, from, k),
        k <= n,
    ensures
        !all_admit(ranges, v, from, n),
    decreases n,
{
    if k < n {
        lemma_all_admit_fails(ranges, v, from, k, (n - 1) as nat);
    }
}

/// Where the ranges up to `k` do not all cover a type, those up to `n` do not.
pub proof fn lemma_others_cover_fails(
    ranges: Seq<Seq<VariableType>>,
    v: VariableType,
    skip: nat,
    k: nat,
    n: nat,
)
    requires
        !others_cover(ranges, v, skip, k),
        k <= n,
    ensures
        !others_cover(ranges, v, skip, n),
    decreases n,
{
    if k < n {
        lemma_others_cover_fails(ranges, v, skip, k, (n - 1) as nat);
    }
}

} // verus!
