use crate::translator::type_inference::type_range::{
    joined, range_intersection, ranges_match, ranges_view, some_ambiguous, type_meet, TypeRange,
};
use crate::variable::types::VariableType;
use vstd::prelude::*;

verus! {

/// The admissible types of each variable, and the groups of variables that
/// must have the same type.
#[derive(Debug, Eq)]
pub struct TypeBounds {
    /// Each type range corresponds to a variable.
    type_ranges: Vec<TypeRange>,
    /// Each type identity group corresponds to a set of variables that must have the same type.
    /// Each group is represented as a vector of variable indices.
    type_identity_groups: Vec<Vec<usize>>,
}

/// The bounds as the contracts see them.
pub struct TypeBoundsView {
    pub ranges: Seq<Seq<VariableType>>,
    pub groups: Seq<Seq<usize>>,
}

/// What a list of ranges is to the contracts.
pub open spec fn owned_ranges_view(list: Seq<TypeRange>) -> Seq<Seq<VariableType>> {
    list.map_values(|r: TypeRange| r@)
}

/// What a list of groups is to the contracts.
pub open spec fn groups_view(list: Seq<Vec<usize>>) -> Seq<Seq<usize>> {
    list.map_values(|g: Vec<usize>| g@)
}

/// What a list of interpretations is to the contracts.
pub open spec fn interpretations_view(list: Seq<Vec<VariableType>>) -> Seq<Seq<VariableType>> {
    list.map_values(|g: Vec<VariableType>| g@)
}

impl View for TypeBounds {
    type V = TypeBoundsView;

    closed spec fn view(&self) -> TypeBoundsView {
        TypeBoundsView {
            ranges: owned_ranges_view(self.type_ranges@),
            groups: groups_view(self.type_identity_groups@),
        }
    }
}

/// The ranges of `var_count` variables of which nothing is known.
pub open spec fn fresh_ranges(var_count: nat) -> Seq<Seq<VariableType>> {
    Seq::new(var_count, |i: int| seq![VariableType::Any(i as usize)])
}

/// `var_count` empty ranges.
pub open spec fn empty_ranges(var_count: nat) -> Seq<Seq<VariableType>> {
    Seq::new(var_count, |i: int| Seq::<VariableType>::empty())
}

/// Whether `v` is among the first `n` members of the group.
pub open spec fn member(group: Seq<usize>, v: int, n: nat) -> bool
    decreases n,
{
    n > 0 && (member(group, v, (n - 1) as nat) || group[n - 1] == v)
}

/// Whether one of the first `n` members of `ig1` is a member of `ig2`.
pub open spec fn common_var(ig1: Seq<usize>, ig2: Seq<usize>, n: nat) -> bool
    decreases n,
{
    n > 0 && (common_var(ig1, ig2, (n - 1) as nat) || member(ig2, ig1[n - 1] as int, ig2.len()))
}

/// The group `ig1` with the first `n` members of `ig2` behind it, as far as
/// it does not hold them yet.
pub open spec fn merged(ig1: Seq<usize>, ig2: Seq<usize>, n: nat) -> Seq<usize>
    decreases n,
{
    if n == 0 {
        ig1
    } else {
        let prev = merged(ig1, ig2, (n - 1) as nat);
        if member(prev, ig2[n - 1] as int, prev.len()) {
            prev
        } else {
            prev.push(ig2[n - 1])
        }
    }
}

/// Whether one of the members from the second on up to `n` differs from the
/// first.
pub open spec fn differs_from_first(group: Seq<usize>, n: nat) -> bool
    decreases n,
{
    n > 1 && (differs_from_first(group, (n - 1) as nat) || group[n - 1] != group[0])
}

/// The indices of the groups among the first `n` that share a variable with
/// `group`, ascending.
pub open spec fn sharing(groups: Seq<Seq<usize>>, group: Seq<usize>, n: nat) -> Seq<usize>
    decreases n,
{
    if n == 0 {
        Seq::empty()
    } else {
        let prev = sharing(groups, group, (n - 1) as nat);
        if common_var(group, groups[n - 1], group.len()) {
            prev.push((n - 1) as usize)
        } else {
            prev
        }
    }
}

/// The group `group` after the groups named by `ids` from the `k`-th on were
/// merged into it, the last first.
pub open spec fn absorbed(groups: Seq<Seq<usize>>, group: Seq<usize>, ids: Seq<usize>, k: nat) -> Seq<
    usize,
>
    decreases ids.len() - k,
{
    if k >= ids.len() {
        group
    } else {
        let later = absorbed(groups, group, ids, k + 1);
        merged(later, groups[ids[k as int] as int], groups[ids[k as int] as int].len())
    }
}

/// The groups without those named by `ids` from the `k`-th on.
pub open spec fn without(groups: Seq<Seq<usize>>, ids: Seq<usize>, k: nat) -> Seq<Seq<usize>>
    decreases ids.len() - k,
{
    if k >= ids.len() {
        groups
    } else {
        let rest = without(groups, ids, k + 1);
        if ids[k as int] < rest.len() {
            rest.remove(ids[k as int] as int)
        } else {
            rest
        }
    }
}

/// The groups after `group` was added: it becomes a group of its own if it
/// shares no variable with another, and is merged with every group that it
/// shares a variable with otherwise.
pub open spec fn with_group(groups: Seq<Seq<usize>>, group: Seq<usize>) -> Seq<Seq<usize>> {
    let ids = sharing(groups, group, groups.len());
    if ids.len() == 0 {
        groups.push(group)
    } else if ids.len() == 1 {
        groups.update(ids[0] as int, merged(groups[ids[0] as int], group, group.len()))
    } else {
        without(groups, ids, 0).push(absorbed(groups, group, ids, 0))
    }
}

/// The place of the binding `b` among the first `n` entries.
pub open spec fn entry_of(entries: Seq<(usize, Seq<usize>)>, b: usize, n: nat) -> Option<nat>
    decreases n,
{
    if n == 0 {
        None
    } else {
        match entry_of(entries, b, (n - 1) as nat) {
            Some(k) => Some(k),
            None => if entries[n - 1].0 == b {
                Some((n - 1) as nat)
            } else {
                None
            },
        }
    }
}

/// For each binding that heads the range of one of the first `n` variables
/// in use, the variables whose range it heads; the bindings in the order in
/// which they are met.
pub open spec fn identities(ranges: Seq<Seq<VariableType>>, usages: Seq<bool>, n: nat) -> Seq<
    (usize, Seq<usize>),
>
    decreases n,
{
    if n == 0 {
        Seq::empty()
    } else {
        let prev = identities(ranges, usages, (n - 1) as nat);
        if usages[n - 1] && ranges[n - 1].len() > 0 {
            match ranges[n - 1][0] {
                VariableType::Any(id) => match entry_of(prev, id, prev.len()) {
                    Some(k) => prev.update(
                        k as int,
                        (id, prev[k as int].1.push((n - 1) as usize)),
                    ),
                    None => prev.push((id, seq![(n - 1) as usize])),
                },
                _ => prev,
            }
        } else {
            prev
        }
    }
}

/// The groups of more than one variable among the first `n` entries.
pub open spec fn proper_groups(entries: Seq<(usize, Seq<usize>)>, n: nat) -> Seq<Seq<usize>>
    decreases n,
{
    if n == 0 {
        Seq::empty()
    } else {
        let prev = proper_groups(entries, (n - 1) as nat);
        if entries[n - 1].1.len() > 1 {
            prev.push(entries[n - 1].1)
        } else {
            prev
        }
    }
}

/// The groups of variables in use whose ranges are headed by a placeholder
/// of the same binding.
pub open spec fn identity_groups_of(ranges: Seq<Seq<VariableType>>, usages: Seq<bool>) -> Seq<
    Seq<usize>,
> {
    let entries = identities(ranges, usages, ranges.len());
    proper_groups(entries, entries.len())
}

/// Every choice of one type from each range from the `k`-th on, behind
/// `prefix`: the choices from an earlier range vary slowest.
pub open spec fn choices_from(ranges: Seq<Seq<VariableType>>, k: nat, prefix: Seq<VariableType>) -> Seq<
    Seq<VariableType>,
>
    decreases ranges.len() - k, 1nat, 0nat,
{
    if k >= ranges.len() {
        seq![prefix]
    } else {
        choices_over(ranges, k, prefix, 0)
    }
}

/// `choices_from` for the types of the range `k` from the `j`-th on.
pub open spec fn choices_over(
    ranges: Seq<Seq<VariableType>>,
    k: nat,
    prefix: Seq<VariableType>,
    j: nat,
) -> Seq<Seq<VariableType>>
    decreases ranges.len() - k, 0nat, ranges[k as int].len() - j,
{
    if k >= ranges.len() || j >= ranges[k as int].len() {
        Seq::empty()
    } else {
        choices_from(ranges, k + 1, prefix.push(ranges[k as int][j as int])) + choices_over(
            ranges,
            k,
            prefix,
            j + 1,
        )
    }
}

/// The ranges of the members of a group from the `k`-th on.
pub open spec fn member_ranges(ranges: Seq<Seq<VariableType>>, group: Seq<usize>) -> Seq<
    Seq<VariableType>,
> {
    Seq::new(group.len(), |i: int| ranges[group[i] as int])
}

/// The ranges after each member of `group` got the intersection of the
/// ranges of all members.
pub open spec fn with_identity(ranges: Seq<Seq<VariableType>>, group: Seq<usize>) -> Seq<
    Seq<VariableType>,
> {
    let common = range_intersection(member_ranges(ranges, group));
    Seq::new(
        ranges.len(),
        |i: int|
            if member(group, i, group.len()) {
                common
            } else {
                ranges[i]
            },
    )
}

/// The ranges after the first `n` groups were applied in turn.
pub open spec fn with_identities(ranges: Seq<Seq<VariableType>>, groups: Seq<Seq<usize>>, n: nat) -> Seq<
    Seq<VariableType>,
>
    decreases n,
{
    if n == 0 {
        ranges
    } else {
        with_identity(with_identities(ranges, groups, (n - 1) as nat), groups[n - 1])
    }
}

/// The groups after the first `n` of `more` were added one by one.
pub open spec fn with_groups(groups: Seq<Seq<usize>>, more: Seq<Seq<usize>>, n: nat) -> Seq<
    Seq<usize>,
>
    decreases n,
{
    if n == 0 {
        groups
    } else {
        with_group(with_groups(groups, more, (n - 1) as nat), more[n - 1])
    }
}

/// For each variable the intersection of its two ranges.
pub open spec fn paired_ranges(a: Seq<Seq<VariableType>>, b: Seq<Seq<VariableType>>) -> Seq<
    Seq<VariableType>,
> {
    Seq::new(a.len(), |i: int| range_intersection(seq![a[i], b[i]]))
}

/// What two bounds on the same variables say together: each variable gets
/// the intersection of its two ranges; then the variables in use that share
/// a placeholder in either of the bounds are made to share their types.
pub open spec fn intersected_bounds(
    a: Seq<Seq<VariableType>>,
    b: Seq<Seq<VariableType>>,
    usages: Seq<bool>,
) -> Seq<Seq<VariableType>> {
    let first = identity_groups_of(a, usages);
    let second = identity_groups_of(b, usages);
    let groups = with_groups(
        with_groups(Seq::empty(), first, first.len()),
        second,
        second.len(),
    );
    with_identities(paired_ranges(a, b), groups, groups.len())
}

/// Every member of the group names a variable.
pub open spec fn group_in_range(group: Seq<usize>, var_count: nat) -> bool {
    forall|k: int| 0 <= k < group.len() ==> (#[trigger] group[k]) < var_count
}

/// Every member of every group names a variable.
pub open spec fn groups_in_range(groups: Seq<Seq<usize>>, var_count: nat) -> bool {
    forall|g: int, k: int|
        0 <= g < groups.len() && 0 <= k < groups[g].len() ==> (#[trigger] groups[g][k]) < var_count
}

impl TypeBounds {
    pub fn new(var_count: usize) -> (r: Self)
        ensures
            r@.ranges == fresh_ranges(var_count as nat),
            r@.groups == Seq::<Seq<usize>>::empty(),
    {
        let mut type_ranges: Vec<TypeRange> = Vec::new();
        let mut i: usize = 0;
        while i < var_count
            invariant
                i <= var_count,
                type_ranges@.len() == i,
                forall|k: int|
                    0 <= k < i ==> (#[trigger] type_ranges@[k])@ == seq![
                        VariableType::Any(k as usize),
                    ],
            decreases var_count - i,
        {
            type_ranges.push(TypeRange::new(i));
            i += 1;
        }
        let r = Self { type_ranges, type_identity_groups: Vec::new() };
        assert(r@.ranges =~= fresh_ranges(var_count as nat));
        assert(r@.groups =~= Seq::<Seq<usize>>::empty());
        r
    }

    pub fn var_count(&self) -> (r: usize)
        ensures
            r == self@.ranges.len(),
    {
        self.type_ranges.len()
    }

    /// Whether a variable has more than one admissible type.
    pub fn is_ambiguous(&self) -> (r: bool)
        ensures
            r == exists|i: int| 0 <= i < self@.ranges.len() && (#[trigger] self@.ranges[i]).len() > 1,
    {
        let mut i: usize = 0;
        while i < self.type_ranges.len()
            invariant
                i <= self.type_ranges.len(),
                forall|k: int| 0 <= k < i ==> (#[trigger] self@.ranges[k]).len() <= 1,
            decreases self.type_ranges.len() - i,
        {
            if self.type_ranges[i].get().len() > 1 {
                assert(self@.ranges[i as int].len() > 1);
                return true;
            }
            i += 1;
        }
        false
    }

    /// Whether an admissible type of a variable holds a placeholder.
    pub fn contains_ambiguous_vars(&self) -> (r: bool)
        ensures
            r == exists|i: int|
                0 <= i < self@.ranges.len() && some_ambiguous(
                    #[trigger] self@.ranges[i],
                    self@.ranges[i].len(),
                ),
    {
        let mut i: usize = 0;
        while i < self.type_ranges.len()
            invariant
                i <= self.type_ranges.len(),
                forall|k: int|
                    0 <= k < i ==> !some_ambiguous(
                        #[trigger] self@.ranges[k],
                        self@.ranges[k].len(),
                    ),
            decreases self.type_ranges.len() - i,
        {
            if self.type_ranges[i].contains_ambiguous_vars() {
                assert(some_ambiguous(self@.ranges[i as int], self@.ranges[i as int].len()));
                return true;
            }
            i += 1;
        }
        false
    }

    pub fn of_var(&self, var_id: usize) -> (r: &TypeRange)
        requires
            var_id < self@.ranges.len(),
        ensures
            r@ == self@.ranges[var_id as int],
    {
        &self.type_ranges[var_id]
    }

    pub fn ranges(&self) -> (r: &Vec<TypeRange>)
        ensures
            owned_ranges_view(r@) == self@.ranges,
    {
        &self.type_ranges
    }

    /// The groups of variables that must share a type.
    pub fn identity_groups(&self) -> (r: &Vec<Vec<usize>>)
        ensures
            groups_view(r@) == self@.groups,
    {
        &self.type_identity_groups
    }

    pub fn empty(var_count: usize) -> (r: Self)
        ensures
            r@.ranges == empty_ranges(var_count as nat),
            r@.groups == Seq::<Seq<usize>>::empty(),
    {
        let mut type_ranges: Vec<TypeRange> = Vec::new();
        let mut i: usize = 0;
        while i < var_count
            invariant
                i <= var_count,
                type_ranges@.len() == i,
                forall|k: int|
                    0 <= k < i ==> (#[trigger] type_ranges@[k])@ == Seq::<VariableType>::empty(),
            decreases var_count - i,
        {
            type_ranges.push(TypeRange::empty());
            i += 1;
        }
        let r = Self { type_ranges, type_identity_groups: Vec::new() };
        assert(r@.ranges =~= empty_ranges(var_count as nat));
        assert(r@.groups =~= Seq::<Seq<usize>>::empty());
        r
    }

    pub fn empty_out(self) -> (r: Self)
        ensures
            r@.ranges == empty_ranges(self@.ranges.len()),
            r@.groups == Seq::<Seq<usize>>::empty(),
    {
        Self::empty(self.type_ranges.len())
    }

    /// Returns whether any variable has empty type range
    pub fn is_unsat(&self) -> (r: bool)
        ensures
            r == exists|i: int| 0 <= i < self@.ranges.len() && (#[trigger] self@.ranges[i]).len() == 0,
    {
        let mut i: usize = 0;
        while i < self.type_ranges.len()
            invariant
                i <= self.type_ranges.len(),
                forall|k: int| 0 <= k < i ==> (#[trigger] self@.ranges[k]).len() != 0,
            decreases self.type_ranges.len() - i,
        {
            if self.type_ranges[i].is_empty() {
                assert(self@.ranges[i as int].len() == 0);
                return true;
            }
            i += 1;
        }
        false
    }

    /// Checks if identity group is not of kind [1,1]
    /// Note: with [1,2,1], the redundant 1 is not cleared, but this case should not appear irl
    pub fn identity_group_is_nontrivial(identity_group: &Vec<usize>) -> (r: bool)
        ensures
            r == differs_from_first(identity_group@, identity_group@.len()),
    {
        let len = identity_group.len();
        if len <= 1 {
            return false;
        }
        let v = identity_group[0];
        let mut i: usize = 1;
        while i < len
            invariant
                1 <= i <= len,
                len == identity_group@.len(),
                v == identity_group@[0],
                !differs_from_first(identity_group@, i as nat),
            decreases len - i,
        {
            if v != identity_group[i] {
                proof {
                    lemma_differs_grows(identity_group@, (i + 1) as nat, len as nat);
                }
                return true;
            }
            i += 1;
        }
        false
    }

    /// Whether the group holds the variable `v`.
    pub fn group_contains(group: &Vec<usize>, v: usize) -> (r: bool)
        ensures
            r == member(group@, v as int, group@.len()),
    {
        let mut i: usize = 0;
        while i < group.len()
            invariant
                i <= group.len(),
                !member(group@, v as int, i as nat),
            decreases group.len() - i,
        {
            if group[i] == v {
                proof {
                    lemma_member_grows(group@, v as int, (i + 1) as nat, group@.len());
                }
                return true;
            }
            i += 1;
        }
        false
    }

    /// Adds a group of variables that must share a type, and merges it with
    /// every group that it shares a variable with.
    pub fn add_identity_group(&mut self, identity_group: Vec<usize>)
        ensures
            final(self)@.ranges == old(self)@.ranges,
            final(self)@.groups == with_group(old(self)@.groups, identity_group@),
    {
        let ghost groups = self@.groups;
        // transitive closure
        let mut merged_group_ids: Vec<usize> = Vec::new();
        let mut i: usize = 0;
        while i < self.type_identity_groups.len()
            invariant
                i <= self.type_identity_groups.len(),
                self@.groups == groups,
                self@.ranges == old(self)@.ranges,
                merged_group_ids@ == sharing(groups, identity_group@, i as nat),
                forall|k: int|
                    0 <= k < merged_group_ids@.len() ==> (#[trigger] merged_group_ids@[k]) < i,
                forall|k: int, l: int|
                    0 <= k < l < merged_group_ids@.len() ==> merged_group_ids@[k]
                        < merged_group_ids@[l],
            decreases self.type_identity_groups.len() - i,
        {
            assert(groups[i as int] == self.type_identity_groups@[i as int]@);
            if TypeBounds::identity_groups_common_var(&identity_group, &self.type_identity_groups[i]) {
                merged_group_ids.push(i);
            }
            i += 1;
        }
        if merged_group_ids.len() == 0 {
            self.type_identity_groups.push(identity_group);
            assert(self@.groups =~= groups.push(identity_group@));
            return;
        }
        if merged_group_ids.len() == 1 {
            let group_id = merged_group_ids[0];
            assert(groups[group_id as int] == self.type_identity_groups@[group_id as int]@);
            TypeBounds::merge_identity_groups(
                &mut self.type_identity_groups[group_id],
                identity_group,
            );
            assert(self@.groups =~= groups.update(
                group_id as int,
                merged(groups[group_id as int], identity_group@, identity_group@.len()),
            ));
            return;
        }
        let mut merged_identity_group = identity_group;
        // merge and remove groups, the last first, so that the ids of the
        // groups still to be removed stay valid
        let mut k: usize = merged_group_ids.len();
        while k > 0
            invariant
                k <= merged_group_ids@.len(),
                self@.ranges == old(self)@.ranges,
                merged_group_ids@ == sharing(groups, identity_group@, groups.len()),
                forall|j: int|
                    0 <= j < merged_group_ids@.len() ==> (#[trigger] merged_group_ids@[j])
                        < groups.len(),
                forall|j: int, l: int|
                    0 <= j < l < merged_group_ids@.len() ==> merged_group_ids@[j]
                        < merged_group_ids@[l],
                merged_identity_group@ == absorbed(
                    groups,
                    identity_group@,
                    merged_group_ids@,
                    k as nat,
                ),
                self@.groups == without(groups, merged_group_ids@, k as nat),
                self@.groups.len() == groups.len() - (merged_group_ids@.len() - k),
                k > 0 ==> merged_group_ids@[k - 1] < self@.groups.len(),
                forall|j: int|
                    0 <= j < self@.groups.len() && k > 0 && j <= merged_group_ids@[k - 1]
                        ==> #[trigger] self@.groups[j] == groups[j],
            decreases k,
        {
            k -= 1;
            let group_id = merged_group_ids[k];
            let ghost mid = self@.groups;
            let ghost mid_vec = self.type_identity_groups@;
            assert(mid.len() == mid_vec.len());
            assert(mid[group_id as int] == groups[group_id as int]);
            assert(mid[group_id as int] == mid_vec[group_id as int]@);
            let absorbed_group = self.type_identity_groups.remove(group_id);
            assert(absorbed_group@ == groups[group_id as int]);
            TypeBounds::merge_identity_groups(&mut merged_identity_group, absorbed_group);
            assert(self.type_identity_groups@ == mid_vec.remove(group_id as int));
            assert(self@.groups =~= mid.remove(group_id as int)) by {
                assert forall|j: int| 0 <= j < self@.groups.len() implies self@.groups[j]
                    == mid.remove(group_id as int)[j] by {
                    assert(self@.groups[j] == self.type_identity_groups@[j]@);
                    if j < group_id {
                        assert(mid[j] == mid_vec[j]@);
                    } else {
                        assert(mid[j + 1] == mid_vec[j + 1]@);
                    }
                }
            }
            if k > 0 {
                assert(merged_group_ids@[k - 1] < merged_group_ids@[k as int]);
            }
            assert forall|j: int|
                0 <= j < self@.groups.len() && k > 0 && j <= merged_group_ids@[k - 1]
                    implies #[trigger] self@.groups[j] == groups[j] by {
                assert(self@.groups[j] == mid[j]);
            }
        }
        self.type_identity_groups.push(merged_identity_group);
        assert(self@.groups =~= without(groups, merged_group_ids@, 0).push(
            absorbed(groups, identity_group@, merged_group_ids@, 0),
        ));
    }

    /// Whether the two groups hold a variable in common.
    pub fn identity_groups_common_var(ig1: &Vec<usize>, ig2: &Vec<usize>) -> (r: bool)
        ensures
            r == common_var(ig1@, ig2@, ig1@.len()),
    {
        let mut i: usize = 0;
        while i < ig1.len()
            invariant
                i <= ig1.len(),
                !common_var(ig1@, ig2@, i as nat),
            decreases ig1.len() - i,
        {
            if TypeBounds::group_contains(ig2, ig1[i]) {
                proof {
                    lemma_common_grows(ig1@, ig2@, (i + 1) as nat, ig1@.len());
                }
                return true;
            }
            i += 1;
        }
        false
    }

    /// Puts the variables of `ig2` that `ig1` does not hold behind it.
    pub fn merge_identity_groups(ig1: &mut Vec<usize>, ig2: Vec<usize>)
        ensures
            final(ig1)@ == merged(old(ig1)@, ig2@, ig2@.len()),
    {
        let mut i: usize = 0;
        while i < ig2.len()
            invariant
                i <= ig2.len(),
                ig1@ == merged(old(ig1)@, ig2@, i as nat),
            decreases ig2.len() - i,
        {
            let v = ig2[i];
            if !TypeBounds::group_contains(ig1, v) {
                ig1.push(v);
            }
            i += 1;
        }
    }

    /// Intersect the type range of a variable with a new type.
    /// Return whether the intersection is non-empty.
    pub fn intersect_variable_type(&mut self, var_id: usize, var_type: &VariableType) -> (r: bool)
        requires
            var_id < old(self)@.ranges.len(),
            old(self)@.ranges[var_id as int].len() == 1,
        ensures
            final(self)@.groups == old(self)@.groups,
            final(self)@.ranges.len() == old(self)@.ranges.len(),
            forall|i: int|
                0 <= i < old(self)@.ranges.len() && i != var_id ==> final(self)@.ranges[i] == old(
                    self,
                )@.ranges[i],
            final(self)@.ranges[var_id as int].len() == 1,
            match (old(self)@.ranges[var_id as int][0], *var_type) {
                (VariableType::Any(_), _) => r && final(self)@.ranges[var_id as int][0]
                    == *var_type,
                (_, VariableType::Any(_)) => r && final(self)@.ranges == old(self)@.ranges,
                (a, b) => match type_meet(a, b) {
                    Some(x) => r && final(self)@.ranges[var_id as int][0] == x,
                    None => !r && final(self)@.ranges == old(self)@.ranges,
                },
            },
    {
        let ghost before = self@.ranges;
        assert(before[var_id as int] == self.type_ranges@[var_id as int]@);
        let r = self.type_ranges[var_id].intersect_one(var_type);
        assert(self@.ranges[var_id as int] == self.type_ranges@[var_id as int]@);
        assert forall|i: int| 0 <= i < before.len() && i != var_id implies self@.ranges[i]
            == before[i] by {
            assert(self@.ranges[i] == self.type_ranges@[i]@);
        }
        proof {
            if self@.ranges[var_id as int] == before[var_id as int] {
                assert(self@.ranges =~= before);
            }
        }
        r
    }

    /// What the two bounds say together. Both must speak of the same
    /// variables, and `usages` must say of each whether it is in use.
    pub fn intersect_bounds_noninline(&self, tb2: &TypeBounds, usages: &Vec<bool>) -> (r: TypeBounds)
        requires
            self@.ranges.len() == tb2@.ranges.len(),
            self@.ranges.len() == usages@.len(),
        ensures
            r@.groups == Seq::<Seq<usize>>::empty(),
            r@.ranges == intersected_bounds(self@.ranges, tb2@.ranges, usages@),
    {
        let ghost n = self@.ranges.len();
        let mut new_type_ranges: Vec<TypeRange> = Vec::new();
        let mut i: usize = 0;
        while i < tb2.type_ranges.len()
            invariant
                i <= tb2.type_ranges.len(),
                self.type_ranges@.len() == tb2.type_ranges@.len(),
                new_type_ranges@.len() == i,
                forall|k: int|
                    0 <= k < i ==> (#[trigger] new_type_ranges@[k])@ == range_intersection(
                        seq![self@.ranges[k], tb2@.ranges[k]],
                    ),
            decreases tb2.type_ranges.len() - i,
        {
            let mut pair: Vec<&TypeRange> = Vec::new();
            pair.push(&self.type_ranges[i]);
            pair.push(&tb2.type_ranges[i]);
            assert(self@.ranges[i as int] == self.type_ranges@[i as int]@);
            assert(tb2@.ranges[i as int] == tb2.type_ranges@[i as int]@);
            assert(ranges_view(pair@) =~= seq![self@.ranges[i as int], tb2@.ranges[i as int]]);
            let new_tr = TypeRange::intersect(pair);
            new_type_ranges.push(new_tr);
            i += 1;
        }
        let mut t = TypeBounds { type_ranges: new_type_ranges, type_identity_groups: Vec::new() };
        assert(t@.ranges =~= paired_ranges(self@.ranges, tb2@.ranges));
        assert(t@.groups =~= Seq::<Seq<usize>>::empty());
        let first = self.infer_type_identites_with_usages(usages);
        proof {
            lemma_identity_groups_in_range(self@.ranges, usages@);
        }
        t.add_identity_groups(first);
        let second = tb2.infer_type_identites_with_usages(usages);
        proof {
            lemma_identity_groups_in_range(tb2@.ranges, usages@);
        }
        t.add_identity_groups(second);
        t.apply_type_identities();
        t
    }

    /// Adds the groups one by one.
    pub fn add_identity_groups(&mut self, groups: Vec<Vec<usize>>)
        requires
            groups_in_range(old(self)@.groups, old(self)@.ranges.len()),
            groups_in_range(groups_view(groups@), old(self)@.ranges.len()),
        ensures
            final(self)@.ranges == old(self)@.ranges,
            final(self)@.groups == with_groups(
                old(self)@.groups,
                groups_view(groups@),
                groups@.len(),
            ),
            groups_in_range(final(self)@.groups, old(self)@.ranges.len()),
    {
        let ghost more = groups_view(groups@);
        let ghost n = self@.ranges.len();
        let mut g: usize = 0;
        while g < groups.len()
            invariant
                g <= groups@.len(),
                more == groups_view(groups@),
                n == old(self)@.ranges.len(),
                self@.ranges == old(self)@.ranges,
                groups_in_range(more, n),
                groups_in_range(self@.groups, n),
                self@.groups == with_groups(old(self)@.groups, more, g as nat),
            decreases groups.len() - g,
        {
            assert(more[g as int] == groups@[g as int]@);
            proof {
                assert(group_in_range(more[g as int], n)) by {
                    assert forall|k: int| 0 <= k < more[g as int].len() implies (
                    #[trigger] more[g as int][k]) < n by {}
                }
                lemma_with_group_in_range(self@.groups, more[g as int], n);
            }
            self.add_identity_group(groups[g].clone());
            g += 1;
        }
    }

    /// The groups of variables whose one admissible type is a placeholder of
    /// the same binding, in the order in which the bindings are met. Every
    /// variable must have exactly one admissible type.
    pub fn infer_type_identites(&self) -> (r: Vec<Vec<usize>>)
        requires
            forall|i: int| 0 <= i < self@.ranges.len() ==> (#[trigger] self@.ranges[i]).len() == 1,
        ensures
            groups_view(r@) == identity_groups_of(
                self@.ranges,
                Seq::new(self@.ranges.len(), |i: int| true),
            ),
    {
        let mut usages: Vec<bool> = Vec::new();
        let mut i: usize = 0;
        while i < self.type_ranges.len()
            invariant
                i <= self.type_ranges.len(),
                usages@.len() == i,
                forall|k: int| 0 <= k < i ==> usages@[k],
            decreases self.type_ranges.len() - i,
        {
            usages.push(true);
            i += 1;
        }
        assert(usages@ =~= Seq::new(self@.ranges.len(), |i: int| true));
        self.infer_type_identites_with_usages(&usages)
    }

    /// The groups of variables in use whose first admissible type is a
    /// placeholder of the same binding, in the order in which the bindings
    /// are met. A variable in use without an admissible type belongs to no
    /// group.
    pub fn infer_type_identites_with_usages(&self, usages: &Vec<bool>) -> (r: Vec<Vec<usize>>)
        requires
            self@.ranges.len() == usages@.len(),
        ensures
            groups_view(r@) == identity_groups_of(self@.ranges, usages@),
    {
        let ghost ranges = self@.ranges;
        let mut bindings: Vec<usize> = Vec::new();
        let mut groups: Vec<Vec<usize>> = Vec::new();
        let mut i: usize = 0;
        while i < usages.len()
            invariant
                i <= usages.len(),
                ranges == self@.ranges,
                ranges.len() == usages@.len(),
                bindings@.len() == groups@.len(),
                groups@.len() == identities(ranges, usages@, i as nat).len(),
                forall|k: int|
                    0 <= k < groups@.len() ==> bindings@[k] == (#[trigger] identities(
                        ranges,
                        usages@,
                        i as nat,
                    )[k]).0,
                forall|k: int|
                    0 <= k < groups@.len() ==> (#[trigger] groups@[k])@ == identities(
                        ranges,
                        usages@,
                        i as nat,
                    )[k].1,
            decreases usages.len() - i,
        {
            let ghost prev = identities(ranges, usages@, i as nat);
            assert(ranges[i as int] == self.type_ranges@[i as int]@);
            if usages[i] && self.type_ranges[i].get().len() > 0 {
                match &self.type_ranges[i].get()[0] {
                    VariableType::Any(id) => {
                        let mut k: usize = 0;
                        let mut found: Option<usize> = None;
                        while k < bindings.len()
                            invariant
                                k <= bindings@.len(),
                                bindings@.len() == prev.len(),
                                forall|j: int| 0 <= j < prev.len() ==> bindings@[j] == (
                                #[trigger] prev[j]).0,
                                match entry_of(prev, *id, k as nat) {
                                    Some(e) => found == Some(e as usize) && e < k,
                                    None => found is None,
                                },
                                found is Some ==> bindings@[found->Some_0 as int] == *id,
                            decreases bindings.len() - k,
                        {
                            if found.is_none() && bindings[k] == *id {
                                found = Some(k);
                            }
                            k += 1;
                        }
                        let ghost next = identities(ranges, usages@, (i + 1) as nat);
                        let ghost old_groups = groups@;
                        match found {
                            Some(e) => {
                                groups[e].push(i);
                                assert(groups@.len() == old_groups.len());
                                assert(next == prev.update(e as int, (*id, prev[e as int].1.push(i))));
                                assert forall|k: int| 0 <= k < groups@.len() implies (
                                #[trigger] groups@[k])@ == next[k].1 by {
                                    if k != e {
                                        assert(groups@[k] == old_groups[k]);
                                    }
                                }
                                assert forall|k: int| 0 <= k < groups@.len() implies bindings@[k] == (
                                #[trigger] next[k]).0 by {
                                    assert(bindings@[k] == prev[k].0);
                                }
                            },
                            None => {
                                bindings.push(*id);
                                let mut group: Vec<usize> = Vec::new();
                                group.push(i);
                                assert(group@ =~= seq![i]);
                                groups.push(group);
                                assert(next == prev.push((*id, seq![i])));
                                assert forall|k: int| 0 <= k < groups@.len() implies (
                                #[trigger] groups@[k])@ == next[k].1 by {
                                    if k < old_groups.len() {
                                        assert(groups@[k] == old_groups[k]);
                                    }
                                }
                                assert forall|k: int| 0 <= k < groups@.len() implies bindings@[k] == (
                                #[trigger] next[k]).0 by {
                                    if k < old_groups.len() {
                                        assert(bindings@[k] == prev[k].0);
                                    }
                                }
                            },
                        }
                    },
                    _ => {},
                }
            }
            i += 1;
        }
        // insert type identities
        let ghost entries = identities(ranges, usages@, ranges.len());
        let mut identity_groups: Vec<Vec<usize>> = Vec::new();
        let mut g: usize = 0;
        while g < groups.len()
            invariant
                g <= groups@.len(),
                groups@.len() == entries.len(),
                forall|k: int| 0 <= k < groups@.len() ==> (#[trigger] groups@[k])@ == entries[k].1,
                groups_view(identity_groups@) == proper_groups(entries, g as nat),
            decreases groups.len() - g,
        {
            if groups[g].len() > 1 {
                let ghost before = groups_view(identity_groups@);
                identity_groups.push(groups[g].clone());
                assert(groups_view(identity_groups@) =~= before.push(entries[g as int].1));
            }
            g += 1;
        }
        identity_groups
    }

    /// Adds to the admissible types of each variable those that `tb2` has
    /// for it. Both must speak of the same variables.
    pub fn unify(&mut self, tb2: &TypeBounds)
        requires
            old(self)@.ranges.len() == tb2@.ranges.len(),
        ensures
            final(self)@.groups == old(self)@.groups,
            final(self)@.ranges.len() == old(self)@.ranges.len(),
            forall|i: int|
                0 <= i < old(self)@.ranges.len() ==> #[trigger] final(self)@.ranges[i] == joined(
                    old(self)@.ranges[i],
                    tb2@.ranges[i],
                    tb2@.ranges[i].len(),
                ),
    {
        let ghost before = self@.ranges;
        let mut i: usize = 0;
        while i < tb2.type_ranges.len()
            invariant
                i <= tb2.type_ranges.len(),
                self.type_ranges@.len() == tb2.type_ranges@.len(),
                before == old(self)@.ranges,
                before.len() == tb2@.ranges.len(),
                before.len() == self.type_ranges@.len(),
                self@.groups == old(self)@.groups,
                forall|k: int|
                    0 <= k < i ==> #[trigger] self@.ranges[k] == joined(
                        before[k],
                        tb2@.ranges[k],
                        tb2@.ranges[k].len(),
                    ),
                forall|k: int| i <= k < before.len() ==> #[trigger] self@.ranges[k] == before[k],
            decreases tb2.type_ranges.len() - i,
        {
            let ghost mid = self@.ranges;
            let ghost mid_vec = self.type_ranges@;
            assert(mid[i as int] == self.type_ranges@[i as int]@);
            assert(tb2@.ranges[i as int] == tb2.type_ranges@[i as int]@);
            self.type_ranges[i].unify_ref(&tb2.type_ranges[i]);
            assert(self.type_ranges@.len() == mid_vec.len());
            assert forall|k: int| 0 <= k < before.len() && k != i implies #[trigger] self@.ranges[k]
                == mid[k] by {
                assert(self@.ranges[k] == self.type_ranges@[k]@);
                assert(mid[k] == mid_vec[k]@);
                assert(self.type_ranges@[k] == mid_vec[k]);
            }
            assert(self@.ranges[i as int] == self.type_ranges@[i as int]@);
            i += 1;
        }
    }

    /// Gives the members of each identity group the intersection of their
    /// ranges, group by group, and forgets the groups.
    pub fn apply_type_identities(&mut self)
        requires
            groups_in_range(old(self)@.groups, old(self)@.ranges.len()),
        ensures
            final(self)@.groups == Seq::<Seq<usize>>::empty(),
            final(self)@.ranges == with_identities(
                old(self)@.ranges,
                old(self)@.groups,
                old(self)@.groups.len(),
            ),
    {
        let ghost groups = self@.groups;
        let ghost start = self@.ranges;
        let mut iti: usize = 0;
        while iti < self.type_identity_groups.len()
            invariant
                iti <= self.type_identity_groups.len(),
                self@.groups == groups,
                groups_in_range(groups, start.len()),
                self@.ranges.len() == start.len(),
                self@.ranges == with_identities(start, groups, iti as nat),
            decreases self.type_identity_groups.len() - iti,
        {
            let ghost before = self@.ranges;
            let ghost group = groups[iti as int];
            assert(group == self.type_identity_groups@[iti as int]@);
            let intersection = self.group_intersection(iti);
            let mut m: usize = 0;
            while m < self.type_identity_groups[iti].len()
                invariant
                    iti < self.type_identity_groups.len(),
                    m <= self.type_identity_groups@[iti as int]@.len(),
                    self@.groups == groups,
                    group == groups[iti as int],
                    group == self.type_identity_groups@[iti as int]@,
                    groups_in_range(groups, start.len()),
                    self@.ranges.len() == start.len(),
                    before.len() == start.len(),
                    intersection@ == range_intersection(member_ranges(before, group)),
                    forall|i: int|
                        0 <= i < before.len() ==> #[trigger] self@.ranges[i] == (if member(
                            group,
                            i,
                            m as nat,
                        ) {
                            intersection@
                        } else {
                            before[i]
                        }),
                decreases self.type_identity_groups@[iti as int]@.len() - m,
            {
                let v = self.type_identity_groups[iti][m];
                assert(v == group[m as int]);
                assert(v < start.len());
                let ghost mid = self@.ranges;
                let ghost mid_vec = self.type_ranges@;
                self.type_ranges[v] = intersection.clone();
                assert(self.type_ranges@.len() == mid_vec.len());
                assert forall|i: int| 0 <= i < before.len() implies #[trigger] self@.ranges[i] == (
                if member(group, i, (m + 1) as nat) {
                    intersection@
                } else {
                    before[i]
                }) by {
                    assert(self@.ranges[i] == self.type_ranges@[i]@);
                    assert(mid[i] == mid_vec[i]@);
                    if i != v {
                        assert(self.type_ranges@[i] == mid_vec[i]);
                    }
                }
                m += 1;
            }
            assert(self@.ranges =~= with_identity(before, group));
            iti += 1;
        }
        self.type_identity_groups.clear();
        assert(self@.groups =~= Seq::<Seq<usize>>::empty());
    }

    /// The intersection of the ranges of the members of the group `iti`.
    fn group_intersection(&self, iti: usize) -> (r: TypeRange)
        requires
            iti < self@.groups.len(),
            groups_in_range(self@.groups, self@.ranges.len()),
        ensures
            r@ == range_intersection(member_ranges(self@.ranges, self@.groups[iti as int])),
    {
        let ghost group = self@.groups[iti as int];
        assert(group == self.type_identity_groups@[iti as int]@);
        let mut identity_group: Vec<&TypeRange> = Vec::new();
        let mut m: usize = 0;
        while m < self.type_identity_groups[iti].len()
            invariant
                iti < self.type_identity_groups.len(),
                group == self.type_identity_groups@[iti as int]@,
                group == self@.groups[iti as int],
                groups_in_range(self@.groups, self@.ranges.len()),
                m <= group.len(),
                identity_group@.len() == m,
                forall|k: int|
                    0 <= k < m ==> (#[trigger] identity_group@[k])@ == self@.ranges[group[k] as int],
            decreases group.len() - m,
        {
            let v = self.type_identity_groups[iti][m];
            assert(v == group[m as int]);
            assert(v < self@.ranges.len());
            assert(self@.ranges[v as int] == self.type_ranges@[v as int]@);
            identity_group.push(&self.type_ranges[v]);
            m += 1;
        }
        assert(ranges_view(identity_group@) =~= member_ranges(self@.ranges, group));
        TypeRange::intersect(identity_group)
    }

    /// Every choice of one admissible type for each variable; the choices
    /// for an earlier variable vary slowest.
    pub fn get_interpretations(&self) -> (r: Vec<Vec<VariableType>>)
        ensures
            interpretations_view(r@) == choices_from(self@.ranges, 0, Seq::empty()),
    {
        let mut interpretations: Vec<Vec<VariableType>> = Vec::new();
        let mut current_interpretation: Vec<VariableType> = Vec::new();
        assert(interpretations_view(interpretations@) =~= Seq::empty());
        self.get_interpretations_recursive(0, &mut current_interpretation, &mut interpretations);
        assert(interpretations_view(interpretations@) =~= choices_from(
            self@.ranges,
            0,
            Seq::empty(),
        ));
        interpretations
    }

    /// Puts behind `interpretations` every choice of types for the variables
    /// from `var_index` on, each behind `current_interpretation`, which is
    /// left as it was.
    pub fn get_interpretations_recursive(
        &self,
        var_index: usize,
        current_interpretation: &mut Vec<VariableType>,
        interpretations: &mut Vec<Vec<VariableType>>,
    )
        requires
            var_index <= self@.ranges.len(),
        ensures
            final(current_interpretation)@ == old(current_interpretation)@,
            interpretations_view(final(interpretations)@) == interpretations_view(
                old(interpretations)@,
            ) + choices_from(self@.ranges, var_index as nat, old(current_interpretation)@),
        decreases self@.ranges.len() - var_index,
    {
        let ghost ranges = self@.ranges;
        let ghost prefix = current_interpretation@;
        let ghost start = interpretations_view(interpretations@);
        if var_index == self.type_ranges.len() {
            let done = current_interpretation.clone();
            assert(done@ =~= prefix);
            interpretations.push(done);
            assert(interpretations_view(interpretations@) =~= start + seq![prefix]);
            return;
        }
        let tr = &self.type_ranges[var_index];
        assert(tr@ == ranges[var_index as int]);
        let types = tr.get();
        let mut j: usize = 0;
        assert(start + choices_over(ranges, var_index as nat, prefix, 0) == start + choices_from(
            ranges,
            var_index as nat,
            prefix,
        ));
        while j < types.len()
            invariant
                j <= types@.len(),
                var_index < self@.ranges.len(),
                var_index < self.type_ranges.len(),
                ranges == self@.ranges,
                types@ == ranges[var_index as int],
                current_interpretation@ == prefix,
                interpretations_view(interpretations@) + choices_over(
                    ranges,
                    var_index as nat,
                    prefix,
                    j as nat,
                ) == start + choices_over(ranges, var_index as nat, prefix, 0),
            decreases types@.len() - j,
        {
            let ghost before = interpretations_view(interpretations@);
            current_interpretation.push(types[j].clone());
            self.get_interpretations_recursive(
                var_index + 1,
                current_interpretation,
                interpretations,
            );
            current_interpretation.pop();
            assert(current_interpretation@ =~= prefix);
            assert(interpretations_view(interpretations@) + choices_over(
                ranges,
                var_index as nat,
                prefix,
                (j + 1) as nat,
            ) =~= before + choices_over(ranges, var_index as nat, prefix, j as nat));
            j += 1;
        }
        assert(choices_over(ranges, var_index as nat, prefix, j as nat) =~= Seq::empty());
        assert(interpretations_view(interpretations@) =~= start + choices_from(
            ranges,
            var_index as nat,
            prefix,
        ));
    }
}

impl Clone for TypeBounds {
    fn clone(&self) -> (r: Self)
        ensures
            r@ == self@,
    {
        let mut type_ranges: Vec<TypeRange> = Vec::new();
        let mut i: usize = 0;
        while i < self.type_ranges.len()
            invariant
                i <= self.type_ranges.len(),
                type_ranges@.len() == i,
                forall|k: int| 0 <= k < i ==> (#[trigger] type_ranges@[k])@ == self.type_ranges@[k]@,
            decreases self.type_ranges.len() - i,
        {
            type_ranges.push(self.type_ranges[i].clone());
            i += 1;
        }
        let mut type_identity_groups: Vec<Vec<usize>> = Vec::new();
        let mut g: usize = 0;
        while g < self.type_identity_groups.len()
            invariant
                g <= self.type_identity_groups.len(),
                type_identity_groups@.len() == g,
                forall|k: int|
                    0 <= k < g ==> (#[trigger] type_identity_groups@[k])@
                        == self.type_identity_groups@[k]@,
            decreases self.type_identity_groups.len() - g,
        {
            type_identity_groups.push(self.type_identity_groups[g].clone());
            g += 1;
        }
        let r = Self { type_ranges, type_identity_groups };
        assert(r@.ranges =~= self@.ranges);
        assert(r@.groups =~= self@.groups);
        r
    }
}

impl PartialEq for TypeBounds {
    fn eq(&self, other: &Self) -> (r: bool) {
        if self.type_ranges.len() != other.type_ranges.len() {
            return false;
        }
        if self.type_identity_groups.len() != other.type_identity_groups.len() {
            return false;
        }
        let mut i: usize = 0;
        while i < self.type_ranges.len()
            invariant
                i <= self.type_ranges.len(),
                self.type_ranges@.len() == other.type_ranges@.len(),
                forall|k: int|
                    0 <= k < i ==> ranges_match(
                        #[trigger] self@.ranges[k],
                        other@.ranges[k],
                    ),
            decreases self.type_ranges.len() - i,
        {
            assert(self@.ranges[i as int] == self.type_ranges@[i as int]@);
            assert(other@.ranges[i as int] == other.type_ranges@[i as int]@);
            if !(self.type_ranges[i] == other.type_ranges[i]) {
                return false;
            }
            i += 1;
        }
        let mut g: usize = 0;
        while g < self.type_identity_groups.len()
            invariant
                g <= self.type_identity_groups.len(),
                self.type_identity_groups@.len() == other.type_identity_groups@.len(),
                forall|k: int|
                    0 <= k < self@.ranges.len() ==> ranges_match(
                        #[trigger] self@.ranges[k],
                        other@.ranges[k],
                    ),
                forall|k: int| 0 <= k < g ==> #[trigger] self@.groups[k] == other@.groups[k],
            decreases self.type_identity_groups.len() - g,
        {
            assert(self@.groups[g as int] == self.type_identity_groups@[g as int]@);
            assert(other@.groups[g as int] == other.type_identity_groups@[g as int]@);
            if !same_group(&self.type_identity_groups[g], &other.type_identity_groups[g]) {
                return false;
            }
            g += 1;
        }
        true
    }
}

impl vstd::std_specs::cmp::PartialEqSpecImpl for TypeBounds {
    open spec fn obeys_eq_spec() -> bool {
        true
    }

    open spec fn eq_spec(&self, other: &Self) -> bool {
        &&& self@.ranges.len() == other@.ranges.len()
        &&& self@.groups.len() == other@.groups.len()
        &&& forall|k: int|
            0 <= k < self@.ranges.len() ==> ranges_match(
                #[trigger] self@.ranges[k],
                other@.ranges[k],
            )
        &&& forall|k: int|
            0 <= k < self@.groups.len() ==> #[trigger] self@.groups[k] == other@.groups[k]
    }
}

/// Whether the two groups hold the same variables in the same order.
fn same_group(a: &Vec<usize>, b: &Vec<usize>) -> (r: bool)
    ensures
        r == (a@ == b@),
{
    if a.len() != b.len() {
        return false;
    }
    let mut i: usize = 0;
    while i < a.len()
        invariant
            i <= a.len(),
            a@.len() == b@.len(),
            forall|k: int| 0 <= k < i ==> a@[k] == b@[k],
        decreases a.len() - i,
    {
        if a[i] != b[i] {
            return false;
        }
        i += 1;
    }
    assert(a@ =~= b@);
    true
}

/// A merged group holds only members of the two groups.
pub proof fn lemma_merged_in_range(ig1: Seq<usize>, ig2: Seq<usize>, n: nat, var_count: nat)
    requires
        group_in_range(ig1, var_count),
        group_in_range(ig2, var_count),
        n <= ig2.len(),
    ensures
        group_in_range(merged(ig1, ig2, n), var_count),
    decreases n,
{
    if n > 0 {
        lemma_merged_in_range(ig1, ig2, (n - 1) as nat, var_count);
        let prev = merged(ig1, ig2, (n - 1) as nat);
        let next = merged(ig1, ig2, n);
        assert forall|k: int| 0 <= k < next.len() implies (#[trigger] next[k]) < var_count by {
            if k < prev.len() {
                assert(next[k] == prev[k]);
            } else {
                assert(next[k] == ig2[n - 1]);
            }
        }
    }
}

/// The groups that share a variable with a group are among the groups, in
/// ascending order.
pub proof fn lemma_sharing_bounded(groups: Seq<Seq<usize>>, group: Seq<usize>, n: nat)
    requires
        n <= groups.len(),
    ensures
        forall|k: int|
            0 <= k < sharing(groups, group, n).len() ==> (#[trigger] sharing(groups, group, n)[k])
                < n,
    decreases n,
{
    if n > 0 {
        lemma_sharing_bounded(groups, group, (n - 1) as nat);
        let prev = sharing(groups, group, (n - 1) as nat);
        let next = sharing(groups, group, n);
        assert forall|k: int| 0 <= k < next.len() implies (#[trigger] next[k]) < n by {
            if k < prev.len() {
                assert(next[k] == prev[k]);
            }
        }
    }
}

/// Merging groups of variables into a group of variables gives a group of
/// variables.
pub proof fn lemma_absorbed_in_range(
    groups: Seq<Seq<usize>>,
    group: Seq<usize>,
    ids: Seq<usize>,
    k: nat,
    var_count: nat,
)
    requires
        groups_in_range(groups, var_count),
        group_in_range(group, var_count),
        forall|j: int| 0 <= j < ids.len() ==> (#[trigger] ids[j]) < groups.len(),
    ensures
        group_in_range(absorbed(groups, group, ids, k), var_count),
    decreases ids.len() - k,
{
    if k < ids.len() {
        lemma_absorbed_in_range(groups, group, ids, k + 1, var_count);
        let g = groups[ids[k as int] as int];
        assert(group_in_range(g, var_count)) by {
            assert forall|j: int| 0 <= j < g.len() implies (#[trigger] g[j]) < var_count by {
                assert(groups[ids[k as int] as int][j] < var_count);
            }
        }
        lemma_merged_in_range(absorbed(groups, group, ids, k + 1), g, g.len(), var_count);
    }
}

/// Taking groups away leaves groups of variables.
pub proof fn lemma_without_in_range(groups: Seq<Seq<usize>>, ids: Seq<usize>, k: nat, var_count: nat)
    requires
        groups_in_range(groups, var_count),
    ensures
        groups_in_range(without(groups, ids, k), var_count),
    decreases ids.len() - k,
{
    if k < ids.len() {
        lemma_without_in_range(groups, ids, k + 1, var_count);
        let rest = without(groups, ids, k + 1);
        let at = ids[k as int] as int;
        if at < rest.len() {
            let next = rest.remove(at);
            assert forall|g: int, j: int|
                0 <= g < next.len() && 0 <= j < next[g].len() implies (#[trigger] next[g][j])
                < var_count by {
                if g < at {
                    assert(next[g] == rest[g]);
                    assert(rest[g][j] < var_count);
                } else {
                    assert(next[g] == rest[g + 1]);
                    assert(rest[g + 1][j] < var_count);
                }
            }
        }
    }
}

/// Adding a group of variables to groups of variables gives groups of
/// variables.
pub proof fn lemma_with_group_in_range(groups: Seq<Seq<usize>>, group: Seq<usize>, var_count: nat)
    requires
        groups_in_range(groups, var_count),
        group_in_range(group, var_count),
    ensures
        groups_in_range(with_group(groups, group), var_count),
{
    let ids = sharing(groups, group, groups.len());
    lemma_sharing_bounded(groups, group, groups.len());
    let next = with_group(groups, group);
    if ids.len() == 0 {
        assert forall|g: int, j: int|
            0 <= g < next.len() && 0 <= j < next[g].len() implies (#[trigger] next[g][j])
            < var_count by {
            if g < groups.len() {
                assert(next[g] == groups[g]);
                assert(groups[g][j] < var_count);
            } else {
                assert(next[g] == group);
                assert(group[j] < var_count);
            }
        }
    } else if ids.len() == 1 {
        let at = ids[0] as int;
        let old_group = groups[at];
        assert(group_in_range(old_group, var_count)) by {
            assert forall|j: int| 0 <= j < old_group.len() implies (#[trigger] old_group[j])
                < var_count by {
                assert(groups[at][j] < var_count);
            }
        }
        lemma_merged_in_range(old_group, group, group.len(), var_count);
        let m = merged(old_group, group, group.len());
        assert forall|g: int, j: int|
            0 <= g < next.len() && 0 <= j < next[g].len() implies (#[trigger] next[g][j])
            < var_count by {
            if g == at {
                assert(next[g] == m);
                assert(m[j] < var_count);
            } else {
                assert(next[g] == groups[g]);
                assert(groups[g][j] < var_count);
            }
        }
    } else {
        lemma_without_in_range(groups, ids, 0, var_count);
        lemma_absorbed_in_range(groups, group, ids, 0, var_count);
        let rest = without(groups, ids, 0);
        let a = absorbed(groups, group, ids, 0);
        assert forall|g: int, j: int|
            0 <= g < next.len() && 0 <= j < next[g].len() implies (#[trigger] next[g][j])
            < var_count by {
            if g < rest.len() {
                assert(next[g] == rest[g]);
                assert(rest[g][j] < var_count);
            } else {
                assert(next[g] == a);
                assert(a[j] < var_count);
            }
        }
    }
}

/// The members of the inferred groups are variables.
pub proof fn lemma_identities_in_range(ranges: Seq<Seq<VariableType>>, usages: Seq<bool>, n: nat)
    requires
        n <= ranges.len(),
        n <= usize::MAX,
    ensures
        forall|e: int, j: int|
            0 <= e < identities(ranges, usages, n).len() && 0 <= j < identities(
                ranges,
                usages,
                n,
            )[e].1.len() ==> (#[trigger] identities(ranges, usages, n)[e].1[j]) < n,
    decreases n,
{
    if n > 0 {
        lemma_identities_in_range(ranges, usages, (n - 1) as nat);
        let prev = identities(ranges, usages, (n - 1) as nat);
        let next = identities(ranges, usages, n);
        if usages[n - 1] && ranges[n - 1].len() > 0 {
            match ranges[n - 1][0] {
                VariableType::Any(id) => {
                    lemma_entry_of_bounded(prev, id, prev.len());
                    match entry_of(prev, id, prev.len()) {
                        Some(k) => {
                            assert forall|e: int, j: int|
                                0 <= e < next.len() && 0 <= j < next[e].1.len() implies (
                            #[trigger] next[e].1[j]) < n by {
                                if e == k {
                                    if j < prev[e].1.len() {
                                        assert(next[e].1[j] == prev[e].1[j]);
                                        assert(prev[e].1[j] < n - 1);
                                    }
                                } else {
                                    assert(next[e] == prev[e]);
                                    assert(prev[e].1[j] < n - 1);
                                }
                            }
                        },
                        None => {
                            assert forall|e: int, j: int|
                                0 <= e < next.len() && 0 <= j < next[e].1.len() implies (
                            #[trigger] next[e].1[j]) < n by {
                                if e < prev.len() {
                                    assert(next[e] == prev[e]);
                                    assert(prev[e].1[j] < n - 1);
                                }
                            }
                        },
                    }
                },
                _ => {
                    assert forall|e: int, j: int|
                        0 <= e < next.len() && 0 <= j < next[e].1.len() implies (
                    #[trigger] next[e].1[j]) < n by {
                        assert(prev[e].1[j] < n - 1);
                    }
                },
            }
        } else {
            assert forall|e: int, j: int|
                0 <= e < next.len() && 0 <= j < next[e].1.len() implies (#[trigger] next[e].1[j])
                < n by {
                assert(prev[e].1[j] < n - 1);
            }
        }
    }
}

/// The place of a binding among the entries is a place of the entries.
pub proof fn lemma_entry_of_bounded(entries: Seq<(usize, Seq<usize>)>, b: usize, n: nat)
    ensures
        match entry_of(entries, b, n) {
            Some(k) => k < n,
            None => true,
        },
    decreases n,
{
    if n > 0 {
        lemma_entry_of_bounded(entries, b, (n - 1) as nat);
    }
}

/// The members of the proper groups are members of the entries.
pub proof fn lemma_proper_groups_in_range(entries: Seq<(usize, Seq<usize>)>, n: nat, var_count: nat)
    requires
        n <= entries.len(),
        forall|e: int, j: int|
            0 <= e < entries.len() && 0 <= j < entries[e].1.len() ==> (#[trigger] entries[e].1[j])
                < var_count,
    ensures
        groups_in_range(proper_groups(entries, n), var_count),
    decreases n,
{
    if n > 0 {
        lemma_proper_groups_in_range(entries, (n - 1) as nat, var_count);
        let prev = proper_groups(entries, (n - 1) as nat);
        let next = proper_groups(entries, n);
        assert forall|g: int, j: int|
            0 <= g < next.len() && 0 <= j < next[g].len() implies (#[trigger] next[g][j])
            < var_count by {
            if g < prev.len() {
                assert(next[g] == prev[g]);
                assert(prev[g][j] < var_count);
            } else {
                assert(next[g] == entries[n - 1].1);
                assert(entries[n - 1].1[j] < var_count);
            }
        }
    }
}

/// The groups inferred from the ranges of variables are groups of those
/// variables.
pub proof fn lemma_identity_groups_in_range(ranges: Seq<Seq<VariableType>>, usages: Seq<bool>)
    requires
        ranges.len() <= usize::MAX,
    ensures
        groups_in_range(identity_groups_of(ranges, usages), ranges.len()),
{
    lemma_identities_in_range(ranges, usages, ranges.len());
    let entries = identities(ranges, usages, ranges.len());
    lemma_proper_groups_in_range(entries, entries.len(), ranges.len());
}

/// A member among the first `k` is a member among the first `n`.
pub proof fn lemma_member_grows(group: Seq<usize>, v: int, k: nat, n: nat)
    requires
        member(group, v, k),
        k <= n,
    ensures
        member(group, v, n),
    decreases n,
{
    if k < n {
        lemma_member_grows(group, v, k, (n - 1) as nat);
    }
}

/// A variable in common among the first `k` is one among the first `n`.
pub proof fn lemma_common_grows(ig1: Seq<usize>, ig2: Seq<usize>, k: nat, n: nat)
    requires
        common_var(ig1, ig2, k),
        k <= n,
    ensures
        common_var(ig1, ig2, n),
    decreases n,
{
    if k < n {
        lemma_common_grows(ig1, ig2, k, (n - 1) as nat);
    }
}

/// A member among the first `k` that differs from the first is one among
/// the first `n`.
pub proof fn lemma_differs_grows(group: Seq<usize>, k: nat, n: nat)
    requires
        differs_from_first(group, k),
        k <= n,
    ensures
        differs_from_first(group, n),
    decreases n,
{
    if k < n {
        lemma_differs_grows(group, k, (n - 1) as nat);
    }
}

} // verus!
