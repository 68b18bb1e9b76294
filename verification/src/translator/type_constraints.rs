use crate::variable::types::VariableType;
use vstd::prelude::*;

verus! {

/// One type per operand of an operation under resolution. Operands that
/// carry the same binding must resolve to the same type.
#[derive(Debug, Eq)]
pub struct TypeConstraints {
    types: Vec<VariableType>,
}

impl View for TypeConstraints {
    type V = Seq<VariableType>;

    closed spec fn view(&self) -> Seq<VariableType> {
        self.types@
    }
}

/// The constraints of `var_count` operands of which nothing is known: the
/// operand `i` has the type `Any(i)`.
pub open spec fn unconstrained(var_count: nat) -> Seq<VariableType> {
    Seq::new(var_count, |i: int| VariableType::Any(i as usize))
}

/// The first place of `b` among `found`, if it is there.
pub open spec fn place_of(found: Seq<usize>, b: usize, from: nat) -> Option<nat>
    decreases found.len() - from,
{
    if from >= found.len() {
        None
    } else if found[from as int] == b {
        Some(from)
    } else {
        place_of(found, b, from + 1)
    }
}

/// The types from `from` on with their bindings renumbered, where `found`
/// holds the bindings met before `from`, in the order in which they were met:
/// a binding becomes its place in that order.
pub open spec fn refreshed_from(types: Seq<VariableType>, from: nat, found: Seq<usize>) -> Seq<
    VariableType,
>
    decreases types.len() - from,
{
    if from >= types.len() {
        types
    } else {
        match types[from as int].binding() {
            Some(b) => match place_of(found, b, 0) {
                Some(n) => refreshed_from(
                    types.update(from as int, types[from as int].rebound(n as usize)),
                    from + 1,
                    found,
                ),
                None => refreshed_from(
                    types.update(from as int, types[from as int].rebound(found.len() as usize)),
                    from + 1,
                    found.push(b),
                ),
            },
            None => refreshed_from(types, from + 1, found),
        }
    }
}

/// The types with their bindings renumbered in the order of their first
/// occurrence: [ Any(12), [Any(89)], Int, Any(89) ] becomes
/// [ Any(0), [Any(1)], Int, Any(1) ].
pub open spec fn refreshed(types: Seq<VariableType>) -> Seq<VariableType> {
    refreshed_from(types, 0, Seq::empty())
}

/// Every type with the placeholder bound to `binding` replaced by
/// `new_type`.
pub open spec fn substituted_all(types: Seq<VariableType>, binding: usize, new_type: VariableType) -> Seq<
    VariableType,
> {
    types.map_values(|t: VariableType| t.substituted(binding, new_type))
}

/// The indices under `n` at which `before` and `after` differ, ascending.
pub open spec fn changed(before: Seq<VariableType>, after: Seq<VariableType>, n: nat) -> Seq<usize>
    decreases n,
{
    if n == 0 {
        Seq::empty()
    } else {
        let prev = changed(before, after, (n - 1) as nat);
        if before[n - 1] != after[n - 1] {
            prev.push((n - 1) as usize)
        } else {
            prev
        }
    }
}

/// The entries of `indices` from `from` on that are under `bound`.
pub open spec fn below(indices: Seq<usize>, bound: usize, from: nat) -> Seq<usize>
    decreases indices.len() - from,
{
    if from >= indices.len() {
        Seq::empty()
    } else if indices[from as int] < bound {
        seq![indices[from as int]] + below(indices, bound, from + 1)
    } else {
        below(indices, bound, from + 1)
    }
}

/// The type `t` without as many layers of `Vec` as `pattern` has, as far as
/// `t` has them.
pub open spec fn stripped(t: VariableType, pattern: VariableType) -> VariableType
    decreases pattern,
{
    match (pattern, t) {
        (VariableType::Vec(p), VariableType::Vec(x)) => stripped(*x, *p),
        _ => t,
    }
}

/// The number of steps after which the propagation between two sets of
/// constraints on `n` operands is given up.
pub open spec fn propagation_limit(n: nat) -> nat {
    if 8 * n * n + 64 <= usize::MAX {
        8 * n * n + 64
    } else {
        usize::MAX as nat
    }
}

/// One step of the propagation at the operand `i`, on the constraints `s`
/// and `o` and the work list `work` from which `i` was taken.
///
/// Where the type of `s` is a subset of that of `o`, the placeholder of the
/// latter is replaced throughout `o` by the part of the former that it
/// stands for, with its binding inverted; the operands before `i` that this
/// changed are put on the work list. Then the same is done the other way
/// round, and every operand that this changed is put on the work list.
pub open spec fn propagation_step(
    s: Seq<VariableType>,
    o: Seq<VariableType>,
    work: Seq<usize>,
    i: usize,
) -> (Seq<VariableType>, Seq<VariableType>, Seq<usize>) {
    let (o1, w1) = if s[i as int].subset_of(o[i as int]) {
        match o[i as int].binding() {
            Some(b) => {
                let o1 = substituted_all(o, b, stripped(s[i as int], o[i as int]).inverted());
                (o1, work + below(changed(o, o1, o.len()), i, 0))
            },
            None => (o, work),
        }
    } else {
        (o, work)
    };
    if o1[i as int].subset_of(s[i as int]) {
        match s[i as int].binding() {
            Some(b) => {
                let s1 = substituted_all(s, b, stripped(o1[i as int], s[i as int]).inverted());
                (s1, o1, w1 + changed(s, s1, s.len()))
            },
            None => (s, o1, w1),
        }
    } else {
        (s, o1, w1)
    }
}

/// The two sets of constraints after the propagation has worked off the
/// list `work` from its end, or nothing if that took more than `fuel` steps.
pub open spec fn propagated(
    s: Seq<VariableType>,
    o: Seq<VariableType>,
    work: Seq<usize>,
    fuel: nat,
) -> Option<(Seq<VariableType>, Seq<VariableType>)>
    decreases fuel,
{
    if work.len() == 0 {
        Some((s, o))
    } else if fuel == 0 {
        None
    } else {
        let (s1, o1, w1) = propagation_step(s, o, work.drop_last(), work.last());
        propagated(s1, o1, w1, (fuel - 1) as nat)
    }
}

/// The intersections of the first `n` types of `o` with those of `s`, one by
/// one, or nothing if one pair does not intersect.
pub open spec fn met(o: Seq<VariableType>, s: Seq<VariableType>, n: nat) -> Option<Seq<VariableType>>
    decreases n,
{
    if n == 0 {
        Some(Seq::empty())
    } else {
        match met(o, s, (n - 1) as nat) {
            Some(prev) => match o[n - 1].intersection(s[n - 1]) {
                Some(t) => Some(prev.push(t)),
                None => None,
            },
            None => None,
        }
    }
}

/// All indices under `n`, ascending.
pub open spec fn all_indices(n: nat) -> Seq<usize> {
    Seq::new(n, |i: int| i as usize)
}

/// What two sets of constraints on the same operands say together: the
/// bindings are propagated between them, then each operand gets the
/// intersection of its two types, and the bindings are renumbered. There is
/// no result where the propagation is given up or an operand has no
/// intersection.
pub open spec fn intersected(s: Seq<VariableType>, o: Seq<VariableType>) -> Option<Seq<VariableType>> {
    match propagated(s, o, all_indices(s.len()), propagation_limit(s.len())) {
        Some((s1, o1)) => match met(o1, s1, s.len()) {
            Some(types) => Some(refreshed(types)),
            None => None,
        },
        None => None,
    }
}

impl TypeConstraints {
    pub fn new(var_count: usize) -> (r: Self)
        ensures
            r@ == unconstrained(var_count as nat),
    {
        let mut types: Vec<VariableType> = Vec::new();
        let mut i: usize = 0;
        while i < var_count
            invariant
                i <= var_count,
                types@.len() == i,
                forall|k: int| 0 <= k < i ==> types@[k] == VariableType::Any(k as usize),
            decreases var_count - i,
        {
            types.push(VariableType::Any(i));
            i += 1;
        }
        assert(types@ =~= unconstrained(var_count as nat));
        Self { types }
    }

    pub fn from(types: Vec<VariableType>) -> (r: Self)
        ensures
            r@ == types@,
    {
        Self { types }
    }

    pub fn get_types(&self) -> (r: &Vec<VariableType>)
        ensures
            r@ == self@,
    {
        &self.types
    }

    /// [ Any(12), [Any(89)], Int, Any(89) ] -> [ Any(0), [Any(1)], Int, Any(1) ]
    pub fn refresh_bindings(&mut self)
        ensures
            final(self)@ == refreshed(old(self)@),
    {
        let mut found_bindings: Vec<usize> = Vec::new();
        let mut i: usize = 0;
        while i < self.types.len()
            invariant
                i <= self.types.len(),
                self.types@.len() == old(self).types@.len(),
                found_bindings@.len() <= i,
                refreshed(old(self)@) == refreshed_from(self@, i as nat, found_bindings@),
            decreases self.types.len() - i,
        {
            match self.types[i].get_binding() {
                Some(binding) => {
                    let mut n: usize = 0;
                    while n < found_bindings.len() && found_bindings[n] != binding
                        invariant
                            n <= found_bindings@.len(),
                            place_of(found_bindings@, binding, 0) == place_of(
                                found_bindings@,
                                binding,
                                n as nat,
                            ),
                        decreases found_bindings.len() - n,
                    {
                        n += 1;
                    }
                    let next = self.types[i].with_binding(n);
                    if n == found_bindings.len() {
                        found_bindings.push(binding);
                    }
                    self.types[i] = next;
                },
                None => {},
            }
            i += 1;
        }
    }

    /// Replaces the placeholder bound to `binding` by `new_type` in every
    /// type, and returns the operands whose type this changed.
    pub fn update_binding(&mut self, binding: usize, new_type: VariableType) -> (r: Vec<usize>)
        ensures
            final(self)@ == substituted_all(old(self)@, binding, new_type),
            r@ == changed(old(self)@, final(self)@, old(self)@.len()),
    {
        let mut out: Vec<usize> = Vec::new();
        let ghost target = substituted_all(old(self)@, binding, new_type);
        let mut i: usize = 0;
        while i < self.types.len()
            invariant
                i <= self.types.len(),
                self.types@.len() == old(self).types@.len(),
                target == substituted_all(old(self)@, binding, new_type),
                forall|k: int| 0 <= k < i ==> self.types@[k] == target[k],
                forall|k: int| i <= k < self.types@.len() ==> self.types@[k] == old(self).types@[k],
                out@ == changed(old(self)@, target, i as nat),
            decreases self.types.len() - i,
        {
            let next = self.types[i].with_binding_type(binding, &new_type);
            if !self.types[i].strictly_matches(&next) {
                out.push(i);
            }
            self.types[i] = next;
            i += 1;
        }
        assert(self@ =~= target);
        out
    }

    /// Propagates the bindings between the two sets of constraints, and
    /// returns whether that settled within the limit of steps.
    pub fn infer_intersect_bindings(&mut self, other: &mut Self) -> (settled: bool)
        requires
            old(self)@.len() == old(other)@.len(),
        ensures
            match propagated(
                old(self)@,
                old(other)@,
                all_indices(old(self)@.len()),
                propagation_limit(old(self)@.len()),
            ) {
                Some((s, o)) => settled && final(self)@ == s && final(other)@ == o,
                None => !settled,
            },
            final(self)@.len() == old(self)@.len(),
            final(other)@.len() == old(self)@.len(),
    {
        let n = self.types.len();
        let mut fuel: usize = propagation_budget(n);
        let mut to_intersect: Vec<usize> = Vec::new();
        let mut k: usize = 0;
        while k < n
            invariant
                k <= n,
                to_intersect@.len() == k,
                forall|j: int| 0 <= j < k ==> to_intersect@[j] == j as usize,
            decreases n - k,
        {
            to_intersect.push(k);
            k += 1;
        }
        assert(to_intersect@ =~= all_indices(n as nat));
        while to_intersect.len() > 0
            invariant
                self@.len() == n,
                other@.len() == n,
                n == old(self)@.len(),
                forall|j: int| 0 <= j < to_intersect@.len() ==> #[trigger] to_intersect@[j] < n,
                propagated(
                    old(self)@,
                    old(other)@,
                    all_indices(old(self)@.len()),
                    propagation_limit(old(self)@.len()),
                ) == propagated(self@, other@, to_intersect@, fuel as nat),
            decreases fuel,
        {
            if fuel == 0 {
                return false;
            }
            fuel -= 1;
            let ghost work = to_intersect@.drop_last();
            let ghost s0 = self@;
            let ghost o0 = other@;
            let i = to_intersect.pop().unwrap();
            assert(to_intersect@ == work);
            if self.types[i].is_subset_of(&other.types[i]) {
                match other.types[i].get_binding() {
                    Some(b) => {
                        let part = strip(&self.types[i], &other.types[i]).with_inverted_binding();
                        let updated = other.update_binding(b, part);
                        proof {
                            lemma_changed_bounded(o0, other@, n as nat);
                        }
                        let mut u: usize = 0;
                        while u < updated.len()
                            invariant
                                u <= updated@.len(),
                                forall|j: int| 0 <= j < updated@.len() ==> #[trigger] updated@[j] < n,
                                forall|j: int|
                                    0 <= j < to_intersect@.len() ==> #[trigger] to_intersect@[j]
                                        < n,
                                i < n,
                                to_intersect@ + below(updated@, i, u as nat) == work + below(
                                    updated@,
                                    i,
                                    0,
                                ),
                            decreases updated.len() - u,
                        {
                            if updated[u] < i {
                                let ghost before = to_intersect@;
                                to_intersect.push(updated[u]);
                                assert(to_intersect@ + below(updated@, i, (u + 1) as nat) =~= before
                                    + below(updated@, i, u as nat));
                            }
                            u += 1;
                        }
                        assert(to_intersect@ =~= work + below(updated@, i, 0));
                    },
                    None => {},
                }
            }
            if other.types[i].is_subset_of(&self.types[i]) {
                match self.types[i].get_binding() {
                    Some(b) => {
                        let part = strip(&other.types[i], &self.types[i]).with_inverted_binding();
                        let mut updated = self.update_binding(b, part);
                        proof {
                            lemma_changed_bounded(s0, self@, n as nat);
                        }
                        to_intersect.append(&mut updated);
                    },
                    None => {},
                }
            }
            assert((self@, other@, to_intersect@) == propagation_step(s0, o0, work, i));
        }
        true
    }

    /// [ Any(1), Any(1) ] + [ Any(2), Int ] -> [ Int, Int ]
    ///
    /// Both sets of constraints must speak of the same operands.
    pub fn intersect(self, other: Self) -> (r: Option<Self>)
        requires
            self@.len() == other@.len(),
        ensures
            match r {
                Some(tc) => intersected(self@, other@) == Some(tc@),
                None => intersected(self@, other@) is None,
            },
    {
        let mut this = self;
        let mut that = other;
        if !this.infer_intersect_bindings(&mut that) {
            return None;
        }
        let mut types: Vec<VariableType> = Vec::new();
        let mut i: usize = 0;
        while i < this.types.len()
            invariant
                i <= this.types.len(),
                this@.len() == that@.len(),
                this@.len() == self@.len(),
                propagated(
                    self@,
                    other@,
                    all_indices(self@.len()),
                    propagation_limit(self@.len()),
                ) == Some((this@, that@)),
                met(that@, this@, i as nat) == Some(types@),
            decreases this.types.len() - i,
        {
            match that.types[i].intersect(&this.types[i]) {
                Some(vt) => {
                    types.push(vt);
                },
                None => {
                    proof {
                        assert(met(that@, this@, (i + 1) as nat) is None);
                        lemma_met_fails(that@, this@, (i + 1) as nat, this@.len());
                    }
                    return None;
                },
            }
            i += 1;
        }
        let mut out = Self::from(types);
        out.refresh_bindings();
        Some(out)
    }

    /// Narrows the type of the operand `var_id` to what it has in common
    /// with `var_type`, and returns whether there is such a type; if there
    /// is none, the constraints stay as they are. Where both types are
    /// placeholders, the operand takes the binding of `var_type`.
    pub fn intersect_var(&mut self, var_type: &VariableType, var_id: usize) -> (r: bool)
        requires
            var_id < old(self)@.len(),
        ensures
            match var_type.intersection(old(self)@[var_id as int]) {
                Some(t) => r && final(self)@ == old(self)@.update(var_id as int, t),
                None => !r && final(self)@ == old(self)@,
            },
    {
        match var_type.intersect(&self.types[var_id]) {
            Some(prod) => {
                self.types[var_id] = prod;
                true
            },
            None => false,
        }
    }
}

impl Clone for TypeConstraints {
    fn clone(&self) -> (r: Self)
        ensures
            r@ == self@,
    {
        let types = self.types.clone();
        assert(types@ =~= self.types@);
        Self { types }
    }
}

impl PartialEq for TypeConstraints {
    fn eq(&self, other: &Self) -> (r: bool) {
        if self.types.len() != other.types.len() {
            return false;
        }
        let mut i: usize = 0;
        while i < self.types.len()
            invariant
                i <= self.types.len(),
                self.types@.len() == other.types@.len(),
                forall|k: int| 0 <= k < i ==> self.types@[k].loosely_equal(other.types@[k]),
            decreases self.types.len() - i,
        {
            if !self.types[i].loosely_matches(&other.types[i]) {
                return false;
            }
            i += 1;
        }
        true
    }
}

impl vstd::std_specs::cmp::PartialEqSpecImpl for TypeConstraints {
    open spec fn obeys_eq_spec() -> bool {
        true
    }

    open spec fn eq_spec(&self, other: &Self) -> bool {
        &&& self@.len() == other@.len()
        &&& forall|k: int| 0 <= k < self@.len() ==> (#[trigger] self@[k]).loosely_equal(other@[k])
    }
}

/// The number of propagation steps allowed for `n` operands.
fn propagation_budget(n: usize) -> (r: usize)
    ensures
        r == propagation_limit(n as nat),
{
    match n.checked_mul(n) {
        Some(square) => match square.checked_mul(8) {
            Some(scaled) => match scaled.checked_add(64) {
                Some(limit) => {
                    assert(8 * (n as nat) * (n as nat) == 8 * (n * n)) by (nonlinear_arith);
                    limit
                },
                None => {
                    assert(8 * (n as nat) * (n as nat) == 8 * (n * n)) by (nonlinear_arith);
                    usize::MAX
                },
            },
            None => {
                assert(8 * (n as nat) * (n as nat) == 8 * (n * n)) by (nonlinear_arith);
                usize::MAX
            },
        },
        None => {
            assert(8 * (n as nat) * (n as nat) >= n * n) by (nonlinear_arith);
            usize::MAX
        },
    }
}

/// The type `t` without as many layers of `Vec` as `pattern` has.
fn strip(t: &VariableType, pattern: &VariableType) -> (r: VariableType)
    ensures
        r == stripped(*t, *pattern),
    decreases *pattern,
{
    match (pattern, t) {
        (VariableType::Vec(p), VariableType::Vec(x)) => strip(x, p),
        _ => t.clone(),
    }
}

/// The operands that a change touched are operands.
pub proof fn lemma_changed_bounded(before: Seq<VariableType>, after: Seq<VariableType>, n: nat)
    requires
        n <= usize::MAX,
    ensures
        forall|j: int|
            0 <= j < changed(before, after, n).len() ==> #[trigger] changed(before, after, n)[j]
                < n,
    decreases n,
{
    if n > 0 {
        lemma_changed_bounded(before, after, (n - 1) as nat);
        let prev = changed(before, after, (n - 1) as nat);
        let next = changed(before, after, n);
        assert forall|j: int| 0 <= j < next.len() implies #[trigger] next[j] < n by {
            if j < prev.len() {
                assert(next[j] == prev[j]);
            }
        }
    }
}

/// Where one operand has no intersection, there is no joint result.
pub proof fn lemma_met_fails(o: Seq<VariableType>, s: Seq<VariableType>, k: nat, n: nat)
    requires
        met(o, s, k) is None,
        k <= n,
    ensures
        met(o, s, n) is None,
    decreases n,
{
    if k < n {
        lemma_met_fails(o, s, k, (n - 1) as nat);
    }
}

} // verus!
