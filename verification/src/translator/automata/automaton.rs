use crate::translator::automata::linear_automaton::LinearAutomaton;
use crate::translator::automata::state::{
    applicability, best_edge, bound, distinct_words, edges_view, exact_from, exact_target,
    lemma_best_edge_applies, rank_position, ranked, State,
};
use crate::translator::type_constraints::{refreshed, unconstrained, TypeConstraints};
use crate::translator::words::{sequence_view, SequenceValue, Word, WordView};
use crate::variable::types::VariableType;
use std::collections::HashMap;
use vstd::prelude::*;

verus! {

broadcast use vstd::std_specs::hash::group_hash_axioms;

/// The resolution automaton: a trie of states whose edges are words. State 0
/// is the root; a state may carry the value that the sequence leading to it
/// resolves to.
pub struct Automaton {
    states: Vec<State>,
    return_values: HashMap<usize, SequenceValue>,
}

/// The automaton as the contracts see it: the edges of each state, and the
/// values that the states carry.
pub struct AutomatonView {
    pub states: Seq<Seq<(WordView, usize)>>,
    pub values: Map<usize, SequenceValue>,
}

impl View for Automaton {
    type V = AutomatonView;

    closed spec fn view(&self) -> AutomatonView {
        AutomatonView {
            states: self.states@.map_values(|s: State| s@),
            values: self.return_values@,
        }
    }
}

impl AutomatonView {
    /// The automaton has a root, every edge leads to a later state, and no
    /// state has two edges with the same word.
    pub open spec fn wf(self) -> bool {
        &&& 1 <= self.states.len() <= usize::MAX
        &&& forall|i: int, k: int|
            0 <= i < self.states.len() && 0 <= k < self.states[i].len() ==> i < (
            #[trigger] self.states[i][k]).1 < self.states.len()
        &&& forall|i: int| 0 <= i < self.states.len() ==> distinct_words(#[trigger] self.states[i])
        &&& forall|s: usize| self.values.contains_key(s) ==> s < self.states.len()
    }

    /// The value that the state `state` carries.
    pub open spec fn value_at(self, state: int) -> Option<SequenceValue> {
        if 0 <= state <= usize::MAX && self.values.contains_key(state as usize) {
            Some(self.values[state as usize])
        } else {
            None
        }
    }

    /// The automaton with one more state, reached from `cur` by a new edge
    /// with the word `w`.
    pub open spec fn with_edge(self, cur: int, w: WordView) -> AutomatonView {
        AutomatonView {
            states: self.states.update(
                cur,
                self.states[cur].push((w, self.states.len() as usize)),
            ).push(Seq::empty()),
            values: self.values,
        }
    }

    /// The state that the words of `seq` from `from` on lead to from `cur`,
    /// each word along the edge that carries that very word.
    pub open spec fn walk(self, seq: Seq<WordView>, from: nat, cur: int) -> Option<int>
        decreases seq.len() - from,
    {
        if from >= seq.len() {
            Some(cur)
        } else if !(0 <= cur < self.states.len()) {
            None
        } else {
            match exact_target(self.states[cur], seq[from as int]) {
                Some(n) => self.walk(seq, from + 1, n as int),
                None => None,
            }
        }
    }

    /// The value registered for exactly the sequence `seq`.
    pub open spec fn registered(self, seq: Seq<WordView>) -> Option<SequenceValue> {
        match self.walk(seq, 0, 0) {
            Some(end) => self.value_at(end),
            None => None,
        }
    }

    /// The automaton after the words of `seq` from `from` on were walked
    /// from `cur`, with a new edge and state for each word that had no edge,
    /// and the state reached.
    pub open spec fn grown(self, seq: Seq<WordView>, from: nat, cur: int) -> (AutomatonView, int)
        decreases seq.len() - from,
    {
        if from >= seq.len() {
            (self, cur)
        } else {
            match exact_target(self.states[cur], seq[from as int]) {
                Some(n) => self.grown(seq, from + 1, n as int),
                None => self.with_edge(cur, seq[from as int]).grown(
                    seq,
                    from + 1,
                    self.states.len() as int,
                ),
            }
        }
    }

    /// The automaton after the union with the sequence `seq` and its value:
    /// the path of `seq` exists, and its last state carries `value` unless it
    /// carried a value before.
    pub open spec fn unioned(self, seq: Seq<WordView>, value: Option<SequenceValue>) -> AutomatonView {
        let (b, end) = self.grown(seq, 0, 0);
        match value {
            Some(v) => if b.values.contains_key(end as usize) {
                b
            } else {
                AutomatonView { states: b.states, values: b.values.insert(end as usize, v) }
            },
            None => b,
        }
    }

    /// What a run over the words of `seq` from `from` on returns, started in
    /// the state `start` with the bindings `mapping`.
    ///
    /// At the end of the sequence it is the value of the state. A keyword
    /// follows the edge of that keyword. For a type the edges that can be
    /// taken are tried from the best on, and the first that leads to a value
    /// decides.
    pub open spec fn run_from(
        self,
        seq: Seq<WordView>,
        from: nat,
        start: int,
        mapping: Map<usize, VariableType>,
    ) -> Option<SequenceValue>
        decreases seq.len() - from, 1nat, 0nat,
    {
        if from >= seq.len() {
            self.value_at(start)
        } else if !(0 <= start < self.states.len()) {
            None
        } else {
            match seq[from as int] {
                WordView::Type(_) => self.try_edges(
                    seq,
                    from,
                    start,
                    mapping,
                    ranked(
                        self.states[start],
                        seq[from as int],
                        mapping,
                        self.states[start].len(),
                    ),
                    0,
                ),
                WordView::Keyword(_) => match exact_target(self.states[start], seq[from as int]) {
                    Some(n) => self.run_from(seq, from + 1, n as int, mapping),
                    None => None,
                },
            }
        }
    }

    /// What the run returns when it tries the edges of `order` from the
    /// `k`-th on for the word at `from`.
    pub open spec fn try_edges(
        self,
        seq: Seq<WordView>,
        from: nat,
        start: int,
        mapping: Map<usize, VariableType>,
        order: Seq<(int, usize)>,
        k: nat,
    ) -> Option<SequenceValue>
        decreases seq.len() - from, 0nat, order.len() - k,
    {
        if from >= seq.len() || k >= order.len() || !(0 <= start < self.states.len()) || !(0
            <= order[k as int].0 < self.states[start].len()) {
            None
        } else {
            let edge = self.states[start][order[k as int].0];
            match self.run_from(
                seq,
                from + 1,
                edge.1 as int,
                bound(mapping, edge.0, seq[from as int]),
            ) {
                Some(v) => Some(v),
                None => self.try_edges(seq, from, start, mapping, order, k + 1),
            }
        }
    }

    /// The state that the best edge of `edges` for the token `w` leads to,
    /// and the bindings after it was taken.
    pub open spec fn next_state(
        edges: Seq<(WordView, usize)>,
        w: WordView,
        mapping: Map<usize, VariableType>,
    ) -> Option<(usize, Map<usize, VariableType>)> {
        match w {
            WordView::Type(_) => match best_edge(edges, w, mapping, edges.len()) {
                Some((j, _)) => Some((edges[j].1, bound(mapping, edges[j].0, w))),
                None => None,
            },
            WordView::Keyword(_) => match exact_target(edges, w) {
                Some(n) => Some((n, mapping)),
                None => None,
            },
        }
    }

    /// The constraints after the operand that the ambiguous token `w` names
    /// was narrowed by the edge word `e`: the type of the operand is
    /// intersected with the part of the edge's type that stands where the
    /// placeholder of the token stands, its binding inverted. There is no
    /// result where the edge is a keyword or not deep enough, where the
    /// token names no operand of the constraints, or where the intersection
    /// is empty.
    pub open spec fn narrowed(constraints: Seq<VariableType>, w: WordView, e: WordView) -> Option<
        Seq<VariableType>,
    > {
        match (w, e) {
            (WordView::Type(wt), WordView::Type(et)) => match wt.binding() {
                Some(var_id) => {
                    if var_id < constraints.len() && et.depth() >= wt.depth() {
                        match et.unwrapped(wt.depth()).inverted().intersection(
                            constraints[var_id as int],
                        ) {
                            Some(t) => Some(constraints.update(var_id as int, t)),
                            None => None,
                        }
                    } else {
                        None
                    }
                },
                None => None,
            },
            _ => None,
        }
    }

    /// Every way to read the words of `seq` from `from` on, from the state
    /// `start`: the constraints on the operands that each path through the
    /// automaton induces, in the order of the edges.
    ///
    /// A token with a placeholder takes every edge of a type in turn, each
    /// narrowing the operand that the token names; a path on which an
    /// operand is left without a type is dropped. Any other token takes its
    /// best edge. At the end of the sequence the bindings are renumbered.
    pub open spec fn interpretations_from(
        self,
        seq: Seq<WordView>,
        from: nat,
        start: int,
        constraints: Seq<VariableType>,
        mapping: Map<usize, VariableType>,
    ) -> Seq<Seq<VariableType>>
        decreases seq.len() - from, 1nat, 0nat,
    {
        if from >= seq.len() {
            seq![refreshed(constraints)]
        } else if !(0 <= start < self.states.len()) {
            Seq::empty()
        } else if seq[from as int].ambiguous() {
            self.branch_interpretations(seq, from, start, constraints, mapping, 0)
        } else {
            match Self::next_state(self.states[start], seq[from as int], mapping) {
                Some((n, m2)) => self.interpretations_from(seq, from + 1, n as int, constraints, m2),
                None => Seq::empty(),
            }
        }
    }

    /// `interpretations_from` for the edges of `start` from the `k`-th on.
    pub open spec fn branch_interpretations(
        self,
        seq: Seq<WordView>,
        from: nat,
        start: int,
        constraints: Seq<VariableType>,
        mapping: Map<usize, VariableType>,
        k: nat,
    ) -> Seq<Seq<VariableType>>
        decreases seq.len() - from, 0nat, self.states[start].len() - k,
    {
        if from >= seq.len() || !(0 <= start < self.states.len()) || k >= self.states[start].len() {
            Seq::empty()
        } else {
            let edge = self.states[start][k as int];
            let rest = self.branch_interpretations(seq, from, start, constraints, mapping, k + 1);
            match Self::narrowed(constraints, seq[from as int], edge.0) {
                Some(c2) => self.interpretations_from(seq, from + 1, edge.1 as int, c2, mapping)
                    + rest,
                None => rest,
            }
        }
    }

    /// Every way to read `seq` as a use of `var_count` operands.
    pub open spec fn interpretations(self, seq: Seq<WordView>, var_count: nat) -> Seq<
        Seq<VariableType>,
    > {
        self.interpretations_from(seq, 0, 0, unconstrained(var_count), Map::empty())
    }

    /// The sequences that lead from `start` to a value, each behind `prefix`
    /// and with its value: that of `start` itself first, then those through
    /// each edge in turn.
    pub open spec fn sequences_from(self, start: int, prefix: Seq<WordView>) -> Seq<
        (Seq<WordView>, SequenceValue),
    >
        decreases self.states.len() - start, 1nat, 0nat,
    {
        let own = match self.value_at(start) {
            Some(v) => seq![(prefix, v)],
            None => Seq::empty(),
        };
        own + self.sequences_over(start, prefix, 0)
    }

    /// `sequences_from` for the edges of `start` from the `k`-th on.
    pub open spec fn sequences_over(self, start: int, prefix: Seq<WordView>, k: nat) -> Seq<
        (Seq<WordView>, SequenceValue),
    >
        decreases self.states.len() - start, 0nat, self.states[start].len() - k,
    {
        if !(0 <= start < self.states.len()) || k >= self.states[start].len() {
            Seq::empty()
        } else {
            let edge = self.states[start][k as int];
            if start < edge.1 < self.states.len() {
                self.sequences_from(edge.1 as int, prefix.push(edge.0)) + self.sequences_over(
                    start,
                    prefix,
                    k + 1,
                )
            } else {
                Seq::empty()
            }
        }
    }

    /// What a run over `seq` returns.
    pub open spec fn run(self, seq: Seq<WordView>) -> Option<SequenceValue> {
        self.run_from(seq, 0, 0, Map::empty())
    }
}

/// An edge whose word is not among the edges has no target.
pub proof fn lemma_exact_from_none(edges: Seq<(WordView, usize)>, w: WordView, from: nat)
    ensures
        exact_from(edges, w, from) is None <==> forall|k: int|
            from <= k < edges.len() ==> (#[trigger] edges[k]).0 != w,
        exact_from(edges, w, from) is Some ==> exists|k: int|
            from <= k < edges.len() && (#[trigger] edges[k]).0 == w && edges[k].1 == exact_from(
                edges,
                w,
                from,
            )->Some_0,
    decreases edges.len() - from,
{
    if from < edges.len() {
        lemma_exact_from_none(edges, w, from + 1);
    }
}

/// The target of an edge that exists stays its target when edges are added
/// behind it.
pub proof fn lemma_exact_from_push(
    edges: Seq<(WordView, usize)>,
    w: WordView,
    from: nat,
    e: (WordView, usize),
)
    ensures
        exact_from(edges, w, from) is Some ==> exact_from(edges.push(e), w, from) == exact_from(
            edges,
            w,
            from,
        ),
        exact_from(edges, w, from) is None && from <= edges.len() ==> exact_from(
            edges.push(e),
            w,
            from,
        ) == (if e.0 == w {
            Some(e.1)
        } else {
            None
        }),
    decreases edges.len() - from,
{
    if from < edges.len() {
        lemma_exact_from_push(edges, w, from + 1, e);
        assert(edges.push(e)[from as int] == edges[from as int]);
    } else if from == edges.len() {
        assert(edges.push(e)[from as int] == e);
        assert(exact_from(edges.push(e), w, from + 1) is None);
    }
}

/// A new edge and its state keep the automaton well formed.
pub proof fn lemma_with_edge_wf(a: AutomatonView, cur: int, w: WordView)
    requires
        a.wf(),
        a.states.len() < usize::MAX,
        0 <= cur < a.states.len(),
        exact_target(a.states[cur], w) is None,
    ensures
        a.with_edge(cur, w).wf(),
{
    let b = a.with_edge(cur, w);
    lemma_exact_from_none(a.states[cur], w, 0);
    assert forall|i: int, k: int| 0 <= i < b.states.len() && 0 <= k < b.states[i].len() implies i
        < (#[trigger] b.states[i][k]).1 < b.states.len() by {
        if i == cur {
            if k < a.states[cur].len() {
                assert(b.states[i][k] == a.states[i][k]);
            }
        } else {
            assert(b.states[i][k] == a.states[i][k]);
        }
    }
    assert forall|i: int| 0 <= i < b.states.len() implies distinct_words(
        #[trigger] b.states[i],
    ) by {
        if i == cur {
            assert(distinct_words(a.states[cur]));
            assert forall|x: int, y: int| 0 <= x < y < b.states[i].len() implies (
            #[trigger] b.states[i][x]).0 != (#[trigger] b.states[i][y]).0 by {
                if y < a.states[cur].len() {
                    assert(b.states[i][x] == a.states[cur][x]);
                    assert(b.states[i][y] == a.states[cur][y]);
                } else {
                    assert(b.states[i][x] == a.states[cur][x]);
                }
            }
        } else if i < a.states.len() {
            assert(b.states[i] == a.states[i]);
        } else {
            assert(b.states[i] == Seq::<(WordView, usize)>::empty());
        }
    }
}

impl Automaton {
    /// The automaton with the root alone.
    pub fn new() -> (r: Self)
        ensures
            r@.wf(),
            r@.states == seq![Seq::<(WordView, usize)>::empty()],
            r@.values == Map::<usize, SequenceValue>::empty(),
    {
        let mut states: Vec<State> = Vec::new();
        states.push(State::new());
        let r = Self { states, return_values: HashMap::new() };
        assert(r@.states =~= seq![Seq::<(WordView, usize)>::empty()]);
        r
    }

    /// The automaton of the one sequence of `la`.
    pub fn from(la: LinearAutomaton) -> (r: Self)
        ensures
            r@.wf(),
            r@ == Automaton::new_view().unioned(
                sequence_view(la.transitions@),
                la.return_value,
            ),
    {
        let mut r = Self::new();
        assert(r@ == Automaton::new_view());
        r.union(la);
        r
    }

    /// The view of a new automaton.
    pub open spec fn new_view() -> AutomatonView {
        AutomatonView {
            states: seq![Seq::<(WordView, usize)>::empty()],
            values: Map::<usize, SequenceValue>::empty(),
        }
    }

    /// The number of states.
    pub fn len(&self) -> (r: usize)
        ensures
            r == self@.states.len(),
    {
        self.states.len()
    }

    /// Creates a new state without any transitions and returns its id.
    pub fn new_state(&mut self) -> (id: usize)
        ensures
            id == old(self)@.states.len(),
            final(self)@.states == old(self)@.states.push(Seq::empty()),
            final(self)@.values == old(self)@.values,
    {
        let new_state_id = self.states.len();
        self.states.push(State::new());
        assert(self@.states =~= old(self)@.states.push(Seq::empty()));
        new_state_id
    }

    /// Performs a union with a linear automaton `la`: walks the words of
    /// `la` from the root along the edges that carry them, adds an edge and
    /// a state for each word that has none, and gives the last state the
    /// value of `la` unless it has a value already.
    /// Returns whether the automaton changed.
    pub fn union(&mut self, la: LinearAutomaton) -> (changed: bool)
        requires
            old(self)@.wf(),
        ensures
            final(self)@.wf(),
            final(self)@ == old(self)@.unioned(sequence_view(la.transitions@), la.return_value),
            changed == (final(self)@ != old(self)@),
    {
        let ghost seq = sequence_view(la.transitions@);
        let mut branched = false;
        let mut cur_state: usize = 0;
        let mut i: usize = 0;
        while i < la.transitions.len()
            invariant
                i <= la.transitions.len(),
                seq == sequence_view(la.transitions@),
                self@.wf(),
                cur_state < self@.states.len(),
                old(self)@.grown(seq, 0, 0) == self@.grown(seq, i as nat, cur_state as int),
                branched <==> self@.states.len() > old(self)@.states.len(),
                !branched ==> self@ == old(self)@,
                self@.values == old(self)@.values,
                branched ==> cur_state >= old(self)@.states.len(),
                old(self)@.wf(),
            decreases la.transitions.len() - i,
        {
            let transition = la.transitions[i].clone();
            assert(transition@ == seq[i as int]);
            let next_state = self.states[cur_state].get_exact_transition(&transition);
            match next_state {
                Some(n) => {
                    proof {
                        lemma_exact_from_none(self@.states[cur_state as int], transition@, 0);
                    }
                    cur_state = n;
                },
                None => {
                    // the current state does not have this transition
                    let ghost before = self@;
                    branched = true;
                    let new_state = self.new_state();
                    let count: usize = self.states.len();
                    assert(self@.states.len() == before.states.len() + 1);
                    assert(self@.states.len() == count);
                    assert(self.states@[cur_state as int]@ == self@.states[cur_state as int]);
                    assert(self@.states[cur_state as int] == before.states[cur_state as int]);
                    proof {
                        lemma_with_edge_wf(before, cur_state as int, transition@);
                    }
                    let ghost mid = self.states@;
                    let ghost mid_view = self@.states;
                    self.states[cur_state].add_transition(transition, new_state);
                    assert(self.states@.len() == mid.len());
                    assert(self.states@[cur_state as int]@ == mid[cur_state as int]@.push(
                        (seq[i as int], new_state),
                    ));
                    assert forall|j: int| 0 <= j < mid.len() && j != cur_state implies self.states@[j]
                        == mid[j] by {}
                    let ghost target = before.with_edge(cur_state as int, seq[i as int]).states;
                    assert(mid.len() == before.states.len() + 1);
                    assert forall|j: int| 0 <= j < mid.len() implies self@.states[j] == target[j] by {
                        assert(self@.states[j] == self.states@[j]@);
                        assert(mid_view[j] == mid[j]@);
                        if j == cur_state {
                        } else if j < before.states.len() {
                            assert(mid_view[j] == before.states[j]);
                        } else {
                            assert(mid_view[j] == Seq::<(WordView, usize)>::empty());
                        }
                    }
                    assert(self@.states =~= target);
                    assert(self@ == before.with_edge(cur_state as int, seq[i as int]));
                    cur_state = new_state;
                },
            }
            i += 1;
        }
        // after iteration
        let ghost grown = self@;
        match la.return_value {
            Some(v) => {
                if self.return_values.get(&cur_state).is_some() {
                    return false;
                }
                self.return_values.insert(cur_state, v);
                assert(self@.states == grown.states);
                assert(self@.values.contains_key(cur_state));
                true
            },
            None => branched,
        }
    }

    /// Performs a run of automaton over the sequence `seq`.
    /// Returns a value of this sequence if any.
    pub fn run(&self, seq: &Vec<Word>) -> (r: Option<&SequenceValue>)
        requires
            self@.wf(),
        ensures
            match r {
                Some(v) => self@.run(sequence_view(seq@)) == Some(*v),
                None => self@.run(sequence_view(seq@)) is None,
            },
    {
        let mapping: HashMap<usize, VariableType> = HashMap::new();
        self.run_from(seq, 0, 0, &mapping)
    }

    /// Performs a run of automaton over the rest of sequence `seq`, from its
    /// word `from` on, from state `start`.
    pub fn run_from(
        &self,
        seq: &Vec<Word>,
        from: usize,
        start: usize,
        bind_mapping: &HashMap<usize, VariableType>,
    ) -> (r: Option<&SequenceValue>)
        requires
            self@.wf(),
            from <= seq@.len(),
            start < self@.states.len(),
        ensures
            match r {
                Some(v) => self@.run_from(
                    sequence_view(seq@),
                    from as nat,
                    start as int,
                    bind_mapping@,
                ) == Some(*v),
                None => self@.run_from(
                    sequence_view(seq@),
                    from as nat,
                    start as int,
                    bind_mapping@,
                ) is None,
            },
        decreases seq@.len() - from,
    {
        let ghost words = sequence_view(seq@);
        if from == seq.len() {
            return self.return_values.get(&start);
        }
        let token = &seq[from];
        assert(token@ == words[from as int]);
        if token.is_type() {
            let state = &self.states[start];
            assert(state@ == self@.states[start as int]);
            let ids = state.get_possible_transition_ids(token, bind_mapping);
            let edges = state.get_all_transitions();
            let ghost order = ranked(state@, token@, bind_mapping@, state@.len());
            let mut k: usize = 0;
            while k < ids.len()
                invariant
                    k <= ids@.len(),
                    self@.wf(),
                    from < seq.len(),
                    start < self@.states.len(),
                    words == sequence_view(seq@),
                    token@ == words[from as int],
                    token@ is Type,
                    state@ == self@.states[start as int],
                    edges_view(edges@) == state@,
                    order == ranked(state@, token@, bind_mapping@, state@.len()),
                    ids@.len() == order.len(),
                    forall|j: int| 0 <= j < ids@.len() ==> ids@[j] as int == (#[trigger] order[j]).0,
                    forall|j: int| 0 <= j < ids@.len() ==> 0 <= #[trigger] ids@[j] < state@.len(),
                    self@.run_from(words, from as nat, start as int, bind_mapping@)
                        == self@.try_edges(
                        words,
                        from as nat,
                        start as int,
                        bind_mapping@,
                        order,
                        k as nat,
                    ),
                decreases ids@.len() - k,
            {
                let id = ids[k];
                assert(order[k as int].0 == id);
                assert(edges@.len() == state@.len());
                let t = &edges[id].0;
                let target = edges[id].1;
                assert(state@[id as int] == (t@, target));
                let found = if t.is_ambiguous() {
                    let mut bind_mapping_clone = bind_mapping.clone();
                    proof {
                        lemma_ranked_applies(state@, token@, bind_mapping@, state@.len());
                    }
                    State::bind_transition(t, token, &mut bind_mapping_clone);
                    self.run_from(seq, from + 1, target, &bind_mapping_clone)
                } else {
                    self.run_from(seq, from + 1, target, bind_mapping)
                };
                if found.is_some() {
                    return found;
                }
                k += 1;
            }
            None
        } else {
            match self.states[start].get_exact_transition(token) {
                Some(n) => {
                    proof {
                        lemma_exact_from_none(self@.states[start as int], token@, 0);
                    }
                    self.run_from(seq, from + 1, n, bind_mapping)
                },
                None => None,
            }
        }
    }

    /// Every way to read `seq` as a use of `var_count` operands, whose
    /// tokens `Any(i)` name the operand `i`: the constraints that each path
    /// through the automaton puts on the operands.
    pub fn get_interpretations(&self, seq: &Vec<Word>, var_count: usize) -> (r: Vec<TypeConstraints>)
        requires
            self@.wf(),
        ensures
            constraints_view(r@) == self@.interpretations(sequence_view(seq@), var_count as nat),
    {
        let mut mapping: HashMap<usize, VariableType> = HashMap::new();
        self.get_interpretations_from(seq, 0, 0, TypeConstraints::new(var_count), &mut mapping)
    }

    /// `get_interpretations` for the rest of `seq`, from its word `from` on,
    /// from the state `start` with the constraints gathered so far.
    pub fn get_interpretations_from(
        &self,
        seq: &Vec<Word>,
        from: usize,
        start: usize,
        current_type_constraints: TypeConstraints,
        bind_mapping: &mut HashMap<usize, VariableType>,
    ) -> (r: Vec<TypeConstraints>)
        requires
            self@.wf(),
            from <= seq@.len(),
            start < self@.states.len(),
        ensures
            constraints_view(r@) == self@.interpretations_from(
                sequence_view(seq@),
                from as nat,
                start as int,
                current_type_constraints@,
                old(bind_mapping)@,
            ),
        decreases seq@.len() - from,
    {
        let ghost words = sequence_view(seq@);
        let ghost start_mapping = bind_mapping@;
        let mut current = current_type_constraints;
        if from == seq.len() {
            current.refresh_bindings();
            let mut out: Vec<TypeConstraints> = Vec::new();
            out.push(current);
            assert(constraints_view(out@) =~= seq![refreshed(current_type_constraints@)]);
            return out;
        }
        let w = &seq[from];
        assert(w@ == words[from as int]);
        let state = &self.states[start];
        assert(state@ == self@.states[start as int]);
        if w.is_ambiguous() {
            let edges = state.get_all_transitions();
            let mut out: Vec<TypeConstraints> = Vec::new();
            // the edges are read from the last to the first, each putting
            // its interpretations in front of those of the later edges
            let mut k: usize = edges.len();
            assert(edges@.len() == state@.len());
            assert(self@.branch_interpretations(
                words,
                from as nat,
                start as int,
                current@,
                start_mapping,
                k as nat,
            ) =~= Seq::empty());
            while k > 0
                invariant
                    k <= edges@.len(),
                    self@.wf(),
                    from < seq.len(),
                    start < self@.states.len(),
                    words == sequence_view(seq@),
                    w@ == words[from as int],
                    w@.ambiguous(),
                    state@ == self@.states[start as int],
                    edges_view(edges@) == state@,
                    edges@.len() == state@.len(),
                    *bind_mapping == *old(bind_mapping),
                    start_mapping == bind_mapping@,
                    current@ == current_type_constraints@,
                    constraints_view(out@) == self@.branch_interpretations(
                        words,
                        from as nat,
                        start as int,
                        current@,
                        start_mapping,
                        k as nat,
                    ),
                decreases k,
            {
                k -= 1;
                let branch_word = &edges[k].0;
                let target = edges[k].1;
                assert(state@[k as int] == (branch_word@, target));
                let mut constraint_clone = current.clone();
                let narrowed = Self::narrow(&mut constraint_clone, w, branch_word);
                if narrowed {
                    let mut bind_mapping_clone = bind_mapping.clone();
                    let mut found = self.get_interpretations_from(
                        seq,
                        from + 1,
                        target,
                        constraint_clone,
                        &mut bind_mapping_clone,
                    );
                    let ghost found_view = constraints_view(found@);
                    let ghost rest = constraints_view(out@);
                    found.append(&mut out);
                    out = found;
                    assert(constraints_view(out@) =~= found_view + rest);
                }
            }
            out
        } else {
            match state.get_transition(w, bind_mapping) {
                Some(n) => {
                    proof {
                        lemma_best_edge_applies(state@, w@, start_mapping, state@.len());
                        lemma_exact_from_none(state@, w@, 0);
                    }
                    self.get_interpretations_from(seq, from + 1, n, current, bind_mapping)
                },
                None => Vec::new(),
            }
        }
    }

    /// Narrows the operand that the ambiguous token `w` names by the edge
    /// word `branch_word`, and returns whether the constraints still hold;
    /// if they do not, they may have changed.
    fn narrow(constraints: &mut TypeConstraints, w: &Word, branch_word: &Word) -> (r: bool)
        ensures
            match AutomatonView::narrowed(old(constraints)@, w@, branch_word@) {
                Some(c2) => r && final(constraints)@ == c2,
                None => !r,
            },
    {
        match (w, branch_word) {
            (Word::Type(wt), Word::Type(et)) => {
                match wt.get_binding() {
                    Some(var_id) => {
                        if var_id >= constraints.get_types().len() {
                            return false;
                        }
                        match et.unwrap_like(wt) {
                            Some(part) => constraints.intersect_var(
                                &part.with_inverted_binding(),
                                var_id,
                            ),
                            None => false,
                        }
                    },
                    None => false,
                }
            },
            _ => false,
        }
    }

    /// Returns all sequences in a given automaton in form: (sequence, return_type).
    pub fn get_all_sequences(&self) -> (r: Vec<(Vec<Word>, SequenceValue)>)
        requires
            self@.wf(),
        ensures
            sequences_view(r@) == self@.sequences_from(0, Seq::empty()),
    {
        let seq: Vec<Word> = Vec::new();
        assert(sequence_view(seq@) =~= Seq::empty());
        self.get_all_sequences_rec(0, &seq)
    }

    /// The sequences that lead from `start` to a value, each behind `seq`.
    pub fn get_all_sequences_rec(&self, start: usize, seq: &Vec<Word>) -> (r: Vec<
        (Vec<Word>, SequenceValue),
    >)
        requires
            self@.wf(),
            start < self@.states.len(),
        ensures
            sequences_view(r@) == self@.sequences_from(start as int, sequence_view(seq@)),
        decreases self@.states.len() - start,
    {
        let ghost prefix = sequence_view(seq@);
        let mut ret: Vec<(Vec<Word>, SequenceValue)> = Vec::new();
        match self.return_values.get(&start) {
            Some(r) => {
                ret.push((seq.clone(), *r));
                assert(sequences_view(ret@) =~= seq![(prefix, *r)]);
            },
            None => {
                assert(sequences_view(ret@) =~= Seq::empty());
            },
        }
        let ghost own = sequences_view(ret@);
        let state = &self.states[start];
        assert(state@ == self@.states[start as int]);
        let edges = state.get_all_transitions();
        let mut tail: Vec<(Vec<Word>, SequenceValue)> = Vec::new();
        let mut k: usize = edges.len();
        assert(edges@.len() == state@.len());
        assert(sequences_view(tail@) =~= Seq::empty());
        while k > 0
            invariant
                k <= edges@.len(),
                self@.wf(),
                start < self@.states.len(),
                prefix == sequence_view(seq@),
                state@ == self@.states[start as int],
                edges_view(edges@) == state@,
                edges@.len() == state@.len(),
                sequences_view(tail@) == self@.sequences_over(start as int, prefix, k as nat),
            decreases k,
        {
            k -= 1;
            let w = &edges[k].0;
            let new_state = edges[k].1;
            assert(state@[k as int] == (w@, new_state));
            let mut new_seq = seq.clone();
            new_seq.push(w.clone());
            assert(sequence_view(new_seq@) =~= prefix.push(w@));
            let mut found = self.get_all_sequences_rec(new_state, &new_seq);
            let ghost found_view = sequences_view(found@);
            let ghost rest = sequences_view(tail@);
            found.append(&mut tail);
            tail = found;
            assert(sequences_view(tail@) =~= found_view + rest);
        }
        ret.append(&mut tail);
        assert(sequences_view(ret@) =~= own + self@.sequences_over(start as int, prefix, 0));
        ret
    }
}

/// What a list of constraints is to the contracts.
pub open spec fn constraints_view(list: Seq<TypeConstraints>) -> Seq<Seq<VariableType>> {
    list.map_values(|c: TypeConstraints| c@)
}

/// What a list of sequences with their values is to the contracts.
pub open spec fn sequences_view(list: Seq<(Vec<Word>, SequenceValue)>) -> Seq<
    (Seq<WordView>, SequenceValue),
> {
    list.map_values(|p: (Vec<Word>, SequenceValue)| (sequence_view(p.0@), p.1))
}

/// Every entry of a ranking names one of the edges, with the score that the
/// edge has for the token.
pub proof fn lemma_ranked_applies(
    edges: Seq<(WordView, usize)>,
    s: WordView,
    mapping: Map<usize, VariableType>,
    n: nat,
)
    requires
        n <= edges.len(),
    ensures
        forall|k: int|
            0 <= k < ranked(edges, s, mapping, n).len() ==> {
                let e = #[trigger] ranked(edges, s, mapping, n)[k];
                0 <= e.0 < n && applicability(edges[e.0].0, s, mapping) == Some(e.1)
            },
    decreases n,
{
    if n > 0 {
        lemma_ranked_applies(edges, s, mapping, (n - 1) as nat);
        let prev = ranked(edges, s, mapping, (n - 1) as nat);
        match applicability(edges[n - 1].0, s, mapping) {
            Some(a) => {
                lemma_rank_position_bounds(prev, a, 0);
                let pos = rank_position(prev, a, 0) as int;
                let next = prev.insert(pos, (n - 1, a));
                assert forall|k: int| 0 <= k < next.len() implies {
                    let e = #[trigger] next[k];
                    0 <= e.0 < n && applicability(edges[e.0].0, s, mapping) == Some(e.1)
                } by {
                    if k < pos {
                        assert(next[k] == prev[k]);
                    } else if k > pos {
                        assert(next[k] == prev[k - 1]);
                    }
                }
            },
            None => {},
        }
    }
}

/// An edge enters a ranking at or behind the place from which its place is
/// looked for, and not behind the end.
pub proof fn lemma_rank_position_bounds(ranking: Seq<(int, usize)>, a: usize, from: nat)
    requires
        from <= ranking.len(),
    ensures
        from <= rank_position(ranking, a, from) <= ranking.len(),
    decreases ranking.len() - from,
{
    if from < ranking.len() && a <= ranking[from as int].1 {
        lemma_rank_position_bounds(ranking, a, from + 1);
    }
}

} // verus!
