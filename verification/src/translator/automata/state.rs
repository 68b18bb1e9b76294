use crate::translator::words::{bounded_type, bounded_value, binds, Word, WordView};
use crate::variable::types::VariableType;
use std::collections::HashMap;
use vstd::prelude::*;

verus! {

broadcast use vstd::std_specs::hash::group_hash_axioms;

/// A state of the automaton: its outgoing edges, each a word and the state it
/// leads to, in the order in which they were added.
pub struct State {
    transitions: Vec<(Word, usize)>,
}

/// The edges of a state as the contracts see them.
pub open spec fn edges_view(edges: Seq<(Word, usize)>) -> Seq<(WordView, usize)> {
    edges.map_values(|e: (Word, usize)| (e.0@, e.1))
}

impl View for State {
    type V = Seq<(WordView, usize)>;

    closed spec fn view(&self) -> Seq<(WordView, usize)> {
        edges_view(self.transitions@)
    }
}

/// The score that an edge labelled `t` gets for the token type `s`, or
/// nothing if the edge cannot be taken.
///
/// A loosely equal type scores `usize::MAX`. A placeholder that the path has
/// bound scores one less than its bound type does; an unbound placeholder
/// scores 0. A `Vec` scores what its element scores against the element of
/// `s`, plus 2 while that stays under 10 000.
pub open spec fn type_applicability(
    t: VariableType,
    s: VariableType,
    mapping: Map<usize, VariableType>,
    unwind: bool,
) -> Option<usize>
    decreases s, (if unwind {
        1nat
    } else {
        0nat
    }),
{
    if t.loosely_equal(s) {
        Some(usize::MAX)
    } else {
        match t {
            VariableType::Any(b) => {
                if !unwind {
                    Some(0usize)
                } else if mapping.contains_key(b) {
                    match type_applicability(mapping[b], s, mapping, false) {
                        Some(a) => Some(
                            if a >= 1 {
                                (a - 1) as usize
                            } else {
                                0usize
                            },
                        ),
                        None => None,
                    }
                } else {
                    Some(0usize)
                }
            },
            VariableType::Vec(xn) => match s {
                VariableType::Vec(yn) => match type_applicability(*xn, *yn, mapping, true) {
                    Some(a) => Some(
                        if a < 10_000 {
                            (a + 2) as usize
                        } else {
                            a
                        },
                    ),
                    None => None,
                },
                _ => None,
            },
            _ => None,
        }
    }
}

/// The score of an edge for a token: a keyword takes only the edge of the
/// same keyword, a type is scored by `type_applicability`.
pub open spec fn applicability(
    t: WordView,
    s: WordView,
    mapping: Map<usize, VariableType>,
) -> Option<usize> {
    match (t, s) {
        (WordView::Keyword(a), WordView::Keyword(b)) => if a == b {
            Some(usize::MAX)
        } else {
            None
        },
        (WordView::Type(x), WordView::Type(y)) => type_applicability(x, y, mapping, true),
        _ => None,
    }
}

/// The target of the first edge from `from` on whose word is `w`.
pub open spec fn exact_from(edges: Seq<(WordView, usize)>, w: WordView, from: nat) -> Option<usize>
    decreases edges.len() - from,
{
    if from >= edges.len() {
        None
    } else if edges[from as int].0 == w {
        Some(edges[from as int].1)
    } else {
        exact_from(edges, w, from + 1)
    }
}

/// The target of the first edge whose word is `w`.
pub open spec fn exact_target(edges: Seq<(WordView, usize)>, w: WordView) -> Option<usize> {
    exact_from(edges, w, 0)
}

/// No two edges carry the same word.
pub open spec fn distinct_words(edges: Seq<(WordView, usize)>) -> bool {
    forall|i: int, j: int| 0 <= i < j < edges.len() ==> (#[trigger] edges[i]).0 != (#[trigger] edges[j]).0
}

/// Among the first `n` edges, the first one with the highest score for the
/// token `s`: its index and its score.
pub open spec fn best_edge(
    edges: Seq<(WordView, usize)>,
    s: WordView,
    mapping: Map<usize, VariableType>,
    n: nat,
) -> Option<(int, usize)>
    decreases n,
{
    if n == 0 {
        None
    } else {
        let prev = best_edge(edges, s, mapping, (n - 1) as nat);
        match applicability(edges[n - 1].0, s, mapping) {
            None => prev,
            Some(a) => match prev {
                None => Some((n - 1, a)),
                Some((_, b)) => if a > b {
                    Some((n - 1, a))
                } else {
                    prev
                },
            },
        }
    }
}

/// Where an edge of score `a` enters a ranking: before the first entry from
/// `from` on that scores less.
pub open spec fn rank_position(ranking: Seq<(int, usize)>, a: usize, from: nat) -> nat
    decreases ranking.len() - from,
{
    if from >= ranking.len() || a > ranking[from as int].1 {
        from
    } else {
        rank_position(ranking, a, from + 1)
    }
}

/// The edges among the first `n` that can be taken for the token `s`, each
/// with its score: the higher score first, and of two equal scores the
/// earlier edge first.
pub open spec fn ranked(
    edges: Seq<(WordView, usize)>,
    s: WordView,
    mapping: Map<usize, VariableType>,
    n: nat,
) -> Seq<(int, usize)>
    decreases n,
{
    if n == 0 {
        Seq::empty()
    } else {
        let prev = ranked(edges, s, mapping, (n - 1) as nat);
        match applicability(edges[n - 1].0, s, mapping) {
            None => prev,
            Some(a) => prev.insert(rank_position(prev, a, 0) as int, (n - 1, a)),
        }
    }
}

/// The indices of the edges among the first `n` whose word is a type.
pub open spec fn type_edges(edges: Seq<(WordView, usize)>, n: nat) -> Seq<int>
    decreases n,
{
    if n == 0 {
        Seq::empty()
    } else {
        let prev = type_edges(edges, (n - 1) as nat);
        if edges[n - 1].0 is Type {
            prev.push(n - 1)
        } else {
            prev
        }
    }
}

/// The bindings after the edge `edge` was taken for the token `token`: the
/// placeholder of an ambiguous edge is bound to the part of the token that
/// it stands for, unless it is bound already.
pub open spec fn bound(
    mapping: Map<usize, VariableType>,
    edge: WordView,
    token: WordView,
) -> Map<usize, VariableType> {
    match (edge, token) {
        (WordView::Type(e), WordView::Type(t)) => {
            if e.ambiguous() {
                let (b, v) = bounded_value(e, t);
                if mapping.contains_key(b) {
                    mapping
                } else {
                    mapping.insert(b, v)
                }
            } else {
                mapping
            }
        },
        _ => mapping,
    }
}

/// Loosely equal types are equally deep.
pub proof fn lemma_loosely_equal_depth(a: VariableType, b: VariableType)
    requires
        a.loosely_equal(b),
    ensures
        a.depth() == b.depth(),
    decreases a,
{
    match (a, b) {
        (VariableType::Vec(x), VariableType::Vec(y)) => {
            lemma_loosely_equal_depth(*x, *y);
        },
        _ => {},
    }
}

/// An ambiguous edge can only be taken for a token that is at least as deep,
/// so its placeholder stands for a part of the token.
pub proof fn lemma_applicable_binds(
    t: VariableType,
    s: VariableType,
    mapping: Map<usize, VariableType>,
    unwind: bool,
)
    requires
        type_applicability(t, s, mapping, unwind) is Some,
        t.ambiguous(),
    ensures
        binds(t, s),
    decreases t,
{
    if t.loosely_equal(s) {
        lemma_loosely_equal_depth(t, s);
    } else {
        match (t, s) {
            (VariableType::Vec(xn), VariableType::Vec(yn)) => {
                lemma_applicable_binds(*xn, *yn, mapping, true);
            },
            _ => {},
        }
    }
}

/// Only a loosely equal edge reaches the highest score.
pub proof fn lemma_top_score_is_equality(
    t: VariableType,
    s: VariableType,
    mapping: Map<usize, VariableType>,
    unwind: bool,
)
    ensures
        type_applicability(t, s, mapping, unwind) == Some(usize::MAX) <==> t.loosely_equal(s),
    decreases s, (if unwind {
        1nat
    } else {
        0nat
    }),
{
    if !t.loosely_equal(s) {
        match t {
            VariableType::Any(b) => {
                if unwind && mapping.contains_key(b) {
                    lemma_top_score_is_equality(mapping[b], s, mapping, false);
                }
            },
            VariableType::Vec(xn) => match s {
                VariableType::Vec(yn) => {
                    lemma_top_score_is_equality(*xn, *yn, mapping, true);
                },
                _ => {},
            },
            _ => {},
        }
    }
}

impl State {
    pub fn new() -> (r: Self)
        ensures
            r@ == Seq::<(WordView, usize)>::empty(),
    {
        let r = Self { transitions: Vec::new() };
        assert(r@ =~= Seq::<(WordView, usize)>::empty());
        r
    }

    /// Whether an edge with this very word exists.
    pub fn has_transition(&self, t: &Word) -> (r: bool)
        ensures
            r == exact_target(self@, t@).is_some(),
    {
        self.get_exact_transition(t).is_some()
    }

    /// Adds an edge; its word must not label an edge yet.
    pub fn add_transition(&mut self, t: Word, n: usize)
        requires
            exact_target(old(self)@, t@) is None,
        ensures
            final(self)@ == old(self)@.push((t@, n)),
    {
        self.transitions.push((t, n));
        assert(self@ =~= old(self)@.push((t@, n)));
    }

    /// The score of the edge word `t` for the token `s` under the bindings
    /// made so far.
    pub fn transition_applicability(
        t: &Word,
        s: &Word,
        any_mapping: &HashMap<usize, VariableType>,
    ) -> (r: Option<usize>)
        ensures
            r == applicability(t@, s@, any_mapping@),
    {
        match (t, s) {
            (Word::Keyword(a), Word::Keyword(b)) => {
                if *a == *b {
                    Some(usize::MAX)
                } else {
                    None
                }
            },
            (Word::Type(x), Word::Type(y)) => Self::_transition_applicability(
                x,
                y,
                any_mapping,
                true,
            ),
            _ => None,
        }
    }

    /// The score of the edge type `t` for the token type `s`; a placeholder
    /// is looked up in the bindings only where `unwind_any` is set.
    pub fn _transition_applicability(
        t: &VariableType,
        s: &VariableType,
        any_mapping: &HashMap<usize, VariableType>,
        unwind_any: bool,
    ) -> (r: Option<usize>)
        ensures
            r == type_applicability(*t, *s, any_mapping@, unwind_any),
        decreases *s, (if unwind_any {
            1nat
        } else {
            0nat
        }),
    {
        if t.loosely_matches(s) {
            return Some(usize::MAX);
        }
        match t {
            VariableType::Any(any_binding) => {
                if !unwind_any {
                    return Some(0);
                }
                match any_mapping.get(any_binding) {
                    Some(bound_type) => {
                        match Self::_transition_applicability(bound_type, s, any_mapping, false) {
                            Some(app) => Some(app.saturating_sub(1)),
                            None => None,
                        }
                    },
                    None => Some(0),
                }
            },
            VariableType::Vec(xn) => {
                match s {
                    VariableType::Vec(yn) => {
                        match Self::_transition_applicability(xn, yn, any_mapping, true) {
                            Some(app) => {
                                if app < 10_000 {
                                    Some(app + 2)
                                } else {
                                    Some(app)
                                }
                            },
                            None => None,
                        }
                    },
                    _ => None,
                }
            },
            _ => None,
        }
    }

    /// The target of the edge with this very word.
    pub fn get_exact_transition(&self, t: &Word) -> (r: Option<usize>)
        ensures
            r == exact_target(self@, t@),
    {
        let mut i: usize = 0;
        while i < self.transitions.len()
            invariant
                i <= self.transitions.len(),
                exact_target(self@, t@) == exact_from(self@, t@, i as nat),
            decreases self.transitions.len() - i,
        {
            if self.transitions[i].0.strictly_matches(t) {
                return Some(self.transitions[i].1);
            }
            i += 1;
        }
        None
    }

    /// The state that the best edge for `t` leads to. For a type the best
    /// edge is the first of the highest score; where it is ambiguous, its
    /// placeholder gets bound. For a keyword it is the edge of that keyword.
    pub fn get_transition(&self, t: &Word, any_mapping: &mut HashMap<usize, VariableType>) -> (r:
        Option<usize>)
        ensures
            t@ is Type ==> match best_edge(
                self@,
                t@,
                old(any_mapping)@,
                self@.len(),
            ) {
                Some((j, _)) => r == Some(self@[j].1) && final(any_mapping)@ == bound(
                    old(any_mapping)@,
                    self@[j].0,
                    t@,
                ),
                None => r is None && final(any_mapping)@ == old(any_mapping)@,
            },
            t@ is Keyword ==> r == exact_target(self@, t@) && final(any_mapping)@ == old(
                any_mapping,
            )@,
    {
        match t {
            Word::Type(_) => self.get_transition_for_type(t, any_mapping),
            _ => self.get_exact_transition(t),
        }
    }

    /// `get_transition` for the token of a type.
    pub fn get_transition_for_type(
        &self,
        t: &Word,
        any_mapping: &mut HashMap<usize, VariableType>,
    ) -> (r: Option<usize>)
        requires
            t@ is Type,
        ensures
            match best_edge(self@, t@, old(any_mapping)@, self@.len()) {
                Some((j, _)) => r == Some(self@[j].1) && final(any_mapping)@ == bound(
                    old(any_mapping)@,
                    self@[j].0,
                    t@,
                ),
                None => r is None && final(any_mapping)@ == old(any_mapping)@,
            },
    {
        let mut best: Option<(usize, usize)> = None;
        let mut i: usize = 0;
        while i < self.transitions.len()
            invariant
                i <= self.transitions.len(),
                *any_mapping == *old(any_mapping),
                match best_edge(self@, t@, any_mapping@, i as nat) {
                    Some((j, a)) => best == Some((j as usize, a)) && 0 <= j < i,
                    None => best is None,
                },
            decreases self.transitions.len() - i,
        {
            match State::transition_applicability(&self.transitions[i].0, t, any_mapping) {
                Some(app) => {
                    match best {
                        Some((_, b)) => {
                            if app > b {
                                best = Some((i, app));
                            }
                        },
                        None => {
                            best = Some((i, app));
                        },
                    }
                },
                None => {},
            }
            i += 1;
        }
        match best {
            Some((j, _)) => {
                let wt = &self.transitions[j].0;
                proof {
                    lemma_best_edge_applies(self@, t@, any_mapping@, self@.len());
                }
                State::bind_transition(wt, t, any_mapping);
                Some(self.transitions[j].1)
            },
            None => None,
        }
    }

    /// Records what the placeholder of the edge word `edge` stands for when
    /// the edge is taken for the token `token`, unless it is bound already.
    /// An edge without a placeholder binds nothing.
    pub fn bind_transition(
        edge: &Word,
        token: &Word,
        any_mapping: &mut HashMap<usize, VariableType>,
    )
        requires
            applicability(edge@, token@, old(any_mapping)@) is Some,
        ensures
            final(any_mapping)@ == bound(old(any_mapping)@, edge@, token@),
    {
        match (edge, token) {
            (Word::Type(e), Word::Type(p)) => {
                if e.is_ambiguous() {
                    proof {
                        lemma_applicable_binds(*e, *p, any_mapping@, true);
                    }
                    let (binding, value) = bounded_type(e, p);
                    if any_mapping.get(&binding).is_none() {
                        any_mapping.insert(binding, value);
                    }
                }
            },
            _ => {},
        }
    }

    pub fn get_all_transitions(&self) -> (r: &Vec<(Word, usize)>)
        ensures
            edges_view(r@) == self@,
    {
        &self.transitions
    }

    /// The type that a word of a type stands for.
    pub fn word_type(w: &Word) -> (r: VariableType)
        requires
            w@ is Type,
        ensures
            w@ == WordView::Type(r),
    {
        match w {
            Word::Type(t) => t.clone(),
            _ => VariableType::Unresolved,
        }
    }

    /// The indices of the edges that can be taken for the token `s`, the
    /// best first.
    pub fn get_possible_transition_ids(
        &self,
        s: &Word,
        any_mapping: &HashMap<usize, VariableType>,
    ) -> (r: Vec<usize>)
        ensures
            r@.len() == ranked(self@, s@, any_mapping@, self@.len()).len(),
            forall|k: int|
                0 <= k < r@.len() ==> r@[k] as int == (#[trigger] ranked(
                    self@,
                    s@,
                    any_mapping@,
                    self@.len(),
                )[k]).0,
            forall|k: int| 0 <= k < r@.len() ==> 0 <= #[trigger] r@[k] < self@.len(),
    {
        let mut v: Vec<usize> = Vec::new();
        let mut apps: Vec<usize> = Vec::new();
        let mut n: usize = 0;
        while n < self.transitions.len()
            invariant
                n <= self.transitions.len(),
                v@.len() == apps@.len(),
                v@.len() == ranked(self@, s@, any_mapping@, n as nat).len(),
                forall|k: int|
                    0 <= k < v@.len() ==> (v@[k] as int, apps@[k]) == #[trigger] ranked(
                        self@,
                        s@,
                        any_mapping@,
                        n as nat,
                    )[k],
                forall|k: int| 0 <= k < v@.len() ==> 0 <= #[trigger] v@[k] < n,
            decreases self.transitions.len() - n,
        {
            match State::transition_applicability(&self.transitions[n].0, s, any_mapping) {
                Some(a) => {
                    let ghost prev = ranked(self@, s@, any_mapping@, n as nat);
                    let mut i: usize = 0;
                    while i < apps.len() && a <= apps[i]
                        invariant
                            i <= apps@.len(),
                            apps@.len() == prev.len(),
                            forall|k: int| 0 <= k < apps@.len() ==> apps@[k] == (#[trigger] prev[k]).1,
                            rank_position(prev, a, 0) == rank_position(prev, a, i as nat),
                        decreases apps.len() - i,
                    {
                        i += 1;
                    }
                    apps.insert(i, a);
                    v.insert(i, n);
                },
                None => {},
            }
            n += 1;
        }
        v
    }

    /// The words of the edges that can be taken for the token `s`, the best
    /// first.
    pub fn get_possible_transitions(
        &self,
        s: &Word,
        any_mapping: &HashMap<usize, VariableType>,
    ) -> (r: Vec<&Word>)
        ensures
            r@.len() == ranked(self@, s@, any_mapping@, self@.len()).len(),
            forall|k: int|
                0 <= k < r@.len() ==> (#[trigger] r@[k])@ == self@[ranked(
                    self@,
                    s@,
                    any_mapping@,
                    self@.len(),
                )[k].0].0,
    {
        let ids = self.get_possible_transition_ids(s, any_mapping);
        let mut v: Vec<&Word> = Vec::new();
        let mut k: usize = 0;
        while k < ids.len()
            invariant
                k <= ids@.len(),
                v@.len() == k,
                forall|j: int| 0 <= j < ids@.len() ==> 0 <= #[trigger] ids@[j] < self@.len(),
                forall|j: int| 0 <= j < k ==> (#[trigger] v@[j])@ == self@[ids@[j] as int].0,
            decreases ids.len() - k,
        {
            v.push(&self.transitions[ids[k]].0);
            k += 1;
        }
        v
    }

    /// The words of the edges that are labelled with a type, in the order of
    /// the edges.
    pub fn get_type_transitions(&self) -> (r: Vec<&Word>)
        ensures
            r@.len() == type_edges(self@, self@.len()).len(),
            forall|k: int|
                0 <= k < r@.len() ==> (#[trigger] r@[k])@ == self@[type_edges(
                    self@,
                    self@.len(),
                )[k]].0,
    {
        let mut v: Vec<&Word> = Vec::new();
        let mut n: usize = 0;
        while n < self.transitions.len()
            invariant
                n <= self.transitions.len(),
                v@.len() == type_edges(self@, n as nat).len(),
                forall|k: int|
                    0 <= k < v@.len() ==> 0 <= #[trigger] type_edges(self@, n as nat)[k] < n,
                forall|k: int|
                    0 <= k < v@.len() ==> (#[trigger] v@[k])@ == self@[type_edges(
                        self@,
                        n as nat,
                    )[k]].0,
            decreases self.transitions.len() - n,
        {
            if self.transitions[n].0.is_type() {
                v.push(&self.transitions[n].0);
            }
            n += 1;
        }
        v
    }
}

/// The best edge is one of the edges, and it can be taken for the token.
pub proof fn lemma_best_edge_applies(
    edges: Seq<(WordView, usize)>,
    s: WordView,
    mapping: Map<usize, VariableType>,
    n: nat,
)
    requires
        n <= edges.len(),
    ensures
        match best_edge(edges, s, mapping, n) {
            Some((j, a)) => 0 <= j < n && applicability(edges[j].0, s, mapping) == Some(a),
            None => true,
        },
    decreases n,
{
    if n > 0 {
        lemma_best_edge_applies(edges, s, mapping, (n - 1) as nat);
    }
}

} // verus!
