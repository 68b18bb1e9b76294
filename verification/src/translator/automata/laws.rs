use crate::translator::automata::automaton::{
    lemma_exact_from_none, lemma_exact_from_push, lemma_rank_position_bounds,
    lemma_ranked_applies, lemma_with_edge_wf, AutomatonView,
};
use crate::translator::automata::state::{
    applicability, bound, distinct_words, exact_from, exact_target, lemma_top_score_is_equality,
    rank_position, ranked, type_applicability,
};
use crate::translator::words::{SequenceValue, WordView};
use crate::variable::types::{
    lemma_loosely_equal_symmetric, lemma_loosely_equal_unambiguous, VariableType,
};
use vstd::prelude::*;

verus! {

/// Whether the automaton `b` holds all of `a`: its states with their edges in
/// front of what was added, and its values.
pub open spec fn extends(a: AutomatonView, b: AutomatonView) -> bool {
    &&& a.states.len() <= b.states.len()
    &&& forall|i: int|
        0 <= i < a.states.len() ==> a.states[i].len() <= (#[trigger] b.states[i]).len()
    &&& forall|i: int, k: int|
        0 <= i < a.states.len() && 0 <= k < a.states[i].len() ==> (#[trigger] b.states[i][k])
            == a.states[i][k]
    &&& forall|s: usize|
        a.values.contains_key(s) ==> #[trigger] b.values.contains_key(s) && b.values[s]
            == a.values[s]
}

/// Whether an edge labelled with the type `e` may be taken for a token of
/// the type `s`, whatever was bound before: the two are loosely equal, or
/// `e` is a placeholder, or both are `Vec`s and the same holds of their
/// elements.
pub open spec fn type_admits(e: VariableType, s: VariableType) -> bool
    decreases e,
{
    e.loosely_equal(s) || match (e, s) {
        (VariableType::Any(_), _) => true,
        (VariableType::Vec(x), VariableType::Vec(y)) => type_admits(*x, *y),
        _ => false,
    }
}

/// Whether an edge with the word `e` may be taken for the token `s`: the
/// same keyword, or a type that admits the token's type.
pub open spec fn admits(e: WordView, s: WordView) -> bool {
    match (e, s) {
        (WordView::Keyword(a), WordView::Keyword(b)) => a == b,
        (WordView::Type(x), WordView::Type(y)) => type_admits(x, y),
        _ => false,
    }
}

/// No word of the sequence holds a placeholder.
pub open spec fn unambiguous(seq: Seq<WordView>) -> bool {
    forall|i: int| 0 <= i < seq.len() ==> !(#[trigger] seq[i]).ambiguous()
}

/// At most one of the edges carries a word that is loosely equal to `w`.
pub open spec fn alone(edges: Seq<(WordView, usize)>, w: WordView) -> bool {
    forall|k: int, j: int|
        0 <= k < edges.len() && 0 <= j < edges.len() && (#[trigger] edges[k]).0.loosely_equal(w) && (
        #[trigger] edges[j]).0.loosely_equal(w) ==> k == j
}

/// Along the walk of the words of `seq` from `from` on, which starts in
/// `cur`, no word of a type finds a second edge that is loosely equal to it:
/// no edge that differs from the word in a binding alone stands beside the
/// edge of the word.
pub open spec fn unshadowed(a: AutomatonView, seq: Seq<WordView>, from: nat, cur: int) -> bool
    decreases seq.len() - from,
{
    if from >= seq.len() || !(0 <= cur < a.states.len()) {
        true
    } else {
        match exact_target(a.states[cur], seq[from as int]) {
            Some(n) => (seq[from as int] is Type ==> alone(a.states[cur], seq[from as int]))
                && unshadowed(a, seq, from + 1, n as int),
            None => true,
        }
    }
}

/// A word without a placeholder is loosely equal to the word of one edge at
/// most.
pub proof fn lemma_unambiguous_alone(edges: Seq<(WordView, usize)>, w: WordView)
    requires
        distinct_words(edges),
        !w.ambiguous(),
    ensures
        alone(edges, w),
{
    assert forall|k: int, j: int|
        0 <= k < edges.len() && 0 <= j < edges.len() && (#[trigger] edges[k]).0.loosely_equal(w) && (
        #[trigger] edges[j]).0.loosely_equal(w) implies k == j by {
        match (edges[k].0, edges[j].0, w) {
            (WordView::Type(x), WordView::Type(y), WordView::Type(t)) => {
                lemma_loosely_equal_symmetric(x, t);
                lemma_loosely_equal_unambiguous(t, x);
                lemma_loosely_equal_symmetric(y, t);
                lemma_loosely_equal_unambiguous(t, y);
            },
            _ => {},
        }
        if k != j {
            if k < j {
                assert(edges[k].0 != edges[j].0);
            } else {
                assert(edges[j].0 != edges[k].0);
            }
        }
    }
}

/// The walk of a sequence without placeholders is unshadowed.
pub proof fn lemma_unambiguous_unshadowed(a: AutomatonView, seq: Seq<WordView>, from: nat, cur: int)
    requires
        a.wf(),
        unambiguous(seq),
    ensures
        unshadowed(a, seq, from, cur),
    decreases seq.len() - from,
{
    if from < seq.len() && 0 <= cur < a.states.len() {
        match exact_target(a.states[cur], seq[from as int]) {
            Some(n) => {
                lemma_unambiguous_alone(a.states[cur], seq[from as int]);
                lemma_unambiguous_unshadowed(a, seq, from + 1, n as int);
            },
            None => {},
        }
    }
}

/// The target of an edge stays its target when edges are added behind the
/// edges of its state.
proof fn lemma_exact_from_prefix(
    short: Seq<(WordView, usize)>,
    long: Seq<(WordView, usize)>,
    w: WordView,
    from: nat,
)
    requires
        short.len() <= long.len(),
        forall|k: int| 0 <= k < short.len() ==> long[k] == short[k],
        exact_from(short, w, from) is Some,
    ensures
        exact_from(long, w, from) == exact_from(short, w, from),
    decreases short.len() - from,
{
    if from < short.len() && short[from as int].0 != w {
        lemma_exact_from_prefix(short, long, w, from + 1);
    }
}

/// A walk depends only on the words that it reads.
proof fn lemma_walk_reads_suffix(
    a: AutomatonView,
    s1: Seq<WordView>,
    s2: Seq<WordView>,
    from: nat,
    cur: int,
)
    requires
        s1.len() == s2.len(),
        forall|i: int| from <= i < s1.len() ==> s1[i] == s2[i],
    ensures
        a.walk(s1, from, cur) == a.walk(s2, from, cur),
    decreases s1.len() - from,
{
    if from < s1.len() && 0 <= cur < a.states.len() {
        match exact_target(a.states[cur], s1[from as int]) {
            Some(n) => {
                lemma_walk_reads_suffix(a, s1, s2, from + 1, n as int);
            },
            None => {},
        }
    }
}

/// A walk of an automaton is a walk of every automaton that extends it.
pub proof fn lemma_walk_extends(
    a: AutomatonView,
    b: AutomatonView,
    seq: Seq<WordView>,
    from: nat,
    cur: int,
)
    requires
        a.wf(),
        extends(a, b),
        0 <= cur < a.states.len(),
        a.walk(seq, from, cur) is Some,
    ensures
        b.walk(seq, from, cur) == a.walk(seq, from, cur),
        0 <= a.walk(seq, from, cur)->Some_0 < a.states.len(),
    decreases seq.len() - from,
{
    if from < seq.len() {
        let w = seq[from as int];
        let n = exact_target(a.states[cur], w)->Some_0;
        lemma_exact_from_prefix(a.states[cur], b.states[cur], w, 0);
        lemma_exact_from_none(a.states[cur], w, 0);
        lemma_walk_extends(a, b, seq, from + 1, n as int);
    }
}

/// Growing an automaton along a sequence keeps it well formed, keeps what it
/// held, and makes the sequence walkable; where the sequence was walkable
/// before, nothing changes.
pub proof fn lemma_grown(a: AutomatonView, seq: Seq<WordView>, from: nat, cur: int)
    requires
        a.wf(),
        0 <= cur < a.states.len(),
        from <= seq.len(),
        a.states.len() + (seq.len() - from) <= usize::MAX,
    ensures
        ({
            let (b, end) = a.grown(seq, from, cur);
            &&& b.wf()
            &&& extends(a, b)
            &&& b.values == a.values
            &&& 0 <= end < b.states.len()
            &&& b.walk(seq, from, cur) == Some(end)
            &&& a.walk(seq, from, cur) is Some ==> b == a
            &&& a.walk(seq, from, cur) is None ==> end >= a.states.len()
        }),
    decreases seq.len() - from,
{
    if from < seq.len() {
        let w = seq[from as int];
        match exact_target(a.states[cur], w) {
            Some(n) => {
                lemma_exact_from_none(a.states[cur], w, 0);
                lemma_grown(a, seq, from + 1, n as int);
                let (b, end) = a.grown(seq, from + 1, n as int);
                assert forall|k: int| 0 <= k < a.states[cur].len() implies b.states[cur][k]
                    == a.states[cur][k] by {}
                lemma_exact_from_prefix(a.states[cur], b.states[cur], w, 0);
            },
            None => {
                let c = a.with_edge(cur, w);
                let id = a.states.len() as int;
                lemma_with_edge_wf(a, cur, w);
                lemma_grown(c, seq, from + 1, id);
                let (b, end) = c.grown(seq, from + 1, id);
                lemma_exact_from_push(a.states[cur], w, 0, (w, id as usize));
                assert(c.states[cur] == a.states[cur].push((w, id as usize)));
                assert(exact_target(c.states[cur], w) == Some(id as usize));
                assert(extends(a, c)) by {
                    assert forall|i: int| 0 <= i < a.states.len() implies a.states[i].len() <= (
                    #[trigger] c.states[i]).len() by {}
                    assert forall|i: int, k: int|
                        0 <= i < a.states.len() && 0 <= k < a.states[i].len() implies (
                    #[trigger] c.states[i][k]) == a.states[i][k] by {}
                }
                lemma_exact_from_prefix(c.states[cur], b.states[cur], w, 0);
                assert(extends(a, b)) by {
                    assert forall|i: int| 0 <= i < a.states.len() implies a.states[i].len() <= (
                    #[trigger] b.states[i]).len() by {
                        assert(a.states[i].len() <= c.states[i].len());
                    }
                    assert forall|i: int, k: int|
                        0 <= i < a.states.len() && 0 <= k < a.states[i].len() implies (
                    #[trigger] b.states[i][k]) == a.states[i][k] by {
                        assert(c.states[i][k] == a.states[i][k]);
                        assert(b.states[i][k] == c.states[i][k]);
                    }
                }
                if c.walk(seq, from + 1, id) is None {
                    assert(end >= c.states.len());
                } else {
                    lemma_walk_extends(c, c, seq, from + 1, id);
                    lemma_fresh_state_walk(c, seq, from + 1, id);
                }
            },
        }
    }
}

/// A walk from a state without edges ends there or fails.
proof fn lemma_fresh_state_walk(a: AutomatonView, seq: Seq<WordView>, from: nat, cur: int)
    requires
        0 <= cur < a.states.len(),
        a.states[cur].len() == 0,
        a.walk(seq, from, cur) is Some,
    ensures
        a.walk(seq, from, cur) == Some(cur),
{
}

/// The union registers the value of a sequence that had none, leaves an
/// automaton that has one for it as it is, and keeps every value that was
/// registered before.
pub proof fn lemma_union_registers(a: AutomatonView, seq: Seq<WordView>, v: SequenceValue)
    requires
        a.wf(),
        a.states.len() + seq.len() <= usize::MAX,
    ensures
        a.unioned(seq, Some(v)).wf(),
        extends(a, a.unioned(seq, Some(v))),
        a.registered(seq) is None ==> a.unioned(seq, Some(v)).registered(seq) == Some(v),
        a.registered(seq) is Some ==> a.unioned(seq, Some(v)) == a,
        forall|other: Seq<WordView>| #[trigger]
            a.registered(other) is Some ==> a.unioned(seq, Some(v)).registered(other)
                == a.registered(other),
{
    let (b, end) = a.grown(seq, 0, 0);
    let u = a.unioned(seq, Some(v));
    lemma_grown(a, seq, 0, 0);
    assert(extends(b, u));
    assert(extends(a, u));
    assert(u.wf());
    lemma_walk_extends(b, u, seq, 0, 0);
    assert forall|other: Seq<WordView>| #[trigger] a.registered(other) is Some implies u.registered(
        other,
    ) == a.registered(other) by {
        lemma_walk_extends(a, u, other, 0, 0);
    }
    if a.registered(seq) is Some {
        assert(b == a);
        assert(u.values =~= a.values);
    }
}

/// What an edge scores for a token, it admits.
pub proof fn lemma_applicable_admits(
    e: VariableType,
    s: VariableType,
    mapping: Map<usize, VariableType>,
    unwind: bool,
)
    requires
        type_applicability(e, s, mapping, unwind) is Some,
    ensures
        type_admits(e, s),
    decreases e,
{
    if !e.loosely_equal(s) {
        match (e, s) {
            (VariableType::Vec(x), VariableType::Vec(y)) => {
                lemma_applicable_admits(*x, *y, mapping, true);
            },
            _ => {},
        }
    }
}

/// Where the edge that carries the very word of the token is the only one
/// that is loosely equal to the token, it is the first of the ranking.
pub proof fn lemma_ranked_head(
    edges: Seq<(WordView, usize)>,
    s: WordView,
    mapping: Map<usize, VariableType>,
    n: nat,
    j: int,
)
    requires
        alone(edges, s),
        0 <= j < n <= edges.len(),
        edges[j].0 == s,
        s is Type,
    ensures
        ranked(edges, s, mapping, n).len() > 0,
        ranked(edges, s, mapping, n)[0] == (j, usize::MAX),
    decreases n,
{
    let prev = ranked(edges, s, mapping, (n - 1) as nat);
    lemma_ranked_applies(edges, s, mapping, (n - 1) as nat);
    let st = s->Type_0;
    crate::variable::types::lemma_loosely_equal_reflexive(st);
    if n - 1 == j {
        lemma_top_score_is_equality(st, st, mapping, true);
        if prev.len() > 0 {
            let e = prev[0];
            lemma_other_edge_scores_less(edges, s, mapping, e.0, j);
        }
    } else {
        lemma_ranked_head(edges, s, mapping, (n - 1) as nat, j);
        match applicability(edges[n - 1].0, s, mapping) {
            Some(a) => {
                lemma_other_edge_scores_less(edges, s, mapping, n - 1, j);
                lemma_rank_position_bounds(prev, a, 1);
                assert(rank_position(prev, a, 0) == rank_position(prev, a, 1));
            },
            None => {},
        }
    }
}

/// Where one edge alone is loosely equal to the token, every other edge
/// scores less than the highest score.
proof fn lemma_other_edge_scores_less(
    edges: Seq<(WordView, usize)>,
    s: WordView,
    mapping: Map<usize, VariableType>,
    k: int,
    j: int,
)
    requires
        alone(edges, s),
        0 <= j < edges.len(),
        0 <= k < edges.len(),
        k != j,
        edges[j].0 == s,
        s is Type,
    ensures
        applicability(edges[k].0, s, mapping) != Some(usize::MAX),
{
    let st = s->Type_0;
    crate::variable::types::lemma_loosely_equal_reflexive(st);
    assert(edges[j].0.loosely_equal(s));
    match edges[k].0 {
        WordView::Type(t) => {
            lemma_top_score_is_equality(t, st, mapping, true);
            if t.loosely_equal(st) {
                assert(edges[k].0.loosely_equal(s));
            }
        },
        _ => {},
    }
}

/// A run from a state finds the value at the end of the walk of a sequence
/// whose walk is unshadowed, whatever was bound before.
pub proof fn lemma_run_follows_walk(
    a: AutomatonView,
    seq: Seq<WordView>,
    from: nat,
    start: int,
    mapping: Map<usize, VariableType>,
)
    requires
        a.wf(),
        unshadowed(a, seq, from, start),
        0 <= start < a.states.len(),
        a.walk(seq, from, start) is Some,
        a.value_at(a.walk(seq, from, start)->Some_0) is Some,
    ensures
        a.run_from(seq, from, start, mapping) == a.value_at(a.walk(seq, from, start)->Some_0),
    decreases seq.len() - from,
{
    if from < seq.len() {
        let w = seq[from as int];
        let edges = a.states[start];
        let n = exact_target(edges, w)->Some_0;
        lemma_exact_from_none(edges, w, 0);
        let j = choose|k: int| 0 <= k < edges.len() && (#[trigger] edges[k]).0 == w && edges[k].1 == n;
        assert(a.states[start][j].1 == n);
        assert(a.walk(seq, from, start) == a.walk(seq, from + 1, n as int));
        match w {
            WordView::Type(_) => {
                let m2 = bound(mapping, edges[j].0, w);
                lemma_run_follows_walk(a, seq, from + 1, n as int, m2);
                lemma_ranked_head(edges, w, mapping, edges.len(), j);
                let order = ranked(edges, w, mapping, edges.len());
                assert(order[0].0 == j);
                assert(a.try_edges(seq, from, start, mapping, order, 0) == a.run_from(
                    seq,
                    from + 1,
                    n as int,
                    m2,
                ));
                assert(a.run_from(seq, from, start, mapping) == a.try_edges(
                    seq,
                    from,
                    start,
                    mapping,
                    order,
                    0,
                ));
            },
            WordView::Keyword(_) => {
                lemma_run_follows_walk(a, seq, from + 1, n as int, mapping);
                assert(a.run_from(seq, from, start, mapping) == a.run_from(
                    seq,
                    from + 1,
                    n as int,
                    mapping,
                ));
            },
        }
    }
}

/// A sequence that has a value registered resolves to that value, whatever
/// else is registered, if its walk is unshadowed.
pub proof fn lemma_run_finds_registered(a: AutomatonView, seq: Seq<WordView>, v: SequenceValue)
    requires
        a.wf(),
        unshadowed(a, seq, 0, 0),
        a.registered(seq) == Some(v),
    ensures
        a.run(seq) == Some(v),
{
    lemma_run_follows_walk(a, seq, 0, 0, Map::empty());
}

/// A sequence without placeholders that has a value registered resolves to
/// that value, whatever else is registered.
pub proof fn lemma_run_finds_concrete(a: AutomatonView, seq: Seq<WordView>, v: SequenceValue)
    requires
        a.wf(),
        unambiguous(seq),
        a.registered(seq) == Some(v),
    ensures
        a.run(seq) == Some(v),
{
    lemma_unambiguous_unshadowed(a, seq, 0, 0);
    lemma_run_finds_registered(a, seq, v);
}

/// Where a sequence with a concrete type at `at` and the same sequence with
/// a placeholder there are both registered, the concrete sequence resolves
/// to its own value.
pub proof fn lemma_specific_before_generic(
    a: AutomatonView,
    seq: Seq<WordView>,
    at: int,
    binding: usize,
    specific: SequenceValue,
    generic: SequenceValue,
)
    requires
        a.wf(),
        unambiguous(seq),
        0 <= at < seq.len(),
        seq[at] is Type,
        a.registered(seq) == Some(specific),
        a.registered(seq.update(at, WordView::Type(VariableType::Any(binding)))) == Some(generic),
    ensures
        a.run(seq) == Some(specific),
{
    lemma_run_finds_concrete(a, seq, specific);
}

/// A run returns a value only along a path: there is a registered sequence
/// with that value whose words, one by one, admit the tokens.
pub proof fn lemma_run_needs_path(
    a: AutomatonView,
    seq: Seq<WordView>,
    from: nat,
    start: int,
    mapping: Map<usize, VariableType>,
)
    requires
        a.wf(),
        0 <= start < a.states.len(),
        from <= seq.len(),
        a.run_from(seq, from, start, mapping) is Some,
    ensures
        exists|reg: Seq<WordView>|
            {
                &&& reg.len() == seq.len()
                &&& #[trigger] a.walk(reg, from, start) is Some
                &&& a.value_at(a.walk(reg, from, start)->Some_0) == a.run_from(
                    seq,
                    from,
                    start,
                    mapping,
                )
                &&& forall|i: int| from <= i < seq.len() ==> admits(reg[i], seq[i])
            },
    decreases seq.len() - from, 1nat, 0nat,
{
    if from >= seq.len() {
        assert(a.walk(seq, from, start) is Some);
    } else {
        let w = seq[from as int];
        let edges = a.states[start];
        match w {
            WordView::Type(_) => {
                let order = ranked(edges, w, mapping, edges.len());
                lemma_try_needs_path(a, seq, from, start, mapping, order, 0);
            },
            WordView::Keyword(_) => {
                let n = exact_target(edges, w)->Some_0;
                lemma_exact_from_none(edges, w, 0);
                lemma_run_needs_path(a, seq, from + 1, n as int, mapping);
                let reg1 = choose|reg: Seq<WordView>|
                    {
                        &&& reg.len() == seq.len()
                        &&& #[trigger] a.walk(reg, from + 1, n as int) is Some
                        &&& a.value_at(a.walk(reg, from + 1, n as int)->Some_0) == a.run_from(
                            seq,
                            from + 1,
                            n as int,
                            mapping,
                        )
                        &&& forall|i: int| from + 1 <= i < seq.len() ==> admits(reg[i], seq[i])
                    };
                let reg = reg1.update(from as int, w);
                lemma_walk_reads_suffix(a, reg, reg1, from + 1, n as int);
                assert(a.walk(reg, from, start) == a.walk(reg, from + 1, n as int));
                assert forall|i: int| from <= i < seq.len() implies admits(reg[i], seq[i]) by {
                    if i > from {
                        assert(reg[i] == reg1[i]);
                    }
                }
            },
        }
    }
}

/// `lemma_run_needs_path` for the edges of a ranking from the `k`-th on.
proof fn lemma_try_needs_path(
    a: AutomatonView,
    seq: Seq<WordView>,
    from: nat,
    start: int,
    mapping: Map<usize, VariableType>,
    order: Seq<(int, usize)>,
    k: nat,
)
    requires
        a.wf(),
        0 <= start < a.states.len(),
        from < seq.len(),
        seq[from as int] is Type,
        order == ranked(
            a.states[start],
            seq[from as int],
            mapping,
            a.states[start].len(),
        ),
        a.try_edges(seq, from, start, mapping, order, k) is Some,
    ensures
        exists|reg: Seq<WordView>|
            {
                &&& reg.len() == seq.len()
                &&& #[trigger] a.walk(reg, from, start) is Some
                &&& a.value_at(a.walk(reg, from, start)->Some_0) == a.try_edges(
                    seq,
                    from,
                    start,
                    mapping,
                    order,
                    k,
                )
                &&& forall|i: int| from <= i < seq.len() ==> admits(reg[i], seq[i])
            },
    decreases seq.len() - from, 0nat, order.len() - k,
{
    let w = seq[from as int];
    let edges = a.states[start];
    let edge = edges[order[k as int].0];
    let m2 = bound(mapping, edge.0, w);
    lemma_ranked_applies(edges, w, mapping, edges.len());
    match a.run_from(seq, from + 1, edge.1 as int, m2) {
        Some(v) => {
            lemma_run_needs_path(a, seq, from + 1, edge.1 as int, m2);
            let reg1 = choose|reg: Seq<WordView>|
                {
                    &&& reg.len() == seq.len()
                    &&& #[trigger] a.walk(reg, from + 1, edge.1 as int) is Some
                    &&& a.value_at(a.walk(reg, from + 1, edge.1 as int)->Some_0) == a.run_from(
                        seq,
                        from + 1,
                        edge.1 as int,
                        m2,
                    )
                    &&& forall|i: int| from + 1 <= i < seq.len() ==> admits(reg[i], seq[i])
                };
            let reg = reg1.update(from as int, edge.0);
            lemma_walk_reads_suffix(a, reg, reg1, from + 1, edge.1 as int);
            lemma_distinct_exact(edges, order[k as int].0);
            assert(a.walk(reg, from, start) == a.walk(reg, from + 1, edge.1 as int));
            assert(admits(edge.0, w)) by {
                match (edge.0, w) {
                    (WordView::Type(x), WordView::Type(y)) => {
                        lemma_applicable_admits(x, y, mapping, true);
                    },
                    _ => {},
                }
            }
            assert forall|i: int| from <= i < seq.len() implies admits(reg[i], seq[i]) by {
                if i > from {
                    assert(reg[i] == reg1[i]);
                }
            }
        },
        None => {
            lemma_try_needs_path(a, seq, from, start, mapping, order, k + 1);
        },
    }
}

/// Among edges with distinct words, the word of an edge leads to the target
/// of that edge.
pub proof fn lemma_distinct_exact(edges: Seq<(WordView, usize)>, j: int)
    requires
        distinct_words(edges),
        0 <= j < edges.len(),
    ensures
        exact_target(edges, edges[j].0) == Some(edges[j].1),
{
    lemma_exact_from_none(edges, edges[j].0, 0);
}

/// A sequence that no registered sequence admits, word by word, resolves to
/// nothing.
pub proof fn lemma_run_rejects_unregistered(a: AutomatonView, seq: Seq<WordView>)
    requires
        a.wf(),
        forall|reg: Seq<WordView>|
            reg.len() == seq.len() && #[trigger] a.registered(reg) is Some ==> exists|i: int|
                0 <= i < seq.len() && !admits(reg[i], seq[i]),
    ensures
        a.run(seq) is None,
{
    if a.run(seq) is Some {
        lemma_run_needs_path(a, seq, 0, 0, Map::empty());
        let reg = choose|reg: Seq<WordView>|
            {
                &&& reg.len() == seq.len()
                &&& #[trigger] a.walk(reg, 0, 0) is Some
                &&& a.value_at(a.walk(reg, 0, 0)->Some_0) == a.run_from(seq, 0, 0, Map::empty())
                &&& forall|i: int| 0 <= i < seq.len() ==> admits(reg[i], seq[i])
            };
        assert(a.registered(reg) is Some);
    }
}

} // verus!
