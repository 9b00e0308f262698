//! What holds of every core graph that normalising a statechart yields, and
//! what follows from it.

use crate::ast::core_graph::conflicts::{
    conflicts_among, conflicts_of, in_conflict, indexed, lemma_conflicts_among,
    lemma_in_conflict_symmetric,
};
use crate::ast::core_graph::exits::{
    can_exit, exit_set, exited, lemma_transition_domain, nested_in_range, transition_domain,
};
use crate::ast::core_graph::{CoreView, StateId, StateType, StateView, TransitionId};
use crate::seqs::{all_below, increasing, kept, lemma_kept};
use vstd::prelude::*;

verus! {

/// The children that a state of this shape begins in.
pub open spec fn initial_of(s: StateView) -> Seq<StateId> {
    match s.t {
        StateType::Parallel => s.children,
        StateType::Compound => seq![s.children[0]],
        StateType::HistoryShallow => s.children,
        StateType::HistoryDeep => s.descendants,
        _ => Seq::empty(),
    }
}

/// Whether the kind and the initial children of a state fit its children:
/// a compound state has children, an atomic state has none.
pub open spec fn settled(s: StateView) -> bool {
    &&& s.t == StateType::Compound ==> s.children.len() > 0
    &&& s.t == StateType::Atomic ==> s.children.len() == 0
    &&& s.initial == initial_of(s)
}

/// Whether a state of this kind is meant to hold states.
pub open spec fn may_nest(t: StateType) -> bool {
    t == StateType::Compound || t == StateType::Parallel
}

impl CoreView {
    /// Whether `c` is a state other than the root whose parent is `i`.
    pub open spec fn is_child(self, c: StateId, i: int) -> bool {
        0 < c < self.states.len() && self.states[c as int].parent == i
    }

    /// Whether `d` is a state that has `i` among its ancestors.
    pub open spec fn is_descendant(self, d: StateId, i: int) -> bool {
        d < self.states.len() && self.states[d as int].ancestors.contains(i as StateId)
    }

    /// Whether `t` is a transition whose source is `i`.
    pub open spec fn leaves(self, t: TransitionId, i: int) -> bool {
        t < self.transitions.len() && self.transitions[t as int].source == i
    }

    /// What holds of the state `i`:
    /// it holds its own position;
    /// its ancestors are the path from the root to its parent, which the
    /// root does not have;
    /// its children are the states whose parent it is, its descendants the
    /// states that have it as an ancestor, its transitions those that leave
    /// it, each in document order;
    /// its kind and its initial children fit its children.
    pub open spec fn state_well_formed(self, i: int) -> bool {
        let s = self.states[i];
        &&& s.idx == i
        &&& increasing(s.ancestors)
        &&& all_below(s.ancestors, i)
        &&& i == 0 ==> s.parent == 0 && s.ancestors.len() == 0
        &&& i > 0 ==> s.ancestors.len() > 0 && s.parent == s.ancestors.last()
            && self.states[s.parent as int].ancestors == s.ancestors.drop_last()
        &&& increasing(s.children)
        &&& forall|k: int| 0 <= k < s.children.len() ==> self.is_child(#[trigger] s.children[k], i)
        &&& forall|c: StateId| #[trigger] self.is_child(c, i) ==> s.children.contains(c)
        &&& increasing(s.descendants)
        &&& forall|k: int|
            0 <= k < s.descendants.len() ==> self.is_descendant(#[trigger] s.descendants[k], i)
        &&& forall|d: StateId| #[trigger] self.is_descendant(d, i) ==> s.descendants.contains(d)
        &&& increasing(s.transitions)
        &&& forall|k: int|
            0 <= k < s.transitions.len() ==> self.leaves(#[trigger] s.transitions[k], i)
        &&& forall|t: TransitionId| #[trigger] self.leaves(t, i) ==> s.transitions.contains(t)
        &&& settled(s)
    }

    /// What holds of the transition `t`: it holds its own position, leaves
    /// a state of the graph for states of the graph, and has its exit set
    /// and its conflict set.
    pub open spec fn transition_well_formed(self, t: int) -> bool {
        let transition = self.transitions[t];
        &&& transition.idx == t
        &&& transition.source < self.states.len()
        &&& all_below(transition.targets, self.states.len() as int)
        &&& transition.exits == exit_set(transition, self.states)
        &&& transition.conflicts == conflicts_of(transition, self.transitions, self.states)
    }

    /// Whether only compound and parallel states have children.
    pub open spec fn nests_in_regions(self) -> bool {
        forall|i: int|
            0 <= i < self.states.len() && (#[trigger] self.states[i]).children.len() > 0
                ==> may_nest(self.states[i].t)
    }

    /// Whether the graph is the core graph of a statechart.
    pub open spec fn well_formed(self) -> bool {
        &&& self.states.len() > 0
        &&& self.states[0].t == StateType::Compound || self.states[0].t == StateType::Atomic
        &&& forall|i: int| 0 <= i < self.states.len() ==> #[trigger] self.state_well_formed(i)
        &&& forall|t: int|
            0 <= t < self.transitions.len() ==> #[trigger] self.transition_well_formed(t)
    }
}

/// The ancestors of a state are a chain: each of them has the ones before
/// it as its own ancestors.
pub proof fn lemma_ancestors_chain(g: CoreView, d: int, k: int)
    requires
        g.well_formed(),
        0 <= d < g.states.len(),
        0 <= k < g.states[d].ancestors.len(),
    ensures
        g.states[d].ancestors[k] < d,
        g.states[g.states[d].ancestors[k] as int].ancestors == g.states[d].ancestors.take(k),
    decreases d,
{
    let s = g.states[d];
    assert(g.state_well_formed(d));
    let p = s.parent as int;
    let last = s.ancestors.len() - 1;
    if k == last {
        assert(s.ancestors.take(k) =~= s.ancestors.drop_last());
    } else {
        assert(g.states[p].ancestors[k] == s.ancestors.drop_last()[k]);
        lemma_ancestors_chain(g, p, k);
        assert(g.states[p].ancestors.take(k) =~= s.ancestors.take(k));
    }
}

/// The descendants of a state are in document order, and they are its
/// children and the descendants of its children.
pub proof fn lemma_descendants_of_children(g: CoreView, s: int, d: StateId)
    requires
        g.well_formed(),
        0 <= s < g.states.len(),
    ensures
        increasing(g.states[s].descendants),
        g.states[s].descendants.contains(d) <==> exists|k: int|
            0 <= k < g.states[s].children.len() && (d == #[trigger] g.states[s].children[k]
                || g.states[g.states[s].children[k] as int].descendants.contains(d)),
{
    let state = g.states[s];
    assert(g.state_well_formed(s));
    if state.descendants.contains(d) {
        let j = choose|j: int| 0 <= j < state.descendants.len() && state.descendants[j] == d;
        assert(g.is_descendant(state.descendants[j], s));
        assert(g.state_well_formed(d as int));
        let a = g.states[d as int].ancestors;
        let k = choose|k: int| 0 <= k < a.len() && a[k] == s as StateId;
        let c: StateId = if k == a.len() - 1 {
            d
        } else {
            a[k + 1]
        };
        if k < a.len() - 1 {
            lemma_ancestors_chain(g, d as int, k + 1);
            assert(g.state_well_formed(c as int));
            assert(a.take(k + 1)[k] == s);
            assert(g.states[c as int].parent == s);
            assert(g.is_descendant(d, c as int));
        }
        assert(g.is_child(c, s));
        let i = choose|i: int| 0 <= i < state.children.len() && state.children[i] == c;
        assert(d == state.children[i] || g.states[state.children[i] as int].descendants.contains(
            d,
        ));
    }
    if exists|k: int|
        0 <= k < state.children.len() && (d == #[trigger] state.children[k]
            || g.states[state.children[k] as int].descendants.contains(d)) {
        let k = choose|k: int|
            0 <= k < state.children.len() && (d == #[trigger] state.children[k]
                || g.states[state.children[k] as int].descendants.contains(d));
        let c = state.children[k];
        assert(g.is_child(c, s));
        assert(g.state_well_formed(c as int));
        let up = g.states[c as int].ancestors;
        assert(up[up.len() - 1] == s);
        if d == c {
            assert(g.is_descendant(d, s));
        } else {
            let below = g.states[c as int].descendants;
            let j = choose|j: int| 0 <= j < below.len() && below[j] == d;
            assert(g.is_descendant(below[j], c as int));
            let a = g.states[d as int].ancestors;
            let i = choose|i: int| 0 <= i < a.len() && a[i] == c;
            lemma_ancestors_chain(g, d as int, i);
            assert(a.take(i)[i - 1] == s);
            assert(a[i - 1] == s);
            assert(g.is_descendant(d, s));
        }
    }
}

/// In the core graph of a statechart, every state names states of the graph.
pub proof fn lemma_nested_in_range(g: CoreView)
    requires
        g.well_formed(),
    ensures
        nested_in_range(g.states),
{
    let n = g.states.len() as int;
    assert forall|i: int| 0 <= i < n implies (#[trigger] g.states[i]).nested_below(n) by {
        let s = g.states[i];
        assert(g.state_well_formed(i));
        assert forall|k: int| 0 <= k < s.children.len() implies s.children[k] < n by {
            assert(g.is_child(s.children[k], i));
        }
        assert forall|k: int| 0 <= k < s.descendants.len() implies s.descendants[k] < n by {
            assert(g.is_descendant(s.descendants[k], i));
        }
    }
}

/// The domain of a transition is a state of the graph.
pub proof fn lemma_domain(g: CoreView, t: int)
    requires
        g.well_formed(),
        0 <= t < g.transitions.len(),
    ensures
        exists|i: int|
            0 <= i < g.states.len() && #[trigger] g.states[i] == transition_domain(
                g.transitions[t],
                g.states,
            ),
{
    assert(g.transition_well_formed(t));
    lemma_nested_in_range(g);
    lemma_transition_domain(g.transitions[t], g.states);
}

/// The exit set of a transition is in document order, and holds states of
/// the graph that can be left.
pub proof fn lemma_exits(g: CoreView, t: int)
    requires
        g.well_formed(),
        0 <= t < g.transitions.len(),
    ensures
        increasing(g.transitions[t].exits),
        forall|k: int|
            0 <= k < g.transitions[t].exits.len() ==> (#[trigger] g.transitions[t].exits[k])
                < g.states.len() && can_exit(g.states[g.transitions[t].exits[k] as int].t),
{
    let transition = g.transitions[t];
    assert(g.transition_well_formed(t));
    lemma_domain(g, t);
    let i = choose|i: int|
        0 <= i < g.states.len() && #[trigger] g.states[i] == transition_domain(
            transition,
            g.states,
        );
    assert(g.state_well_formed(i));
    let below = g.states[i].descendants;
    let keep = exited(g.states, transition.targets);
    lemma_kept(below, keep, below.len() as int);
    assert forall|k: int| 0 <= k < transition.exits.len() implies (#[trigger] transition.exits[k])
        < g.states.len() && can_exit(g.states[transition.exits[k] as int].t) by {
        let d = kept(below, keep, below.len() as int)[k];
        assert(keep(d));
        let j = choose|j: int| 0 <= j < below.len() && below[j] == d;
        assert(g.is_descendant(below[j], i));
    }
}

/// The conflict set of a transition is in document order and does not hold
/// the transition itself; and a transition is in the conflict set of
/// another exactly where the other is in its own.
pub proof fn lemma_conflicts(g: CoreView, t1: int, t2: int)
    requires
        g.well_formed(),
        0 <= t1 < g.transitions.len(),
        0 <= t2 < g.transitions.len(),
    ensures
        increasing(g.transitions[t1].conflicts),
        all_below(g.transitions[t1].conflicts, g.transitions.len() as int),
        !g.transitions[t1].conflicts.contains(t1 as TransitionId),
        g.transitions[t1].conflicts.contains(t2 as TransitionId)
            <==> g.transitions[t2].conflicts.contains(t1 as TransitionId),
        g.transitions[t1].conflicts.contains(t2 as TransitionId) <==> t1 != t2 && in_conflict(
            g.transitions[t1],
            g.transitions[t2],
            g.states,
        ),
{
    let m = g.transitions.len() as int;
    let a = g.transitions[t1];
    let b = g.transitions[t2];
    assert(g.transition_well_formed(t1));
    assert(g.transition_well_formed(t2));
    assert(indexed(g.transitions)) by {
        assert forall|i: int| 0 <= i < m implies (#[trigger] g.transitions[i]).idx == i by {
            assert(g.transition_well_formed(i));
        }
    }
    lemma_conflicts_among(a, g.transitions, g.states, m);
    lemma_conflicts_among(b, g.transitions, g.states, m);
    lemma_in_conflict_symmetric(a, b, g.states);
    if a.conflicts.contains(t1 as TransitionId) {
        let k = choose|k: int| 0 <= k < a.conflicts.len() && a.conflicts[k] == t1 as TransitionId;
        assert(a.conflicts[k] != a.idx);
    }
    if a.conflicts.contains(t2 as TransitionId) {
        let k = choose|k: int| 0 <= k < a.conflicts.len() && a.conflicts[k] == t2 as TransitionId;
        assert(a.conflicts[k] != a.idx && in_conflict(a, g.transitions[a.conflicts[k] as int], g.states));
        assert(in_conflict(b, g.transitions[t1], g.states));
    }
    if b.conflicts.contains(t1 as TransitionId) {
        let k = choose|k: int| 0 <= k < b.conflicts.len() && b.conflicts[k] == t1 as TransitionId;
        assert(b.conflicts[k] != b.idx && in_conflict(b, g.transitions[b.conflicts[k] as int], g.states));
        assert(in_conflict(a, g.transitions[t2], g.states));
    }
    assert forall|k: int| 0 <= k < a.conflicts.len() implies a.conflicts[k] < m by {
        let j = conflicts_among(a, g.transitions, g.states, m)[k];
        assert(j < m);
    }
}

/// In the core graph of a statechart, every index names a state or a
/// transition of the graph.
pub proof fn lemma_refs_in_range(g: CoreView)
    requires
        g.well_formed(),
    ensures
        g.refs_in_range(),
{
    let n = g.states.len() as int;
    let m = g.transitions.len() as int;
    lemma_nested_in_range(g);
    assert forall|i: int| 0 <= i < n implies (#[trigger] g.states[i]).refs_below(n, m) by {
        let s = g.states[i];
        assert(g.state_well_formed(i));
        assert(s.nested_below(n));
        assert forall|k: int| 0 <= k < s.transitions.len() implies s.transitions[k] < m by {
            assert(g.leaves(s.transitions[k], i));
        }
    }
    assert forall|t: int| 0 <= t < m implies (#[trigger] g.transitions[t]).refs_below(n, m) by {
        assert(g.transition_well_formed(t));
        lemma_exits(g, t);
        lemma_conflicts(g, t, t);
    }
}

} // verus!
