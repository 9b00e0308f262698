//! The conflict set of a transition: the transitions that cannot be taken in
//! the same microstep.

use crate::ast::core_graph::exits::{get_transition_source, nested_in_range, transition_source};
use crate::ast::core_graph::{
    states_view, transitions_view, State, StateId, StateView, Transition, TransitionId,
    TransitionView,
};
use crate::seqs::{contains, increasing};
use vstd::prelude::*;

verus! {

/// Whether some member of `a` is a member of `b`.
pub open spec fn intersects(a: Seq<StateId>, b: Seq<StateId>) -> bool {
    exists|i: int| 0 <= i < a.len() && b.contains(#[trigger] a[i])
}

/// Whether two transitions conflict: they leave the same state, or have an
/// exited state in common, or one leaves a state inside the state that the
/// other leaves.
pub open spec fn in_conflict(
    t1: TransitionView,
    t2: TransitionView,
    states: Seq<StateView>,
) -> bool {
    let s1 = transition_source(t1, states);
    let s2 = transition_source(t2, states);
    ||| s1.idx == s2.idx
    ||| intersects(t1.exits, t2.exits)
    ||| s1.descendants.contains(s2.idx)
    ||| s2.descendants.contains(s1.idx)
}

/// The indices of those of the first `n` transitions that are not `t` and
/// conflict with it.
pub open spec fn conflicts_among(
    t: TransitionView,
    transitions: Seq<TransitionView>,
    states: Seq<StateView>,
    n: int,
) -> Seq<TransitionId>
    decreases n,
{
    if n <= 0 {
        Seq::empty()
    } else {
        let other = transitions[n - 1];
        let before = conflicts_among(t, transitions, states, n - 1);
        if other.idx != t.idx && in_conflict(t, other, states) {
            before.push(other.idx)
        } else {
            before
        }
    }
}

/// The conflict set of `t` among `transitions`.
pub open spec fn conflicts_of(
    t: TransitionView,
    transitions: Seq<TransitionView>,
    states: Seq<StateView>,
) -> Seq<TransitionId> {
    conflicts_among(t, transitions, states, transitions.len() as int)
}

/// The transitions, each with its conflict set among them.
pub open spec fn with_conflicts(
    transitions: Seq<TransitionView>,
    states: Seq<StateView>,
) -> Seq<TransitionView> {
    Seq::new(
        transitions.len(),
        |i: int|
            TransitionView {
                conflicts: conflicts_of(transitions[i], transitions, states),
                ..transitions[i]
            },
    )
}

/// Whether every transition leaves a state of `states`.
pub open spec fn sources_in_range(
    transitions: Seq<TransitionView>,
    states: Seq<StateView>,
) -> bool {
    forall|i: int| 0 <= i < transitions.len() ==> (#[trigger] transitions[i]).source < states.len()
}

/// Whether each transition holds its own position.
pub open spec fn indexed(transitions: Seq<TransitionView>) -> bool {
    forall|i: int| 0 <= i < transitions.len() ==> (#[trigger] transitions[i]).idx == i
}

/// Two sequences have a member in common whichever is asked first.
pub proof fn lemma_intersects_symmetric(a: Seq<StateId>, b: Seq<StateId>)
    ensures
        intersects(a, b) == intersects(b, a),
{
    if intersects(a, b) {
        let i = choose|i: int| 0 <= i < a.len() && b.contains(#[trigger] a[i]);
        let j = choose|j: int| 0 <= j < b.len() && b[j] == a[i];
        assert(a.contains(b[j]));
    }
    if intersects(b, a) {
        let i = choose|i: int| 0 <= i < b.len() && a.contains(#[trigger] b[i]);
        let j = choose|j: int| 0 <= j < a.len() && a[j] == b[i];
        assert(b.contains(a[j]));
    }
}

/// Two transitions conflict whichever is asked first.
pub proof fn lemma_in_conflict_symmetric(
    t1: TransitionView,
    t2: TransitionView,
    states: Seq<StateView>,
)
    ensures
        in_conflict(t1, t2, states) == in_conflict(t2, t1, states),
{
    lemma_intersects_symmetric(t1.exits, t2.exits);
}

/// Among transitions that hold their own positions, the conflicts found
/// among the first `n` are exactly the positions below `n`, other than that
/// of `t`, of the transitions that conflict with `t`; and they are found in
/// increasing order.
pub proof fn lemma_conflicts_among(
    t: TransitionView,
    transitions: Seq<TransitionView>,
    states: Seq<StateView>,
    n: int,
)
    requires
        0 <= n <= transitions.len(),
        indexed(transitions),
    ensures
        increasing(conflicts_among(t, transitions, states, n)),
        forall|k: int|
            0 <= k < conflicts_among(t, transitions, states, n).len() ==> {
                let j = #[trigger] conflicts_among(t, transitions, states, n)[k];
                j < n && j != t.idx && in_conflict(t, transitions[j as int], states)
            },
        forall|j: int|
            0 <= j < n && j != t.idx && in_conflict(t, #[trigger] transitions[j], states)
                ==> conflicts_among(t, transitions, states, n).contains(j as usize),
    decreases n,
{
    let r = conflicts_among(t, transitions, states, n);
    if n > 0 {
        lemma_conflicts_among(t, transitions, states, n - 1);
        let q = conflicts_among(t, transitions, states, n - 1);
        let other = transitions[n - 1];
        assert(other.idx == n - 1);
        assert forall|j: int|
            0 <= j < n && j != t.idx && in_conflict(
                t,
                #[trigger] transitions[j],
                states,
            ) implies r.contains(j as usize) by {
            if j == n - 1 {
                assert(r[q.len() as int] == j);
            } else {
                assert(q.contains(j as usize));
                let k = choose|k: int| 0 <= k < q.len() && q[k] == j as usize;
                assert(r[k] == j);
            }
        }
        assert forall|i: int, j: int| 0 <= i < j < r.len() implies r[i] < r[j] by {
            if j == q.len() {
                assert(q[i] < n - 1);
            } else {
                assert(q[i] < q[j]);
            }
        }
    }
}

/// The conflicts of a transition do not depend on the conflict sets that
/// the transitions hold.
pub proof fn lemma_conflicts_among_same(
    t: TransitionView,
    u: TransitionView,
    a: Seq<TransitionView>,
    b: Seq<TransitionView>,
    states: Seq<StateView>,
    n: int,
)
    requires
        0 <= n <= a.len(),
        a.len() == b.len(),
        t.idx == u.idx && t.source == u.source && t.exits == u.exits,
        forall|i: int|
            0 <= i < a.len() ==> (#[trigger] a[i]).idx == b[i].idx && a[i].source == b[i].source
                && a[i].exits == b[i].exits,
    ensures
        conflicts_among(t, a, states, n) == conflicts_among(u, b, states, n),
    decreases n,
{
    if n > 0 {
        lemma_conflicts_among_same(t, u, a, b, states, n - 1);
        assert(a[n - 1].idx == b[n - 1].idx);
    }
}

/// Whether `arr1` and `arr2` have a member in common.
pub fn has_insersection(arr1: &Vec<StateId>, arr2: &Vec<StateId>) -> (b: bool)
    ensures
        b == intersects(arr1@, arr2@),
{
    let mut i: usize = 0;
    while i < arr1.len()
        invariant
            i <= arr1.len(),
            forall|j: int| 0 <= j < i ==> !arr2@.contains(#[trigger] arr1@[j]),
        decreases arr1.len() - i,
    {
        if contains(arr2, arr1[i]) {
            return true;
        }
        i += 1;
    }
    false
}

/// Whether `t1` and `t2` conflict.
pub fn has_conflict(t1: &Transition, t2: &Transition, states: &Vec<State>) -> (b: bool)
    requires
        nested_in_range(states_view(states@)),
        t1.source < states.len(),
        t2.source < states.len(),
    ensures
        b == in_conflict(t1@, t2@, states_view(states@)),
{
    let s1 = get_transition_source(t1, states);
    let s2 = get_transition_source(t2, states);
    s1.idx == s2.idx || has_insersection(&t1.exits, &t2.exits) || contains(
        &s1.descendants,
        s2.idx,
    ) || contains(&s2.descendants, s1.idx)
}

/// The conflict set of `transition` among `transitions`.
pub fn get_conflicts(
    transition: &Transition,
    transitions: &Vec<Transition>,
    states: &Vec<State>,
) -> (conflicts: Vec<TransitionId>)
    requires
        nested_in_range(states_view(states@)),
        transition.source < states.len(),
        sources_in_range(transitions_view(transitions@), states_view(states@)),
    ensures
        conflicts@ == conflicts_of(
            transition@,
            transitions_view(transitions@),
            states_view(states@),
        ),
{
    let mut conflicts: Vec<TransitionId> = Vec::new();
    let mut n: usize = 0;
    while n < transitions.len()
        invariant
            n <= transitions.len(),
            nested_in_range(states_view(states@)),
            transition.source < states.len(),
            sources_in_range(transitions_view(transitions@), states_view(states@)),
            conflicts@ == conflicts_among(
                transition@,
                transitions_view(transitions@),
                states_view(states@),
                n as int,
            ),
        decreases transitions.len() - n,
    {
        let other = &transitions[n];
        assert(transitions_view(transitions@)[n as int] == other@);
        if other.idx != transition.idx && has_conflict(transition, other, states) {
            conflicts.push(other.idx);
        }
        n += 1;
    }
    conflicts
}

/// Gives each transition its conflict set among `transitions`, which hold
/// their own positions; the conflict sets are in increasing order.
pub fn compute_conflicts(transitions: &mut Vec<Transition>, states: &Vec<State>)
    requires
        nested_in_range(states_view(states@)),
        sources_in_range(transitions_view(old(transitions)@), states_view(states@)),
        indexed(transitions_view(old(transitions)@)),
    ensures
        transitions_view(final(transitions)@) == with_conflicts(
            transitions_view(old(transitions)@),
            states_view(states@),
        ),
        forall|i: int|
            0 <= i < final(transitions).len() ==> increasing(
                (#[trigger] transitions_view(final(transitions)@)[i]).conflicts,
            ),
{
    let ghost before = transitions_view(transitions@);
    let ghost given = states_view(states@);
    let mut n: usize = 0;
    while n < transitions.len()
        invariant
            n <= transitions.len(),
            nested_in_range(given),
            given == states_view(states@),
            sources_in_range(before, given),
            transitions.len() == before.len(),
            forall|i: int|
                0 <= i < n ==> (#[trigger] transitions@[i])@ == with_conflicts(before, given)[i],
            forall|i: int| n <= i < before.len() ==> (#[trigger] transitions@[i])@ == before[i],
        decreases transitions.len() - n,
    {
        let ghost current = transitions_view(transitions@);
        assert(current[n as int] == before[n as int]);
        assert(sources_in_range(current, given)) by {
            assert forall|i: int| 0 <= i < current.len() implies (#[trigger] current[i]).source
                < given.len() by {
                assert(before[i].source < given.len());
                assert(transitions@[i]@.source == before[i].source);
            }
        }
        let conflicts = get_conflicts(&transitions[n], transitions, states);
        proof {
            assert forall|i: int| 0 <= i < current.len() implies (#[trigger] current[i]).idx
                == before[i].idx && current[i].source == before[i].source && current[i].exits
                == before[i].exits by {
                assert(transitions@[i]@.idx == before[i].idx);
            }
            lemma_conflicts_among_same(
                current[n as int],
                before[n as int],
                current,
                before,
                given,
                before.len() as int,
            );
        }
        transitions[n].conflicts = conflicts;
        n += 1;
    }
    assert(transitions_view(transitions@) =~= with_conflicts(before, given));
    assert forall|i: int| 0 <= i < transitions.len() implies increasing(
        (#[trigger] transitions_view(transitions@)[i]).conflicts,
    ) by {
        lemma_conflicts_among(before[i], before, given, before.len() as int);
    }
}

} // verus!
