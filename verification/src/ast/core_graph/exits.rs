//! The exit set of a transition: the states that are left when it is taken.

use crate::ast::core_graph::{
    states_view, State, StateId, StateType, StateView, Transition, TransitionType, TransitionView,
};
use crate::seqs::{all_below, contains, kept};
use vstd::prelude::*;

verus! {

/// Whether each state of `states` names states of `states` only.
pub open spec fn nested_in_range(states: Seq<StateView>) -> bool {
    forall|i: int|
        0 <= i < states.len() ==> (#[trigger] states[i]).nested_below(states.len() as int)
}

/// The state that a transition leaves: its source, or the parent of its
/// source where that is an initial pseudo-state.
pub open spec fn transition_source(t: TransitionView, states: Seq<StateView>) -> StateView {
    let source = states[t.source as int];
    if source.t == StateType::Initial {
        states[source.parent as int]
    } else {
        source
    }
}

/// Whether every member of `targets` is a member of `descendants`.
pub open spec fn all_descendants(descendants: Seq<StateId>, targets: Seq<StateId>) -> bool {
    forall|i: int| 0 <= i < targets.len() ==> descendants.contains(#[trigger] targets[i])
}

/// Whether a state of this kind can be the domain of a transition.
pub open spec fn is_region(t: StateType) -> bool {
    t == StateType::Atomic || t == StateType::Compound || t == StateType::Parallel
}

/// Whether `state` is a region that holds every target and the state `idx`.
pub open spec fn encloses(state: StateView, targets: Seq<StateId>, idx: StateId) -> bool {
    &&& is_region(state.t)
    &&& all_descendants(state.descendants, targets)
    &&& state.descendants.contains(idx)
}

/// The nearest of the first `n` ancestors of `source` that encloses the
/// targets and `source`; `source` itself where there is none.
pub open spec fn lcca_among(
    states: Seq<StateView>,
    source: StateView,
    targets: Seq<StateId>,
    n: int,
) -> StateView
    decreases n,
{
    if n <= 0 {
        source
    } else {
        let ancestor = states[source.ancestors[n - 1] as int];
        if encloses(ancestor, targets, source.idx) {
            ancestor
        } else {
            lcca_among(states, source, targets, n - 1)
        }
    }
}

/// The least common compound ancestor of `source` and the targets.
pub open spec fn lcca(
    states: Seq<StateView>,
    source: StateView,
    targets: Seq<StateId>,
) -> StateView {
    lcca_among(states, source, targets, source.ancestors.len() as int)
}

/// The state whose descendants a transition may leave.
pub open spec fn transition_domain(t: TransitionView, states: Seq<StateView>) -> StateView {
    let source = transition_source(t, states);
    if t.t == TransitionType::Internal && source.t == StateType::Compound && all_descendants(
        source.descendants,
        t.targets,
    ) {
        source
    } else {
        lcca(states, source, t.targets)
    }
}

/// Whether a state of this kind can be left.
pub open spec fn can_exit(t: StateType) -> bool {
    is_region(t) || t == StateType::Final
}

/// Whether the state `d` is left by a transition to `targets`: it can be
/// left, is no target, and does not hold every target.
pub open spec fn is_exited(states: Seq<StateView>, targets: Seq<StateId>, d: StateId) -> bool {
    &&& can_exit(states[d as int].t)
    &&& !targets.contains(d)
    &&& !all_descendants(states[d as int].descendants, targets)
}

/// [`is_exited`] as a function of the state.
pub open spec fn exited(states: Seq<StateView>, targets: Seq<StateId>) -> spec_fn(StateId) -> bool {
    |d: StateId| is_exited(states, targets, d)
}

/// The exit set of a transition: the descendants of its domain that are
/// left, in the order of the descendants.
pub open spec fn exit_set(t: TransitionView, states: Seq<StateView>) -> Seq<StateId> {
    let domain = transition_domain(t, states);
    kept(domain.descendants, exited(states, t.targets), domain.descendants.len() as int)
}

/// The state that `transition` leaves.
pub fn get_transition_source<'a>(transition: &Transition, states: &'a Vec<State>) -> (source:
    &'a State)
    requires
        nested_in_range(states_view(states@)),
        transition.source < states.len(),
    ensures
        source@ == transition_source(transition@, states_view(states@)),
        exists|i: int| 0 <= i < states.len() && states[i] == *source,
{
    let source = &states[transition.source];
    assert(states_view(states@)[transition.source as int].nested_below(states.len() as int));
    if source.t == StateType::Initial {
        &states[source.parent]
    } else {
        source
    }
}

/// Whether every member of `targets` is a member of `descendants`.
pub fn are_descendants(descendants: &Vec<StateId>, targets: &Vec<StateId>) -> (b: bool)
    ensures
        b == all_descendants(descendants@, targets@),
{
    let mut i: usize = 0;
    while i < targets.len()
        invariant
            i <= targets.len(),
            forall|j: int| 0 <= j < i ==> descendants@.contains(#[trigger] targets@[j]),
        decreases targets.len() - i,
    {
        if !contains(descendants, targets[i]) {
            return false;
        }
        i += 1;
    }
    true
}

/// The least common compound ancestor of `source` and `targets`.
pub fn find_lcca<'a>(states: &'a Vec<State>, source: &'a State, targets: &Vec<StateId>) -> (domain:
    &'a State)
    requires
        all_below(source.ancestors@, states.len() as int),
    ensures
        domain@ == lcca(states_view(states@), source@, targets@),
        *domain == *source || exists|i: int| 0 <= i < states.len() && states[i] == *domain,
{
    let mut n: usize = source.ancestors.len();
    while n > 0
        invariant
            n <= source.ancestors.len(),
            all_below(source.ancestors@, states.len() as int),
            lcca(states_view(states@), source@, targets@) == lcca_among(
                states_view(states@),
                source@,
                targets@,
                n as int,
            ),
        decreases n,
    {
        n -= 1;
        let ancestor = &states[source.ancestors[n]];
        let region = match ancestor.t {
            StateType::Atomic | StateType::Compound | StateType::Parallel => true,
            _ => false,
        };
        if region && are_descendants(&ancestor.descendants, targets) && contains(
            &ancestor.descendants,
            source.idx,
        ) {
            return ancestor;
        }
    }
    source
}

/// The state whose descendants `transition` may leave.
pub fn get_transition_domain<'a>(transition: &Transition, states: &'a Vec<State>) -> (domain:
    &'a State)
    requires
        nested_in_range(states_view(states@)),
        transition.source < states.len(),
    ensures
        domain@ == transition_domain(transition@, states_view(states@)),
        exists|i: int| 0 <= i < states.len() && states[i] == *domain,
{
    let source = get_transition_source(transition, states);
    let ghost i = choose|i: int| 0 <= i < states.len() && states[i] == *source;
    assert(states_view(states@)[i].nested_below(states.len() as int));
    if transition.t == TransitionType::Internal && source.t == StateType::Compound
        && are_descendants(&source.descendants, &transition.targets) {
        return source;
    }
    find_lcca(states, source, &transition.targets)
}

/// The exit set of `transition`.
pub fn get_exit_set(transition: &Transition, states: &Vec<State>) -> (exits: Vec<StateId>)
    requires
        nested_in_range(states_view(states@)),
        transition.source < states.len(),
    ensures
        exits@ == exit_set(transition@, states_view(states@)),
{
    let domain = get_transition_domain(transition, states);
    let ghost i = choose|i: int| 0 <= i < states.len() && states[i] == *domain;
    assert(states_view(states@)[i].nested_below(states.len() as int));
    let targets = &transition.targets;
    let ghost keep = exited(states_view(states@), targets@);
    let mut exits: Vec<StateId> = Vec::new();
    let mut n: usize = 0;
    while n < domain.descendants.len()
        invariant
            n <= domain.descendants.len(),
            all_below(domain.descendants@, states.len() as int),
            keep == exited(states_view(states@), targets@),
            exits@ == kept(domain.descendants@, keep, n as int),
        decreases domain.descendants.len() - n,
    {
        let d: StateId = domain.descendants[n];
        let state = &states[d];
        let leaves = match state.t {
            StateType::Atomic | StateType::Compound | StateType::Parallel | StateType::Final => {
                !(contains(targets, d) || are_descendants(&state.descendants, targets))
            },
            _ => false,
        };
        assert(leaves == keep(d));
        if leaves {
            exits.push(d);
        }
        n += 1;
    }
    exits
}

/// The least common compound ancestor of a state of the graph is a state of
/// the graph.
pub proof fn lemma_lcca_among(states: Seq<StateView>, i: int, targets: Seq<StateId>, n: int)
    requires
        nested_in_range(states),
        0 <= i < states.len(),
        0 <= n <= states[i].ancestors.len(),
    ensures
        exists|j: int|
            0 <= j < states.len() && #[trigger] states[j] == lcca_among(
                states,
                states[i],
                targets,
                n,
            ),
    decreases n,
{
    assert(states[i].nested_below(states.len() as int));
    if n > 0 {
        let a = states[i].ancestors[n - 1] as int;
        assert(states[a] == states[a]);
        lemma_lcca_among(states, i, targets, n - 1);
    } else {
        assert(states[i] == states[i]);
    }
}

/// The state that a transition leaves is a state of the graph, and so is
/// its domain.
pub proof fn lemma_transition_domain(t: TransitionView, states: Seq<StateView>)
    requires
        nested_in_range(states),
        t.source < states.len(),
    ensures
        exists|j: int| 0 <= j < states.len() && #[trigger] states[j] == transition_source(t, states),
        exists|j: int| 0 <= j < states.len() && #[trigger] states[j] == transition_domain(t, states),
{
    let first = states[t.source as int];
    assert(first.nested_below(states.len() as int));
    let i: int = if first.t == StateType::Initial {
        first.parent as int
    } else {
        t.source as int
    };
    assert(states[i] == transition_source(t, states));
    lemma_lcca_among(states, i, t.targets, states[i].ancestors.len() as int);
}

} // verus!
