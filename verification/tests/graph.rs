use thot::ast::core_graph::conflicts::{
    compute_conflicts, get_conflicts, has_conflict, has_insersection,
};
use thot::ast::core_graph::exits::{
    are_descendants, find_lcca, get_exit_set, get_transition_domain, get_transition_source,
};
use thot::ast::core_graph::{State, StateType, Transition, TransitionType};
use thot::seqs::{contains, insert_in_order, is_all_below};

fn state(idx: usize, t: StateType, ancestors: Vec<usize>, descendants: Vec<usize>) -> State {
    let mut s = State::new();
    s.idx = idx;
    s.t = t;
    s.parent = ancestors.last().copied().unwrap_or(0);
    s.ancestors = ancestors;
    s.descendants = descendants;
    s
}

fn transition(idx: usize, t: TransitionType, source: usize, targets: Vec<usize>) -> Transition {
    let mut transition = Transition::new();
    transition.idx = idx;
    transition.t = t;
    transition.source = source;
    transition.targets = targets;
    transition
}

/// ```text
/// 0 root (compound)
///   1 a (compound)
///     2 in (initial)
///     3 a1 (atomic)
///     4 a2 (compound)
///       5 a21 (atomic)
///       6 end (final)
///   7 h (deep history)
///     8 inside (atomic)
///   9 b (parallel)
///     10 b1 (atomic)
/// ```
fn graph() -> Vec<State> {
    vec![
        state(0, StateType::Compound, vec![], vec![1, 2, 3, 4, 5, 6, 7, 8, 9, 10]),
        state(1, StateType::Compound, vec![0], vec![2, 3, 4, 5, 6]),
        state(2, StateType::Initial, vec![0, 1], vec![]),
        state(3, StateType::Atomic, vec![0, 1], vec![]),
        state(4, StateType::Compound, vec![0, 1], vec![5, 6]),
        state(5, StateType::Atomic, vec![0, 1, 4], vec![]),
        state(6, StateType::Final, vec![0, 1, 4], vec![]),
        state(7, StateType::HistoryDeep, vec![0], vec![8]),
        state(8, StateType::Atomic, vec![0, 7], vec![]),
        state(9, StateType::Parallel, vec![0], vec![10]),
        state(10, StateType::Atomic, vec![0, 9], vec![]),
    ]
}

#[test]
fn members_of_sequences() {
    assert!(contains(&vec![3, 1, 2], 1));
    assert!(!contains(&vec![3, 1, 2], 4));
    assert!(!contains(&vec![], 0));
    assert!(is_all_below(&vec![0, 4, 2], 5));
    assert!(!is_all_below(&vec![0, 5, 2], 5));
    assert!(is_all_below(&vec![], 0));
}

#[test]
fn inserting_in_order() {
    let mut v = vec![];
    insert_in_order(&mut v, 5);
    assert_eq!(v, vec![5]);
    insert_in_order(&mut v, 9);
    assert_eq!(v, vec![5, 9]);
    insert_in_order(&mut v, 7);
    assert_eq!(v, vec![5, 7, 9]);
    insert_in_order(&mut v, 1);
    assert_eq!(v, vec![1, 5, 7, 9]);
    insert_in_order(&mut v, 7);
    assert_eq!(v, vec![1, 5, 7, 7, 9]);
    let mut unordered = vec![4, 1, 8];
    insert_in_order(&mut unordered, 2);
    assert_eq!(unordered, vec![4, 1, 2, 8]);
}

#[test]
fn the_source_of_a_transition() {
    let states = graph();
    let plain = transition(0, TransitionType::External, 3, vec![5]);
    assert_eq!(get_transition_source(&plain, &states).idx, 3);
    let initial = transition(1, TransitionType::Initial, 2, vec![3]);
    assert_eq!(get_transition_source(&initial, &states).idx, 1);
}

#[test]
fn all_members_are_descendants() {
    assert!(are_descendants(&vec![1, 2, 3], &vec![3, 1]));
    assert!(are_descendants(&vec![1, 2, 3], &vec![]));
    assert!(are_descendants(&vec![], &vec![]));
    assert!(!are_descendants(&vec![1, 2, 3], &vec![3, 4]));
    assert!(!are_descendants(&vec![], &vec![0]));
}

#[test]
fn the_least_common_compound_ancestor() {
    let states = graph();
    // the nearest ancestor that holds the source and the targets
    assert_eq!(find_lcca(&states, &states[5], &vec![6]).idx, 4);
    assert_eq!(find_lcca(&states, &states[5], &vec![3]).idx, 1);
    assert_eq!(find_lcca(&states, &states[5], &vec![10]).idx, 0);
    assert_eq!(find_lcca(&states, &states[5], &vec![]).idx, 4);
    assert_eq!(find_lcca(&states, &states[5], &vec![6, 3, 10]).idx, 0);
    // a history state is no domain
    assert_eq!(find_lcca(&states, &states[8], &vec![]).idx, 0);
    // a parallel state is one
    assert_eq!(find_lcca(&states, &states[10], &vec![]).idx, 9);
    // the root has no ancestor, nor is a target that is no state held
    assert_eq!(find_lcca(&states, &states[0], &vec![1]).idx, 0);
    assert_eq!(find_lcca(&states, &states[5], &vec![11]).idx, 5);
    // no ancestor holds itself
    assert_eq!(find_lcca(&states, &states[5], &vec![1]).idx, 0);
    assert_eq!(find_lcca(&states, &states[3], &vec![0]).idx, 3);
}

#[test]
fn the_domain_of_a_transition() {
    let states = graph();
    let external = transition(0, TransitionType::External, 4, vec![5]);
    assert_eq!(get_transition_domain(&external, &states).idx, 1);
    let internal = transition(0, TransitionType::Internal, 4, vec![5, 6]);
    assert_eq!(get_transition_domain(&internal, &states).idx, 4);
    let leaving = transition(0, TransitionType::Internal, 4, vec![5, 3]);
    assert_eq!(get_transition_domain(&leaving, &states).idx, 1);
    let targetless = transition(0, TransitionType::Internal, 4, vec![]);
    assert_eq!(get_transition_domain(&targetless, &states).idx, 4);
    let parallel = transition(0, TransitionType::Internal, 9, vec![10]);
    assert_eq!(get_transition_domain(&parallel, &states).idx, 0);
    let initial = transition(0, TransitionType::Initial, 2, vec![3]);
    assert_eq!(get_transition_domain(&initial, &states).idx, 0);
}

#[test]
fn the_exit_set_of_a_transition() {
    let states = graph();
    // out of a1 into a21: the domain is a; a2 holds the target
    assert_eq!(get_exit_set(&transition(0, TransitionType::External, 3, vec![5]), &states), vec![3, 6]);
    // out of a21 to b1: the domain is the root; the history state is not left
    assert_eq!(
        get_exit_set(&transition(0, TransitionType::External, 5, vec![10]), &states),
        vec![1, 3, 4, 5, 6, 8]
    );
    // without targets no state is left
    assert_eq!(get_exit_set(&transition(0, TransitionType::External, 5, vec![]), &states), Vec::<usize>::new());
    // into two states
    assert_eq!(
        get_exit_set(&transition(0, TransitionType::External, 3, vec![5, 10]), &states),
        vec![1, 3, 4, 6, 8, 9]
    );
    // inside a compound state
    assert_eq!(get_exit_set(&transition(0, TransitionType::Internal, 4, vec![5]), &states), vec![6]);
    assert_eq!(get_exit_set(&transition(0, TransitionType::External, 4, vec![5]), &states), vec![3, 6]);
}

#[test]
fn sequences_with_a_member_in_common() {
    assert!(has_insersection(&vec![1, 2, 3], &vec![5, 3]));
    assert!(has_insersection(&vec![3], &vec![3]));
    assert!(!has_insersection(&vec![1, 2, 3], &vec![4, 5]));
    assert!(!has_insersection(&vec![], &vec![1]));
    assert!(!has_insersection(&vec![1], &vec![]));
}

fn leaving(idx: usize, source: usize, exits: Vec<usize>) -> Transition {
    let mut t = transition(idx, TransitionType::External, source, vec![]);
    t.exits = exits;
    t
}

#[test]
fn transitions_that_conflict() {
    let states = graph();
    // the same source
    assert!(has_conflict(&leaving(0, 3, vec![]), &leaving(1, 3, vec![]), &states));
    // the source of an initial pseudo-state is its parent
    assert!(has_conflict(&leaving(0, 2, vec![]), &leaving(1, 1, vec![]), &states));
    // a state that both leave
    assert!(has_conflict(&leaving(0, 3, vec![5, 6]), &leaving(1, 10, vec![6]), &states));
    // one source inside the other
    assert!(has_conflict(&leaving(0, 1, vec![]), &leaving(1, 5, vec![]), &states));
    assert!(has_conflict(&leaving(0, 5, vec![]), &leaving(1, 1, vec![]), &states));
    // none of these
    assert!(!has_conflict(&leaving(0, 3, vec![3]), &leaving(1, 10, vec![10]), &states));
    assert!(!has_conflict(&leaving(0, 3, vec![]), &leaving(1, 5, vec![]), &states));
}

#[test]
fn the_conflicts_of_transitions() {
    let states = graph();
    let mut transitions = vec![
        leaving(0, 3, vec![3]),
        leaving(1, 10, vec![10]),
        leaving(2, 1, vec![3, 4]),
        leaving(3, 3, vec![]),
        leaving(4, 9, vec![10]),
        leaving(5, 2, vec![]),
    ];
    assert_eq!(get_conflicts(&transitions[0], &transitions, &states), vec![2, 3, 5]);
    assert_eq!(get_conflicts(&transitions[1], &transitions, &states), vec![4]);
    assert_eq!(get_conflicts(&transitions[2], &transitions, &states), vec![0, 3, 5]);
    assert_eq!(get_conflicts(&transitions[5], &transitions, &states), vec![0, 2, 3]);
    compute_conflicts(&mut transitions, &states);
    let found: Vec<Vec<usize>> = transitions.iter().map(|t| t.conflicts.clone()).collect();
    assert_eq!(
        found,
        vec![vec![2, 3, 5], vec![4], vec![0, 3, 5], vec![0, 2, 5], vec![1], vec![0, 2, 3]]
    );
    for t in transitions.iter() {
        assert_eq!(t.exits, leaving(t.idx, t.source, t.exits.clone()).exits);
    }
}
