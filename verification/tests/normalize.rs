use thot::ast::conversion_error::ConversionError;
use thot::ast::core_graph::{Core, StateType, TransitionType};
use thot::ast::location::{Location, Point};
use thot::ast::statechart::to_core::to_core;
use thot::ast::statechart::{
    Binding, Final, History, HistoryType, Initial, Invoke, Node, OnEntry, OnEvent, OnExit, OnInit,
    Parallel, State, Statechart, Transition,
};

fn at(line: usize) -> Location {
    Location {
        start: Point { line, column: 0 },
        end: Point { line, column: 10 },
        source: None,
    }
}

fn chart(children: Vec<Node>) -> Statechart {
    Statechart { binding: Binding::Late, children, loc: at(1) }
}

fn state(id: &str, line: usize, children: Vec<Node>) -> Node {
    Node::State(State { id: Some(id.to_string()), children, loc: at(line) })
}

fn parallel(id: &str, line: usize, children: Vec<Node>) -> Node {
    Node::Parallel(Parallel { id: Some(id.to_string()), children, loc: at(line) })
}

fn transition(targets: &[&str], line: usize) -> Node {
    Node::Transition(Transition {
        event: None,
        targets: targets.iter().map(|t| t.to_string()).collect(),
        t: thot::ast::statechart::TransitionType::External,
        condition: None,
        children: vec![],
        loc: at(line),
    })
}

fn normalized(children: Vec<Node>) -> Core {
    to_core(&chart(children)).unwrap()
}

fn faults(children: Vec<Node>) -> Vec<ConversionError> {
    to_core(&chart(children)).unwrap_err()
}

#[test]
fn it_works() {
    assert_eq!(2 + 2, 4);
}

#[test]
fn empty_statechart_is_one_atomic_state() {
    let core = normalized(vec![]);
    assert_eq!(core.states.len(), 1);
    assert_eq!(core.states[0].t, StateType::Atomic);
    assert_eq!(core.states[0].idx, 0);
    assert_eq!(core.states[0].parent, 0);
    assert!(core.states[0].ancestors.is_empty());
    assert!(core.states[0].children.is_empty());
    assert!(core.states[0].descendants.is_empty());
    assert!(core.states[0].initial.is_empty());
    assert_eq!(core.states[0].id, None);
    assert!(core.transitions.is_empty());
    assert_eq!(core.loc, at(1));
}

#[test]
fn compound_with_one_child_begins_in_it() {
    let core = normalized(vec![state("a", 2, vec![])]);
    assert_eq!(core.states.len(), 2);
    assert_eq!(core.states[0].t, StateType::Compound);
    assert_eq!(core.states[0].initial, vec![1]);
    assert_eq!(core.states[0].children, vec![1]);
    assert_eq!(core.states[1].t, StateType::Atomic);
    assert_eq!(core.states[1].parent, 0);
    assert_eq!(core.states[1].ancestors, vec![0]);
    assert_eq!(core.states[1].id, Some("a".to_string()));
    assert_eq!(core.states[1].loc, at(2));
}

#[test]
fn compound_begins_in_its_first_child_only() {
    let core = normalized(vec![state("a", 2, vec![]), state("b", 3, vec![])]);
    assert_eq!(core.states[0].children, vec![1, 2]);
    assert_eq!(core.states[0].initial, vec![1]);
}

#[test]
fn sibling_states_with_one_name_are_a_duplicate() {
    let errors = faults(vec![state("x", 2, vec![]), state("x", 3, vec![])]);
    assert_eq!(errors.len(), 1);
    assert_eq!(errors[0].message, "Duplicate target: \"x\"");
    assert!(errors[0].fatal);
    assert_eq!(errors[0].source, "statechart/ast/statechart/to_core");
    assert_eq!(errors[0].loc, at(3));
}

#[test]
fn a_state_with_the_name_of_a_state_inside_it_is_the_duplicate() {
    let errors = faults(vec![state("x", 2, vec![state("x", 3, vec![])])]);
    assert_eq!(errors.len(), 1);
    assert_eq!(errors[0].message, "Duplicate target: \"x\"");
    assert_eq!(errors[0].loc, at(2));
}

#[test]
fn three_states_with_one_name_are_two_duplicates() {
    let errors = faults(
        vec![state("x", 2, vec![]), state("x", 3, vec![]), state("x", 4, vec![])],
    );
    assert_eq!(errors.len(), 2);
    assert_eq!(errors[0].loc, at(3));
    assert_eq!(errors[1].loc, at(4));
}

#[test]
fn unknown_target_is_missing() {
    let errors = faults(vec![state("a", 2, vec![transition(&["ghost"], 3)])]);
    assert_eq!(errors.len(), 1);
    assert_eq!(errors[0].message, "Missing target: \"ghost\"");
    assert!(errors[0].fatal);
    assert_eq!(errors[0].source, "statechart/ast/statechart/to_core");
    assert_eq!(errors[0].loc, at(3));
}

#[test]
fn names_are_quoted_with_escapes() {
    let errors = faults(vec![state("a", 2, vec![transition(&["say \"hi\"\n"], 3)])]);
    assert_eq!(errors.len(), 1);
    assert_eq!(errors[0].message, "Missing target: \"say \\\"hi\\\"\\n\"");
}

#[test]
fn duplicates_come_before_missing_targets() {
    let errors = faults(
        vec![
            state("a", 2, vec![transition(&["nowhere", "a", "nothing"], 3)]),
            state("a", 4, vec![transition(&["gone"], 5)]),
        ],
    );
    assert_eq!(errors.len(), 4);
    assert_eq!(errors[0].message, "Duplicate target: \"a\"");
    assert_eq!(errors[0].loc, at(4));
    assert_eq!(errors[1].message, "Missing target: \"nowhere\"");
    assert_eq!(errors[1].loc, at(3));
    assert_eq!(errors[2].message, "Missing target: \"nothing\"");
    assert_eq!(errors[2].loc, at(3));
    assert_eq!(errors[3].message, "Missing target: \"gone\"");
    assert_eq!(errors[3].loc, at(5));
}

#[test]
fn parallel_begins_in_all_its_regions() {
    let core = normalized(
        vec![parallel("both", 2, vec![state("p", 3, vec![]), state("q", 4, vec![])])],
    );
    assert_eq!(core.states.len(), 4);
    assert_eq!(core.states[1].t, StateType::Parallel);
    assert_eq!(core.states[1].children, vec![2, 3]);
    assert_eq!(core.states[1].initial, vec![2, 3]);
    assert_eq!(core.states[1].descendants, vec![2, 3]);
    assert_eq!(core.states[0].descendants, vec![1, 2, 3]);
    assert_eq!(core.states[0].initial, vec![1]);
}

#[test]
fn a_parallel_without_regions_stays_parallel() {
    let core = normalized(vec![parallel("none", 2, vec![])]);
    assert_eq!(core.states[1].t, StateType::Parallel);
    assert!(core.states[1].initial.is_empty());
}

#[test]
fn transition_between_siblings() {
    let core = normalized(
        vec![state("a", 2, vec![transition(&["b"], 3)]), state("b", 4, vec![])],
    );
    assert_eq!(core.states.len(), 3);
    assert_eq!(core.states[0].t, StateType::Compound);
    assert_eq!(core.states[1].t, StateType::Atomic);
    assert_eq!(core.states[2].t, StateType::Atomic);
    assert_eq!(core.states[1].transitions, vec![0]);
    assert_eq!(core.transitions.len(), 1);
    let t = &core.transitions[0];
    assert_eq!(t.idx, 0);
    assert_eq!(t.t, TransitionType::External);
    assert_eq!(t.source, 1);
    assert_eq!(t.targets, vec![2]);
    assert_eq!(t.exits, vec![1]);
    assert!(t.conflicts.is_empty());
    assert!(t.on_transition.is_empty());
    assert_eq!(t.loc, at(3));
}

#[test]
fn transitions_from_one_source_conflict() {
    let core = normalized(
        vec![
            state("a", 2, vec![transition(&["b"], 3), transition(&["c"], 4)]),
            state("b", 5, vec![]),
            state("c", 6, vec![]),
        ],
    );
    assert_eq!(core.transitions[0].conflicts, vec![1]);
    assert_eq!(core.transitions[1].conflicts, vec![0]);
}

#[test]
fn transitions_in_disjoint_regions_do_not_conflict() {
    let core = normalized(
        vec![
            parallel(
                "both",
                2,
                vec![
                    state("p", 3, vec![state("pa", 4, vec![transition(&["pb"], 5)]), state("pb", 6, vec![])]),
                    state("q", 7, vec![state("qa", 8, vec![transition(&["qb"], 9)]), state("qb", 10, vec![])]),
                ],
            ),
        ],
    );
    // states: 0 root, 1 both, 2 p, 3 pa, 4 pb, 5 q, 6 qa, 7 qb
    assert_eq!(core.transitions[0].source, 3);
    assert_eq!(core.transitions[0].targets, vec![4]);
    assert_eq!(core.transitions[0].exits, vec![3]);
    assert_eq!(core.transitions[1].source, 6);
    assert_eq!(core.transitions[1].targets, vec![7]);
    assert_eq!(core.transitions[1].exits, vec![6]);
    assert!(core.transitions[0].conflicts.is_empty());
    assert!(core.transitions[1].conflicts.is_empty());
}

#[test]
fn transition_of_an_enclosing_state_conflicts() {
    let core = normalized(
        vec![
            state(
                "a",
                2,
                vec![
                    transition(&["b"], 3),
                    state("a1", 4, vec![transition(&["a2"], 5)]),
                    state("a2", 6, vec![]),
                ],
            ),
            state("b", 7, vec![]),
        ],
    );
    // states: 0 root, 1 a, 2 a1, 3 a2, 4 b
    assert_eq!(core.transitions[0].source, 1);
    assert_eq!(core.transitions[0].exits, vec![1, 2, 3]);
    assert_eq!(core.transitions[1].source, 2);
    assert_eq!(core.transitions[1].exits, vec![2]);
    assert_eq!(core.transitions[0].conflicts, vec![1]);
    assert_eq!(core.transitions[1].conflicts, vec![0]);
}

#[test]
fn descendants_are_in_document_order() {
    let core = normalized(
        vec![
            state("a", 2, vec![state("a1", 3, vec![state("a11", 4, vec![])]), state("a2", 5, vec![])]),
            state("b", 6, vec![]),
        ],
    );
    // states: 0 root, 1 a, 2 a1, 3 a11, 4 a2, 5 b
    assert_eq!(core.states[0].descendants, vec![1, 2, 3, 4, 5]);
    assert_eq!(core.states[1].descendants, vec![2, 3, 4]);
    assert_eq!(core.states[2].descendants, vec![3]);
    assert!(core.states[3].descendants.is_empty());
    assert_eq!(core.states[0].children, vec![1, 5]);
    assert_eq!(core.states[1].children, vec![2, 4]);
    assert_eq!(core.states[3].ancestors, vec![0, 1, 2]);
    assert_eq!(core.states[3].parent, 2);
    assert_eq!(core.states[4].ancestors, vec![0, 1]);
    for (i, s) in core.states.iter().enumerate() {
        assert_eq!(s.idx, i);
    }
}

#[test]
fn descendants_are_the_children_and_their_descendants() {
    let core = normalized(
        vec![
            state("a", 2, vec![state("a1", 3, vec![state("a11", 4, vec![])]), state("a2", 5, vec![])]),
            parallel("b", 6, vec![state("b1", 7, vec![]), state("b2", 8, vec![])]),
        ],
    );
    for s in core.states.iter() {
        let mut expected: Vec<usize> = vec![];
        for c in s.children.iter() {
            expected.push(*c);
            expected.extend(core.states[*c].descendants.iter());
        }
        assert_eq!(s.descendants, expected);
    }
}

#[test]
fn only_compound_and_parallel_states_have_children() {
    let core = normalized(
        vec![
            state("a", 2, vec![state("a1", 3, vec![]), Node::Final(Final { id: None, children: vec![], loc: at(4) })]),
            parallel("b", 5, vec![state("b1", 6, vec![])]),
            Node::Initial(Initial { children: vec![transition(&["a"], 8)], loc: at(7) }),
        ],
    );
    for s in core.states.iter() {
        if !s.children.is_empty() {
            assert!(s.t == StateType::Compound || s.t == StateType::Parallel);
        }
    }
}

#[test]
fn a_state_inside_a_final_state_is_its_child() {
    let core = normalized(
        vec![Node::Final(Final { id: None, children: vec![state("in", 3, vec![])], loc: at(2) })],
    );
    assert_eq!(core.states[1].t, StateType::Final);
    assert_eq!(core.states[1].children, vec![2]);
    assert!(core.states[1].initial.is_empty());
}

#[test]
fn initial_pseudo_state_and_its_transition() {
    let core = normalized(
        vec![
            Node::Initial(Initial { children: vec![transition(&["b"], 3)], loc: at(2) }),
            state("a", 4, vec![]),
            state("b", 5, vec![]),
        ],
    );
    // states: 0 root, 1 initial, 2 a, 3 b
    assert_eq!(core.states[1].t, StateType::Initial);
    assert_eq!(core.states[1].id, None);
    assert_eq!(core.states[1].transitions, vec![0]);
    assert_eq!(core.transitions[0].source, 1);
    assert_eq!(core.transitions[0].targets, vec![3]);
    // the transition leaves the parent of the pseudo-state: the root, which
    // has no ancestor, so the root is the domain
    assert_eq!(core.transitions[0].exits, vec![2]);
    assert_eq!(core.states[0].initial, vec![1]);
}

#[test]
fn history_states() {
    let core = normalized(
        vec![
            Node::History(History { id: Some("h".to_string()), t: HistoryType::Shallow, children: vec![], loc: at(2) }),
            Node::History(History {
                id: Some("d".to_string()),
                t: HistoryType::Deep,
                children: vec![state("in", 4, vec![state("deep", 5, vec![])])],
                loc: at(3),
            }),
        ],
    );
    // states: 0 root, 1 h, 2 d, 3 in, 4 deep
    assert_eq!(core.states[1].t, StateType::HistoryShallow);
    assert!(core.states[1].initial.is_empty());
    assert_eq!(core.states[2].t, StateType::HistoryDeep);
    assert_eq!(core.states[2].children, vec![3]);
    assert_eq!(core.states[2].descendants, vec![3, 4]);
    assert_eq!(core.states[2].initial, vec![3, 4]);
}

#[test]
fn shallow_history_begins_in_its_children() {
    let core = normalized(
        vec![
            Node::History(History {
                id: None,
                t: HistoryType::Shallow,
                children: vec![state("in", 3, vec![state("deep", 4, vec![])])],
                loc: at(2),
            }),
        ],
    );
    assert_eq!(core.states[1].initial, vec![2]);
}

#[test]
fn content_is_attached_to_the_enclosing_state() {
    let core = normalized(
        vec![
            Node::OnInit(OnInit { children: vec![1, 2], loc: at(2) }),
            state(
                "a",
                3,
                vec![
                    Node::OnInit(OnInit { children: vec![3], loc: at(4) }),
                    Node::OnEntry(OnEntry { children: vec![4, 5], loc: at(5) }),
                    Node::OnExit(OnExit { children: vec![6], loc: at(6) }),
                    Node::OnEntry(OnEntry { children: vec![7], loc: at(7) }),
                    Node::Invoke(Invoke { id: 8, loc: at(8) }),
                    Node::Invoke(Invoke { id: 9, loc: at(9) }),
                ],
            ),
        ],
    );
    assert_eq!(core.states[0].on_init, vec![1, 2]);
    assert_eq!(core.states[1].on_init, vec![3]);
    assert_eq!(core.states[1].on_enter, vec![4, 5, 7]);
    assert_eq!(core.states[1].on_exit, vec![6]);
    assert_eq!(core.states[1].invocations, vec![8, 9]);
    assert_eq!(core.states[1].t, StateType::Atomic);
}

#[test]
fn early_binding_attaches_initialisation_to_the_root() {
    let chart = Statechart {
        binding: Binding::Early,
        children: vec![
            state(
                "a",
                2,
                vec![
                    Node::OnInit(OnInit { children: vec![3], loc: at(3) }),
                    Node::OnEntry(OnEntry { children: vec![4], loc: at(4) }),
                ],
            ),
            Node::OnInit(OnInit { children: vec![5], loc: at(5) }),
        ],
        loc: at(1),
    };
    let core = to_core(&chart).unwrap();
    assert_eq!(core.states[0].on_init, vec![3, 5]);
    assert!(core.states[1].on_init.is_empty());
    assert_eq!(core.states[1].on_enter, vec![4]);
}

#[test]
fn on_event_is_a_transition_without_targets() {
    let core = normalized(
        vec![
            state(
                "a",
                2,
                vec![
                    Node::OnEvent(OnEvent { event: Some(7), condition: Some(9), children: vec![1], loc: at(3) }),
                    transition(&["a"], 4),
                ],
            ),
        ],
    );
    assert_eq!(core.transitions.len(), 2);
    let t = &core.transitions[0];
    assert_eq!(t.t, TransitionType::OnEvent);
    assert_eq!(t.source, 1);
    assert_eq!(t.event, Some(7));
    assert_eq!(t.condition, Some(9));
    assert!(t.targets.is_empty());
    assert!(t.exits.is_empty());
    assert_eq!(t.conflicts, vec![1]);
    assert_eq!(core.states[1].transitions, vec![0, 1]);
}

#[test]
fn event_and_condition_are_copied() {
    let core = normalized(
        vec![
            state(
                "a",
                2,
                vec![
                    Node::Transition(Transition {
                        event: Some(3),
                        targets: vec!["a".to_string()],
                        t: thot::ast::statechart::TransitionType::Internal,
                        condition: Some(4),
                        children: vec![5, 6],
                        loc: at(3),
                    }),
                ],
            ),
        ],
    );
    let t = &core.transitions[0];
    assert_eq!(t.t, TransitionType::External);
    assert_eq!(t.event, Some(3));
    assert_eq!(t.condition, Some(4));
    assert!(t.on_transition.is_empty());
    assert_eq!(t.targets, vec![1]);
}

#[test]
fn targets_are_resolved_in_the_order_in_which_they_are_named() {
    let core = normalized(
        vec![
            state("a", 2, vec![transition(&["c", "b", "c"], 3)]),
            state("b", 4, vec![]),
            state("c", 5, vec![]),
        ],
    );
    assert_eq!(core.transitions[0].targets, vec![3, 2, 3]);
}

#[test]
fn a_target_can_be_declared_after_the_transition() {
    let core = normalized(
        vec![state("a", 2, vec![transition(&["z"], 3)]), state("z", 4, vec![state("y", 5, vec![])])],
    );
    assert_eq!(core.transitions[0].targets, vec![2]);
    // the domain is the root; a is left, z holds no target but is one, y is
    // neither a target nor holds the target
    assert_eq!(core.transitions[0].exits, vec![1, 3]);
}

#[test]
fn transition_to_the_own_state_leaves_its_siblings() {
    let core = normalized(
        vec![state("a", 2, vec![transition(&["a"], 3)]), state("b", 4, vec![])],
    );
    assert_eq!(core.transitions[0].targets, vec![1]);
    assert_eq!(core.transitions[0].exits, vec![2]);
}

#[test]
fn a_statechart_inside_a_state_is_a_compound_state() {
    let core = normalized(
        vec![
            state(
                "a",
                2,
                vec![Node::Statechart(Statechart { binding: Binding::Early, children: vec![state("in", 4, vec![])], loc: at(3) })],
            ),
        ],
    );
    // states: 0 root, 1 a, 2 the inner statechart, 3 in
    assert_eq!(core.states[2].t, StateType::Compound);
    assert_eq!(core.states[2].parent, 1);
    assert_eq!(core.states[2].ancestors, vec![0, 1]);
    assert_eq!(core.states[1].children, vec![2]);
    assert_eq!(core.states[0].descendants, vec![1, 2, 3]);
}

#[test]
fn states_without_a_name_are_no_duplicates() {
    let core = normalized(
        vec![
            Node::State(State { id: None, children: vec![], loc: at(2) }),
            Node::State(State { id: None, children: vec![], loc: at(3) }),
        ],
    );
    assert_eq!(core.states.len(), 3);
}

#[test]
fn conflicts_are_sorted_and_symmetric() {
    let core = normalized(
        vec![
            state(
                "a",
                2,
                vec![
                    transition(&["b"], 3),
                    state("a1", 4, vec![transition(&["a2"], 5), transition(&["b"], 6)]),
                    state("a2", 7, vec![transition(&["a1"], 8)]),
                ],
            ),
            state("b", 9, vec![transition(&["a"], 10)]),
        ],
    );
    let m = core.transitions.len();
    assert_eq!(m, 5);
    for t in core.transitions.iter() {
        assert!(!t.conflicts.contains(&t.idx));
        for w in t.conflicts.windows(2) {
            assert!(w[0] < w[1]);
        }
        for w in t.exits.windows(2) {
            assert!(w[0] < w[1]);
        }
        for e in t.exits.iter() {
            let kind = core.states[*e].t;
            assert!(
                kind == StateType::Atomic || kind == StateType::Compound
                    || kind == StateType::Parallel || kind == StateType::Final
            );
        }
        for other in 0..m {
            assert_eq!(t.conflicts.contains(&other), core.transitions[other].conflicts.contains(&t.idx));
        }
    }
}

#[test]
fn renaming_the_states_leaves_the_graph_as_it_is() {
    let build = |a: &str, b: &str, c: &str| {
        normalized(
            vec![
                state(a, 2, vec![transition(&[b, c], 3), state(c, 4, vec![])]),
                state(b, 5, vec![transition(&[a], 6)]),
            ],
        )
    };
    let one = build("a", "b", "c");
    let other = build("first", "second", "third");
    assert_eq!(one.transitions, other.transitions);
    assert_eq!(one.states.len(), other.states.len());
    for (s, r) in one.states.iter().zip(other.states.iter()) {
        assert_eq!(s.idx, r.idx);
        assert_eq!(s.t, r.t);
        assert_eq!(s.parent, r.parent);
        assert_eq!(s.children, r.children);
        assert_eq!(s.ancestors, r.ancestors);
        assert_eq!(s.descendants, r.descendants);
        assert_eq!(s.initial, r.initial);
        assert_eq!(s.transitions, r.transitions);
        assert_eq!(s.id.is_some(), r.id.is_some());
    }
    assert_eq!(other.states[1].id, Some("first".to_string()));
}
