use thot::ast::core_graph::to_microstep::to_microstep;
use thot::ast::core_graph::{Core, State, StateType, Transition};
use thot::ast::location::Location;
use thot::ast::microstep::{Expression, SimpleExpression};
use thot::ast::statechart::iter::{ChildIterator, IteratorEvent};
use thot::ast::statechart::to_core::to_core;
use thot::ast::statechart::{
    Binding, Final, History, HistoryType, Initial, Invoke, Node, OnEntry, OnEvent, Parallel, State
        as StateNode,
    Statechart, Transition as TransitionNode, TransitionType,
};
use thot::compile;

fn named(id: &str, children: Vec<Node>) -> Node {
    Node::State(StateNode { id: Some(id.to_string()), children, loc: Location::default() })
}

fn to(target: &str) -> Node {
    Node::Transition(TransitionNode {
        event: None,
        targets: vec![target.to_string()],
        t: TransitionType::External,
        condition: None,
        children: vec![],
        loc: Location::default(),
    })
}

fn tree() -> Node {
    Node::Statechart(Statechart {
        binding: Binding::Late,
        children: vec![
            named("a", vec![to("b"), named("a1", vec![])]),
            Node::Parallel(Parallel {
                id: Some("b".to_string()),
                children: vec![Node::Invoke(Invoke { id: 1, loc: Location::default() })],
                loc: Location::default(),
            }),
        ],
        loc: Location::default(),
    })
}

fn label(node: &Node) -> String {
    match node {
        Node::Statechart(_) => "statechart".to_string(),
        Node::State(n) => format!("state {}", n.id.clone().unwrap_or_default()),
        Node::Parallel(n) => format!("parallel {}", n.id.clone().unwrap_or_default()),
        Node::Transition(n) => format!("transition {}", n.targets.join(",")),
        Node::OnEvent(_) => "on_event".to_string(),
        Node::Initial(_) => "initial".to_string(),
        Node::Final(_) => "final".to_string(),
        Node::OnInit(_) => "on_init".to_string(),
        Node::OnEntry(_) => "on_entry".to_string(),
        Node::OnExit(_) => "on_exit".to_string(),
        Node::History(_) => "history".to_string(),
        Node::Invoke(n) => format!("invoke {}", n.id),
    }
}

fn walk(node: &Node) -> Vec<String> {
    let mut events = vec![];
    let mut it = node.iter();
    loop {
        match it.next() {
            Some(IteratorEvent::Enter(n)) => events.push(format!("> {}", label(n))),
            Some(IteratorEvent::Exit(n)) => events.push(format!("< {}", label(n))),
            None => break,
        }
    }
    assert_eq!(it.next(), None);
    events
}

#[test]
fn events_of_a_tree() {
    assert_eq!(
        walk(&tree()),
        vec![
            "> statechart",
            "> state a",
            "> transition b",
            "< transition b",
            "> state a1",
            "< state a1",
            "< state a",
            "> parallel b",
            "> invoke 1",
            "< invoke 1",
            "< parallel b",
            "< statechart",
        ]
    );
}

#[test]
fn events_of_a_node_without_children() {
    assert_eq!(walk(&named("x", vec![])), vec!["> state x", "< state x"]);
    assert_eq!(
        walk(&Node::OnEntry(OnEntry { children: vec![1, 2], loc: Location::default() })),
        vec!["> on_entry", "< on_entry"]
    );
    assert_eq!(
        walk(&Node::OnEvent(OnEvent {
            event: None,
            condition: None,
            children: vec![3],
            loc: Location::default()
        })),
        vec!["> on_event", "< on_event"]
    );
}

#[test]
fn events_hold_the_nodes_themselves() {
    let root = tree();
    let mut it = root.iter();
    match it.next() {
        Some(IteratorEvent::Enter(n)) => assert!(std::ptr::eq(n, &root)),
        other => panic!("{:?}", other),
    }
    let first = match &root {
        Node::Statechart(n) => &n.children[0],
        _ => unreachable!(),
    };
    assert_eq!(it.next(), Some(IteratorEvent::Enter(first)));
}

#[test]
fn the_nodes_below_every_kind_of_state_are_walked_through() {
    let inner = || vec![named("in", vec![])];
    let nodes = vec![
        Node::Initial(Initial { children: inner(), loc: Location::default() }),
        Node::Final(Final { id: None, children: inner(), loc: Location::default() }),
        Node::History(History {
            id: None,
            t: HistoryType::Deep,
            children: inner(),
            loc: Location::default(),
        }),
    ];
    for node in nodes.iter() {
        let events = walk(node);
        assert_eq!(events.len(), 4);
        assert_eq!(events[1], "> state in");
        assert_eq!(events[2], "< state in");
    }
}

#[test]
fn children_one_after_the_other() {
    let root = tree();
    let mut children = ChildIterator::new(&root);
    let mut seen = vec![];
    while let Some(child) = children.next() {
        seen.push(label(child));
    }
    assert_eq!(seen, vec!["state a", "parallel b"]);
    assert_eq!(children.next(), None);
    let leaf = to("x");
    assert_eq!(ChildIterator::new(&leaf).next(), None);
}

#[test]
fn the_normaliser_opens_the_states_in_the_order_of_the_events() {
    let root = tree();
    let entered: Vec<String> = walk(&root)
        .into_iter()
        .filter(|e| e.starts_with("> s") || e.starts_with("> p"))
        .collect();
    let chart = match root {
        Node::Statechart(chart) => chart,
        _ => unreachable!(),
    };
    let core = to_core(&chart).unwrap();
    let names: Vec<String> = core
        .states
        .iter()
        .map(|s| match (&s.id, s.t) {
            (Some(id), StateType::Parallel) => format!("> parallel {}", id),
            (Some(id), _) => format!("> state {}", id),
            (None, _) => "> statechart".to_string(),
        })
        .collect();
    assert_eq!(names, entered);
}

#[test]
fn compiling_a_statechart() {
    let chart = match tree() {
        Node::Statechart(chart) => chart,
        _ => unreachable!(),
    };
    let program = compile(&chart).unwrap();
    let core = to_core(&chart).unwrap();
    assert!(core.refs_in_range());
    assert_eq!(program, to_microstep(&core).unwrap());
    assert_eq!(program.configuration_size, 4);
    assert!(program.init.params.is_empty());
    assert_eq!(program.next.params.len(), 4);
}

#[test]
fn compiling_a_faulty_statechart() {
    let chart = Statechart {
        binding: Binding::Late,
        children: vec![named("a", vec![to("nowhere")])],
        loc: Location::default(),
    };
    let errors = compile(&chart).unwrap_err();
    assert_eq!(errors.len(), 1);
    assert_eq!(errors[0].message, "Missing target: \"nowhere\"");
    assert_eq!(errors, to_core(&chart).unwrap_err());
}

#[test]
fn indices_of_a_graph_in_and_out_of_range() {
    assert!(!Core::default().refs_in_range());
    let mut core = Core { states: vec![State::new()], transitions: vec![], loc: Location::default() };
    assert!(core.refs_in_range());
    core.states[0].children = vec![1];
    assert!(!core.refs_in_range());
    core.states.push(State::new());
    assert!(core.refs_in_range());
    core.states[1].transitions = vec![0];
    assert!(!core.refs_in_range());
    core.transitions.push(Transition::new());
    assert!(core.refs_in_range());
    core.transitions[0].targets = vec![1, 2];
    assert!(!core.refs_in_range());
    core.transitions[0].targets = vec![1];
    core.transitions[0].conflicts = vec![1];
    assert!(!core.refs_in_range());
    core.transitions[0].conflicts = vec![0];
    core.transitions[0].source = 2;
    assert!(!core.refs_in_range());
    core.transitions[0].source = 1;
    core.states[1].parent = 7;
    assert!(!core.refs_in_range());
    assert!(core.states[1].refs_below(8, 1));
    assert!(!core.states[1].refs_below(8, 0));
    assert!(core.transitions[0].refs_below(2, 1));
    assert!(!core.transitions[0].refs_below(1, 1));
}

#[test]
fn defaults() {
    assert_eq!(Binding::default(), Binding::Late);
    assert_eq!(HistoryType::default(), HistoryType::Shallow);
    assert_eq!(TransitionType::default(), TransitionType::External);
    assert_eq!(StateType::default(), StateType::Atomic);
    assert_eq!(
        thot::ast::core_graph::TransitionType::default(),
        thot::ast::core_graph::TransitionType::External
    );
    assert_eq!(Expression::default(), Expression::NullLiteral);
    assert_eq!(SimpleExpression::default(), SimpleExpression::NullLiteral);
    assert_eq!(Statechart::default().binding, Binding::Late);
    assert!(Statechart::default().children.is_empty());
    assert_eq!(State::default(), State::new());
    assert_eq!(Transition::default(), Transition::new());
}
