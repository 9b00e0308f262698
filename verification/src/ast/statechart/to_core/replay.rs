//! The walk of the normaliser is the walk of the iterator: what the
//! normaliser does at a node and below it is what it does at the events of
//! the node, one after the other.

use crate::ast::statechart::iter::{events, events_from, lemma_events, IteratorEvent};
use crate::ast::statechart::to_core::walk::{visit, visit_all, Walk};
use crate::ast::statechart::Node;
use vstd::prelude::*;

verus! {

/// What the normaliser does at one event.
pub open spec fn step(w: Walk, event: IteratorEvent) -> Walk {
    match event {
        IteratorEvent::Enter(node) => w.enter(*node),
        IteratorEvent::Exit(node) => w.exit(*node),
    }
}

/// What the normaliser does at the events `events`, one after the other.
pub open spec fn replay(w: Walk, events: Seq<IteratorEvent>) -> Walk
    decreases events.len(),
{
    if events.len() == 0 {
        w
    } else {
        step(replay(w, events.drop_last()), events.last())
    }
}

/// Events replayed after other events are all of them replayed.
pub proof fn lemma_replay_add(w: Walk, a: Seq<IteratorEvent>, b: Seq<IteratorEvent>)
    ensures
        replay(w, a + b) == replay(replay(w, a), b),
    decreases b.len(),
{
    if b.len() == 0 {
        assert(a + b =~= a);
    } else {
        lemma_replay_add(w, a, b.drop_last());
        assert((a + b).drop_last() =~= a + b.drop_last());
    }
}

/// One event replayed is one step.
proof fn lemma_replay_one(w: Walk, event: IteratorEvent)
    ensures
        replay(w, seq![event]) == step(w, event),
{
    assert(seq![event].drop_last() =~= Seq::<IteratorEvent>::empty());
    assert(replay(w, seq![event].drop_last()) == w);
}

/// The walk through a node is its events replayed.
pub proof fn lemma_visit_is_replay(w: Walk, node: &Node)
    ensures
        replay(w, events(node)) == visit(w, *node),
    decreases *node,
{
    let enter = seq![IteratorEvent::Enter(node)];
    let exit = seq![IteratorEvent::Exit(node)];
    let nodes = node.children();
    let below = events_from(nodes, 0);
    let entered = w.enter(*node);
    lemma_events(node);
    lemma_replay_add(w, enter + below, exit);
    lemma_replay_add(w, enter, below);
    lemma_replay_one(w, IteratorEvent::Enter(node));
    lemma_replay_one(replay(entered, below), IteratorEvent::Exit(node));
    match *node {
        Node::Statechart(n) => {
            lemma_visit_all_is_replay(entered, n.children@, 0);
        },
        Node::State(n) => {
            lemma_visit_all_is_replay(entered, n.children@, 0);
        },
        Node::Parallel(n) => {
            lemma_visit_all_is_replay(entered, n.children@, 0);
        },
        Node::Initial(n) => {
            lemma_visit_all_is_replay(entered, n.children@, 0);
        },
        Node::Final(n) => {
            lemma_visit_all_is_replay(entered, n.children@, 0);
        },
        Node::History(n) => {
            lemma_visit_all_is_replay(entered, n.children@, 0);
        },
        _ => {
            assert(below =~= Seq::<IteratorEvent>::empty());
        },
    }
}

/// The walk through nodes is their events replayed.
pub proof fn lemma_visit_all_is_replay(w: Walk, nodes: Seq<Node>, from: int)
    requires
        0 <= from <= nodes.len(),
    ensures
        replay(visit_all(w, nodes, from), events_from(nodes, from)) == visit_all(
            w,
            nodes,
            nodes.len() as int,
        ),
    decreases nodes, nodes.len() - from,
{
    if from < nodes.len() {
        let passed = visit_all(w, nodes, from);
        lemma_visit_is_replay(passed, &nodes[from]);
        lemma_visit_all_is_replay(w, nodes, from + 1);
        lemma_replay_add(passed, events(&nodes[from]), events_from(nodes, from + 1));
    }
}

} // verus!
