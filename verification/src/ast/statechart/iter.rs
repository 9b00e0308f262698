//! The walk through a statechart tree as a sequence of events: a node is
//! entered, then the nodes below it are walked through in the order in
//! which they stand, then the node is left.

use crate::ast::statechart::Node;
use vstd::prelude::*;

verus! {

/// One step of the walk through a tree.
#[derive(Clone, Copy, Debug, PartialEq, Eq)]
pub enum IteratorEvent<'a> {
    /// The walk comes to the node from above.
    Enter(&'a Node),
    /// The walk is through with the node and everything below it.
    Exit(&'a Node),
}

/// The events of the walk through `node` and everything below it.
pub open spec fn events<'a>(node: &'a Node) -> Seq<IteratorEvent<'a>>
    decreases *node,
{
    match *node {
        Node::Statechart(n) => seq![IteratorEvent::Enter(node)] + events_from(n.children@, 0)
            + seq![IteratorEvent::Exit(node)],
        Node::State(n) => seq![IteratorEvent::Enter(node)] + events_from(n.children@, 0) + seq![
            IteratorEvent::Exit(node),
        ],
        Node::Parallel(n) => seq![IteratorEvent::Enter(node)] + events_from(n.children@, 0)
            + seq![IteratorEvent::Exit(node)],
        Node::Initial(n) => seq![IteratorEvent::Enter(node)] + events_from(n.children@, 0) + seq![
            IteratorEvent::Exit(node),
        ],
        Node::Final(n) => seq![IteratorEvent::Enter(node)] + events_from(n.children@, 0) + seq![
            IteratorEvent::Exit(node),
        ],
        Node::History(n) => seq![IteratorEvent::Enter(node)] + events_from(n.children@, 0) + seq![
            IteratorEvent::Exit(node),
        ],
        _ => seq![IteratorEvent::Enter(node), IteratorEvent::Exit(node)],
    }
}

/// The events of the walk through the nodes of `nodes` from the position
/// `from` on, one after the other.
pub open spec fn events_from<'a>(nodes: Seq<Node>, from: int) -> Seq<IteratorEvent<'a>>
    decreases nodes, nodes.len() - from,
{
    if 0 <= from < nodes.len() {
        events(&nodes[from]) + events_from(nodes, from + 1)
    } else {
        Seq::empty()
    }
}

/// The events of a walk are the entering of the node, the events of the
/// nodes below it, and the leaving of the node.
pub proof fn lemma_events<'a>(node: &'a Node)
    ensures
        events(node) == seq![IteratorEvent::Enter(node)] + events_from(node.children(), 0) + seq![
            IteratorEvent::Exit(node),
        ],
{
    assert(seq![IteratorEvent::Enter(node)] + Seq::empty() + seq![IteratorEvent::Exit(node)]
        =~= seq![IteratorEvent::Enter(node), IteratorEvent::Exit(node)]);
}

/// The place of a walk among the nodes directly below a node.
#[derive(Clone, Copy, Debug)]
pub struct ChildIterator<'a> {
    node: &'a Node,
    i: usize,
}

impl<'a> ChildIterator<'a> {
    /// The node above.
    pub closed spec fn node(self) -> &'a Node {
        self.node
    }

    /// The number of nodes that the walk is through with.
    pub closed spec fn position(self) -> int {
        self.i as int
    }

    /// The events that are left of the walk through the node above: those of
    /// the nodes that the walk is not through with, and the leaving of the
    /// node above.
    pub open spec fn remaining(self) -> Seq<IteratorEvent<'a>> {
        events_from(self.node().children(), self.position()) + seq![
            IteratorEvent::Exit(self.node()),
        ]
    }

    /// The walk at the first of the nodes below `node`.
    pub fn new(node: &'a Node) -> (children: ChildIterator<'a>)
        ensures
            children.node() == node,
            children.position() == 0,
    {
        ChildIterator { node, i: 0 }
    }

    /// The next of the nodes below the node above, where there is one.
    pub fn next(&mut self) -> (child: Option<&'a Node>)
        ensures
            final(self).node() == old(self).node(),
            match child {
                Some(child) => {
                    &&& 0 <= old(self).position() < old(self).node().children().len()
                    &&& *child == old(self).node().children()[old(self).position()]
                    &&& final(self).position() == old(self).position() + 1
                },
                None => {
                    &&& old(self).position() >= old(self).node().children().len()
                    &&& final(self).position() == old(self).position()
                },
            },
    {
        let children = match self.node {
            Node::Statechart(n) => &n.children,
            Node::State(n) => &n.children,
            Node::Parallel(n) => &n.children,
            Node::Initial(n) => &n.children,
            Node::Final(n) => &n.children,
            Node::History(n) => &n.children,
            _ => {
                return None;
            },
        };
        if self.i < children.len() {
            let child = &children[self.i];
            self.i += 1;
            Some(child)
        } else {
            None
        }
    }
}

/// The events that are left of the walks through the nodes above the first
/// `n` places of `stack`, innermost first.
pub open spec fn remaining_of<'a>(stack: Seq<ChildIterator<'a>>, n: int) -> Seq<IteratorEvent<'a>>
    decreases n,
{
    if n <= 0 || n > stack.len() {
        Seq::empty()
    } else {
        stack[n - 1].remaining() + remaining_of(stack, n - 1)
    }
}

/// A walk through a statechart tree, event by event.
#[derive(Debug)]
pub struct NodeIterator<'a> {
    /// The node whose walk has not begun.
    root: Option<&'a Node>,
    /// The places of the walk in the nodes that it has entered and not left,
    /// outermost first.
    stack: Vec<ChildIterator<'a>>,
}

impl<'a> NodeIterator<'a> {
    /// The events that are left of the walk.
    pub closed spec fn remaining(self) -> Seq<IteratorEvent<'a>> {
        match self.root {
            Some(root) => events(root) + remaining_of(self.stack@, self.stack@.len() as int),
            None => remaining_of(self.stack@, self.stack@.len() as int),
        }
    }

    /// The next event of the walk, where one is left.
    pub fn next(&mut self) -> (event: Option<IteratorEvent<'a>>)
        ensures
            match event {
                Some(event) => {
                    &&& old(self).remaining().len() > 0
                    &&& event == old(self).remaining()[0]
                    &&& final(self).remaining() == old(self).remaining().skip(1)
                },
                None => old(self).remaining().len() == 0 && final(self).remaining().len() == 0,
            },
    {
        let ghost before = self.stack@;
        if let Some(root) = self.root {
            self.root = None;
            self.stack.push(ChildIterator::new(root));
            proof {
                lemma_events(root);
                lemma_remaining_of_same(before, self.stack@, before.len() as int);
                assert(self.remaining() =~= old(self).remaining().skip(1));
            }
            return Some(IteratorEvent::Enter(root));
        }
        let depth = self.stack.len();
        if depth == 0 {
            return None;
        }
        let ghost top = before[depth - 1];
        match self.stack[depth - 1].next() {
            Some(child) => {
                let ghost moved = self.stack@;
                self.stack.push(ChildIterator::new(child));
                proof {
                    lemma_events(child);
                    lemma_remaining_of_same(before, moved, depth - 1);
                    lemma_remaining_of_same(moved, self.stack@, depth as int);
                    assert(top.remaining() =~= events(child) + moved[depth - 1].remaining());
                    assert(self.remaining() =~= old(self).remaining().skip(1));
                }
                Some(IteratorEvent::Enter(child))
            },
            None => {
                let frame = self.stack.pop().unwrap();
                proof {
                    assert(frame.node() == top.node());
                    lemma_remaining_of_same(before, self.stack@, depth - 1);
                    assert(top.remaining() =~= seq![IteratorEvent::Exit(top.node())]);
                    assert(self.remaining() =~= old(self).remaining().skip(1));
                }
                Some(IteratorEvent::Exit(frame.node))
            },
        }
    }
}

/// What is left of the first `n` places does not depend on the places after
/// them.
proof fn lemma_remaining_of_same<'a>(a: Seq<ChildIterator<'a>>, b: Seq<ChildIterator<'a>>, n: int)
    requires
        n <= a.len(),
        n <= b.len(),
        forall|i: int| 0 <= i < n ==> a[i] == b[i],
    ensures
        remaining_of(a, n) == remaining_of(b, n),
    decreases n,
{
    if n > 0 {
        lemma_remaining_of_same(a, b, n - 1);
    }
}

impl Node {
    /// The walk through the node and everything below it.
    pub fn iter<'a>(&'a self) -> (walk: NodeIterator<'a>)
        ensures
            walk.remaining() == events(self),
    {
        let walk = NodeIterator { root: Some(self), stack: Vec::new() };
        assert(walk.remaining() =~= events(self));
        walk
    }
}

} // verus!
