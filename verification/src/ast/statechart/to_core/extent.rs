//! The size of a tree, and what holds of the walk through a tree that is not
//! too large for its states and transitions to be indexed.

use crate::ast::core_graph::well_formed::may_nest;
use crate::ast::core_graph::{name_view, StateType, TransitionType};
use crate::ast::statechart::to_core::shape::{
    lemma_add_transition, lemma_attach, lemma_close_state, lemma_closes, lemma_finished,
    lemma_leafy_close, lemma_leafy_enter, lemma_open_state, lemma_passes_leaf, lemma_passes_on,
    lemma_passes_scope, lemma_same_shape, passes,
};
use crate::ast::statechart::to_core::walk::{names_view, normalize, visit, visit_all, Walk};
use crate::ast::statechart::{tidy, HistoryType, Node, Statechart};
use vstd::prelude::*;

verus! {

/// The number of nodes at `node` and below it that stand for a state.
pub open spec fn state_count(node: Node) -> nat
    decreases node,
{
    match node {
        Node::Statechart(n) => 1 + state_count_all(n.children@, n.children@.len() as int),
        Node::State(n) => 1 + state_count_all(n.children@, n.children@.len() as int),
        Node::Parallel(n) => 1 + state_count_all(n.children@, n.children@.len() as int),
        Node::Initial(n) => 1 + state_count_all(n.children@, n.children@.len() as int),
        Node::Final(n) => 1 + state_count_all(n.children@, n.children@.len() as int),
        Node::History(n) => 1 + state_count_all(n.children@, n.children@.len() as int),
        _ => 0,
    }
}

/// The number of nodes at the first `n` of `nodes` and below them that
/// stand for a state.
pub open spec fn state_count_all(nodes: Seq<Node>, n: int) -> nat
    decreases nodes, n,
{
    if n <= 0 || n > nodes.len() {
        0
    } else {
        state_count_all(nodes, n - 1) + state_count(nodes[n - 1])
    }
}

/// The number of nodes at `node` and below it that stand for a transition.
pub open spec fn transition_count(node: Node) -> nat
    decreases node,
{
    match node {
        Node::Statechart(n) => transition_count_all(n.children@, n.children@.len() as int),
        Node::State(n) => transition_count_all(n.children@, n.children@.len() as int),
        Node::Parallel(n) => transition_count_all(n.children@, n.children@.len() as int),
        Node::Initial(n) => transition_count_all(n.children@, n.children@.len() as int),
        Node::Final(n) => transition_count_all(n.children@, n.children@.len() as int),
        Node::History(n) => transition_count_all(n.children@, n.children@.len() as int),
        Node::Transition(_) => 1,
        Node::OnEvent(_) => 1,
        _ => 0,
    }
}

/// The number of nodes at the first `n` of `nodes` and below them that
/// stand for a transition.
pub open spec fn transition_count_all(nodes: Seq<Node>, n: int) -> nat
    decreases nodes, n,
{
    if n <= 0 || n > nodes.len() {
        0
    } else {
        transition_count_all(nodes, n - 1) + transition_count(nodes[n - 1])
    }
}

/// Whether the states and the transitions of the tree at `node` can be
/// indexed after those of the walk `w`.
pub open spec fn fits(w: Walk, node: Node) -> bool {
    &&& w.states.len() + state_count(node) <= usize::MAX
    &&& w.transitions.len() + transition_count(node) <= usize::MAX
}

/// Whether the states and the transitions of the trees at the first `n` of
/// `nodes` can be indexed after those of the walk `w`.
pub open spec fn fit(w: Walk, nodes: Seq<Node>, n: int) -> bool {
    &&& w.states.len() + state_count_all(nodes, n) <= usize::MAX
    &&& w.transitions.len() + transition_count_all(nodes, n) <= usize::MAX
}

/// The counts grow with the number of nodes that are counted.
proof fn lemma_counts_grow(nodes: Seq<Node>, n: int, m: int)
    requires
        0 <= n <= m <= nodes.len(),
    ensures
        state_count_all(nodes, n) <= state_count_all(nodes, m),
        transition_count_all(nodes, n) <= transition_count_all(nodes, m),
    decreases m - n,
{
    if n < m {
        lemma_counts_grow(nodes, n, m - 1);
    }
}

/// What entering a node keeps of the walk, and how it makes it grow.
pub proof fn lemma_enter(w: Walk, node: Node)
    requires
        w.inv(),
        w.stack.len() > 0 || (w.states.len() == 0 && node.is_scope()),
        w.states.len() + state_count(node) <= usize::MAX,
        w.transitions.len() + transition_count(node) <= usize::MAX,
    ensures
        w.enter(node).inv(),
        node.is_scope() ==> w.enter(node).stack == w.stack.push(w.states.len() as usize)
            && w.enter(node).states.len() == w.states.len() + 1 && w.enter(node).transitions.len()
            == w.transitions.len(),
        !node.is_scope() ==> w.enter(node).stack == w.stack && w.enter(node).states.len()
            == w.states.len() && w.enter(node).transitions.len() == w.transitions.len()
            + transition_count(node),
{
    if w.stack.len() > 0 {
        assert(w.stack[w.stack.len() - 1] < w.states.len());
    }
    match node {
        Node::Statechart(n) => {
            let bound = Walk { binding: n.binding, ..w };
            lemma_same_shape(w, bound);
            lemma_open_state(bound, StateType::Compound, None, n.loc);
        },
        Node::State(n) => {
            lemma_open_state(w, StateType::Compound, name_view(n.id), n.loc);
        },
        Node::Parallel(n) => {
            lemma_open_state(w, StateType::Parallel, name_view(n.id), n.loc);
        },
        Node::Initial(n) => {
            lemma_open_state(w, StateType::Initial, None, n.loc);
        },
        Node::Final(n) => {
            lemma_open_state(w, StateType::Final, name_view(n.id), n.loc);
        },
        Node::History(n) => {
            let t = match n.t {
                HistoryType::Shallow => StateType::HistoryShallow,
                HistoryType::Deep => StateType::HistoryDeep,
            };
            lemma_open_state(w, t, name_view(n.id), n.loc);
        },
        Node::Transition(n) => {
            lemma_add_transition(
                w,
                TransitionType::External,
                n.event,
                n.condition,
                names_view(n.targets@),
                n.loc,
            );
        },
        Node::OnEvent(n) => {
            lemma_add_transition(
                w,
                TransitionType::OnEvent,
                n.event,
                n.condition,
                Seq::empty(),
                n.loc,
            );
        },
        Node::OnInit(n) => {
            lemma_attach(w, n.children@, 0);
        },
        Node::OnEntry(n) => {
            lemma_attach(w, n.children@, 0);
        },
        Node::OnExit(n) => {
            lemma_attach(w, n.children@, 0);
        },
        Node::Invoke(n) => {
            lemma_attach(w, Seq::empty(), n.id);
        },
    }
}

/// The walk through a tree that fits keeps what holds of the walk, leaves
/// the open states open, and makes the walk grow by the states and the
/// transitions of the tree.
pub proof fn lemma_visit(w: Walk, node: Node)
    requires
        w.inv(),
        w.stack.len() > 0 || (w.states.len() == 0 && node.is_scope()),
        fits(w, node),
    ensures
        visit(w, node).inv(),
        visit(w, node).stack == w.stack,
        visit(w, node).states.len() == w.states.len() + state_count(node),
        visit(w, node).transitions.len() == w.transitions.len() + transition_count(node),
    decreases node,
{
    let nodes = node.children();
    if node.is_scope() {
        lemma_enter(w, node);
        let opened = w.enter(node);
        match node {
            Node::Statechart(n) => {
                lemma_visit_all(opened, n.children@, n.children@.len() as int);
            },
            Node::State(n) => {
                lemma_visit_all(opened, n.children@, n.children@.len() as int);
            },
            Node::Parallel(n) => {
                lemma_visit_all(opened, n.children@, n.children@.len() as int);
            },
            Node::Initial(n) => {
                lemma_visit_all(opened, n.children@, n.children@.len() as int);
            },
            Node::Final(n) => {
                lemma_visit_all(opened, n.children@, n.children@.len() as int);
            },
            Node::History(n) => {
                lemma_visit_all(opened, n.children@, n.children@.len() as int);
            },
            _ => {},
        }
        let passed = visit_all(opened, nodes, nodes.len() as int);
        lemma_close_state(passed);
        assert(passed.stack.drop_last() =~= w.stack);
    } else {
        lemma_enter(w, node);
    }
}

/// The walk through trees that fit keeps what holds of the walk, leaves the
/// open states open, and makes the walk grow by their states and
/// transitions.
pub proof fn lemma_visit_all(w: Walk, nodes: Seq<Node>, n: int)
    requires
        w.inv(),
        w.stack.len() > 0,
        0 <= n <= nodes.len(),
        fit(w, nodes, n),
    ensures
        visit_all(w, nodes, n).inv(),
        visit_all(w, nodes, n).stack == w.stack,
        visit_all(w, nodes, n).states.len() == w.states.len() + state_count_all(nodes, n),
        visit_all(w, nodes, n).transitions.len() == w.transitions.len() + transition_count_all(
            nodes,
            n,
        ),
    decreases nodes, n,
{
    if n > 0 {
        lemma_counts_grow(nodes, n - 1, n);
        lemma_visit_all(w, nodes, n - 1);
        lemma_visit(visit_all(w, nodes, n - 1), nodes[n - 1]);
    }
}

/// The walk through a tree that fits leaves the open states their kind.
pub proof fn lemma_visit_passes(w: Walk, node: Node)
    requires
        w.inv(),
        w.stack.len() > 0,
        fits(w, node),
    ensures
        passes(w, visit(w, node)),
    decreases node,
{
    let nodes = node.children();
    if node.is_scope() {
        lemma_enter(w, node);
        let opened = w.enter(node);
        match node {
            Node::Statechart(n) => {
                lemma_visit_all(opened, n.children@, n.children@.len() as int);
                lemma_visit_all_passes(opened, n.children@, n.children@.len() as int);
            },
            Node::State(n) => {
                lemma_visit_all(opened, n.children@, n.children@.len() as int);
                lemma_visit_all_passes(opened, n.children@, n.children@.len() as int);
            },
            Node::Parallel(n) => {
                lemma_visit_all(opened, n.children@, n.children@.len() as int);
                lemma_visit_all_passes(opened, n.children@, n.children@.len() as int);
            },
            Node::Initial(n) => {
                lemma_visit_all(opened, n.children@, n.children@.len() as int);
                lemma_visit_all_passes(opened, n.children@, n.children@.len() as int);
            },
            Node::Final(n) => {
                lemma_visit_all(opened, n.children@, n.children@.len() as int);
                lemma_visit_all_passes(opened, n.children@, n.children@.len() as int);
            },
            Node::History(n) => {
                lemma_visit_all(opened, n.children@, n.children@.len() as int);
                lemma_visit_all_passes(opened, n.children@, n.children@.len() as int);
            },
            _ => {},
        }
        lemma_passes_scope(w, opened, visit_all(opened, nodes, nodes.len() as int));
    } else {
        lemma_passes_leaf(w, node);
    }
}

/// The walk through trees that fit leaves the open states their kind.
pub proof fn lemma_visit_all_passes(w: Walk, nodes: Seq<Node>, n: int)
    requires
        w.inv(),
        w.stack.len() > 0,
        0 <= n <= nodes.len(),
        fit(w, nodes, n),
    ensures
        passes(w, visit_all(w, nodes, n)),
    decreases nodes, n,
{
    if n > 0 {
        lemma_counts_grow(nodes, n - 1, n);
        lemma_visit_all(w, nodes, n - 1);
        lemma_visit_all_passes(w, nodes, n - 1);
        let before = visit_all(w, nodes, n - 1);
        lemma_visit_passes(before, nodes[n - 1]);
        lemma_passes_on(w, before, visit(before, nodes[n - 1]));
    } else {
        assert forall|k: int| 0 <= k < w.stack.len() implies (#[trigger] w.stack[k])
            < w.states.len() by {}
    }
}

/// The walk through a tidy tree that fits gives children to compound and
/// parallel states only.
pub proof fn lemma_visit_leafy(w: Walk, node: Node)
    requires
        w.inv(),
        w.stack.len() > 0,
        fits(w, node),
        w.leafy(),
        tidy(node, may_nest(w.states[w.top() as int].t)),
    ensures
        visit(w, node).leafy(),
    decreases node,
{
    let nodes = node.children();
    lemma_enter(w, node);
    lemma_leafy_enter(w, node);
    if node.is_scope() {
        let opened = w.enter(node);
        let n = nodes.len() as int;
        match node {
            Node::Statechart(x) => {
                lemma_visit_all(opened, x.children@, n);
                lemma_visit_all_passes(opened, x.children@, n);
                lemma_visit_all_leafy(opened, x.children@, n);
            },
            Node::State(x) => {
                lemma_visit_all(opened, x.children@, n);
                lemma_visit_all_passes(opened, x.children@, n);
                lemma_visit_all_leafy(opened, x.children@, n);
            },
            Node::Parallel(x) => {
                lemma_visit_all(opened, x.children@, n);
                lemma_visit_all_passes(opened, x.children@, n);
                lemma_visit_all_leafy(opened, x.children@, n);
            },
            Node::Initial(x) => {
                lemma_visit_all(opened, x.children@, n);
                lemma_visit_all_passes(opened, x.children@, n);
                lemma_visit_all_leafy(opened, x.children@, n);
            },
            Node::Final(x) => {
                lemma_visit_all(opened, x.children@, n);
                lemma_visit_all_passes(opened, x.children@, n);
                lemma_visit_all_leafy(opened, x.children@, n);
            },
            Node::History(x) => {
                lemma_visit_all(opened, x.children@, n);
                lemma_visit_all_passes(opened, x.children@, n);
                lemma_visit_all_leafy(opened, x.children@, n);
            },
            _ => {},
        }
        let passed = visit_all(opened, nodes, n);
        let last = w.stack.len() - 1;
        assert(opened.stack[last] == w.stack[last]);
        assert(w.stack[last] < w.states.len());
        assert(passed.states[opened.stack[last] as int].t == opened.states[opened.stack[last] as int].t);
        assert(passed.stack[passed.stack.len() - 2] == w.stack[last]);
        lemma_leafy_close(passed);
    }
}

/// The walk through tidy trees that fit gives children to compound and
/// parallel states only.
pub proof fn lemma_visit_all_leafy(w: Walk, nodes: Seq<Node>, n: int)
    requires
        w.inv(),
        w.stack.len() > 0,
        0 <= n <= nodes.len(),
        fit(w, nodes, n),
        w.leafy(),
        forall|i: int|
            0 <= i < nodes.len() ==> tidy(#[trigger] nodes[i], may_nest(w.states[w.top() as int].t)),
    ensures
        visit_all(w, nodes, n).leafy(),
    decreases nodes, n,
{
    if n > 0 {
        lemma_counts_grow(nodes, n - 1, n);
        lemma_visit_all(w, nodes, n - 1);
        lemma_visit_all_passes(w, nodes, n - 1);
        lemma_visit_all_leafy(w, nodes, n - 1);
        let before = visit_all(w, nodes, n - 1);
        let last = w.stack.len() - 1;
        assert(before.stack[last] == w.stack[last]);
        assert(before.states[w.stack[last] as int].t == w.states[w.stack[last] as int].t);
        assert(tidy(nodes[n - 1], may_nest(w.states[w.top() as int].t)));
        lemma_visit_leafy(before, nodes[n - 1]);
    }
}

/// What holds of the walk through a statechart that fits, once it is
/// through: every state is closed, the first state is compound or atomic,
/// and only compound and parallel states have children where the statechart
/// is tidy.
pub proof fn lemma_walked(statechart: Statechart)
    requires
        fits(Walk::start(), Node::Statechart(statechart)),
    ensures
        ({
            let w = visit(Walk::start(), Node::Statechart(statechart));
            &&& w.inv()
            &&& w.stack.len() == 0
            &&& w.states.len() > 0
            &&& w.states[0].t == StateType::Compound || w.states[0].t == StateType::Atomic
            &&& tidy(Node::Statechart(statechart), true) ==> w.leafy()
        }),
{
    let start = Walk::start();
    let root = Node::Statechart(statechart);
    let nodes = statechart.children@;
    let n = nodes.len() as int;
    assert(start.inv());
    lemma_visit(start, root);
    lemma_enter(start, root);
    lemma_leafy_enter(start, root);
    let opened = start.enter(root);
    lemma_visit_all(opened, nodes, n);
    lemma_visit_all_passes(opened, nodes, n);
    let passed = visit_all(opened, nodes, n);
    assert(opened.stack[0] == 0);
    assert(passed.states[opened.stack[0] as int].t == opened.states[opened.stack[0] as int].t);
    lemma_closes(passed);
    if tidy(root, true) {
        lemma_visit_all_leafy(opened, nodes, n);
        lemma_leafy_close(passed);
    }
}

/// The core graph of a statechart that fits is well-formed, and only its
/// compound and parallel states have children where the statechart is tidy;
/// a statechart that has no core graph has faults.
pub proof fn lemma_normalized(statechart: Statechart)
    requires
        fits(Walk::start(), Node::Statechart(statechart)),
    ensures
        match normalize(statechart) {
            Ok(graph) => graph.well_formed() && (tidy(Node::Statechart(statechart), true)
                ==> graph.nests_in_regions()),
            Err(faults) => faults.len() > 0,
        },
{
    lemma_walked(statechart);
    lemma_finished(visit(Walk::start(), Node::Statechart(statechart)), statechart.loc);
}

} // verus!
