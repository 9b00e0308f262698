//! What normalising a statechart means: one walk through the tree, depth
//! first, that opens a state where it enters a node that stands for one and
//! closes it where it leaves the node; then the resolution of the targets
//! that the transitions name.

use crate::ast::conversion_error::ConversionErrorView;
use crate::ast::core_graph::conflicts::with_conflicts;
use crate::ast::core_graph::exits::exit_set;
use crate::ast::core_graph::{
    name_view, CoreView, StateId, StateType, StateView, TransitionType, TransitionView,
};
use crate::ast::location::Location;
use crate::ast::statechart::to_core::report::{duplicate_target, missing_target};
use crate::ast::statechart::{Binding, HistoryType, Node, Statechart};
use crate::seqs::{concat_upto, insert_ordered};
use vstd::prelude::*;

verus! {

/// The characters of each name of a sequence.
pub open spec fn names_view(s: Seq<String>) -> Seq<Seq<char>> {
    Seq::new(s.len(), |i: int| s[i]@)
}

/// The kind and the initial children of a state that is closed: a compound
/// state without children is atomic; a parallel state and a shallow history
/// begin in all their children, a compound state in its first child, a deep
/// history in all its descendants.
pub open spec fn settle(s: StateView) -> StateView {
    let t = if s.t == StateType::Compound && s.children.len() == 0 {
        StateType::Atomic
    } else {
        s.t
    };
    let initial = match t {
        StateType::Parallel => s.children,
        StateType::Compound => seq![s.children[0]],
        StateType::HistoryShallow => s.children,
        StateType::HistoryDeep => s.descendants,
        _ => s.initial,
    };
    StateView { t, initial, ..s }
}

/// The first of the first `n` states of the registry that has the name
/// `name`.
pub open spec fn find_among(
    states: Seq<StateView>,
    registry: Seq<StateId>,
    name: Seq<char>,
    n: int,
) -> Option<StateId>
    decreases n,
{
    if n <= 0 {
        None
    } else {
        match find_among(states, registry, name, n - 1) {
            Some(idx) => Some(idx),
            None => if states[registry[n - 1] as int].id == Some(name) {
                Some(registry[n - 1])
            } else {
                None
            },
        }
    }
}

/// The states that the first `n` of `names` name, in the order of the
/// names.
pub open spec fn resolved(
    states: Seq<StateView>,
    registry: Seq<StateId>,
    names: Seq<Seq<char>>,
    n: int,
) -> Seq<StateId>
    decreases n,
{
    if n <= 0 {
        Seq::empty()
    } else {
        let before = resolved(states, registry, names, n - 1);
        match find_among(states, registry, names[n - 1], registry.len() as int) {
            Some(idx) => before.push(idx),
            None => before,
        }
    }
}

/// The faults of those of the first `n` of `names` that name no state.
pub open spec fn missing(
    states: Seq<StateView>,
    registry: Seq<StateId>,
    names: Seq<Seq<char>>,
    loc: Location,
    n: int,
) -> Seq<ConversionErrorView>
    decreases n,
{
    if n <= 0 {
        Seq::empty()
    } else {
        let before = missing(states, registry, names, loc, n - 1);
        match find_among(states, registry, names[n - 1], registry.len() as int) {
            Some(_) => before,
            None => before.push(missing_target(names[n - 1], loc)),
        }
    }
}

/// The walk through the tree, at some node of it.
pub struct Walk {
    /// The states opened so far, in the order in which they were opened.
    pub states: Seq<StateView>,
    /// The transitions met so far, in the order in which they were met.
    pub transitions: Seq<TransitionView>,
    /// The states that are open, outermost first.
    pub stack: Seq<StateId>,
    pub binding: Binding,
    /// For each transition, the targets that it names.
    pub pending: Seq<Seq<Seq<char>>>,
    /// The states that a target can name, in the order in which they were
    /// closed.
    pub registry: Seq<StateId>,
    /// The faults found so far.
    pub errors: Seq<ConversionErrorView>,
}

impl Walk {
    /// The walk before the first node.
    pub open spec fn start() -> Walk {
        Walk {
            states: Seq::empty(),
            transitions: Seq::empty(),
            stack: Seq::empty(),
            binding: Binding::Late,
            pending: Seq::empty(),
            registry: Seq::empty(),
            errors: Seq::empty(),
        }
    }

    /// The innermost open state; the first state where none is open.
    pub open spec fn top(self) -> StateId {
        if self.stack.len() > 0 {
            self.stack.last()
        } else {
            0
        }
    }

    /// Opens a new state inside the innermost open state.
    pub open spec fn open_state(self, t: StateType, id: Option<Seq<char>>, loc: Location) -> Walk {
        let idx = self.states.len() as StateId;
        let state = StateView {
            id,
            idx,
            t,
            parent: self.top(),
            ancestors: self.stack,
            loc,
            ..StateView::empty()
        };
        Walk { states: self.states.push(state), stack: self.stack.push(idx), ..self }
    }

    /// Adds a transition that leaves the innermost open state.
    pub open spec fn add_transition(
        self,
        t: TransitionType,
        event: Option<usize>,
        condition: Option<usize>,
        targets: Seq<Seq<char>>,
        loc: Location,
    ) -> Walk {
        let idx = self.transitions.len() as usize;
        let source = self.top();
        let transition = TransitionView {
            idx,
            t,
            source,
            event,
            condition,
            loc,
            ..TransitionView::empty()
        };
        let state = self.states[source as int];
        Walk {
            states: self.states.update(
                source as int,
                StateView { transitions: state.transitions.push(idx), ..state },
            ),
            transitions: self.transitions.push(transition),
            pending: self.pending.push(targets),
            ..self
        }
    }

    /// Attaches content that initialises a state: to the first state where
    /// the binding is early, to the innermost open state where it is late.
    pub open spec fn attach_init(self, content: Seq<usize>) -> Walk {
        let idx = match self.binding {
            Binding::Early => 0,
            Binding::Late => self.top(),
        };
        let state = self.states[idx as int];
        Walk {
            states: self.states.update(
                idx as int,
                StateView { on_init: state.on_init + content, ..state },
            ),
            ..self
        }
    }

    /// Attaches content that is executed when the innermost open state is
    /// entered.
    pub open spec fn attach_entry(self, content: Seq<usize>) -> Walk {
        let state = self.states[self.top() as int];
        Walk {
            states: self.states.update(
                self.top() as int,
                StateView { on_enter: state.on_enter + content, ..state },
            ),
            ..self
        }
    }

    /// Attaches content that is executed when the innermost open state is
    /// left.
    pub open spec fn attach_exit(self, content: Seq<usize>) -> Walk {
        let state = self.states[self.top() as int];
        Walk {
            states: self.states.update(
                self.top() as int,
                StateView { on_exit: state.on_exit + content, ..state },
            ),
            ..self
        }
    }

    /// Attaches an invocation to the innermost open state.
    pub open spec fn attach_invocation(self, id: usize) -> Walk {
        let state = self.states[self.top() as int];
        Walk {
            states: self.states.update(
                self.top() as int,
                StateView { invocations: state.invocations.push(id), ..state },
            ),
            ..self
        }
    }

    /// The state that the target `name` names.
    pub open spec fn find(self, name: Seq<char>) -> Option<StateId> {
        find_among(self.states, self.registry, name, self.registry.len() as int)
    }

    /// The states after the innermost open state `idx` has been added to the
    /// descendants of the states in `rest`, in document order, and to the
    /// children of the last of them.
    pub open spec fn enclosed(self, idx: StateId, rest: Seq<StateId>) -> Seq<StateView> {
        Seq::new(
            self.states.len(),
            |i: int|
                {
                    let s = self.states[i];
                    let s = if rest.contains(i as StateId) {
                        StateView { descendants: insert_ordered(s.descendants, idx), ..s }
                    } else {
                        s
                    };
                    if rest.len() > 0 && rest.last() == i {
                        StateView { children: s.children.push(idx), ..s }
                    } else {
                        s
                    }
                },
        )
    }

    /// Closes the innermost open state: the states that stay open get it as
    /// a descendant, its parent gets it as a child, its kind and its initial
    /// children are settled, and its name is entered in the registry; where
    /// the registry has that name already, that is a fault.
    pub open spec fn close_state(self) -> Walk {
        let idx = self.stack.last();
        let rest = self.stack.drop_last();
        let enclosed = self.enclosed(idx, rest);
        let state = settle(enclosed[idx as int]);
        let states = enclosed.update(idx as int, state);
        match state.id {
            Some(name) => if self.find(name) is Some {
                Walk {
                    states,
                    stack: rest,
                    errors: self.errors.push(duplicate_target(name, state.loc)),
                    ..self
                }
            } else {
                Walk { states, stack: rest, registry: self.registry.push(idx), ..self }
            },
            None => Walk { states, stack: rest, ..self },
        }
    }

    /// What entering `node` does.
    pub open spec fn enter(self, node: Node) -> Walk {
        match node {
            Node::Statechart(n) => Walk { binding: n.binding, ..self }.open_state(
                StateType::Compound,
                None,
                n.loc,
            ),
            Node::State(n) => self.open_state(StateType::Compound, name_view(n.id), n.loc),
            Node::Parallel(n) => self.open_state(StateType::Parallel, name_view(n.id), n.loc),
            Node::Transition(n) => self.add_transition(
                TransitionType::External,
                n.event,
                n.condition,
                names_view(n.targets@),
                n.loc,
            ),
            Node::OnEvent(n) => self.add_transition(
                TransitionType::OnEvent,
                n.event,
                n.condition,
                Seq::empty(),
                n.loc,
            ),
            Node::Initial(n) => self.open_state(StateType::Initial, None, n.loc),
            Node::Final(n) => self.open_state(StateType::Final, name_view(n.id), n.loc),
            Node::OnInit(n) => self.attach_init(n.children@),
            Node::OnEntry(n) => self.attach_entry(n.children@),
            Node::OnExit(n) => self.attach_exit(n.children@),
            Node::History(n) => self.open_state(
                match n.t {
                    HistoryType::Shallow => StateType::HistoryShallow,
                    HistoryType::Deep => StateType::HistoryDeep,
                },
                name_view(n.id),
                n.loc,
            ),
            Node::Invoke(n) => self.attach_invocation(n.id),
        }
    }

    /// What leaving `node` does.
    pub open spec fn exit(self, node: Node) -> Walk {
        if node.is_scope() {
            self.close_state()
        } else {
            self
        }
    }

    /// The transition `i` with the states that its targets name, and with
    /// the exit set that follows from them.
    pub open spec fn aimed(self, i: int) -> TransitionView {
        let names = self.pending[i];
        let aimed = TransitionView {
            targets: resolved(self.states, self.registry, names, names.len() as int),
            ..self.transitions[i]
        };
        TransitionView { exits: exit_set(aimed, self.states), ..aimed }
    }

    /// The faults of the targets of the transition `i`.
    pub open spec fn missed(self, i: int) -> Seq<ConversionErrorView> {
        let names = self.pending[i];
        missing(self.states, self.registry, names, self.transitions[i].loc, names.len() as int)
    }

    /// [`Walk::missed`] as a function of the transition.
    pub open spec fn misses(self) -> spec_fn(int) -> Seq<ConversionErrorView> {
        |i: int| self.missed(i)
    }

    /// The walk after the targets of every transition have been resolved.
    pub open spec fn resolve(self) -> Walk {
        Walk {
            transitions: Seq::new(self.transitions.len(), |i: int| self.aimed(i)),
            errors: self.errors + concat_upto(self.transitions.len() as int, self.misses()),
            ..self
        }
    }
}

/// The walk through `node` and everything below it.
pub open spec fn visit(w: Walk, node: Node) -> Walk
    decreases node,
{
    match node {
        Node::Statechart(n) => visit_all(
            w.enter(node),
            n.children@,
            n.children@.len() as int,
        ).close_state(),
        Node::State(n) => visit_all(
            w.enter(node),
            n.children@,
            n.children@.len() as int,
        ).close_state(),
        Node::Parallel(n) => visit_all(
            w.enter(node),
            n.children@,
            n.children@.len() as int,
        ).close_state(),
        Node::Initial(n) => visit_all(
            w.enter(node),
            n.children@,
            n.children@.len() as int,
        ).close_state(),
        Node::Final(n) => visit_all(
            w.enter(node),
            n.children@,
            n.children@.len() as int,
        ).close_state(),
        Node::History(n) => visit_all(
            w.enter(node),
            n.children@,
            n.children@.len() as int,
        ).close_state(),
        _ => w.enter(node),
    }
}

/// The walk through the first `n` of `nodes`, one after the other.
pub open spec fn visit_all(w: Walk, nodes: Seq<Node>, n: int) -> Walk
    decreases nodes, n,
{
    if n <= 0 || n > nodes.len() {
        w
    } else {
        visit(visit_all(w, nodes, n - 1), nodes[n - 1])
    }
}

/// The core graph of a statechart, or its faults where it has any.
pub open spec fn normalize(statechart: Statechart) -> Result<CoreView, Seq<ConversionErrorView>> {
    let w = visit(Walk::start(), Node::Statechart(statechart)).resolve();
    if w.errors.len() > 0 {
        Err(w.errors)
    } else {
        Ok(
            CoreView {
                states: w.states,
                transitions: with_conflicts(w.transitions, w.states),
                loc: statechart.loc,
            },
        )
    }
}

} // verus!
