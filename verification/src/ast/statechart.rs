//! The statechart tree: a statechart as it is written down, with states
//! nested in states and targets given by name.

use crate::ast::location::Location;
use vstd::prelude::*;

pub mod iter;
pub mod to_core;

verus! {

/// The handle of a piece of executable content.
pub type ExecutableId = usize;

/// The handle of an invocation.
pub type InvocationId = usize;

/// The handle of a condition.
pub type ConditonId = usize;

/// The handle of an event.
pub type EventId = usize;

/// Where the content that initialises a state is attached.
#[derive(Clone, Copy, Debug, PartialEq, Eq, Structural)]
pub enum Binding {
    /// To the root, whichever state holds the content.
    Early,
    /// To the state that holds the content.
    Late,
}

impl Default for Binding {
    fn default() -> (b: Binding)
        ensures
            b == Binding::Late,
    {
        Binding::Late
    }
}

/// Whether a transition leaves its source.
#[derive(Clone, Copy, Debug, PartialEq, Eq, Structural)]
pub enum TransitionType {
    Internal,
    External,
}

impl Default for TransitionType {
    fn default() -> (t: TransitionType)
        ensures
            t == TransitionType::External,
    {
        TransitionType::External
    }
}

/// How much of a configuration a history state records.
#[derive(Clone, Copy, Debug, PartialEq, Eq, Structural)]
pub enum HistoryType {
    Shallow,
    Deep,
}

impl Default for HistoryType {
    fn default() -> (t: HistoryType)
        ensures
            t == HistoryType::Shallow,
    {
        HistoryType::Shallow
    }
}

/// The root of a statechart.
#[derive(Debug, Default, PartialEq, Eq)]
pub struct Statechart {
    pub binding: Binding,
    pub children: Vec<Node>,
    pub loc: Location,
}

/// A state, with the nodes that it holds.
#[derive(Debug, Default, PartialEq, Eq)]
pub struct State {
    pub id: Option<String>,
    pub children: Vec<Node>,
    pub loc: Location,
}

/// A state whose children are all active together.
#[derive(Debug, Default, PartialEq, Eq)]
pub struct Parallel {
    pub id: Option<String>,
    pub children: Vec<Node>,
    pub loc: Location,
}

/// A transition from the state that holds it to the states named.
#[derive(Clone, Debug, Default, PartialEq, Eq)]
pub struct Transition {
    pub event: Option<EventId>,
    pub targets: Vec<String>,
    pub t: TransitionType,
    pub condition: Option<ConditonId>,
    pub children: Vec<ExecutableId>,
    pub loc: Location,
}

/// A reaction to an event that leaves the configuration as it is.
#[derive(Clone, Debug, Default, PartialEq, Eq)]
pub struct OnEvent {
    pub event: Option<EventId>,
    pub condition: Option<ConditonId>,
    pub children: Vec<ExecutableId>,
    pub loc: Location,
}

/// The pseudo-state from which the first child of a state is reached.
#[derive(Debug, Default, PartialEq, Eq)]
pub struct Initial {
    pub children: Vec<Node>,
    pub loc: Location,
}

/// A state that ends the state that holds it.
#[derive(Debug, Default, PartialEq, Eq)]
pub struct Final {
    pub id: Option<String>,
    pub children: Vec<Node>,
    pub loc: Location,
}

/// Content that is executed when a state is entered for the first time.
#[derive(Clone, Debug, Default, PartialEq, Eq)]
pub struct OnInit {
    pub children: Vec<ExecutableId>,
    pub loc: Location,
}

/// Content that is executed whenever a state is entered.
#[derive(Clone, Debug, Default, PartialEq, Eq)]
pub struct OnEntry {
    pub children: Vec<ExecutableId>,
    pub loc: Location,
}

/// Content that is executed whenever a state is left.
#[derive(Clone, Debug, Default, PartialEq, Eq)]
pub struct OnExit {
    pub children: Vec<ExecutableId>,
    pub loc: Location,
}

/// The pseudo-state that stands for the configuration last left.
#[derive(Debug, Default, PartialEq, Eq)]
pub struct History {
    pub id: Option<String>,
    pub t: HistoryType,
    pub children: Vec<Node>,
    pub loc: Location,
}

/// An invocation that runs while the state that holds it is active.
#[derive(Clone, Copy, Debug, Default, PartialEq, Eq)]
pub struct Invoke {
    pub id: InvocationId,
    pub loc: Location,
}

/// A node of the statechart tree.
#[derive(Debug, PartialEq, Eq)]
pub enum Node {
    Statechart(Statechart),
    State(State),
    Parallel(Parallel),
    Transition(Transition),
    OnEvent(OnEvent),
    Initial(Initial),
    Final(Final),
    OnInit(OnInit),
    OnEntry(OnEntry),
    OnExit(OnExit),
    History(History),
    Invoke(Invoke),
}

impl Node {
    /// Whether the node stands for a state of the core graph.  The nodes
    /// below such a node belong to that state.
    pub open spec fn is_scope(self) -> bool {
        match self {
            Node::Statechart(_) => true,
            Node::State(_) => true,
            Node::Parallel(_) => true,
            Node::Initial(_) => true,
            Node::Final(_) => true,
            Node::History(_) => true,
            _ => false,
        }
    }

    /// The nodes directly below this one.
    pub open spec fn children(self) -> Seq<Node> {
        match self {
            Node::Statechart(n) => n.children@,
            Node::State(n) => n.children@,
            Node::Parallel(n) => n.children@,
            Node::Initial(n) => n.children@,
            Node::Final(n) => n.children@,
            Node::History(n) => n.children@,
            _ => Seq::empty(),
        }
    }
}

/// Whether every node below `node` that stands for a state lies directly in
/// a statechart, a state or a parallel state; and `node` itself too, where
/// it stands for a state, given by `nestable` whether it lies so.
pub open spec fn tidy(node: Node, nestable: bool) -> bool
    decreases node,
{
    match node {
        Node::Statechart(n) => nestable && forall|i: int|
            0 <= i < n.children@.len() ==> tidy(#[trigger] n.children@[i], true),
        Node::State(n) => nestable && forall|i: int|
            0 <= i < n.children@.len() ==> tidy(#[trigger] n.children@[i], true),
        Node::Parallel(n) => nestable && forall|i: int|
            0 <= i < n.children@.len() ==> tidy(#[trigger] n.children@[i], true),
        Node::Initial(n) => nestable && forall|i: int|
            0 <= i < n.children@.len() ==> tidy(#[trigger] n.children@[i], false),
        Node::Final(n) => nestable && forall|i: int|
            0 <= i < n.children@.len() ==> tidy(#[trigger] n.children@[i], false),
        Node::History(n) => nestable && forall|i: int|
            0 <= i < n.children@.len() ==> tidy(#[trigger] n.children@[i], false),
        _ => true,
    }
}

} // verus!
