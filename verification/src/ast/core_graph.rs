//! The core graph: the states and transitions of a statechart in document
//! order, each addressed by its position, with every cross-reference held as
//! an index.

use crate::ast::location::Location;
use crate::seqs::{all_below, is_all_below};
use vstd::prelude::*;

pub mod conflicts;
pub mod exits;
pub mod to_microstep;
pub mod well_formed;


verus! {

/// The position of a state in [`Core::states`].
pub type StateId = usize;

/// The position of a transition in [`Core::transitions`].
pub type TransitionId = usize;

/// The handle of a piece of executable content.
pub type ExecutableId = usize;

/// The handle of an invocation.
pub type InvocationId = usize;

/// The handle of a condition.
pub type ConditonId = usize;

/// The handle of an event.
pub type EventId = usize;

/// The kind of a state.
#[derive(Clone, Copy, Debug, PartialEq, Eq, Structural)]
pub enum StateType {
    Atomic,
    Compound,
    Parallel,
    HistoryShallow,
    HistoryDeep,
    Initial,
    Final,
}

impl Default for StateType {
    fn default() -> (t: StateType)
        ensures
            t == StateType::Atomic,
    {
        StateType::Atomic
    }
}

/// The kind of a transition.
#[derive(Clone, Copy, Debug, PartialEq, Eq, Structural)]
pub enum TransitionType {
    External,
    Targetless,
    Internal,
    Spontaneous,
    History,
    Initial,
    OnEvent,
}

impl Default for TransitionType {
    fn default() -> (t: TransitionType)
        ensures
            t == TransitionType::External,
    {
        TransitionType::External
    }
}

/// A state of the core graph.
#[derive(Clone, Debug, Default, PartialEq, Eq)]
pub struct State {
    /// The name that transitions refer to the state by.
    pub id: Option<String>,
    /// The position of the state in the graph.
    pub idx: StateId,
    pub t: StateType,
    pub on_init: Vec<ExecutableId>,
    pub on_enter: Vec<ExecutableId>,
    pub on_exit: Vec<ExecutableId>,
    pub invocations: Vec<InvocationId>,
    /// The enclosing state; the root encloses itself.
    pub parent: StateId,
    pub children: Vec<StateId>,
    /// The enclosing states from the root down to the parent.
    pub ancestors: Vec<StateId>,
    /// The enclosed states, in document order.
    pub descendants: Vec<StateId>,
    /// The children that are entered with the state.
    pub initial: Vec<StateId>,
    /// The transitions that leave the state.
    pub transitions: Vec<TransitionId>,
    pub loc: Location,
}

/// A transition of the core graph.
#[derive(Clone, Debug, Default, PartialEq, Eq)]
pub struct Transition {
    /// The position of the transition in the graph.
    pub idx: TransitionId,
    pub t: TransitionType,
    pub source: StateId,
    pub event: Option<EventId>,
    pub condition: Option<ConditonId>,
    pub on_transition: Vec<ExecutableId>,
    pub targets: Vec<StateId>,
    /// The transitions that cannot be taken together with this one.
    pub conflicts: Vec<TransitionId>,
    /// The states that are left when the transition is taken.
    pub exits: Vec<StateId>,
    pub loc: Location,
}

/// The core graph of a statechart.
#[derive(Clone, Debug, Default, PartialEq, Eq)]
pub struct Core {
    pub states: Vec<State>,
    pub transitions: Vec<Transition>,
    pub loc: Location,
}

/// The contents of a [`State`].
pub struct StateView {
    pub id: Option<Seq<char>>,
    pub idx: StateId,
    pub t: StateType,
    pub on_init: Seq<ExecutableId>,
    pub on_enter: Seq<ExecutableId>,
    pub on_exit: Seq<ExecutableId>,
    pub invocations: Seq<InvocationId>,
    pub parent: StateId,
    pub children: Seq<StateId>,
    pub ancestors: Seq<StateId>,
    pub descendants: Seq<StateId>,
    pub initial: Seq<StateId>,
    pub transitions: Seq<TransitionId>,
    pub loc: Location,
}

/// The contents of a [`Transition`].
pub struct TransitionView {
    pub idx: TransitionId,
    pub t: TransitionType,
    pub source: StateId,
    pub event: Option<EventId>,
    pub condition: Option<ConditonId>,
    pub on_transition: Seq<ExecutableId>,
    pub targets: Seq<StateId>,
    pub conflicts: Seq<TransitionId>,
    pub exits: Seq<StateId>,
    pub loc: Location,
}

/// The contents of a [`Core`].
pub struct CoreView {
    pub states: Seq<StateView>,
    pub transitions: Seq<TransitionView>,
    pub loc: Location,
}

/// The characters of an optional name.
pub open spec fn name_view(id: Option<String>) -> Option<Seq<char>> {
    match id {
        Some(s) => Some(s@),
        None => None,
    }
}

impl View for State {
    type V = StateView;

    open spec fn view(&self) -> StateView {
        StateView {
            id: name_view(self.id),
            idx: self.idx,
            t: self.t,
            on_init: self.on_init@,
            on_enter: self.on_enter@,
            on_exit: self.on_exit@,
            invocations: self.invocations@,
            parent: self.parent,
            children: self.children@,
            ancestors: self.ancestors@,
            descendants: self.descendants@,
            initial: self.initial@,
            transitions: self.transitions@,
            loc: self.loc,
        }
    }
}

impl View for Transition {
    type V = TransitionView;

    open spec fn view(&self) -> TransitionView {
        TransitionView {
            idx: self.idx,
            t: self.t,
            source: self.source,
            event: self.event,
            condition: self.condition,
            on_transition: self.on_transition@,
            targets: self.targets@,
            conflicts: self.conflicts@,
            exits: self.exits@,
            loc: self.loc,
        }
    }
}

/// The contents of each state of a sequence.
pub open spec fn states_view(s: Seq<State>) -> Seq<StateView> {
    Seq::new(s.len(), |i: int| s[i]@)
}

/// The contents of each transition of a sequence.
pub open spec fn transitions_view(s: Seq<Transition>) -> Seq<TransitionView> {
    Seq::new(s.len(), |i: int| s[i]@)
}

impl View for Core {
    type V = CoreView;

    open spec fn view(&self) -> CoreView {
        CoreView {
            states: states_view(self.states@),
            transitions: transitions_view(self.transitions@),
            loc: self.loc,
        }
    }
}

impl StateView {
    /// A state that holds nothing and refers to the first state.
    pub open spec fn empty() -> StateView {
        StateView {
            id: None,
            idx: 0,
            t: StateType::Atomic,
            on_init: Seq::empty(),
            on_enter: Seq::empty(),
            on_exit: Seq::empty(),
            invocations: Seq::empty(),
            parent: 0,
            children: Seq::empty(),
            ancestors: Seq::empty(),
            descendants: Seq::empty(),
            initial: Seq::empty(),
            transitions: Seq::empty(),
            loc: Location::unknown(),
        }
    }

    /// Whether each state that this one names is among the first `n`, and
    /// each transition among the first `m`.
    pub open spec fn refs_below(self, n: int, m: int) -> bool {
        &&& self.nested_below(n)
        &&& all_below(self.transitions, m)
    }

    /// Whether each state that this one names is among the first `n`.
    pub open spec fn nested_below(self, n: int) -> bool {
        &&& self.parent < n
        &&& all_below(self.children, n)
        &&& all_below(self.ancestors, n)
        &&& all_below(self.descendants, n)
        &&& all_below(self.initial, n)
    }
}

impl TransitionView {
    /// A transition that holds nothing and leaves the first state.
    pub open spec fn empty() -> TransitionView {
        TransitionView {
            idx: 0,
            t: TransitionType::External,
            source: 0,
            event: None,
            condition: None,
            on_transition: Seq::empty(),
            targets: Seq::empty(),
            conflicts: Seq::empty(),
            exits: Seq::empty(),
            loc: Location::unknown(),
        }
    }

    /// Whether each state that this transition names is among the first `n`,
    /// and each transition among the first `m`.
    pub open spec fn refs_below(self, n: int, m: int) -> bool {
        &&& self.source < n
        &&& all_below(self.targets, n)
        &&& all_below(self.exits, n)
        &&& all_below(self.conflicts, m)
    }
}

impl CoreView {
    /// Whether the graph has a root, and every index that it holds names a
    /// state or a transition of the graph.
    pub open spec fn refs_in_range(self) -> bool {
        &&& self.states.len() > 0
        &&& forall|i: int|
            0 <= i < self.states.len() ==> (#[trigger] self.states[i]).refs_below(
                self.states.len() as int,
                self.transitions.len() as int,
            )
        &&& forall|i: int|
            0 <= i < self.transitions.len() ==> (#[trigger] self.transitions[i]).refs_below(
                self.states.len() as int,
                self.transitions.len() as int,
            )
    }
}

impl State {
    /// A state that holds nothing and refers to the first state.
    pub fn new() -> (s: State)
        ensures
            s@ == StateView::empty(),
    {
        State {
            id: None,
            idx: 0,
            t: StateType::Atomic,
            on_init: Vec::new(),
            on_enter: Vec::new(),
            on_exit: Vec::new(),
            invocations: Vec::new(),
            parent: 0,
            children: Vec::new(),
            ancestors: Vec::new(),
            descendants: Vec::new(),
            initial: Vec::new(),
            transitions: Vec::new(),
            loc: Location::default(),
        }
    }
}

impl Transition {
    /// A transition that holds nothing and leaves the first state.
    pub fn new() -> (t: Transition)
        ensures
            t@ == TransitionView::empty(),
    {
        Transition {
            idx: 0,
            t: TransitionType::External,
            source: 0,
            event: None,
            condition: None,
            on_transition: Vec::new(),
            targets: Vec::new(),
            conflicts: Vec::new(),
            exits: Vec::new(),
            loc: Location::default(),
        }
    }
}

impl State {
    /// Whether each state that this one names is among the first `n`, and
    /// each transition among the first `m`.
    pub fn refs_below(&self, n: usize, m: usize) -> (b: bool)
        ensures
            b == self@.refs_below(n as int, m as int),
    {
        self.parent < n && is_all_below(&self.children, n) && is_all_below(&self.ancestors, n)
            && is_all_below(&self.descendants, n) && is_all_below(&self.initial, n)
            && is_all_below(&self.transitions, m)
    }
}

impl Transition {
    /// Whether each state that this transition names is among the first `n`,
    /// and each transition among the first `m`.
    pub fn refs_below(&self, n: usize, m: usize) -> (b: bool)
        ensures
            b == self@.refs_below(n as int, m as int),
    {
        self.source < n && is_all_below(&self.targets, n) && is_all_below(&self.exits, n)
            && is_all_below(&self.conflicts, m)
    }
}

impl Core {
    /// Whether the graph has a root, and every index that it holds names a
    /// state or a transition of the graph.
    pub fn refs_in_range(&self) -> (b: bool)
        ensures
            b == self@.refs_in_range(),
    {
        let n = self.states.len();
        let m = self.transitions.len();
        if n == 0 {
            return false;
        }
        let mut i: usize = 0;
        while i < n
            invariant
                i <= n,
                n == self.states.len(),
                m == self.transitions.len(),
                forall|j: int| 0 <= j < i ==> (#[trigger] self@.states[j]).refs_below(n as int, m as int),
            decreases n - i,
        {
            assert(self@.states[i as int] == self.states@[i as int]@);
            if !self.states[i].refs_below(n, m) {
                return false;
            }
            i += 1;
        }
        let mut i: usize = 0;
        while i < m
            invariant
                i <= m,
                n == self.states.len(),
                m == self.transitions.len(),
                forall|j: int| 0 <= j < n ==> (#[trigger] self@.states[j]).refs_below(n as int, m as int),
                forall|j: int|
                    0 <= j < i ==> (#[trigger] self@.transitions[j]).refs_below(n as int, m as int),
            decreases m - i,
        {
            assert(self@.transitions[i as int] == self.transitions@[i as int]@);
            if !self.transitions[i].refs_below(n, m) {
                return false;
            }
            i += 1;
        }
        true
    }
}

} // verus!
