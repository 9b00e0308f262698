//! From the statechart tree to the core graph.

use crate::ast::conversion_error::{errors_view, ConversionError, Errors};
use crate::ast::core_graph::conflicts::compute_conflicts;
use crate::ast::core_graph::exits::get_exit_set;
use crate::ast::core_graph::well_formed::lemma_refs_in_range;
use crate::ast::core_graph::{
    name_view, states_view, transitions_view, Core, State, StateId, StateType, StateView,
    Transition, TransitionType, TransitionView,
};
use crate::ast::location::Location;
use crate::ast::statechart::to_core::report::{
    duplicate_target, duplicate_target_error, missing_target, missing_target_error,
};
use crate::ast::statechart::to_core::extent::{
    lemma_normalized, lemma_walked, state_count, state_count_all, transition_count,
    transition_count_all,
};
use crate::ast::statechart::to_core::shape::{
    lemma_add_transition, lemma_attach, lemma_close_state, lemma_in_range, lemma_open_state,
    lemma_same_shape,
};
use crate::ast::statechart::to_core::walk::{
    find_among, missing, names_view, normalize, resolved, settle, visit, visit_all, Walk,
};
use crate::ast::statechart::{tidy, Binding, HistoryType, Node, Statechart};
use crate::seqs::{all_below, concat_upto, increasing, insert_in_order, insert_ordered};
use vstd::prelude::*;

pub mod extent;
pub mod renaming;
pub mod replay;
pub mod report;
pub mod shape;
pub mod walk;

verus! {

/// The targets that each transition names.
pub open spec fn pending_view(s: Seq<Option<&Vec<String>>>) -> Seq<Seq<Seq<char>>> {
    Seq::new(
        s.len(),
        |i: int|
            match s[i] {
                Some(names) => names_view(names@),
                None => Seq::empty(),
            },
    )
}

/// The walk through a statechart tree, as it is carried out.
struct Builder<'a> {
    states: Vec<State>,
    transitions: Vec<Transition>,
    stack: Vec<StateId>,
    binding: Binding,
    pending: Vec<Option<&'a Vec<String>>>,
    registry: Vec<StateId>,
    errors: Vec<ConversionError>,
}

impl<'a> View for Builder<'a> {
    type V = Walk;

    closed spec fn view(&self) -> Walk {
        Walk {
            states: states_view(self.states@),
            transitions: transitions_view(self.transitions@),
            stack: self.stack@,
            binding: self.binding,
            pending: pending_view(self.pending@),
            registry: self.registry@,
            errors: errors_view(self.errors@),
        }
    }
}

/// A copy of a sequence of indices.
fn clone_indices(v: &Vec<usize>) -> (r: Vec<usize>)
    ensures
        r@ == v@,
{
    let mut r: Vec<usize> = Vec::new();
    let mut i: usize = 0;
    while i < v.len()
        invariant
            i <= v.len(),
            r@ == v@.take(i as int),
        decreases v.len() - i,
    {
        r.push(v[i]);
        assert(v@.take(i as int).push(v@[i as int]) =~= v@.take(i + 1));
        i += 1;
    }
    assert(v@.take(v.len() as int) =~= v@);
    r
}

/// A copy of an optional name.
fn clone_name(id: &Option<String>) -> (r: Option<String>)
    ensures
        name_view(r) == name_view(*id),
{
    match id {
        Some(name) => Some(name.clone()),
        None => None,
    }
}

/// Puts the members of `other` at the end of `v`.
fn append_all(v: &mut Vec<usize>, other: &Vec<usize>)
    ensures
        final(v)@ == old(v)@ + other@,
{
    let mut i: usize = 0;
    while i < other.len()
        invariant
            i <= other.len(),
            v@ == old(v)@ + other@.take(i as int),
        decreases other.len() - i,
    {
        v.push(other[i]);
        assert(other@.take(i as int).push(other@[i as int]) =~= other@.take(i + 1));
        assert(v@ =~= old(v)@ + other@.take(i + 1));
        i += 1;
    }
    assert(other@.take(other.len() as int) =~= other@);
}

/// The state that the target `name` names.
fn find_state(states: &Vec<State>, registry: &Vec<StateId>, name: &String) -> (found: Option<
    StateId,
>)
    requires
        all_below(registry@, states.len() as int),
    ensures
        found == find_among(states_view(states@), registry@, name@, registry@.len() as int),
        found matches Some(idx) ==> idx < states.len(),
{
    let mut n: usize = 0;
    while n < registry.len()
        invariant
            n <= registry.len(),
            all_below(registry@, states.len() as int),
            find_among(states_view(states@), registry@, name@, n as int) is None,
        decreases registry.len() - n,
    {
        let idx = registry[n];
        let same = match &states[idx].id {
            Some(id) => *id == *name,
            None => false,
        };
        assert(same == (states_view(states@)[idx as int].id == Some(name@)));
        if same {
            proof {
                lemma_found(
                    states_view(states@),
                    registry@,
                    name@,
                    n as int + 1,
                    registry.len() as int,
                );
            }
            return Some(idx);
        }
        n += 1;
    }
    None
}

/// A name that is found among the first `n` states of the registry is found
/// among any more of them, and names the same state.
proof fn lemma_found(
    states: Seq<StateView>,
    registry: Seq<StateId>,
    name: Seq<char>,
    n: int,
    m: int,
)
    requires
        find_among(states, registry, name, n) is Some,
        n <= m,
    ensures
        find_among(states, registry, name, m) == find_among(states, registry, name, n),
    decreases m - n,
{
    if n < m {
        lemma_found(states, registry, name, n, m - 1);
    }
}

impl<'a> Builder<'a> {
    /// The walk before the first node.
    fn new() -> (b: Builder<'a>)
        ensures
            b@ == Walk::start(),
            b@.inv(),
    {
        let b = Builder {
            states: Vec::new(),
            transitions: Vec::new(),
            stack: Vec::new(),
            binding: Binding::Late,
            pending: Vec::new(),
            registry: Vec::new(),
            errors: Vec::new(),
        };
        proof {
            assert(b@.states =~= Walk::start().states);
            assert(b@.transitions =~= Walk::start().transitions);
            assert(b@.pending =~= Walk::start().pending);
            assert(b@.errors =~= Walk::start().errors);
        }
        b
    }

    /// The innermost open state.
    fn top(&self) -> (idx: StateId)
        requires
            self@.inv(),
            self@.stack.len() > 0,
        ensures
            idx == self@.top(),
            idx < self@.states.len(),
    {
        self.stack[self.stack.len() - 1]
    }

    /// Opens a new state inside the innermost open state.
    fn open_state(&mut self, t: StateType, id: Option<String>, loc: Location)
        requires
            old(self)@.inv(),
            old(self)@.stack.len() > 0 || old(self)@.states.len() == 0,
            t != StateType::Atomic,
        ensures
            final(self)@ == old(self)@.open_state(t, name_view(id), loc),
            final(self)@.inv(),
            final(self)@.stack.len() > 0,
    {
        let idx = self.states.len();
        let parent = if self.stack.len() > 0 {
            self.stack[self.stack.len() - 1]
        } else {
            0
        };
        let state = State {
            id,
            idx,
            t,
            on_init: Vec::new(),
            on_enter: Vec::new(),
            on_exit: Vec::new(),
            invocations: Vec::new(),
            parent,
            children: Vec::new(),
            ancestors: clone_indices(&self.stack),
            descendants: Vec::new(),
            initial: Vec::new(),
            transitions: Vec::new(),
            loc,
        };
        self.states.push(state);
        self.stack.push(idx);
        proof {
            let w = old(self)@;
            let v = w.open_state(t, name_view(id), loc);
            assert(self.states.len() == w.states.len() + 1);
            assert(self@.states =~= v.states);
            assert(self@.stack =~= v.stack);
            assert(self@.transitions =~= v.transitions);
            assert(self@.pending =~= v.pending);
            assert(self@.errors =~= v.errors);
            lemma_open_state(w, t, name_view(id), loc);
        }
    }

    /// Adds a transition that leaves the innermost open state.
    fn add_transition(
        &mut self,
        t: TransitionType,
        event: Option<usize>,
        condition: Option<usize>,
        targets: Option<&'a Vec<String>>,
        loc: Location,
    )
        requires
            old(self)@.inv(),
            old(self)@.stack.len() > 0,
        ensures
            final(self)@ == old(self)@.add_transition(
                t,
                event,
                condition,
                match targets {
                    Some(names) => names_view(names@),
                    None => Seq::empty(),
                },
                loc,
            ),
            final(self)@.inv(),
    {
        let source = self.top();
        let idx = self.transitions.len();
        self.states[source].transitions.push(idx);
        self.pending.push(targets);
        self.transitions.push(
            Transition {
                idx,
                t,
                source,
                event,
                condition,
                on_transition: Vec::new(),
                targets: Vec::new(),
                conflicts: Vec::new(),
                exits: Vec::new(),
                loc,
            },
        );
        proof {
            let w = old(self)@;
            let names = match targets {
                Some(names) => names_view(names@),
                None => Seq::empty(),
            };
            let v = w.add_transition(t, event, condition, names, loc);
            assert(self.transitions.len() == w.transitions.len() + 1);
            assert(self@.states =~= v.states);
            assert(self@.transitions =~= v.transitions);
            assert(self@.pending =~= v.pending);
            lemma_add_transition(w, t, event, condition, names, loc);
        }
    }

    /// Attaches content that initialises a state.
    fn attach_init(&mut self, content: &Vec<usize>)
        requires
            old(self)@.inv(),
            old(self)@.stack.len() > 0,
        ensures
            final(self)@ == old(self)@.attach_init(content@),
            final(self)@.inv(),
    {
        let top = self.top();
        let idx = match self.binding {
            Binding::Early => 0,
            Binding::Late => top,
        };
        append_all(&mut self.states[idx].on_init, content);
        proof {
            assert(self@.states =~= old(self)@.attach_init(content@).states);
            lemma_attach(old(self)@, content@, 0);
        }
    }

    /// Attaches content that is executed when the innermost open state is
    /// entered.
    fn attach_entry(&mut self, content: &Vec<usize>)
        requires
            old(self)@.inv(),
            old(self)@.stack.len() > 0,
        ensures
            final(self)@ == old(self)@.attach_entry(content@),
            final(self)@.inv(),
    {
        let idx = self.top();
        append_all(&mut self.states[idx].on_enter, content);
        proof {
            assert(self@.states =~= old(self)@.attach_entry(content@).states);
            lemma_attach(old(self)@, content@, 0);
        }
    }

    /// Attaches content that is executed when the innermost open state is
    /// left.
    fn attach_exit(&mut self, content: &Vec<usize>)
        requires
            old(self)@.inv(),
            old(self)@.stack.len() > 0,
        ensures
            final(self)@ == old(self)@.attach_exit(content@),
            final(self)@.inv(),
    {
        let idx = self.top();
        append_all(&mut self.states[idx].on_exit, content);
        proof {
            assert(self@.states =~= old(self)@.attach_exit(content@).states);
            lemma_attach(old(self)@, content@, 0);
        }
    }

    /// Attaches an invocation to the innermost open state.
    fn attach_invocation(&mut self, id: usize)
        requires
            old(self)@.inv(),
            old(self)@.stack.len() > 0,
        ensures
            final(self)@ == old(self)@.attach_invocation(id),
            final(self)@.inv(),
    {
        let idx = self.top();
        self.states[idx].invocations.push(id);
        proof {
            assert(self@.states =~= old(self)@.attach_invocation(id).states);
            lemma_attach(old(self)@, Seq::empty(), id);
        }
    }


    /// The fault of the name of the innermost open state, where the
    /// registry has that name already.
    fn duplicate(&self) -> (fault: Option<ConversionError>)
        requires
            self@.inv(),
            self@.stack.len() > 0,
        ensures
            ({
                let state = self@.states[self@.stack.last() as int];
                match state.id {
                    Some(name) if self@.find(name) is Some => fault matches Some(e) && e@
                        == duplicate_target(name, state.loc),
                    _ => fault is None,
                }
            }),
    {
        let idx = self.top();
        assert(self@.states[idx as int] == self.states@[idx as int]@);
        match &self.states[idx].id {
            Some(name) => {
                if find_state(&self.states, &self.registry, name).is_some() {
                    Some(duplicate_target_error(name, self.states[idx].loc))
                } else {
                    None
                }
            },
            None => None,
        }
    }

    /// Adds the state `idx` to the descendants of the open states.
    fn enclose(&mut self, idx: StateId)
        requires
            increasing(old(self).stack@),
            all_below(old(self).stack@, old(self).states.len() as int),
        ensures
            final(self).stack == old(self).stack,
            final(self).transitions == old(self).transitions,
            final(self).binding == old(self).binding,
            final(self).pending == old(self).pending,
            final(self).registry == old(self).registry,
            final(self).errors == old(self).errors,
            final(self).states.len() == old(self).states.len(),
            forall|i: int|
                0 <= i < old(self).states.len() ==> (#[trigger] final(self).states@[i])@ == (
                if old(self).stack@.contains(i as StateId) {
                    StateView {
                        descendants: insert_ordered(old(self).states@[i]@.descendants, idx),
                        ..old(self).states@[i]@
                    }
                } else {
                    old(self).states@[i]@
                }),
    {
        let ghost rest = self.stack@;
        let ghost before = self.states@;
        let mut k: usize = 0;
        while k < self.stack.len()
            invariant
                k <= self.stack.len(),
                self.stack == old(self).stack,
                self.stack@ == rest,
                increasing(rest),
                all_below(rest, before.len() as int),
                self.transitions == old(self).transitions,
                self.binding == old(self).binding,
                self.pending == old(self).pending,
                self.registry == old(self).registry,
                self.errors == old(self).errors,
                self.states.len() == before.len(),
                forall|i: int|
                    0 <= i < before.len() ==> (#[trigger] self.states@[i])@ == (if rest.take(
                        k as int,
                    ).contains(i as StateId) {
                        StateView {
                            descendants: insert_ordered(before[i]@.descendants, idx),
                            ..before[i]@
                        }
                    } else {
                        before[i]@
                    }),
            decreases self.stack.len() - k,
        {
            let a = self.stack[k];
            let ghost done = self.states@;
            assert(!rest.take(k as int).contains(a)) by {
                let fewer = rest.take(k as int);
                if fewer.contains(a) {
                    let j = choose|j: int| 0 <= j < fewer.len() && fewer[j] == a;
                    assert(rest[j] < rest[k as int]);
                }
            }
            assert(done[a as int]@ == before[a as int]@);
            insert_in_order(&mut self.states[a].descendants, idx);
            proof {
                assert forall|i: int| 0 <= i < before.len() implies (#[trigger] self.states@[i])@
                    == (if rest.take(k + 1).contains(i as StateId) {
                    StateView {
                        descendants: insert_ordered(before[i]@.descendants, idx),
                        ..before[i]@
                    }
                } else {
                    before[i]@
                }) by {
                    let fewer = rest.take(k as int);
                    let more = rest.take(k + 1);
                    assert(more =~= fewer.push(a));
                    if i == a {
                        assert(more[k as int] == a);
                    } else {
                        assert(self.states@[i] == done[i]);
                        if more.contains(i as StateId) {
                            let j = choose|j: int| 0 <= j < more.len() && more[j] == i as StateId;
                            assert(fewer[j] == i as StateId);
                        }
                        if fewer.contains(i as StateId) {
                            let j = choose|j: int| 0 <= j < fewer.len() && fewer[j] == i as StateId;
                            assert(more[j] == i as StateId);
                        }
                    }
                }
            }
            k += 1;
        }
        assert(rest.take(rest.len() as int) =~= rest);
    }

    /// Settles the kind and the initial children of the state `idx`.
    fn settle(&mut self, idx: StateId)
        requires
            idx < old(self).states.len(),
        ensures
            final(self).stack == old(self).stack,
            final(self).transitions == old(self).transitions,
            final(self).binding == old(self).binding,
            final(self).pending == old(self).pending,
            final(self).registry == old(self).registry,
            final(self).errors == old(self).errors,
            final(self).states.len() == old(self).states.len(),
            final(self).states@[idx as int]@ == settle(old(self).states@[idx as int]@),
            forall|i: int|
                0 <= i < old(self).states.len() && i != idx ==> final(self).states@[i] == old(
                    self,
                ).states@[i],
    {
        if self.states[idx].t == StateType::Compound && self.states[idx].children.len() == 0 {
            self.states[idx].t = StateType::Atomic;
        }
        match self.states[idx].t {
            StateType::Parallel => {
                let initial = clone_indices(&self.states[idx].children);
                self.states[idx].initial = initial;
            },
            StateType::Compound => {
                let mut initial: Vec<StateId> = Vec::new();
                initial.push(self.states[idx].children[0]);
                self.states[idx].initial = initial;
            },
            StateType::HistoryShallow => {
                let initial = clone_indices(&self.states[idx].children);
                self.states[idx].initial = initial;
            },
            StateType::HistoryDeep => {
                let initial = clone_indices(&self.states[idx].descendants);
                self.states[idx].initial = initial;
            },
            _ => {},
        }
        assert(self.states@[idx as int]@.initial =~= settle(
            old(self).states@[idx as int]@,
        ).initial);
    }

    /// Closes the innermost open state.
    fn close_state(&mut self)
        requires
            old(self)@.inv(),
            old(self)@.stack.len() > 0,
        ensures
            final(self)@ == old(self)@.close_state(),
            final(self)@.inv(),
            final(self)@.stack == old(self)@.stack.drop_last(),
            final(self)@.states.len() == old(self)@.states.len(),
            final(self)@.transitions.len() == old(self)@.transitions.len(),
    {
        let ghost w = self@;
        let idx = self.top();
        let named = self.states[idx].id.is_some();
        let fault = self.duplicate();
        assert(w.states[idx as int] == self.states@[idx as int]@);
        self.stack.pop();
        let ghost rest = self.stack@;
        assert(rest =~= w.stack.drop_last());
        assert(increasing(rest) && all_below(rest, w.states.len() as int)) by {
            assert forall|i: int, j: int| 0 <= i < j < rest.len() implies rest[i] < rest[j] by {
                assert(w.stack[i] < w.stack[j]);
            }
            assert forall|i: int| 0 <= i < rest.len() implies rest[i] < w.states.len() by {
                assert(w.stack[i] < w.states.len());
            }
        }
        self.enclose(idx);
        if self.stack.len() > 0 {
            let parent = self.stack[self.stack.len() - 1];
            self.states[parent].children.push(idx);
        }
        assert(states_view(self.states@) =~= w.enclosed(idx, rest));
        self.settle(idx);
        match fault {
            Some(e) => {
                self.errors.push(e);
            },
            None => {
                if named {
                    self.registry.push(idx);
                }
            },
        }
        proof {
            let v = w.close_state();
            assert(self@.states =~= v.states);
            assert(self@.errors =~= v.errors);
            assert(self@.registry =~= v.registry);
            lemma_close_state(w);
        }
    }

    /// Takes the binding of a statechart.
    fn bind(&mut self, binding: Binding)
        requires
            old(self)@.inv(),
        ensures
            final(self)@ == (Walk { binding, ..old(self)@ }),
            final(self)@.inv(),
    {
        self.binding = binding;
        proof {
            lemma_same_shape(old(self)@, self@);
        }
    }
}

/// Walks through the nodes below a state that has just been opened, and
/// closes the state.
fn nest<'a>(nodes: &'a Vec<Node>, b: &mut Builder<'a>)
    requires
        old(b)@.inv(),
        old(b)@.stack.len() > 0,
    ensures
        final(b)@ == visit_all(old(b)@, nodes@, nodes@.len() as int).close_state(),
        final(b)@.inv(),
        final(b)@.stack == old(b)@.stack.drop_last(),
        final(b)@.states.len() == old(b)@.states.len() + state_count_all(
            nodes@,
            nodes@.len() as int,
        ),
        final(b)@.transitions.len() == old(b)@.transitions.len() + transition_count_all(
            nodes@,
            nodes@.len() as int,
        ),
    decreases nodes,
{
    let ghost w = b@;
    let mut n: usize = 0;
    while n < nodes.len()
        invariant
            n <= nodes.len(),
            w.stack.len() > 0,
            b@.inv(),
            b@ == visit_all(w, nodes@, n as int),
            b@.stack == w.stack,
            b@.states.len() == w.states.len() + state_count_all(nodes@, n as int),
            b@.transitions.len() == w.transitions.len() + transition_count_all(nodes@, n as int),
        decreases nodes.len() - n,
    {
        descend(&nodes[n], b);
        n += 1;
    }
    b.close_state();
}

/// Walks through `node` and everything below it.
fn descend<'a>(node: &'a Node, b: &mut Builder<'a>)
    requires
        old(b)@.inv(),
        old(b)@.stack.len() > 0,
    ensures
        final(b)@ == visit(old(b)@, *node),
        final(b)@.inv(),
        final(b)@.stack == old(b)@.stack,
        final(b)@.states.len() == old(b)@.states.len() + state_count(*node),
        final(b)@.transitions.len() == old(b)@.transitions.len() + transition_count(*node),
    decreases node,
{
    let ghost w = b@;
    match node {
        Node::Statechart(n) => {
            b.bind(n.binding);
            b.open_state(StateType::Compound, None, n.loc);
            proof {
                assert(decreases_to!(*node => node->Statechart_0));
                assert(decreases_to!(node->Statechart_0 => n.children));
            }
            nest(&n.children, b);
        },
        Node::State(n) => {
            b.open_state(StateType::Compound, clone_name(&n.id), n.loc);
            proof {
                assert(decreases_to!(*node => node->State_0));
                assert(decreases_to!(node->State_0 => n.children));
            }
            nest(&n.children, b);
        },
        Node::Parallel(n) => {
            b.open_state(StateType::Parallel, clone_name(&n.id), n.loc);
            proof {
                assert(decreases_to!(*node => node->Parallel_0));
                assert(decreases_to!(node->Parallel_0 => n.children));
            }
            nest(&n.children, b);
        },
        Node::Initial(n) => {
            b.open_state(StateType::Initial, None, n.loc);
            proof {
                assert(decreases_to!(*node => node->Initial_0));
                assert(decreases_to!(node->Initial_0 => n.children));
            }
            nest(&n.children, b);
        },
        Node::Final(n) => {
            b.open_state(StateType::Final, clone_name(&n.id), n.loc);
            proof {
                assert(decreases_to!(*node => node->Final_0));
                assert(decreases_to!(node->Final_0 => n.children));
            }
            nest(&n.children, b);
        },
        Node::History(n) => {
            let t = match n.t {
                HistoryType::Shallow => StateType::HistoryShallow,
                HistoryType::Deep => StateType::HistoryDeep,
            };
            b.open_state(t, clone_name(&n.id), n.loc);
            proof {
                assert(decreases_to!(*node => node->History_0));
                assert(decreases_to!(node->History_0 => n.children));
            }
            nest(&n.children, b);
        },
        Node::Transition(n) => {
            b.add_transition(
                TransitionType::External,
                n.event,
                n.condition,
                Some(&n.targets),
                n.loc,
            );
        },
        Node::OnEvent(n) => {
            b.add_transition(TransitionType::OnEvent, n.event, n.condition, None, n.loc);
        },
        Node::OnInit(n) => {
            b.attach_init(&n.children);
        },
        Node::OnEntry(n) => {
            b.attach_entry(&n.children);
        },
        Node::OnExit(n) => {
            b.attach_exit(&n.children);
        },
        Node::Invoke(n) => {
            b.attach_invocation(n.id);
        },
    }
    assert(b@.stack =~= w.stack);
}

/// The states that `names` name, in the order of the names.  The faults of
/// the names that name no state are added to `errors`.
fn resolve_names(
    states: &Vec<State>,
    registry: &Vec<StateId>,
    names: &Vec<String>,
    loc: Location,
    errors: &mut Vec<ConversionError>,
) -> (targets: Vec<StateId>)
    requires
        all_below(registry@, states.len() as int),
    ensures
        targets@ == resolved(
            states_view(states@),
            registry@,
            names_view(names@),
            names@.len() as int,
        ),
        errors_view(final(errors)@) == errors_view(old(errors)@) + missing(
            states_view(states@),
            registry@,
            names_view(names@),
            loc,
            names@.len() as int,
        ),
{
    let ghost given = states_view(states@);
    let ghost asked = names_view(names@);
    let ghost before = errors_view(errors@);
    let mut targets: Vec<StateId> = Vec::new();
    let mut n: usize = 0;
    while n < names.len()
        invariant
            n <= names.len(),
            all_below(registry@, states.len() as int),
            given == states_view(states@),
            asked == names_view(names@),
            targets@ == resolved(given, registry@, asked, n as int),
            errors_view(errors@) == before + missing(given, registry@, asked, loc, n as int),
        decreases names.len() - n,
    {
        let name = &names[n];
        assert(asked[n as int] == name@);
        let ghost so_far = errors_view(errors@);
        match find_state(states, registry, name) {
            Some(idx) => {
                targets.push(idx);
            },
            None => {
                errors.push(missing_target_error(name, loc));
                assert(errors_view(errors@) =~= so_far.push(missing_target(name@, loc)));
            },
        }
        assert(errors_view(errors@) =~= before + missing(
            given,
            registry@,
            asked,
            loc,
            n as int + 1,
        ));
        n += 1;
    }
    targets
}

/// The core graph of `statechart`, or its faults where it has any: a state
/// with the name of another state, or a target that no state has.
pub fn to_core(statechart: &Statechart) -> (r: Result<Core, Errors>)
    ensures
        match normalize(*statechart) {
            Ok(graph) => r matches Ok(core) && core@ == graph,
            Err(faults) => r matches Err(errors) && errors_view(errors@) == faults,
        },
        r matches Ok(core) ==> core@.well_formed() && core@.refs_in_range(),
        r matches Ok(core) ==> (tidy(Node::Statechart(*statechart), true)
            ==> core@.nests_in_regions()),
        r matches Err(errors) ==> errors.len() > 0,
{
    let ghost root = Node::Statechart(*statechart);
    let mut b = Builder::new();
    b.bind(statechart.binding);
    b.open_state(StateType::Compound, None, statechart.loc);
    nest(&statechart.children, &mut b);
    let ghost w = b@;
    proof {
        assert(w == visit(Walk::start(), root));
        assert(b.states.len() == state_count(root));
        assert(b.transitions.len() == transition_count(root));
        lemma_walked(*statechart);
        lemma_normalized(*statechart);
        lemma_in_range(w);
    }
    let Builder { states, mut transitions, pending, registry, mut errors, .. } = b;
    let mut n: usize = 0;
    while n < transitions.len()
        invariant
            n <= transitions.len(),
            w.inv(),
            w.states == states_view(states@),
            w.registry == registry@,
            w.pending == pending_view(pending@),
            transitions.len() == w.transitions.len(),
            forall|i: int|
                0 <= i < n ==> (#[trigger] transitions@[i])@ == (TransitionView {
                    targets: w.aimed(i).targets,
                    ..w.transitions[i]
                }),
            forall|i: int| n <= i < transitions.len() ==> (#[trigger] transitions@[i])@ == w.transitions[i],
            errors_view(errors@) == w.errors + concat_upto(n as int, w.misses()),
        decreases transitions.len() - n,
    {
        proof {
            lemma_in_range(w);
            assert(w.transition_ok(n as int));
        }
        assert(transitions@[n as int]@ == w.transitions[n as int]);
        match pending[n] {
            Some(names) => {
                let targets = resolve_names(
                    &states,
                    &registry,
                    names,
                    transitions[n].loc,
                    &mut errors,
                );
                transitions[n].targets = targets;
            },
            None => {
                assert(transitions@[n as int]@.targets =~= w.aimed(n as int).targets);
                assert(errors_view(errors@) =~= errors_view(errors@) + w.missed(n as int));
            },
        }
        assert(errors_view(errors@) =~= w.errors + concat_upto(n as int + 1, w.misses()));
        n += 1;
    }
    if errors.len() > 0 {
        return Err(errors);
    }
    let mut n: usize = 0;
    while n < transitions.len()
        invariant
            n <= transitions.len(),
            w.inv(),
            w.states == states_view(states@),
            transitions.len() == w.transitions.len(),
            forall|i: int| 0 <= i < n ==> (#[trigger] transitions@[i])@ == w.aimed(i),
            forall|i: int|
                n <= i < transitions.len() ==> (#[trigger] transitions@[i])@ == (TransitionView {
                    targets: w.aimed(i).targets,
                    ..w.transitions[i]
                }),
        decreases transitions.len() - n,
    {
        proof {
            lemma_in_range(w);
            assert(w.transition_ok(n as int));
        }
        let exits = get_exit_set(&transitions[n], &states);
        transitions[n].exits = exits;
        n += 1;
    }
    proof {
        lemma_in_range(w);
        assert(transitions_view(transitions@) =~= w.resolve().transitions);
        assert forall|i: int| 0 <= i < transitions.len() implies (#[trigger] transitions_view(
            transitions@,
        )[i]).source < states.len() && transitions_view(transitions@)[i].idx == i by {
            assert(w.transition_ok(i));
        }
    }
    compute_conflicts(&mut transitions, &states);
    let core = Core { states, transitions, loc: statechart.loc };
    proof {
        lemma_refs_in_range(core@);
    }
    Ok(core)
}

} // verus!
