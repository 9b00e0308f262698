//! What holds of the walk at every node, and why each step keeps it.

use crate::ast::core_graph::conflicts::{
    lemma_conflicts_among_same, sources_in_range, with_conflicts,
};
use crate::ast::core_graph::exits::{exit_set, nested_in_range};
use crate::ast::core_graph::well_formed::{may_nest, settled};
use crate::ast::core_graph::{
    CoreView, StateId, StateType, StateView, TransitionId, TransitionType,
};
use crate::ast::location::Location;
use crate::ast::statechart::Node;
use crate::ast::statechart::to_core::walk::{find_among, resolved, settle, Walk};
use crate::seqs::{all_below, increasing, insert_ordered, lemma_insert_ordered};
use vstd::prelude::*;

verus! {

impl Walk {
    /// Whether the state `i` is open.
    pub open spec fn is_open(self, i: StateId) -> bool {
        self.stack.contains(i)
    }

    /// Whether `c` is a closed state other than the root whose parent is
    /// `i`.
    pub open spec fn is_child(self, c: StateId, i: int) -> bool {
        0 < c < self.states.len() && !self.is_open(c) && self.states[c as int].parent == i
    }

    /// Whether `d` is a closed state that has `i` among its ancestors.
    pub open spec fn is_descendant(self, d: StateId, i: int) -> bool {
        d < self.states.len() && !self.is_open(d) && self.states[d as int].ancestors.contains(
            i as StateId,
        )
    }

    /// Whether `t` is a transition whose source is `i`.
    pub open spec fn leaves(self, t: TransitionId, i: int) -> bool {
        t < self.transitions.len() && self.transitions[t as int].source == i
    }

    /// What holds of the open states: they were opened one inside the
    /// other, and every state opened after one of them lies inside it.
    pub open spec fn stack_ok(self) -> bool {
        &&& increasing(self.stack)
        &&& all_below(self.stack, self.states.len() as int)
        &&& forall|k: int|
            0 <= k < self.stack.len() ==> self.states[(#[trigger] self.stack[k]) as int].ancestors
                == self.stack.take(k)
        &&& forall|k: int, d: int|
            0 <= k < self.stack.len() && self.stack[k] < d < self.states.len() ==> (
            #[trigger] self.states[d]).ancestors.contains(#[trigger] self.stack[k])
    }

    /// The state `i` holds its own position, and its ancestors are the path
    /// from the root to its parent, which the root does not have.
    pub open spec fn path_ok(self, i: int) -> bool {
        let s = self.states[i];
        &&& s.idx == i
        &&& increasing(s.ancestors)
        &&& all_below(s.ancestors, i)
        &&& i == 0 ==> s.parent == 0 && s.ancestors.len() == 0
        &&& i > 0 ==> s.ancestors.len() > 0 && s.parent == s.ancestors.last()
            && self.states[s.parent as int].ancestors == s.ancestors.drop_last()
    }

    /// The children of the state `i` are the closed states whose parent it
    /// is, in document order.
    pub open spec fn children_ok(self, i: int) -> bool {
        let s = self.states[i];
        &&& increasing(s.children)
        &&& forall|k: int| 0 <= k < s.children.len() ==> self.is_child(#[trigger] s.children[k], i)
        &&& forall|c: StateId| #[trigger] self.is_child(c, i) ==> s.children.contains(c)
    }

    /// The descendants of the state `i` are the closed states that have it
    /// as an ancestor, in document order.
    pub open spec fn descendants_ok(self, i: int) -> bool {
        let s = self.states[i];
        &&& increasing(s.descendants)
        &&& forall|k: int|
            0 <= k < s.descendants.len() ==> self.is_descendant(#[trigger] s.descendants[k], i)
        &&& forall|d: StateId| #[trigger] self.is_descendant(d, i) ==> s.descendants.contains(d)
    }

    /// The transitions of the state `i` are those that leave it, in document
    /// order.
    pub open spec fn attached_ok(self, i: int) -> bool {
        let s = self.states[i];
        &&& increasing(s.transitions)
        &&& forall|k: int|
            0 <= k < s.transitions.len() ==> self.leaves(#[trigger] s.transitions[k], i)
        &&& forall|t: TransitionId| #[trigger] self.leaves(t, i) ==> s.transitions.contains(t)
    }

    /// The kind and the initial children of the state `i` are settled once
    /// it is closed.
    pub open spec fn kind_ok(self, i: int) -> bool {
        let s = self.states[i];
        &&& self.is_open(i as StateId) ==> s.t != StateType::Atomic && s.initial.len() == 0
        &&& !self.is_open(i as StateId) ==> settled(s)
    }

    /// What holds of the state `i`.
    pub open spec fn state_ok(self, i: int) -> bool {
        &&& self.path_ok(i)
        &&& self.children_ok(i)
        &&& self.descendants_ok(i)
        &&& self.attached_ok(i)
        &&& self.kind_ok(i)
    }

    /// What holds of the transition `t` before its targets are resolved.
    pub open spec fn transition_ok(self, t: int) -> bool {
        let transition = self.transitions[t];
        &&& transition.idx == t
        &&& transition.source < self.states.len()
        &&& transition.targets.len() == 0
        &&& transition.exits.len() == 0
        &&& transition.conflicts.len() == 0
    }

    /// What holds of the walk at every node.
    pub open spec fn inv(self) -> bool {
        &&& self.states.len() <= usize::MAX
        &&& self.transitions.len() <= usize::MAX
        &&& self.stack_ok()
        &&& forall|i: int| 0 <= i < self.states.len() ==> #[trigger] self.state_ok(i)
        &&& forall|t: int| 0 <= t < self.transitions.len() ==> #[trigger] self.transition_ok(t)
        &&& self.pending.len() == self.transitions.len()
        &&& self.registry_ok()
    }

    /// The name of the state at the place `k` of the registry.
    pub open spec fn name_at(self, k: int) -> Option<Seq<char>> {
        self.states[self.registry[k] as int].id
    }

    /// What holds of the registry: its states have names, and no two of
    /// them have the same name.
    pub open spec fn registry_ok(self) -> bool {
        &&& forall|k: int|
            0 <= k < self.registry.len() ==> (#[trigger] self.registry[k]) < self.states.len()
                && self.name_at(k) is Some
        &&& forall|j: int, k: int|
            0 <= j < k < self.registry.len() ==> #[trigger] self.name_at(j) != #[trigger] self.name_at(
                k,
            )
    }
}

/// What holds of the registry holds as long as the states keep their names.
pub proof fn lemma_registry_same(w: Walk, v: Walk)
    requires
        w.registry_ok(),
        v.registry == w.registry,
        v.states.len() >= w.states.len(),
        forall|i: int| 0 <= i < w.states.len() ==> (#[trigger] v.states[i]).id == w.states[i].id,
    ensures
        v.registry_ok(),
{
    assert forall|k: int| 0 <= k < v.registry.len() implies v.name_at(k) == w.name_at(k) by {
        assert(w.registry[k] < w.states.len());
    }
    assert forall|j: int, k: int| 0 <= j < k < v.registry.len() implies #[trigger] v.name_at(j)
        != #[trigger] v.name_at(k) by {
        assert(w.name_at(j) != w.name_at(k));
    }
}

/// A name that is not found is the name of no state of the registry.
pub proof fn lemma_not_found(
    states: Seq<StateView>,
    registry: Seq<StateId>,
    name: Seq<char>,
    n: int,
)
    requires
        find_among(states, registry, name, n) is None,
        n <= registry.len(),
    ensures
        forall|k: int| 0 <= k < n ==> states[(#[trigger] registry[k]) as int].id != Some(name),
    decreases n,
{
    if n > 0 {
        lemma_not_found(states, registry, name, n - 1);
    }
}

/// Opening a state keeps what holds of the walk.
pub proof fn lemma_open_state(w: Walk, t: StateType, id: Option<Seq<char>>, loc: Location)
    requires
        w.inv(),
        w.stack.len() > 0 || w.states.len() == 0,
        w.states.len() < usize::MAX,
        t != StateType::Atomic,
    ensures
        w.open_state(t, id, loc).inv(),
{
    let v = w.open_state(t, id, loc);
    let n = w.states.len() as int;
    let idx = n as StateId;
    assert(v.states.len() == n + 1);
    assert(v.stack == w.stack.push(idx));
    assert forall|c: StateId| c != idx implies v.is_open(c) == w.is_open(c) by {
        if v.is_open(c) {
            let k = choose|k: int| 0 <= k < v.stack.len() && v.stack[k] == c;
            assert(w.stack[k] == c);
        }
        if w.is_open(c) {
            let k = choose|k: int| 0 <= k < w.stack.len() && w.stack[k] == c;
            assert(v.stack[k] == c);
        }
    }
    assert(v.is_open(idx)) by {
        assert(v.stack[w.stack.len() as int] == idx);
    }
    assert(v.stack_ok()) by {
        assert forall|k: int| 0 <= k < v.stack.len() implies v.states[(
        #[trigger] v.stack[k]) as int].ancestors == v.stack.take(k) by {
            if k < w.stack.len() {
                assert(w.states[w.stack[k] as int].ancestors == w.stack.take(k));
                assert(w.stack.take(k) =~= v.stack.take(k));
            } else {
                assert(v.stack.take(k) =~= w.stack);
            }
        }
        assert forall|k: int, d: int|
            0 <= k < v.stack.len() && v.stack[k] < d < v.states.len() implies (
        #[trigger] v.states[d]).ancestors.contains(#[trigger] v.stack[k]) by {
            if d == n {
                assert(w.stack[k] == v.stack[k]);
            } else {
                assert(w.states[d].ancestors.contains(w.stack[k]));
            }
        }
    }
    assert forall|i: int| 0 <= i < v.states.len() implies #[trigger] v.state_ok(i) by {
        let s = v.states[i];
        if i < n {
            assert(w.state_ok(i));
            assert(s == w.states[i]);
            assert forall|k: int| 0 <= k < s.children.len() implies v.is_child(
                #[trigger] s.children[k],
                i,
            ) by {
                assert(w.is_child(s.children[k], i));
            }
            assert forall|c: StateId| #[trigger] v.is_child(c, i) implies s.children.contains(
                c,
            ) by {
                assert(w.is_child(c, i));
            }
            assert forall|k: int| 0 <= k < s.descendants.len() implies v.is_descendant(
                #[trigger] s.descendants[k],
                i,
            ) by {
                assert(w.is_descendant(s.descendants[k], i));
            }
            assert forall|d: StateId| #[trigger] v.is_descendant(d, i) implies s.descendants.contains(
                d,
            ) by {
                assert(w.is_descendant(d, i));
            }
            assert forall|k: int| 0 <= k < s.transitions.len() implies v.leaves(
                #[trigger] s.transitions[k],
                i,
            ) by {
                assert(w.leaves(s.transitions[k], i));
            }
            assert forall|u: TransitionId| #[trigger] v.leaves(u, i) implies s.transitions.contains(
                u,
            ) by {
                assert(w.leaves(u, i));
            }
        } else {
            assert(s.ancestors == w.stack);
            if n > 0 {
                let last = w.stack.len() - 1;
                assert(w.states[w.stack[last] as int].ancestors == w.stack.take(last));
                assert(w.stack.take(last) =~= w.stack.drop_last());
            }
            assert forall|c: StateId| #[trigger] v.is_child(c, i) implies s.children.contains(
                c,
            ) by {
                assert(w.state_ok(c as int));
            }
            assert forall|d: StateId| #[trigger] v.is_descendant(d, i) implies s.descendants.contains(
                d,
            ) by {
                assert(w.state_ok(d as int));
            }
            assert forall|u: TransitionId| #[trigger] v.leaves(u, i) implies s.transitions.contains(
                u,
            ) by {
                assert(w.transition_ok(u as int));
            }
        }
    }
    assert forall|u: int| 0 <= u < v.transitions.len() implies #[trigger] v.transition_ok(u) by {
        assert(w.transition_ok(u));
    }
}

/// Whether two states differ in their content at most: in what is executed
/// when they are initialised, entered or left, in their invocations and in
/// their location.
pub open spec fn same_shape(a: StateView, b: StateView) -> bool {
    &&& a.id == b.id
    &&& a.idx == b.idx
    &&& a.t == b.t
    &&& a.parent == b.parent
    &&& a.children == b.children
    &&& a.ancestors == b.ancestors
    &&& a.descendants == b.descendants
    &&& a.initial == b.initial
    &&& a.transitions == b.transitions
}

/// A change of the content of states keeps what holds of the walk.
pub proof fn lemma_same_shape(w: Walk, v: Walk)
    requires
        w.inv(),
        v.states.len() == w.states.len(),
        forall|i: int| 0 <= i < w.states.len() ==> same_shape(#[trigger] v.states[i], w.states[i]),
        v.transitions == w.transitions,
        v.stack == w.stack,
        v.pending.len() == w.pending.len(),
        v.registry == w.registry,
    ensures
        v.inv(),
{
    assert(v.stack_ok()) by {
        assert forall|k: int| 0 <= k < v.stack.len() implies v.states[(
        #[trigger] v.stack[k]) as int].ancestors == v.stack.take(k) by {
            assert(same_shape(v.states[w.stack[k] as int], w.states[w.stack[k] as int]));
        }
        assert forall|k: int, d: int|
            0 <= k < v.stack.len() && v.stack[k] < d < v.states.len() implies (
        #[trigger] v.states[d]).ancestors.contains(#[trigger] v.stack[k]) by {
            assert(same_shape(v.states[d], w.states[d]));
            assert(w.states[d].ancestors.contains(w.stack[k]));
        }
    }
    assert forall|c: StateId, i: int| v.is_child(c, i) == w.is_child(c, i) by {
        if 0 < c < w.states.len() {
            assert(same_shape(v.states[c as int], w.states[c as int]));
        }
    }
    assert forall|d: StateId, i: int| v.is_descendant(d, i) == w.is_descendant(d, i) by {
        if d < w.states.len() {
            assert(same_shape(v.states[d as int], w.states[d as int]));
        }
    }
    assert forall|i: int| 0 <= i < v.states.len() implies #[trigger] v.state_ok(i) by {
        let s = v.states[i];
        assert(w.state_ok(i));
        assert(same_shape(s, w.states[i]));
        if i > 0 {
            assert(same_shape(v.states[s.parent as int], w.states[s.parent as int]));
        }
        assert forall|k: int| 0 <= k < s.children.len() implies v.is_child(
            #[trigger] s.children[k],
            i,
        ) by {
            assert(w.is_child(s.children[k], i));
        }
        assert forall|c: StateId| #[trigger] v.is_child(c, i) implies s.children.contains(c) by {
            assert(w.is_child(c, i));
        }
        assert forall|k: int| 0 <= k < s.descendants.len() implies v.is_descendant(
            #[trigger] s.descendants[k],
            i,
        ) by {
            assert(w.is_descendant(s.descendants[k], i));
        }
        assert forall|d: StateId| #[trigger] v.is_descendant(d, i) implies s.descendants.contains(
            d,
        ) by {
            assert(w.is_descendant(d, i));
        }
        assert forall|k: int| 0 <= k < s.transitions.len() implies v.leaves(
            #[trigger] s.transitions[k],
            i,
        ) by {
            assert(w.leaves(s.transitions[k], i));
        }
        assert forall|u: TransitionId| #[trigger] v.leaves(u, i) implies s.transitions.contains(
            u,
        ) by {
            assert(w.leaves(u, i));
        }
    }
    assert forall|u: int| 0 <= u < v.transitions.len() implies #[trigger] v.transition_ok(u) by {
        assert(w.transition_ok(u));
    }
    assert forall|i: int| 0 <= i < w.states.len() implies (#[trigger] v.states[i]).id
        == w.states[i].id by {
        assert(same_shape(v.states[i], w.states[i]));
    }
    lemma_registry_same(w, v);
}

/// Attaching content to a state keeps what holds of the walk.
pub proof fn lemma_attach(w: Walk, content: Seq<usize>, id: usize)
    requires
        w.inv(),
        w.stack.len() > 0,
    ensures
        w.attach_init(content).inv(),
        w.attach_entry(content).inv(),
        w.attach_exit(content).inv(),
        w.attach_invocation(id).inv(),
{
    assert(w.stack[w.stack.len() - 1] < w.states.len());
    lemma_same_shape(w, w.attach_init(content));
    lemma_same_shape(w, w.attach_entry(content));
    lemma_same_shape(w, w.attach_exit(content));
    lemma_same_shape(w, w.attach_invocation(id));
}

/// Adding a transition keeps what holds of the walk.
pub proof fn lemma_add_transition(
    w: Walk,
    t: TransitionType,
    event: Option<usize>,
    condition: Option<usize>,
    targets: Seq<Seq<char>>,
    loc: Location,
)
    requires
        w.inv(),
        w.stack.len() > 0,
        w.transitions.len() < usize::MAX,
    ensures
        w.add_transition(t, event, condition, targets, loc).inv(),
{
    let v = w.add_transition(t, event, condition, targets, loc);
    let m = w.transitions.len() as int;
    let idx = m as TransitionId;
    let source = w.top();
    assert(w.stack[w.stack.len() - 1] == source);
    assert(source < w.states.len());
    assert(v.states.len() == w.states.len());
    assert forall|i: int| 0 <= i < w.states.len() implies (#[trigger] v.states[i]).ancestors
        == w.states[i].ancestors && v.states[i].parent == w.states[i].parent by {}
    assert(v.stack_ok()) by {
        assert forall|k: int, d: int|
            0 <= k < v.stack.len() && v.stack[k] < d < v.states.len() implies (
        #[trigger] v.states[d]).ancestors.contains(#[trigger] v.stack[k]) by {
            assert(w.states[d].ancestors.contains(w.stack[k]));
        }
    }
    assert forall|c: StateId, i: int| v.is_child(c, i) == w.is_child(c, i) by {}
    assert forall|d: StateId, i: int| v.is_descendant(d, i) == w.is_descendant(d, i) by {}
    assert forall|i: int| 0 <= i < v.states.len() implies #[trigger] v.state_ok(i) by {
        let s = v.states[i];
        let old = w.states[i];
        assert(w.state_ok(i));
        assert forall|k: int| 0 <= k < s.children.len() implies v.is_child(
            #[trigger] s.children[k],
            i,
        ) by {
            assert(w.is_child(old.children[k], i));
        }
        assert forall|c: StateId| #[trigger] v.is_child(c, i) implies s.children.contains(c) by {
            assert(w.is_child(c, i));
        }
        assert forall|k: int| 0 <= k < s.descendants.len() implies v.is_descendant(
            #[trigger] s.descendants[k],
            i,
        ) by {
            assert(w.is_descendant(old.descendants[k], i));
        }
        assert forall|d: StateId| #[trigger] v.is_descendant(d, i) implies s.descendants.contains(
            d,
        ) by {
            assert(w.is_descendant(d, i));
        }
        if i == source {
            assert(s.transitions == old.transitions.push(idx));
            assert forall|k: int| 0 <= k < s.transitions.len() implies v.leaves(
                #[trigger] s.transitions[k],
                i,
            ) by {
                if k < old.transitions.len() {
                    assert(w.leaves(old.transitions[k], i));
                }
            }
            assert forall|u: TransitionId| #[trigger] v.leaves(u, i) implies s.transitions.contains(
                u,
            ) by {
                if u == idx {
                    assert(s.transitions[old.transitions.len() as int] == u);
                } else {
                    assert(w.leaves(u, i));
                    let k = choose|k: int|
                        0 <= k < old.transitions.len() && old.transitions[k] == u;
                    assert(s.transitions[k] == u);
                }
            }
            assert forall|j: int, k: int| 0 <= j < k < s.transitions.len() implies s.transitions[j]
                < s.transitions[k] by {
                assert(w.leaves(old.transitions[j], i));
                if k < old.transitions.len() {
                    assert(old.transitions[j] < old.transitions[k]);
                }
            }
        } else {
            assert(s == old);
            assert forall|k: int| 0 <= k < s.transitions.len() implies v.leaves(
                #[trigger] s.transitions[k],
                i,
            ) by {
                assert(w.leaves(old.transitions[k], i));
            }
            assert forall|u: TransitionId| #[trigger] v.leaves(u, i) implies s.transitions.contains(
                u,
            ) by {
                assert(w.leaves(u, i));
            }
        }
    }
    assert forall|u: int| 0 <= u < v.transitions.len() implies #[trigger] v.transition_ok(u) by {
        if u < m {
            assert(w.transition_ok(u));
        }
    }
    lemma_registry_same(w, v);
}

/// A state that was open is settled once its kind and its initial children
/// have been settled.
pub proof fn lemma_settle(s: StateView)
    requires
        s.t != StateType::Atomic,
        s.initial.len() == 0,
    ensures
        settled(settle(s)),
{
    assert(s.initial =~= Seq::empty());
}

/// How the walk after closing the innermost open state differs from the
/// walk before.
pub open spec fn closes(w: Walk, v: Walk) -> bool {
    let n = w.states.len() as int;
    let idx = w.stack.last();
    let rest = w.stack.drop_last();
    &&& v.stack == rest
    &&& v.states.len() == n
    &&& v.transitions == w.transitions
    &&& v.pending == w.pending
    &&& v.binding == w.binding
    &&& idx < n
    &&& w.is_open(idx)
    &&& !rest.contains(idx)
    &&& w.states[idx as int].ancestors == rest
    &&& rest.len() > 0 ==> rest.last() < idx
    &&& v.states[idx as int] == settle(w.states[idx as int])
    &&& forall|c: StateId| #[trigger] v.is_open(c) == (w.is_open(c) && c != idx)
    &&& forall|i: int|
        0 <= i < n ==> {
            let s = #[trigger] v.states[i];
            let old = w.states[i];
            &&& s.id == old.id
            &&& s.idx == old.idx
            &&& s.parent == old.parent
            &&& s.ancestors == old.ancestors
            &&& s.transitions == old.transitions
            &&& i != idx ==> s.t == old.t && s.initial == old.initial
            &&& !rest.contains(i as StateId) ==> s.descendants == old.descendants
            &&& rest.contains(i as StateId) ==> s.descendants == insert_ordered(
                old.descendants,
                idx,
            )
            &&& !(rest.len() > 0 && rest.last() == i) ==> s.children == old.children
            &&& rest.len() > 0 && rest.last() == i ==> s.children == old.children.push(idx)
        }
}

/// Closing the innermost open state changes the walk as [`closes`] says.
pub proof fn lemma_closes(w: Walk)
    requires
        w.inv(),
        w.stack.len() > 0,
    ensures
        closes(w, w.close_state()),
{
    let v = w.close_state();
    let n = w.states.len() as int;
    let last = w.stack.len() - 1;
    let idx = w.stack.last();
    let rest = w.stack.drop_last();
    let e = w.enclosed(idx, rest);
    assert(w.stack[last] == idx);
    assert(idx < n);
    assert(!rest.contains(idx)) by {
        if rest.contains(idx) {
            let k = choose|k: int| 0 <= k < rest.len() && rest[k] == idx;
            assert(w.stack[k] < w.stack[last]);
        }
    }
    assert(w.states[idx as int].ancestors == rest) by {
        assert(w.states[w.stack[last] as int].ancestors == w.stack.take(last));
        assert(w.stack.take(last) =~= rest);
    }
    if rest.len() > 0 {
        assert(rest[rest.len() - 1] == w.stack[last - 1]);
        assert(w.stack[last - 1] < w.stack[last]);
    }
    assert(e[idx as int] == w.states[idx as int]);
    assert forall|c: StateId| #[trigger] v.is_open(c) == (w.is_open(c) && c != idx) by {
        if v.is_open(c) {
            let k = choose|k: int| 0 <= k < rest.len() && rest[k] == c;
            assert(w.stack[k] == c);
        }
        if w.is_open(c) && c != idx {
            let k = choose|k: int| 0 <= k < w.stack.len() && w.stack[k] == c;
            assert(rest[k] == c);
        }
    }
}

/// The open states after one has been closed.
proof fn lemma_close_stack(w: Walk, v: Walk)
    requires
        w.inv(),
        w.stack.len() > 0,
        closes(w, v),
    ensures
        v.stack_ok(),
{
    let rest = w.stack.drop_last();
    assert forall|k: int| 0 <= k < v.stack.len() implies v.states[(
    #[trigger] v.stack[k]) as int].ancestors == v.stack.take(k) by {
        assert(w.states[w.stack[k] as int].ancestors == w.stack.take(k));
        assert(w.stack.take(k) =~= rest.take(k));
    }
    assert forall|k: int, d: int|
        0 <= k < v.stack.len() && v.stack[k] < d < v.states.len() implies (
    #[trigger] v.states[d]).ancestors.contains(#[trigger] v.stack[k]) by {
        assert(w.states[d].ancestors.contains(w.stack[k]));
    }
}

/// The children of a state after a state has been closed.
proof fn lemma_close_children(w: Walk, v: Walk, i: int)
    requires
        w.inv(),
        w.stack.len() > 0,
        closes(w, v),
        0 <= i < w.states.len(),
    ensures
        v.children_ok(i),
{
    let last = w.stack.len() - 1;
    let idx = w.stack.last();
    let rest = w.stack.drop_last();
    let s = v.states[i];
    let old = w.states[i];
    assert(w.state_ok(i));
    assert(w.state_ok(idx as int));
    assert forall|c: StateId| c != idx implies v.is_child(c, i) == w.is_child(c, i) by {
        if 0 < c < w.states.len() {
            assert(v.states[c as int].parent == w.states[c as int].parent);
            assert(v.is_open(c) == (w.is_open(c) && c != idx));
        }
    }
    assert(v.is_child(idx, i) == (rest.len() > 0 && rest.last() == i)) by {
        assert(v.states[idx as int].parent == w.states[idx as int].parent);
        assert(v.is_open(idx) == (w.is_open(idx) && idx != idx));
    }
    if rest.len() > 0 && rest.last() == i {
        assert(s.children == old.children.push(idx));
        assert forall|j: int, k: int| 0 <= j < k < s.children.len() implies s.children[j]
            < s.children[k] by {
            if k < old.children.len() {
                assert(old.children[j] < old.children[k]);
            } else {
                let c = old.children[j];
                assert(w.is_child(c, i));
                assert(w.state_ok(c as int));
                if c > idx {
                    assert(w.states[c as int].ancestors.contains(w.stack[last]));
                    let a = w.states[c as int].ancestors;
                    let p = choose|p: int| 0 <= p < a.len() && a[p] == idx;
                    assert(a[p] <= a[a.len() - 1]);
                }
            }
        }
        assert forall|k: int| 0 <= k < s.children.len() implies v.is_child(
            #[trigger] s.children[k],
            i,
        ) by {
            if k < old.children.len() {
                assert(w.is_child(old.children[k], i));
            }
        }
        assert forall|c: StateId| #[trigger] v.is_child(c, i) implies s.children.contains(c) by {
            if c == idx {
                assert(s.children[old.children.len() as int] == c);
            } else {
                assert(w.is_child(c, i));
                let k = choose|k: int| 0 <= k < old.children.len() && old.children[k] == c;
                assert(s.children[k] == c);
            }
        }
    } else {
        assert(s.children == old.children);
        assert forall|k: int| 0 <= k < s.children.len() implies v.is_child(
            #[trigger] s.children[k],
            i,
        ) by {
            assert(w.is_child(old.children[k], i));
        }
        assert forall|c: StateId| #[trigger] v.is_child(c, i) implies s.children.contains(c) by {
            assert(w.is_child(c, i));
        }
    }
}

/// The descendants of a state after a state has been closed.
proof fn lemma_close_descendants(w: Walk, v: Walk, i: int)
    requires
        w.inv(),
        w.stack.len() > 0,
        closes(w, v),
        0 <= i < w.states.len(),
    ensures
        v.descendants_ok(i),
{
    let idx = w.stack.last();
    let rest = w.stack.drop_last();
    let s = v.states[i];
    let old = w.states[i];
    assert(w.state_ok(i));
    assert forall|d: StateId| d != idx implies v.is_descendant(d, i) == w.is_descendant(d, i) by {
        if d < w.states.len() {
            assert(v.states[d as int].ancestors == w.states[d as int].ancestors);
            assert(v.is_open(d) == (w.is_open(d) && d != idx));
        }
    }
    assert(v.is_descendant(idx, i) == rest.contains(i as StateId)) by {
        assert(v.states[idx as int].ancestors == w.states[idx as int].ancestors);
        assert(v.is_open(idx) == (w.is_open(idx) && idx != idx));
    }
    if rest.contains(i as StateId) {
        assert(!old.descendants.contains(idx)) by {
            if old.descendants.contains(idx) {
                let k = choose|k: int| 0 <= k < old.descendants.len() && old.descendants[k] == idx;
                assert(w.is_descendant(old.descendants[k], i));
            }
        }
        lemma_insert_ordered(old.descendants, idx);
        assert(s.descendants == insert_ordered(old.descendants, idx));
        assert forall|k: int| 0 <= k < s.descendants.len() implies v.is_descendant(
            #[trigger] s.descendants[k],
            i,
        ) by {
            let d = s.descendants[k];
            if d != idx {
                assert(old.descendants.contains(d));
                let j = choose|j: int| 0 <= j < old.descendants.len() && old.descendants[j] == d;
                assert(w.is_descendant(old.descendants[j], i));
            }
        }
        assert forall|d: StateId| #[trigger] v.is_descendant(d, i) implies s.descendants.contains(
            d,
        ) by {
            if d != idx {
                assert(w.is_descendant(d, i));
                let j = choose|j: int| 0 <= j < old.descendants.len() && old.descendants[j] == d;
                assert(s.descendants.contains(old.descendants[j]));
            }
        }
    } else {
        assert(s.descendants == old.descendants);
        assert forall|k: int| 0 <= k < s.descendants.len() implies v.is_descendant(
            #[trigger] s.descendants[k],
            i,
        ) by {
            assert(w.is_descendant(old.descendants[k], i));
        }
        assert forall|d: StateId| #[trigger] v.is_descendant(d, i) implies s.descendants.contains(
            d,
        ) by {
            assert(w.is_descendant(d, i));
        }
    }
}

/// The rest of what holds of a state after a state has been closed.
proof fn lemma_close_rest(w: Walk, v: Walk, i: int)
    requires
        w.inv(),
        w.stack.len() > 0,
        closes(w, v),
        0 <= i < w.states.len(),
    ensures
        v.path_ok(i),
        v.attached_ok(i),
        v.kind_ok(i),
{
    let idx = w.stack.last();
    let s = v.states[i];
    let old = w.states[i];
    assert(w.state_ok(i));
    if i > 0 {
        assert(v.states[old.parent as int].ancestors == w.states[old.parent as int].ancestors);
    }
    assert forall|k: int| 0 <= k < s.transitions.len() implies v.leaves(
        #[trigger] s.transitions[k],
        i,
    ) by {
        assert(w.leaves(old.transitions[k], i));
    }
    assert forall|u: TransitionId| #[trigger] v.leaves(u, i) implies s.transitions.contains(u) by {
        assert(w.leaves(u, i));
    }
    assert(v.is_open(i as StateId) == (w.is_open(i as StateId) && i != idx));
    if i == idx {
        lemma_settle(old);
    } else if !w.is_open(i as StateId) {
        let rest = w.stack.drop_last();
        assert(!rest.contains(i as StateId)) by {
            if rest.contains(i as StateId) {
                let k = choose|k: int| 0 <= k < rest.len() && rest[k] == i as StateId;
                assert(w.stack[k] == i);
            }
        }
        assert(s.children == old.children);
        assert(s.descendants == old.descendants);
        assert(s.initial == old.initial);
        assert(s.t == old.t);
    }
}

/// Closing the innermost open state keeps what holds of the walk.
pub proof fn lemma_close_state(w: Walk)
    requires
        w.inv(),
        w.stack.len() > 0,
    ensures
        w.close_state().inv(),
        w.close_state().stack == w.stack.drop_last(),
        w.close_state().states.len() == w.states.len(),
        w.close_state().transitions == w.transitions,
        w.close_state().pending == w.pending,
        w.close_state().binding == w.binding,
{
    let v = w.close_state();
    lemma_closes(w);
    lemma_close_stack(w, v);
    assert forall|i: int| 0 <= i < v.states.len() implies #[trigger] v.state_ok(i) by {
        lemma_close_children(w, v, i);
        lemma_close_descendants(w, v, i);
        lemma_close_rest(w, v, i);
    }
    assert forall|u: int| 0 <= u < v.transitions.len() implies #[trigger] v.transition_ok(u) by {
        assert(w.transition_ok(u));
    }
    let kept = Walk { registry: w.registry, ..v };
    lemma_registry_same(w, kept);
    if v.registry != w.registry {
        let idx = w.stack.last();
        let name = w.states[idx as int].id->0;
        lemma_not_found(w.states, w.registry, name, w.registry.len() as int);
        assert(v.registry == w.registry.push(idx));
        assert forall|k: int| 0 <= k < w.registry.len() implies v.name_at(k) == kept.name_at(
            k,
        ) by {}
        assert(v.name_at(w.registry.len() as int) == Some(name));
        assert forall|j: int, k: int| 0 <= j < k < v.registry.len() implies #[trigger] v.name_at(
            j,
        ) != #[trigger] v.name_at(k) by {
            if k < w.registry.len() {
                assert(kept.name_at(j) != kept.name_at(k));
            } else {
                assert(w.registry[j] < w.states.len());
                assert(w.states[w.registry[j] as int].id != Some(name));
            }
        }
    }
}

/// How the walk after a node relates to the walk before it: the same states
/// are open, and they have their kind still.
pub open spec fn passes(w: Walk, v: Walk) -> bool {
    &&& v.stack == w.stack
    &&& v.states.len() >= w.states.len()
    &&& forall|k: int|
        0 <= k < w.stack.len() ==> v.states[(#[trigger] w.stack[k]) as int].t
            == w.states[w.stack[k] as int].t
}

/// A node that stands for no state leaves the open states as they are.
pub proof fn lemma_passes_leaf(w: Walk, node: Node)
    requires
        w.inv(),
        w.stack.len() > 0,
        !node.is_scope(),
    ensures
        passes(w, w.enter(node)),
{
    let v = w.enter(node);
    assert(w.stack[w.stack.len() - 1] < w.states.len());
    assert forall|k: int| 0 <= k < w.stack.len() implies v.states[(
    #[trigger] w.stack[k]) as int].t == w.states[w.stack[k] as int].t by {
        assert(w.stack[k] < w.states.len());
    }
}

/// A state that is opened, passed and closed leaves the states that were
/// open before as they are.
pub proof fn lemma_passes_scope(w: Walk, opened: Walk, passed: Walk)
    requires
        w.inv(),
        opened.stack == w.stack.push(w.states.len() as StateId),
        opened.states.len() == w.states.len() + 1,
        forall|i: int| 0 <= i < w.states.len() ==> opened.states[i] == w.states[i],
        passes(opened, passed),
        passed.inv(),
    ensures
        passes(w, passed.close_state()),
{
    let v = passed.close_state();
    lemma_closes(passed);
    assert(passed.stack.drop_last() =~= w.stack);
    assert forall|k: int| 0 <= k < w.stack.len() implies v.states[(
    #[trigger] w.stack[k]) as int].t == w.states[w.stack[k] as int].t by {
        assert(w.stack[k] < w.states.len());
        assert(opened.stack[k] == w.stack[k]);
        assert(passed.states[opened.stack[k] as int].t == opened.states[opened.stack[k] as int].t);
        assert(v.states[w.stack[k] as int].t == passed.states[w.stack[k] as int].t);
    }
}

/// What is passed after what was passed is passed.
pub proof fn lemma_passes_on(a: Walk, b: Walk, c: Walk)
    requires
        a.inv(),
        passes(a, b),
        passes(b, c),
    ensures
        passes(a, c),
{
    assert forall|k: int| 0 <= k < a.stack.len() implies c.states[(
    #[trigger] a.stack[k]) as int].t == a.states[a.stack[k] as int].t by {
        assert(b.stack[k] == a.stack[k]);
        assert(c.states[b.stack[k] as int].t == b.states[b.stack[k] as int].t);
    }
}

impl Walk {
    /// Whether only compound and parallel states have children.
    pub open spec fn leafy(self) -> bool {
        forall|i: int|
            0 <= i < self.states.len() && (#[trigger] self.states[i]).children.len() > 0
                ==> may_nest(self.states[i].t)
    }
}

/// A node that stands for no state gives no state a child; nor does a state
/// that is opened.
pub proof fn lemma_leafy_enter(w: Walk, node: Node)
    requires
        w.inv(),
        w.stack.len() > 0 || node.is_scope(),
        w.leafy(),
    ensures
        w.enter(node).leafy(),
{
    let v = w.enter(node);
    if w.stack.len() > 0 {
        assert(w.stack[w.stack.len() - 1] < w.states.len());
    }
    assert forall|i: int|
        0 <= i < v.states.len() && (#[trigger] v.states[i]).children.len() > 0 implies may_nest(
        v.states[i].t,
    ) by {
        if i < w.states.len() {
            assert(v.states[i].children == w.states[i].children);
            assert(v.states[i].t == w.states[i].t);
            assert(w.states[i].children.len() > 0);
        }
    }
}

/// A state that is closed inside a compound or a parallel state gives no
/// other state a child.
pub proof fn lemma_leafy_close(w: Walk)
    requires
        w.inv(),
        w.stack.len() > 0,
        w.leafy(),
        w.stack.len() > 1 ==> may_nest(w.states[w.stack[w.stack.len() - 2] as int].t),
    ensures
        w.close_state().leafy(),
{
    let v = w.close_state();
    let idx = w.stack.last();
    let rest = w.stack.drop_last();
    lemma_closes(w);
    assert forall|i: int|
        0 <= i < v.states.len() && (#[trigger] v.states[i]).children.len() > 0 implies may_nest(
        v.states[i].t,
    ) by {
        if i == idx {
            assert(v.states[i] == settle(w.states[i]));
            assert(w.states[i].children.len() > 0);
        } else if rest.len() > 0 && rest.last() == i {
            assert(rest[rest.len() - 1] == w.stack[w.stack.len() - 2]);
            assert(v.states[i].t == w.states[i].t);
        } else {
            assert(v.states[i].children == w.states[i].children);
            assert(v.states[i].t == w.states[i].t);
            assert(w.states[i].children.len() > 0);
        }
    }
}

/// Every index that the walk holds names a state that has been opened.
pub proof fn lemma_in_range(w: Walk)
    requires
        w.inv(),
    ensures
        nested_in_range(w.states),
        sources_in_range(w.transitions, w.states),
        all_below(w.registry, w.states.len() as int),
{
    let n = w.states.len() as int;
    assert forall|i: int| 0 <= i < n implies (#[trigger] w.states[i]).nested_below(n) by {
        let s = w.states[i];
        assert(w.state_ok(i));
        assert forall|k: int| 0 <= k < s.children.len() implies s.children[k] < n by {
            assert(w.is_child(s.children[k], i));
        }
        assert forall|k: int| 0 <= k < s.descendants.len() implies s.descendants[k] < n by {
            assert(w.is_descendant(s.descendants[k], i));
        }
        if w.is_open(i as StateId) {
            assert(s.initial.len() == 0);
        } else {
            assert(settled(s));
        }
    }
    assert forall|t: int| 0 <= t < w.transitions.len() implies (#[trigger] w.transitions[t]).source
        < n by {
        assert(w.transition_ok(t));
    }
}

/// The states that targets name are states of the registry.
pub proof fn lemma_resolved(
    states: Seq<StateView>,
    registry: Seq<StateId>,
    names: Seq<Seq<char>>,
    n: int,
)
    requires
        all_below(registry, states.len() as int),
    ensures
        all_below(resolved(states, registry, names, n), states.len() as int),
    decreases n,
{
    if n > 0 {
        lemma_resolved(states, registry, names, n - 1);
        lemma_find_among(states, registry, names[n - 1], registry.len() as int);
    }
}

/// A state that is found is a state of the registry.
pub proof fn lemma_find_among(
    states: Seq<StateView>,
    registry: Seq<StateId>,
    name: Seq<char>,
    n: int,
)
    requires
        all_below(registry, states.len() as int),
        n <= registry.len(),
    ensures
        find_among(states, registry, name, n) matches Some(idx) ==> idx < states.len(),
    decreases n,
{
    if n > 0 {
        lemma_find_among(states, registry, name, n - 1);
    }
}

/// The graph that a walk ends in, once every state is closed.
pub open spec fn graph(w: Walk, loc: Location) -> CoreView {
    CoreView {
        states: w.states,
        transitions: with_conflicts(w.resolve().transitions, w.states),
        loc,
    }
}

/// The graph that a walk ends in is the core graph of a statechart.
pub proof fn lemma_finished(w: Walk, loc: Location)
    requires
        w.inv(),
        w.stack.len() == 0,
        w.states.len() > 0,
        w.states[0].t == StateType::Compound || w.states[0].t == StateType::Atomic,
    ensures
        graph(w, loc).well_formed(),
{
    let g = graph(w, loc);
    let n = w.states.len() as int;
    let aimed = w.resolve().transitions;
    lemma_in_range(w);
    assert(g.transitions.len() == w.transitions.len());
    assert forall|c: StateId, i: int| g.is_child(c, i) == w.is_child(c, i) by {}
    assert forall|d: StateId, i: int| g.is_descendant(d, i) == w.is_descendant(d, i) by {}
    assert forall|t: TransitionId, i: int| g.leaves(t, i) == w.leaves(t, i) by {
        if t < w.transitions.len() {
            assert(g.transitions[t as int].source == w.transitions[t as int].source);
        }
    }
    assert forall|i: int| 0 <= i < n implies #[trigger] g.state_well_formed(i) by {
        let s = w.states[i];
        assert(w.state_ok(i));
        assert(!w.is_open(i as StateId));
        assert forall|k: int| 0 <= k < s.children.len() implies g.is_child(
            #[trigger] s.children[k],
            i,
        ) by {
            assert(w.is_child(s.children[k], i));
        }
        assert forall|c: StateId| #[trigger] g.is_child(c, i) implies s.children.contains(c) by {
            assert(w.is_child(c, i));
        }
        assert forall|k: int| 0 <= k < s.descendants.len() implies g.is_descendant(
            #[trigger] s.descendants[k],
            i,
        ) by {
            assert(w.is_descendant(s.descendants[k], i));
        }
        assert forall|d: StateId| #[trigger] g.is_descendant(d, i) implies s.descendants.contains(
            d,
        ) by {
            assert(w.is_descendant(d, i));
        }
        assert forall|k: int| 0 <= k < s.transitions.len() implies g.leaves(
            #[trigger] s.transitions[k],
            i,
        ) by {
            assert(w.leaves(s.transitions[k], i));
        }
        assert forall|u: TransitionId| #[trigger] g.leaves(u, i) implies s.transitions.contains(
            u,
        ) by {
            assert(w.leaves(u, i));
        }
    }
    assert forall|t: int| 0 <= t < g.transitions.len() implies #[trigger] g.transition_well_formed(
        t,
    ) by {
        let names = w.pending[t];
        assert(w.transition_ok(t));
        lemma_resolved(w.states, w.registry, names, names.len() as int);
        assert(aimed[t] == w.aimed(t));
        assert(g.transitions[t].exits == exit_set(g.transitions[t], w.states));
        assert forall|i: int| 0 <= i < aimed.len() implies (#[trigger] aimed[i]).idx
            == g.transitions[i].idx && aimed[i].source == g.transitions[i].source && aimed[i].exits
            == g.transitions[i].exits by {}
        lemma_conflicts_among_same(
            aimed[t],
            g.transitions[t],
            aimed,
            g.transitions,
            w.states,
            aimed.len() as int,
        );
    }
}

} // verus!
