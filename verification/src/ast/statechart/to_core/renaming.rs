//! Names do not matter: a statechart whose states have other names, each
//! name replaced by another in the states and in the targets alike, has the
//! same core graph but for the names.

use crate::ast::conversion_error::ConversionErrorView;
use crate::ast::core_graph::conflicts::{
    conflicts_among, conflicts_of, sources_in_range, with_conflicts,
};
use crate::ast::core_graph::exits::{
    exit_set, exited, lcca_among, lemma_transition_domain, nested_in_range, transition_domain,
    transition_source,
};
use crate::ast::core_graph::{name_view, CoreView, StateId, StateView, TransitionView};
use crate::ast::location::Location;
use crate::ast::statechart::to_core::extent::{
    fit, fits, lemma_enter, lemma_visit, lemma_visit_all,
};
use crate::ast::statechart::to_core::report::{duplicate_target, missing_target};
use crate::ast::statechart::to_core::shape::{lemma_closes, lemma_in_range};
use crate::ast::statechart::to_core::walk::{
    find_among, missing, names_view, normalize, resolved, settle, visit, visit_all, Walk,
};
use crate::ast::statechart::{Node, Statechart};
use crate::seqs::{all_below, concat_upto, kept};
use vstd::prelude::*;

verus! {

/// Whether `f` gives different names for different names.
pub open spec fn injective(f: spec_fn(Seq<char>) -> Seq<char>) -> bool {
    forall|a: Seq<char>, b: Seq<char>| #[trigger] f(a) == #[trigger] f(b) ==> a == b
}

/// The name `id` replaced.
pub open spec fn rename_id(id: Option<Seq<char>>, f: spec_fn(Seq<char>) -> Seq<char>) -> Option<
    Seq<char>,
> {
    match id {
        Some(name) => Some(f(name)),
        None => None,
    }
}

/// The state `s` with its name replaced.
pub open spec fn rename_state(s: StateView, f: spec_fn(Seq<char>) -> Seq<char>) -> StateView {
    StateView { id: rename_id(s.id, f), ..s }
}

/// The states `s`, each with its name replaced.
pub open spec fn rename_states(s: Seq<StateView>, f: spec_fn(Seq<char>) -> Seq<char>) -> Seq<
    StateView,
> {
    Seq::new(s.len(), |i: int| rename_state(s[i], f))
}

/// The names `names`, each replaced.
pub open spec fn rename_names(names: Seq<Seq<char>>, f: spec_fn(Seq<char>) -> Seq<char>) -> Seq<
    Seq<char>,
> {
    Seq::new(names.len(), |i: int| f(names[i]))
}

/// The graph `g` with the name of each state replaced.
pub open spec fn rename_graph(g: CoreView, f: spec_fn(Seq<char>) -> Seq<char>) -> CoreView {
    CoreView { states: rename_states(g.states, f), ..g }
}

/// Whether `b` is the fault `a` of the name `name`, with the name replaced.
pub open spec fn renamed_fault_of(
    a: ConversionErrorView,
    b: ConversionErrorView,
    f: spec_fn(Seq<char>) -> Seq<char>,
    name: Seq<char>,
) -> bool {
    ||| a == duplicate_target(name, a.loc) && b == duplicate_target(f(name), a.loc)
    ||| a == missing_target(name, a.loc) && b == missing_target(f(name), a.loc)
}

/// Whether `b` is the fault `a` with its name replaced.
pub open spec fn renamed_fault(
    a: ConversionErrorView,
    b: ConversionErrorView,
    f: spec_fn(Seq<char>) -> Seq<char>,
) -> bool {
    exists|name: Seq<char>| #[trigger] renamed_fault_of(a, b, f, name)
}

/// Whether `b` holds the faults of `a`, each with its name replaced.
pub open spec fn renamed_faults(
    a: Seq<ConversionErrorView>,
    b: Seq<ConversionErrorView>,
    f: spec_fn(Seq<char>) -> Seq<char>,
) -> bool {
    &&& a.len() == b.len()
    &&& forall|i: int| 0 <= i < a.len() ==> renamed_fault(#[trigger] a[i], b[i], f)
}

/// Whether `b` is the optional name `a` replaced.
pub open spec fn renamed_name(
    a: Option<String>,
    b: Option<String>,
    f: spec_fn(Seq<char>) -> Seq<char>,
) -> bool {
    name_view(b) == rename_id(name_view(a), f)
}

/// Whether `b` is the tree `a` with each name replaced: the names of the
/// states, and the targets of the transitions.
pub open spec fn renamed(a: Node, b: Node, f: spec_fn(Seq<char>) -> Seq<char>) -> bool
    decreases a,
{
    match a {
        Node::Statechart(x) => b matches Node::Statechart(y) && x.binding == y.binding && x.loc
            == y.loc && x.children@.len() == y.children@.len() && forall|i: int|
            0 <= i < x.children@.len() ==> renamed(#[trigger] x.children@[i], y.children@[i], f),
        Node::State(x) => b matches Node::State(y) && renamed_name(x.id, y.id, f) && x.loc == y.loc
            && x.children@.len() == y.children@.len() && forall|i: int|
            0 <= i < x.children@.len() ==> renamed(#[trigger] x.children@[i], y.children@[i], f),
        Node::Parallel(x) => b matches Node::Parallel(y) && renamed_name(x.id, y.id, f) && x.loc
            == y.loc && x.children@.len() == y.children@.len() && forall|i: int|
            0 <= i < x.children@.len() ==> renamed(#[trigger] x.children@[i], y.children@[i], f),
        Node::Initial(x) => b matches Node::Initial(y) && x.loc == y.loc && x.children@.len()
            == y.children@.len() && forall|i: int|
            0 <= i < x.children@.len() ==> renamed(#[trigger] x.children@[i], y.children@[i], f),
        Node::Final(x) => b matches Node::Final(y) && renamed_name(x.id, y.id, f) && x.loc == y.loc
            && x.children@.len() == y.children@.len() && forall|i: int|
            0 <= i < x.children@.len() ==> renamed(#[trigger] x.children@[i], y.children@[i], f),
        Node::History(x) => b matches Node::History(y) && renamed_name(x.id, y.id, f) && x.t == y.t
            && x.loc == y.loc && x.children@.len() == y.children@.len() && forall|i: int|
            0 <= i < x.children@.len() ==> renamed(#[trigger] x.children@[i], y.children@[i], f),
        Node::Transition(x) => b matches Node::Transition(y) && x.event == y.event && names_view(
            y.targets@,
        ) == rename_names(names_view(x.targets@), f) && x.t == y.t && x.condition == y.condition
            && x.children@ == y.children@ && x.loc == y.loc,
        Node::OnEvent(x) => b matches Node::OnEvent(y) && x.event == y.event && x.condition
            == y.condition && x.children@ == y.children@ && x.loc == y.loc,
        Node::OnInit(x) => b matches Node::OnInit(y) && x.children@ == y.children@ && x.loc
            == y.loc,
        Node::OnEntry(x) => b matches Node::OnEntry(y) && x.children@ == y.children@ && x.loc
            == y.loc,
        Node::OnExit(x) => b matches Node::OnExit(y) && x.children@ == y.children@ && x.loc
            == y.loc,
        Node::Invoke(x) => b matches Node::Invoke(y) && x.id == y.id && x.loc == y.loc,
    }
}

/// Whether `b` is the walk `a` through a tree with each name replaced.
pub open spec fn renamed_walk(a: Walk, b: Walk, f: spec_fn(Seq<char>) -> Seq<char>) -> bool {
    &&& b.states == rename_states(a.states, f)
    &&& b.transitions == a.transitions
    &&& b.stack == a.stack
    &&& b.binding == a.binding
    &&& b.pending.len() == a.pending.len()
    &&& forall|i: int|
        0 <= i < a.pending.len() ==> #[trigger] b.pending[i] == rename_names(a.pending[i], f)
    &&& b.registry == a.registry
    &&& renamed_faults(a.errors, b.errors, f)
}

/// A name names the same state as the name that replaces it.
pub proof fn lemma_find_renamed(
    states: Seq<StateView>,
    registry: Seq<StateId>,
    name: Seq<char>,
    n: int,
    f: spec_fn(Seq<char>) -> Seq<char>,
)
    requires
        injective(f),
        all_below(registry, states.len() as int),
        n <= registry.len(),
    ensures
        find_among(rename_states(states, f), registry, f(name), n) == find_among(
            states,
            registry,
            name,
            n,
        ),
    decreases n,
{
    if n > 0 {
        lemma_find_renamed(states, registry, name, n - 1, f);
        let idx = registry[n - 1] as int;
        let id = states[idx].id;
        assert(rename_states(states, f)[idx].id == rename_id(id, f));
        if id is Some {
            if f(id->0) == f(name) {
                assert(id->0 == name);
            }
        }
    }
}

/// Entering a node does the same with the names replaced.
pub proof fn lemma_enter_renamed(
    wa: Walk,
    wb: Walk,
    a: Node,
    b: Node,
    f: spec_fn(Seq<char>) -> Seq<char>,
)
    requires
        renamed_walk(wa, wb, f),
        renamed(a, b, f),
        wa.inv(),
        wa.stack.len() > 0 || a.is_scope(),
    ensures
        renamed_walk(wa.enter(a), wb.enter(b), f),
{
    let va = wa.enter(a);
    let vb = wb.enter(b);
    if wa.stack.len() > 0 {
        assert(wa.stack[wa.stack.len() - 1] < wa.states.len());
    }
    assert(wa.states.len() > 0 ==> wb.states[0] == rename_state(wa.states[0], f));
    assert(wa.stack.len() > 0 ==> wb.states[wa.top() as int] == rename_state(
        wa.states[wa.top() as int],
        f,
    ));
    assert(vb.states =~= rename_states(va.states, f));
    assert(vb.pending.len() == va.pending.len());
    assert forall|i: int| 0 <= i < va.pending.len() implies #[trigger] vb.pending[i]
        == rename_names(va.pending[i], f) by {
        if i < wa.pending.len() {
            assert(wb.pending[i] == rename_names(wa.pending[i], f));
        } else {
            match a {
                Node::OnEvent(_) => {
                    assert(vb.pending[i] =~= rename_names(va.pending[i], f));
                },
                _ => {},
            }
        }
    }
}

/// Closing a state does the same with the names replaced.
pub proof fn lemma_close_renamed(wa: Walk, wb: Walk, f: spec_fn(Seq<char>) -> Seq<char>)
    requires
        renamed_walk(wa, wb, f),
        injective(f),
        wa.inv(),
        wa.stack.len() > 0,
    ensures
        renamed_walk(wa.close_state(), wb.close_state(), f),
{
    let va = wa.close_state();
    let vb = wb.close_state();
    let idx = wa.stack.last();
    let rest = wa.stack.drop_last();
    lemma_closes(wa);
    assert(all_below(wa.registry, wa.states.len() as int));
    let ea = wa.enclosed(idx, rest);
    let eb = wb.enclosed(idx, rest);
    assert(eb =~= rename_states(ea, f));
    let sa = settle(ea[idx as int]);
    let sb = settle(eb[idx as int]);
    assert(sb == rename_state(sa, f));
    assert(ea.update(idx as int, sa).len() == ea.len());
    assert(eb.update(idx as int, sb) =~= rename_states(ea.update(idx as int, sa), f));
    match sa.id {
        Some(name) => {
            lemma_find_renamed(wa.states, wa.registry, name, wa.registry.len() as int, f);
            if wa.find(name) is Some {
                let fa = duplicate_target(name, sa.loc);
                let fb = duplicate_target(f(name), sa.loc);
                assert(renamed_fault_of(fa, fb, f, name));
                assert forall|i: int| 0 <= i < va.errors.len() implies renamed_fault(
                    #[trigger] va.errors[i],
                    vb.errors[i],
                    f,
                ) by {
                    if i < wa.errors.len() {
                        assert(renamed_fault(wa.errors[i], wb.errors[i], f));
                    }
                }
            }
        },
        None => {},
    }
}

/// The walk through a tree does the same with the names replaced.
pub proof fn lemma_visit_renamed(
    wa: Walk,
    wb: Walk,
    a: Node,
    b: Node,
    f: spec_fn(Seq<char>) -> Seq<char>,
)
    requires
        renamed_walk(wa, wb, f),
        renamed(a, b, f),
        injective(f),
        wa.inv(),
        wa.stack.len() > 0 || (wa.states.len() == 0 && a.is_scope()),
        fits(wa, a),
    ensures
        renamed_walk(visit(wa, a), visit(wb, b), f),
    decreases a,
{
    lemma_enter(wa, a);
    lemma_enter_renamed(wa, wb, a, b, f);
    let oa = wa.enter(a);
    let ob = wb.enter(b);
    match a {
        Node::Statechart(x) => {
            let y = b->Statechart_0;
            let n = x.children@.len() as int;
            lemma_visit_all_renamed(oa, ob, x.children@, y.children@, n, f);
            lemma_visit_all(oa, x.children@, n);
            lemma_close_renamed(visit_all(oa, x.children@, n), visit_all(ob, y.children@, n), f);
        },
        Node::State(x) => {
            let y = b->State_0;
            let n = x.children@.len() as int;
            lemma_visit_all_renamed(oa, ob, x.children@, y.children@, n, f);
            lemma_visit_all(oa, x.children@, n);
            lemma_close_renamed(visit_all(oa, x.children@, n), visit_all(ob, y.children@, n), f);
        },
        Node::Parallel(x) => {
            let y = b->Parallel_0;
            let n = x.children@.len() as int;
            lemma_visit_all_renamed(oa, ob, x.children@, y.children@, n, f);
            lemma_visit_all(oa, x.children@, n);
            lemma_close_renamed(visit_all(oa, x.children@, n), visit_all(ob, y.children@, n), f);
        },
        Node::Initial(x) => {
            let y = b->Initial_0;
            let n = x.children@.len() as int;
            lemma_visit_all_renamed(oa, ob, x.children@, y.children@, n, f);
            lemma_visit_all(oa, x.children@, n);
            lemma_close_renamed(visit_all(oa, x.children@, n), visit_all(ob, y.children@, n), f);
        },
        Node::Final(x) => {
            let y = b->Final_0;
            let n = x.children@.len() as int;
            lemma_visit_all_renamed(oa, ob, x.children@, y.children@, n, f);
            lemma_visit_all(oa, x.children@, n);
            lemma_close_renamed(visit_all(oa, x.children@, n), visit_all(ob, y.children@, n), f);
        },
        Node::History(x) => {
            let y = b->History_0;
            let n = x.children@.len() as int;
            lemma_visit_all_renamed(oa, ob, x.children@, y.children@, n, f);
            lemma_visit_all(oa, x.children@, n);
            lemma_close_renamed(visit_all(oa, x.children@, n), visit_all(ob, y.children@, n), f);
        },
        _ => {},
    }
}

/// The walk through trees does the same with the names replaced.
pub proof fn lemma_visit_all_renamed(
    wa: Walk,
    wb: Walk,
    xs: Seq<Node>,
    ys: Seq<Node>,
    n: int,
    f: spec_fn(Seq<char>) -> Seq<char>,
)
    requires
        renamed_walk(wa, wb, f),
        xs.len() == ys.len(),
        forall|i: int| 0 <= i < xs.len() ==> renamed(#[trigger] xs[i], ys[i], f),
        injective(f),
        wa.inv(),
        wa.stack.len() > 0,
        0 <= n <= xs.len(),
        fit(wa, xs, n),
    ensures
        renamed_walk(visit_all(wa, xs, n), visit_all(wb, ys, n), f),
    decreases xs, n,
{
    if n > 0 {
        lemma_visit_all_renamed(wa, wb, xs, ys, n - 1, f);
        lemma_visit_all(wa, xs, n - 1);
        assert(renamed(xs[n - 1], ys[n - 1], f));
        lemma_visit_renamed(
            visit_all(wa, xs, n - 1),
            visit_all(wb, ys, n - 1),
            xs[n - 1],
            ys[n - 1],
            f,
        );
    }
}

/// The names of targets name the same states as the names that replace
/// them, and the faults of those that name none are the same but for the
/// names.
pub proof fn lemma_resolved_renamed(
    states: Seq<StateView>,
    registry: Seq<StateId>,
    names: Seq<Seq<char>>,
    loc: Location,
    n: int,
    f: spec_fn(Seq<char>) -> Seq<char>,
)
    requires
        injective(f),
        all_below(registry, states.len() as int),
        0 <= n <= names.len(),
    ensures
        resolved(rename_states(states, f), registry, rename_names(names, f), n) == resolved(
            states,
            registry,
            names,
            n,
        ),
        renamed_faults(
            missing(states, registry, names, loc, n),
            missing(rename_states(states, f), registry, rename_names(names, f), loc, n),
            f,
        ),
    decreases n,
{
    if n > 0 {
        lemma_resolved_renamed(states, registry, names, loc, n - 1, f);
        lemma_find_renamed(states, registry, names[n - 1], registry.len() as int, f);
        let before = missing(states, registry, names, loc, n - 1);
        let after = missing(states, registry, names, loc, n);
        let other = missing(rename_states(states, f), registry, rename_names(names, f), loc, n);
        if find_among(states, registry, names[n - 1], registry.len() as int) is None {
            let fa = missing_target(names[n - 1], loc);
            let fb = missing_target(f(names[n - 1]), loc);
            assert(renamed_fault_of(fa, fb, f, names[n - 1]));
            assert forall|i: int| 0 <= i < after.len() implies renamed_fault(
                #[trigger] after[i],
                other[i],
                f,
            ) by {
                if i < before.len() {
                    assert(renamed_fault(
                        before[i],
                        missing(
                            rename_states(states, f),
                            registry,
                            rename_names(names, f),
                            loc,
                            n - 1,
                        )[i],
                        f,
                    ));
                }
            }
        }
    }
}

/// The least common compound ancestor does not depend on the names.
proof fn lemma_lcca_renamed(
    states: Seq<StateView>,
    source: StateView,
    targets: Seq<StateId>,
    n: int,
    f: spec_fn(Seq<char>) -> Seq<char>,
)
    requires
        all_below(source.ancestors, states.len() as int),
        0 <= n <= source.ancestors.len(),
    ensures
        lcca_among(rename_states(states, f), rename_state(source, f), targets, n) == rename_state(
            lcca_among(states, source, targets, n),
            f,
        ),
    decreases n,
{
    if n > 0 {
        lemma_lcca_renamed(states, source, targets, n - 1, f);
        let a = source.ancestors[n - 1] as int;
        assert(rename_states(states, f)[a] == rename_state(states[a], f));
    }
}

/// What is kept does not depend on what `keep` holds of anything but the
/// members.
proof fn lemma_kept_same(
    s: Seq<usize>,
    keep: spec_fn(usize) -> bool,
    other: spec_fn(usize) -> bool,
    n: int,
)
    requires
        0 <= n <= s.len(),
        forall|i: int| 0 <= i < n ==> keep(#[trigger] s[i]) == other(s[i]),
    ensures
        kept(s, keep, n) == kept(s, other, n),
    decreases n,
{
    if n > 0 {
        lemma_kept_same(s, keep, other, n - 1);
    }
}

/// The exit set of a transition does not depend on the names.
pub proof fn lemma_exit_set_renamed(
    t: TransitionView,
    states: Seq<StateView>,
    f: spec_fn(Seq<char>) -> Seq<char>,
)
    requires
        nested_in_range(states),
        t.source < states.len(),
    ensures
        exit_set(t, rename_states(states, f)) == exit_set(t, states),
{
    let n = states.len() as int;
    let other = rename_states(states, f);
    let first = states[t.source as int];
    assert(first.nested_below(n));
    assert(other[t.source as int] == rename_state(first, f));
    assert(other[first.parent as int] == rename_state(states[first.parent as int], f));
    let source = transition_source(t, states);
    assert(transition_source(t, other) == rename_state(source, f));
    lemma_transition_domain(t, states);
    let i = choose|i: int| 0 <= i < states.len() && #[trigger] states[i] == source;
    assert(states[i].nested_below(n));
    lemma_lcca_renamed(states, source, t.targets, source.ancestors.len() as int, f);
    let domain = transition_domain(t, states);
    assert(transition_domain(t, other) == rename_state(domain, f));
    let j = choose|j: int| 0 <= j < states.len() && #[trigger] states[j] == domain;
    assert(states[j].nested_below(n));
    let below = domain.descendants;
    assert forall|k: int| 0 <= k < below.len() implies exited(states, t.targets)(
        #[trigger] below[k],
    ) == exited(other, t.targets)(below[k]) by {
        assert(other[below[k] as int] == rename_state(states[below[k] as int], f));
    }
    lemma_kept_same(
        below,
        exited(states, t.targets),
        exited(other, t.targets),
        below.len() as int,
    );
}

/// The conflicts of a transition do not depend on the names.
proof fn lemma_conflicts_renamed(
    t: TransitionView,
    transitions: Seq<TransitionView>,
    states: Seq<StateView>,
    n: int,
    f: spec_fn(Seq<char>) -> Seq<char>,
)
    requires
        nested_in_range(states),
        sources_in_range(transitions, states),
        t.source < states.len(),
        0 <= n <= transitions.len(),
    ensures
        conflicts_among(t, transitions, rename_states(states, f), n) == conflicts_among(
            t,
            transitions,
            states,
            n,
        ),
    decreases n,
{
    if n > 0 {
        lemma_conflicts_renamed(t, transitions, states, n - 1, f);
        let other = rename_states(states, f);
        let u = transitions[n - 1];
        let s1 = states[t.source as int];
        let s2 = states[u.source as int];
        assert(s1.nested_below(states.len() as int));
        assert(s2.nested_below(states.len() as int));
        assert(other[t.source as int] == rename_state(s1, f));
        assert(other[u.source as int] == rename_state(s2, f));
        assert(other[s1.parent as int] == rename_state(states[s1.parent as int], f));
        assert(other[s2.parent as int] == rename_state(states[s2.parent as int], f));
        assert(transition_source(t, other) == rename_state(transition_source(t, states), f));
        assert(transition_source(u, other) == rename_state(transition_source(u, states), f));
    }
}

/// Faults one after the other are the same but for the names where each of
/// them is.
proof fn lemma_renamed_faults_concat(
    a: spec_fn(int) -> Seq<ConversionErrorView>,
    b: spec_fn(int) -> Seq<ConversionErrorView>,
    n: int,
    f: spec_fn(Seq<char>) -> Seq<char>,
)
    requires
        forall|i: int| 0 <= i < n ==> renamed_faults(#[trigger] a(i), b(i), f),
    ensures
        renamed_faults(concat_upto(n, a), concat_upto(n, b), f),
    decreases n,
{
    if n > 0 {
        lemma_renamed_faults_concat(a, b, n - 1, f);
        assert(renamed_faults(a(n - 1), b(n - 1), f));
        let x = concat_upto(n - 1, a);
        let y = concat_upto(n - 1, b);
        assert forall|i: int| 0 <= i < (x + a(n - 1)).len() implies renamed_fault(
            #[trigger] (x + a(n - 1))[i],
            (y + b(n - 1))[i],
            f,
        ) by {
            if i < x.len() {
                assert(renamed_fault(x[i], y[i], f));
            } else {
                assert(renamed_fault(a(n - 1)[i - x.len()], b(n - 1)[i - x.len()], f));
            }
        }
    }
}

/// Resolving the targets does the same with the names replaced.
pub proof fn lemma_resolve_renamed(wa: Walk, wb: Walk, f: spec_fn(Seq<char>) -> Seq<char>)
    requires
        renamed_walk(wa, wb, f),
        injective(f),
        wa.inv(),
    ensures
        renamed_walk(wa.resolve(), wb.resolve(), f),
{
    let m = wa.transitions.len() as int;
    lemma_in_range(wa);
    assert forall|i: int| 0 <= i < m implies #[trigger] wb.aimed(i) == wa.aimed(i)
        && renamed_faults(wa.missed(i), wb.missed(i), f) by {
        let names = wa.pending[i];
        assert(wb.pending[i] == rename_names(names, f));
        assert(wa.transition_ok(i));
        lemma_resolved_renamed(
            wa.states,
            wa.registry,
            names,
            wa.transitions[i].loc,
            names.len() as int,
            f,
        );
        let aimed = TransitionView {
            targets: resolved(wa.states, wa.registry, names, names.len() as int),
            ..wa.transitions[i]
        };
        lemma_exit_set_renamed(aimed, wa.states, f);
    }
    assert(wb.resolve().transitions =~= wa.resolve().transitions);
    assert forall|i: int| 0 <= i < m implies renamed_faults(
        #[trigger] wa.misses()(i),
        wb.misses()(i),
        f,
    ) by {
        assert(wb.aimed(i) == wa.aimed(i));
    }
    lemma_renamed_faults_concat(wa.misses(), wb.misses(), m, f);
    let ma = concat_upto(m, wa.misses());
    let mb = concat_upto(m, wb.misses());
    assert forall|i: int| 0 <= i < (wa.errors + ma).len() implies renamed_fault(
        #[trigger] (wa.errors + ma)[i],
        (wb.errors + mb)[i],
        f,
    ) by {
        if i < wa.errors.len() {
            assert(renamed_fault(wa.errors[i], wb.errors[i], f));
        } else {
            assert(renamed_fault(ma[i - wa.errors.len()], mb[i - wa.errors.len()], f));
        }
    }
}

/// A statechart whose names are replaced, each by a name of its own, has
/// the same core graph but for the names of the states; and where it has
/// faults, it has the same faults but for the names.
pub proof fn lemma_renaming(a: Statechart, b: Statechart, f: spec_fn(Seq<char>) -> Seq<char>)
    requires
        injective(f),
        renamed(Node::Statechart(a), Node::Statechart(b), f),
        fits(Walk::start(), Node::Statechart(a)),
    ensures
        match normalize(a) {
            Ok(graph) => normalize(b) == Ok::<CoreView, Seq<ConversionErrorView>>(
                rename_graph(graph, f),
            ),
            Err(faults) => normalize(b) is Err && renamed_faults(faults, normalize(b)->Err_0, f),
        },
{
    let start = Walk::start();
    assert(start.inv());
    assert(renamed_walk(start, start, f)) by {
        assert(start.states =~= rename_states(start.states, f));
    }
    lemma_visit_renamed(start, start, Node::Statechart(a), Node::Statechart(b), f);
    lemma_visit(start, Node::Statechart(a));
    let va = visit(start, Node::Statechart(a));
    let vb = visit(start, Node::Statechart(b));
    lemma_resolve_renamed(va, vb, f);
    let ra = va.resolve();
    let rb = vb.resolve();
    if ra.errors.len() == 0 {
        lemma_in_range(va);
        assert(sources_in_range(ra.transitions, va.states)) by {
            assert forall|i: int| 0 <= i < ra.transitions.len() implies (
            #[trigger] ra.transitions[i]).source < va.states.len() by {
                assert(va.transition_ok(i));
            }
        }
        assert forall|i: int| 0 <= i < ra.transitions.len() implies conflicts_of(
            #[trigger] ra.transitions[i],
            ra.transitions,
            vb.states,
        ) == conflicts_of(ra.transitions[i], ra.transitions, va.states) by {
            lemma_conflicts_renamed(
                ra.transitions[i],
                ra.transitions,
                va.states,
                ra.transitions.len() as int,
                f,
            );
        }
        assert(with_conflicts(rb.transitions, rb.states) =~= with_conflicts(
            ra.transitions,
            ra.states,
        ));
    }
}

} // verus!
