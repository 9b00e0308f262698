//! The order of the first function: the variables of the states and of the
//! transitions are declared before anything is assigned.

use crate::ast::core_graph::to_microstep::names::{
    variable, CONFIGURATION_PREFIX, ENTRY_GUARD_PREFIX, ENTRY_PREFIX, EXIT_PREFIX, HISTORY_PREFIX,
    INITIALIZED_PREFIX, TRANS_PREFIX,
};
use crate::ast::core_graph::to_microstep::program::{
    enter_state, enter_state_steps, entry_ancestor_steps, entry_descendant_steps,
    establish_entryset, exit_state_steps, init_declarations, init_function, initial_transitions,
    take_transition_steps, target_ancestors,
};
use crate::ast::core_graph::{StateView, TransitionView};
use crate::ast::location::Location;
use crate::ast::microstep::StatementView;
use crate::seqs::concat_upto;
use vstd::prelude::*;

verus! {

/// Whether `s` declares the variable with the prefix `prefix` for some
/// index.
pub open spec fn declares(s: StatementView, prefix: Seq<char>) -> bool {
    s matches StatementView::VariableDeclaration { id, .. } && exists|k: nat|
        id.name == #[trigger] variable(prefix, k)
}

/// Whether `s` declares a variable of a state or of a transition that the
/// first function begins with.
pub open spec fn declares_early(s: StatementView) -> bool {
    ||| declares(s, CONFIGURATION_PREFIX@)
    ||| declares(s, INITIALIZED_PREFIX@)
    ||| declares(s, HISTORY_PREFIX@)
    ||| declares(s, ENTRY_PREFIX@)
    ||| declares(s, TRANS_PREFIX@)
    ||| declares(s, EXIT_PREFIX@)
}

/// Whether `s` declares nothing but an entry guard.
pub open spec fn late(s: StatementView) -> bool {
    s is VariableDeclaration ==> declares(s, ENTRY_GUARD_PREFIX@)
}

/// Whether every statement of `s` is late.
pub open spec fn all_late(s: Seq<StatementView>) -> bool {
    forall|i: int| 0 <= i < s.len() ==> late(#[trigger] s[i])
}

/// The name of an entry guard is not the name of a variable that the first
/// function begins with.
pub proof fn lemma_guard_is_not_early(s: StatementView)
    requires
        declares(s, ENTRY_GUARD_PREFIX@),
    ensures
        !declares_early(s),
{
    reveal_strlit("g");
    reveal_strlit("c");
    reveal_strlit("i");
    reveal_strlit("h");
    reveal_strlit("e");
    reveal_strlit("t");
    reveal_strlit("x");
    let name = s->VariableDeclaration_id.name;
    let k = choose|k: nat| name == #[trigger] variable(ENTRY_GUARD_PREFIX@, k);
    assert(name[0] == 'g');
    assert forall|prefix: Seq<char>, j: nat| prefix.len() == 1 && prefix[0] != 'g' implies name
        != #[trigger] variable(prefix, j) by {
        assert(variable(prefix, j)[0] == prefix[0]);
    }
}

/// Late statements one after the other are late.
proof fn lemma_late_concat(n: int, f: spec_fn(int) -> Seq<StatementView>)
    requires
        forall|i: int| 0 <= i < n ==> all_late(#[trigger] f(i)),
    ensures
        all_late(concat_upto(n, f)),
    decreases n,
{
    if n > 0 {
        lemma_late_concat(n - 1, f);
        assert(all_late(f(n - 1)));
    }
}

/// The statements that establish the entry set declare entry guards only.
pub proof fn lemma_establish_is_late(
    states: Seq<StateView>,
    transitions: Seq<TransitionView>,
    loc: Location,
)
    ensures
        all_late(establish_entryset(states, transitions, loc)),
{
    let n = states.len() as int;
    let m = transitions.len() as int;
    let ancestors = entry_ancestor_steps(states);
    assert forall|i: int| 0 <= i < n implies all_late(#[trigger] ancestors(i)) by {}
    lemma_late_concat(n, ancestors);
    let descendants = entry_descendant_steps(states, transitions);
    assert forall|i: int| 0 <= i < n implies all_late(#[trigger] descendants(i)) by {
        let s = states[i];
        let leading = initial_transitions(s, states, transitions);
        assert forall|k: int| 0 <= k < s.transitions.len() implies all_late(
            #[trigger] leading(k),
        ) by {
            let targets = transitions[s.transitions[k] as int].targets;
            let up = target_ancestors(s, targets, states);
            assert forall|j: int| 0 <= j < targets.len() implies all_late(#[trigger] up(j)) by {}
            lemma_late_concat(targets.len() as int, up);
        }
        lemma_late_concat(s.transitions.len() as int, leading);
    }
    lemma_late_concat(n, descendants);
    let exits = exit_state_steps(states);
    assert forall|i: int| 0 <= i < n implies all_late(#[trigger] exits(i)) by {}
    lemma_late_concat(n, exits);
    let takes = take_transition_steps(transitions);
    assert forall|i: int| 0 <= i < m implies all_late(#[trigger] takes(i)) by {}
    lemma_late_concat(m, takes);
    let enters = enter_state_steps(states);
    assert forall|i: int| 0 <= i < n implies all_late(#[trigger] enters(i)) by {
        let s = states[i];
        let entering = enter_state(s);
        assert forall|k: int| 0 <= k < entering.len() implies late(#[trigger] entering[k]) by {
            if entering[k] is VariableDeclaration {
                assert(k == 0);
                assert(entering[k]->VariableDeclaration_id.name == variable(
                    ENTRY_GUARD_PREFIX@,
                    s.idx as nat,
                ));
            }
        }
    }
    lemma_late_concat(n, enters);
}

/// The first function begins with the declarations of the variables of the
/// states and of the transitions, and declares entry guards only after
/// them.
pub proof fn lemma_init_declares_first(
    states: Seq<StateView>,
    transitions: Seq<TransitionView>,
    loc: Location,
)
    ensures
        ({
            let body = init_function(states, transitions, loc).body;
            let declared = (5 * states.len() + transitions.len()) as int;
            &&& declared < body.len()
            &&& body.take(declared) == init_declarations(states, transitions, loc)
            &&& forall|i: int| 0 <= i < declared ==> (#[trigger] body[i]) is VariableDeclaration
            &&& forall|i: int| declared <= i < body.len() ==> late(#[trigger] body[i])
        }),
{
    let body = init_function(states, transitions, loc).body;
    let declarations = init_declarations(states, transitions, loc);
    let rest = establish_entryset(states, transitions, loc);
    let declared = (5 * states.len() + transitions.len()) as int;
    assert(declarations.len() == declared);
    assert(body.take(declared) =~= declarations);
    lemma_establish_is_late(states, transitions, loc);
    assert forall|i: int| declared <= i < body.len() implies late(#[trigger] body[i]) by {
        assert(body[i] == rest[i - declared]);
    }
}

/// In the first function, a variable of a state or of a transition is
/// declared before anything is assigned: a statement that declares such a
/// variable stands before every assignment.
pub proof fn lemma_declared_before_assigned(
    states: Seq<StateView>,
    transitions: Seq<TransitionView>,
    loc: Location,
    i: int,
    j: int,
)
    requires
        0 <= i < init_function(states, transitions, loc).body.len(),
        0 <= j < init_function(states, transitions, loc).body.len(),
        declares_early(init_function(states, transitions, loc).body[i]),
        init_function(states, transitions, loc).body[j] is AssignmentStatement,
    ensures
        i < j,
{
    let body = init_function(states, transitions, loc).body;
    let declared = (5 * states.len() + transitions.len()) as int;
    lemma_init_declares_first(states, transitions, loc);
    if i >= declared {
        assert(late(body[i]));
        lemma_guard_is_not_early(body[i]);
    }
    if j < declared {
        assert(body[j] is VariableDeclaration);
    }
}

} // verus!
