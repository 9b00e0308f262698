//! What the microstep program of a core graph is: the statements of its two
//! functions, in the order in which they stand.

use crate::ast::core_graph::to_microstep::names::{
    identifier, AVAILABLE_TRANS_PREFIX, CONFIGURATION_PREFIX, ENTRY_GUARD_PREFIX, ENTRY_PREFIX,
    EXIT_PREFIX, HISTORY_PREFIX, INITIALIZED_PREFIX, TRANS_PREFIX,
};
use crate::ast::core_graph::{CoreView, StateId, StateType, StateView, TransitionType, TransitionView};
use crate::ast::location::Location;
use crate::ast::microstep::{
    ExpressionView, FunctionView, IdentifierView, LogicalOperator, MicrostepView, StatementView,
};
use crate::seqs::concat_upto;
use vstd::prelude::*;

verus! {

/// The expression that holds where `e` does not.
pub open spec fn negation(e: ExpressionView, loc: Location) -> ExpressionView {
    ExpressionView::LogicalExpression { operator: LogicalOperator::Not, arguments: seq![e], loc }
}

/// The expression that holds where `lhs` or `rhs` does.
pub open spec fn disjunction(
    lhs: ExpressionView,
    rhs: ExpressionView,
    loc: Location,
) -> ExpressionView {
    ExpressionView::LogicalExpression {
        operator: LogicalOperator::Or,
        arguments: seq![lhs, rhs],
        loc,
    }
}

/// The expression that holds where `lhs` and `rhs` do.
pub open spec fn conjunction(
    lhs: ExpressionView,
    rhs: ExpressionView,
    loc: Location,
) -> ExpressionView {
    ExpressionView::LogicalExpression {
        operator: LogicalOperator::And,
        arguments: seq![lhs, rhs],
        loc,
    }
}

/// The literal `value`.
pub open spec fn boolean(value: bool, loc: Location) -> ExpressionView {
    ExpressionView::BooleanLiteral { value, loc }
}

/// The declaration of `id` with the first value `init`.
pub open spec fn declaration(
    id: IdentifierView,
    init: ExpressionView,
    loc: Location,
) -> StatementView {
    StatementView::VariableDeclaration { id, init, loc }
}

/// The assignment of `right` to `left`.
pub open spec fn assignment(
    left: IdentifierView,
    right: ExpressionView,
    loc: Location,
) -> StatementView {
    StatementView::AssignmentStatement { left, right, loc }
}

/// The execution of the content `id` where `guard` holds.
pub open spec fn execution(id: usize, guard: ExpressionView, loc: Location) -> StatementView {
    StatementView::ExecuteStatement { id, guard: Some(guard), loc }
}

/// The variable with the prefix `prefix` for the index `k`, as an
/// expression.
pub open spec fn variable_of(prefix: Seq<char>, k: usize, loc: Location) -> ExpressionView {
    identifier(prefix, k as nat, loc).expression()
}

/// The statement that merges `guard` into the variable with the prefix
/// `prefix` for the index `k`: the variable becomes what `operator` makes of
/// it and `guard`.
pub open spec fn merge_into(
    guard: ExpressionView,
    operator: LogicalOperator,
    prefix: Seq<char>,
    k: usize,
    loc: Location,
) -> StatementView {
    assignment(
        identifier(prefix, k as nat, loc),
        ExpressionView::LogicalExpression {
            operator,
            arguments: seq![variable_of(prefix, k, loc), guard],
            loc,
        },
        loc,
    )
}

/// For each of `ids`, in order, the statement that merges `guard` into its
/// variable.
pub open spec fn merge(
    guard: ExpressionView,
    operator: LogicalOperator,
    prefix: Seq<char>,
    ids: Seq<usize>,
    loc: Location,
) -> Seq<StatementView> {
    Seq::new(ids.len(), |i: int| merge_into(guard, operator, prefix, ids[i], loc))
}

/// For each of `ids`, the statement `v := v OR guard` for its variable `v`.
pub open spec fn union(
    guard: ExpressionView,
    prefix: Seq<char>,
    ids: Seq<usize>,
    loc: Location,
) -> Seq<StatementView> {
    merge(guard, LogicalOperator::Or, prefix, ids, loc)
}

/// For each of `ids`, the statement `v := v AND guard` for its variable
/// `v`.
pub open spec fn intersection(
    guard: ExpressionView,
    prefix: Seq<char>,
    ids: Seq<usize>,
    loc: Location,
) -> Seq<StatementView> {
    merge(guard, LogicalOperator::And, prefix, ids, loc)
}

/// For each state, the declaration of its variable with the prefix `name`
/// and the first value `init`.
pub open spec fn empty_configuration(
    name: Seq<char>,
    init: ExpressionView,
    states: Seq<StateView>,
) -> Seq<StatementView> {
    Seq::new(
        states.len(),
        |i: int| declaration(identifier(name, i as nat, states[i].loc), init, states[i].loc),
    )
}

/// For each transition, the declaration of its variable with the prefix
/// `name` and the first value `init`.
pub open spec fn empty_transitions(
    name: Seq<char>,
    init: ExpressionView,
    transitions: Seq<TransitionView>,
) -> Seq<StatementView> {
    Seq::new(
        transitions.len(),
        |i: int|
            declaration(identifier(name, i as nat, transitions[i].loc), init, transitions[i].loc),
    )
}

/// For each state, its variable with the prefix `prefix`.
pub open spec fn variables(prefix: Seq<char>, states: Seq<StateView>) -> Seq<ExpressionView> {
    Seq::new(
        states.len(),
        |i: int| identifier(prefix, i as nat, states[i].loc).expression(),
    )
}

/// The declaration of one variable for each state, with the truth value
/// that `configuration` holds for the state.
pub open spec fn destructuring(
    configuration: IdentifierView,
    states: Seq<StateView>,
) -> StatementView {
    StatementView::ConfigurationDestructureDeclaration {
        left: variables(configuration.name, states),
        right: configuration.expression(),
        loc: states[0].loc,
    }
}

/// The configuration that holds for each state the value of its variable
/// with the prefix `prefix`.
pub open spec fn construction(prefix: Seq<char>, states: Seq<StateView>) -> ExpressionView {
    ExpressionView::ConfigurationCreateExpression {
        arguments: variables(prefix, states),
        loc: states[0].loc,
    }
}

/// Whether a transition can still be taken.
pub open spec fn is_available(t: TransitionView) -> ExpressionView {
    variable_of(AVAILABLE_TRANS_PREFIX@, t.idx, t.loc)
}

/// Whether the source of a transition is in the configuration; for a
/// spontaneous transition, whether moreover not all its targets are.
pub open spec fn is_active(t: TransitionView) -> ExpressionView {
    let in_source = variable_of(CONFIGURATION_PREFIX@, t.source, t.loc);
    if t.t == TransitionType::Spontaneous {
        conjunction(
            in_source,
            negation(
                ExpressionView::LogicalExpression {
                    operator: LogicalOperator::And,
                    arguments: Seq::new(
                        t.targets.len(),
                        |i: int| variable_of(CONFIGURATION_PREFIX@, t.targets[i], t.loc),
                    ),
                    loc: t.loc,
                },
                t.loc,
            ),
            t.loc,
        )
    } else {
        in_source
    }
}

/// Whether the event of a transition has occurred; for a transition without
/// an event, whether none has.
pub open spec fn is_applicable(t: TransitionView, has_event: IdentifierView) -> ExpressionView {
    match t.event {
        Some(id) => conjunction(
            has_event.expression(),
            ExpressionView::EventExpression { id, loc: t.loc },
            t.loc,
        ),
        None => negation(has_event.expression(), t.loc),
    }
}

/// Whether the condition of a transition holds, where it has one.
pub open spec fn is_enabled(t: TransitionView) -> Option<ExpressionView> {
    match t.condition {
        Some(id) => Some(ExpressionView::ConditionExpression { id, loc: t.loc }),
        None => None,
    }
}

/// Whether a transition is taken: it can still be taken, is active and
/// applicable, and is enabled where it has a condition.
pub open spec fn is_taken(t: TransitionView, has_event: IdentifierView) -> ExpressionView {
    let always = seq![is_available(t), is_active(t), is_applicable(t, has_event)];
    ExpressionView::LogicalExpression {
        operator: LogicalOperator::And,
        arguments: match is_enabled(t) {
            Some(enabled) => always.push(enabled),
            None => always,
        },
        loc: t.loc,
    }
}

/// The statements that select one transition: whether it is taken; its
/// targets are entered and its exit set is left where it is; the
/// transitions that conflict with it can no longer be taken where it is;
/// the microstep is not stable where it is.  A history or an initial
/// transition is not selected.
pub open spec fn selection(
    t: TransitionView,
    has_event: IdentifierView,
    is_stable: IdentifierView,
) -> Seq<StatementView> {
    if t.t == TransitionType::History || t.t == TransitionType::Initial {
        Seq::empty()
    } else {
        let taken = identifier(TRANS_PREFIX@, t.idx as nat, t.loc);
        let guard = taken.expression();
        seq![declaration(taken, is_taken(t, has_event), t.loc)] + union(
            guard,
            ENTRY_PREFIX@,
            t.targets,
            t.loc,
        ) + union(guard, EXIT_PREFIX@, t.exits, t.loc) + intersection(
            negation(guard, t.loc),
            AVAILABLE_TRANS_PREFIX@,
            t.conflicts,
            t.loc,
        ) + seq![
            assignment(
                is_stable,
                conjunction(is_stable.expression(), negation(guard, t.loc), t.loc),
                t.loc,
            ),
        ]
    }
}

/// [`selection`] as a function of the position of the transition.
pub open spec fn selections(
    transitions: Seq<TransitionView>,
    has_event: IdentifierView,
    is_stable: IdentifierView,
) -> spec_fn(int) -> Seq<StatementView> {
    |i: int| selection(transitions[i], has_event, is_stable)
}

/// The statements that select the transitions, in document order.
pub open spec fn transition_select(
    transitions: Seq<TransitionView>,
    has_event: IdentifierView,
    is_stable: IdentifierView,
) -> Seq<StatementView> {
    concat_upto(transitions.len() as int, selections(transitions, has_event, is_stable))
}

/// The statement that enters a state because of the states below it: the
/// root is entered; a state with descendants is entered where one of its
/// children is; for a state without descendants there is no statement.
pub open spec fn entry_ancestor(s: StateView, states: Seq<StateView>) -> Seq<StatementView> {
    let entered = identifier(ENTRY_PREFIX@, s.idx as nat, s.loc);
    if s.descendants.len() == states.len() - 1 {
        seq![assignment(entered, boolean(true, s.loc), s.loc)]
    } else if s.descendants.len() == 0 {
        Seq::empty()
    } else {
        seq![
            assignment(
                entered,
                ExpressionView::LogicalExpression {
                    operator: LogicalOperator::Or,
                    arguments: Seq::new(
                        s.children.len(),
                        |i: int| variable_of(ENTRY_PREFIX@, s.children[i], s.loc),
                    ),
                    loc: s.loc,
                },
                s.loc,
            ),
        ]
    }
}

/// [`entry_ancestor`] as a function of the position of the state, counted
/// from the last state.
pub open spec fn entry_ancestor_steps(states: Seq<StateView>) -> spec_fn(int) -> Seq<
    StatementView,
> {
    |i: int| entry_ancestor(states[states.len() - 1 - i], states)
}

/// The statements that enter the ancestors of the states that are entered,
/// from the last state to the first.
pub open spec fn entry_ancestors(states: Seq<StateView>) -> Seq<StatementView> {
    concat_upto(states.len() as int, entry_ancestor_steps(states))
}

/// The statements that take the transition `idx` of an initial pseudo-state
/// `s`: the transition is taken where the pseudo-state is entered, and then
/// its targets are entered, and the ancestors of each target.
pub open spec fn initial_transition(
    s: StateView,
    idx: usize,
    states: Seq<StateView>,
    transitions: Seq<TransitionView>,
) -> Seq<StatementView> {
    let entered = variable_of(ENTRY_PREFIX@, s.idx, s.loc);
    let targets = transitions[idx as int].targets;
    seq![assignment(identifier(TRANS_PREFIX@, idx as nat, s.loc), entered, s.loc)] + union(
        entered,
        ENTRY_PREFIX@,
        targets,
        s.loc,
    ) + concat_upto(targets.len() as int, target_ancestors(s, targets, states))
}

/// For the target at a position, the statements that enter its ancestors
/// where the initial pseudo-state `s` is entered.
pub open spec fn target_ancestors(
    s: StateView,
    targets: Seq<StateId>,
    states: Seq<StateView>,
) -> spec_fn(int) -> Seq<StatementView> {
    |i: int|
        union(
            variable_of(ENTRY_PREFIX@, s.idx, s.loc),
            ENTRY_PREFIX@,
            states[targets[i] as int].ancestors,
            s.loc,
        )
}

/// [`initial_transition`] as a function of the position of the transition
/// among those of the pseudo-state.
pub open spec fn initial_transitions(
    s: StateView,
    states: Seq<StateView>,
    transitions: Seq<TransitionView>,
) -> spec_fn(int) -> Seq<StatementView> {
    |i: int| initial_transition(s, s.transitions[i], states, transitions)
}

/// The statements for an initial pseudo-state: its transitions are taken,
/// and then it is no longer entered.
pub open spec fn entry_descendants_initial(
    s: StateView,
    states: Seq<StateView>,
    transitions: Seq<TransitionView>,
) -> Seq<StatementView> {
    concat_upto(s.transitions.len() as int, initial_transitions(s, states, transitions)) + seq![
        assignment(identifier(ENTRY_PREFIX@, s.idx as nat, s.loc), boolean(false, s.loc), s.loc),
    ]
}

/// The statement that keeps the child `child` of a compound state: it is
/// entered also where it is in the configuration and is not left.
pub open spec fn kept_child(child: StateId, loc: Location) -> StatementView {
    assignment(
        identifier(ENTRY_PREFIX@, child as nat, loc),
        disjunction(
            variable_of(ENTRY_PREFIX@, child, loc),
            conjunction(
                variable_of(CONFIGURATION_PREFIX@, child, loc),
                negation(variable_of(EXIT_PREFIX@, child, loc), loc),
                loc,
            ),
            loc,
        ),
        loc,
    )
}

/// The statements for a compound state: its initial children are entered
/// where it is entered and was not in the configuration; then each child is
/// kept.
pub open spec fn entry_descendants_compound(s: StateView) -> Seq<StatementView> {
    union(
        conjunction(
            variable_of(ENTRY_PREFIX@, s.idx, s.loc),
            negation(variable_of(CONFIGURATION_PREFIX@, s.idx, s.loc), s.loc),
            s.loc,
        ),
        ENTRY_PREFIX@,
        s.initial,
        s.loc,
    ) + Seq::new(s.children.len(), |i: int| kept_child(s.children[i], s.loc))
}

/// The statements that enter the states below a state that is entered: all
/// the initial children of a parallel state; what an initial pseudo-state
/// leads to; the initial and the active children of a compound state.
pub open spec fn entry_descendant(
    s: StateView,
    states: Seq<StateView>,
    transitions: Seq<TransitionView>,
) -> Seq<StatementView> {
    match s.t {
        StateType::Parallel => union(
            variable_of(ENTRY_PREFIX@, s.idx, s.loc),
            ENTRY_PREFIX@,
            s.initial,
            s.loc,
        ),
        StateType::Initial => entry_descendants_initial(s, states, transitions),
        StateType::Compound => entry_descendants_compound(s),
        _ => Seq::empty(),
    }
}

/// [`entry_descendant`] as a function of the position of the state.
pub open spec fn entry_descendant_steps(
    states: Seq<StateView>,
    transitions: Seq<TransitionView>,
) -> spec_fn(int) -> Seq<StatementView> {
    |i: int| entry_descendant(states[i], states, transitions)
}

/// The statements that enter the descendants of the states that are
/// entered, from the first state to the last.
pub open spec fn entry_descendants(
    states: Seq<StateView>,
    transitions: Seq<TransitionView>,
) -> Seq<StatementView> {
    concat_upto(states.len() as int, entry_descendant_steps(states, transitions))
}

/// The statements that execute what is executed when the state `s` is left:
/// where it is in the configuration and is left.
pub open spec fn exit_state(s: StateView) -> Seq<StatementView> {
    Seq::new(
        s.on_exit.len(),
        |i: int|
            execution(
                s.on_exit[i],
                conjunction(
                    variable_of(CONFIGURATION_PREFIX@, s.idx, s.loc),
                    variable_of(EXIT_PREFIX@, s.idx, s.loc),
                    s.loc,
                ),
                s.loc,
            ),
    )
}

/// [`exit_state`] as a function of the position of the state, counted from
/// the last state.
pub open spec fn exit_state_steps(states: Seq<StateView>) -> spec_fn(int) -> Seq<StatementView> {
    |i: int| exit_state(states[states.len() - 1 - i])
}

/// The statements that leave the states, from the last state to the first.
pub open spec fn exit_states(states: Seq<StateView>) -> Seq<StatementView> {
    concat_upto(states.len() as int, exit_state_steps(states))
}

/// The statements that execute the content of the transition `t`, where it
/// is taken.
pub open spec fn take_transition(t: TransitionView) -> Seq<StatementView> {
    Seq::new(
        t.on_transition.len(),
        |i: int| execution(t.on_transition[i], variable_of(TRANS_PREFIX@, t.idx, t.loc), t.loc),
    )
}

/// [`take_transition`] as a function of the position of the transition.
pub open spec fn take_transition_steps(transitions: Seq<TransitionView>) -> spec_fn(int) -> Seq<
    StatementView,
> {
    |i: int| take_transition(transitions[i])
}

/// The statements that take the transitions, in document order.
pub open spec fn take_transitions(transitions: Seq<TransitionView>) -> Seq<StatementView> {
    concat_upto(transitions.len() as int, take_transition_steps(transitions))
}

/// Whether the state `s` is entered and was not in the configuration.
pub open spec fn entry_guard(s: StateView) -> ExpressionView {
    conjunction(
        variable_of(ENTRY_PREFIX@, s.idx, s.loc),
        negation(variable_of(CONFIGURATION_PREFIX@, s.idx, s.loc), s.loc),
        s.loc,
    )
}

/// The statements that enter the state `s`.  Where it has content to be
/// executed, its entry guard is declared.  What initialises it is executed
/// where the guard holds and it has not been initialised; it is initialised
/// once it is entered; what is executed when it is entered is executed
/// where the guard holds.
pub open spec fn enter_state(s: StateView) -> Seq<StatementView> {
    let guard = identifier(ENTRY_GUARD_PREFIX@, s.idx as nat, s.loc);
    let initialized = identifier(INITIALIZED_PREFIX@, s.idx as nat, s.loc);
    let declared = if s.on_init.len() + s.on_enter.len() > 0 {
        seq![declaration(guard, entry_guard(s), s.loc)]
    } else {
        Seq::empty()
    };
    declared + Seq::new(
        s.on_init.len(),
        |i: int|
            execution(
                s.on_init[i],
                conjunction(
                    guard.expression(),
                    negation(initialized.expression(), s.loc),
                    s.loc,
                ),
                s.loc,
            ),
    ) + seq![
        assignment(
            initialized,
            disjunction(
                initialized.expression(),
                variable_of(ENTRY_PREFIX@, s.idx, s.loc),
                s.loc,
            ),
            s.loc,
        ),
    ] + Seq::new(s.on_enter.len(), |i: int| execution(s.on_enter[i], guard.expression(), s.loc))
}

/// [`enter_state`] as a function of the position of the state.
pub open spec fn enter_state_steps(states: Seq<StateView>) -> spec_fn(int) -> Seq<StatementView> {
    |i: int| enter_state(states[i])
}

/// The statements that enter the states, from the first state to the last.
pub open spec fn enter_states(states: Seq<StateView>) -> Seq<StatementView> {
    concat_upto(states.len() as int, enter_state_steps(states))
}

/// The statement that hands back the configuration that has been
/// established: the states that are entered, the states that have been
/// initialised, and the history; it is not stable.
pub open spec fn established(states: Seq<StateView>, loc: Location) -> StatementView {
    StatementView::ReturnStatement {
        argument: ExpressionView::MicrostepResult {
            configuration: Box::new(construction(ENTRY_PREFIX@, states)),
            initialized: Box::new(construction(INITIALIZED_PREFIX@, states)),
            history: Box::new(construction(HISTORY_PREFIX@, states)),
            is_stable: Box::new(boolean(false, loc)),
            loc,
        },
        guard: None,
        loc,
    }
}

/// The statements that establish the set of states that are entered, and
/// hand back the configuration: the ancestors of what is entered, then its
/// descendants; then what is executed when states are left, when
/// transitions are taken, and when states are entered.
pub open spec fn establish_entryset(
    states: Seq<StateView>,
    transitions: Seq<TransitionView>,
    loc: Location,
) -> Seq<StatementView> {
    entry_ancestors(states) + entry_descendants(states, transitions) + exit_states(states)
        + take_transitions(transitions) + enter_states(states) + seq![established(states, loc)]
}

/// The declarations that the first function begins with: for each state
/// that it is not in the configuration, not initialised, not in the
/// history and not entered; for each transition that it is not taken; for
/// each state that it is not left.
pub open spec fn init_declarations(
    states: Seq<StateView>,
    transitions: Seq<TransitionView>,
    loc: Location,
) -> Seq<StatementView> {
    let no = boolean(false, loc);
    empty_configuration(CONFIGURATION_PREFIX@, no, states) + empty_configuration(
        INITIALIZED_PREFIX@,
        no,
        states,
    ) + empty_configuration(HISTORY_PREFIX@, no, states) + empty_configuration(
        ENTRY_PREFIX@,
        no,
        states,
    ) + empty_transitions(TRANS_PREFIX@, no, transitions) + empty_configuration(
        EXIT_PREFIX@,
        no,
        states,
    )
}

/// The function that computes the first configuration.
pub open spec fn init_function(
    states: Seq<StateView>,
    transitions: Seq<TransitionView>,
    loc: Location,
) -> FunctionView {
    FunctionView {
        params: Seq::empty(),
        body: init_declarations(states, transitions, loc) + establish_entryset(
            states,
            transitions,
            loc,
        ),
        loc,
    }
}

/// The configuration that a microstep is given.
pub open spec fn given_configuration(loc: Location) -> IdentifierView {
    IdentifierView { name: CONFIGURATION_PREFIX@, loc }
}

/// The states that were initialised before a microstep.
pub open spec fn given_initialized(loc: Location) -> IdentifierView {
    IdentifierView { name: INITIALIZED_PREFIX@, loc }
}

/// The history that a microstep is given.
pub open spec fn given_history(loc: Location) -> IdentifierView {
    IdentifierView { name: HISTORY_PREFIX@, loc }
}

/// Whether a microstep is given an event.
pub open spec fn has_event(loc: Location) -> IdentifierView {
    IdentifierView { name: "has_event"@, loc }
}

/// Whether no transition is taken in a microstep.
pub open spec fn is_stable(loc: Location) -> IdentifierView {
    IdentifierView { name: "is_stable"@, loc }
}

/// The statement that hands back what the microstep was given, where it is
/// stable.
pub open spec fn stable(loc: Location) -> StatementView {
    StatementView::ReturnStatement {
        argument: ExpressionView::MicrostepResult {
            configuration: Box::new(given_configuration(loc).expression()),
            initialized: Box::new(given_initialized(loc).expression()),
            history: Box::new(given_history(loc).expression()),
            is_stable: Box::new(is_stable(loc).expression()),
            loc,
        },
        guard: Some(is_stable(loc).expression()),
        loc,
    }
}

/// The statements that the second function begins with: the variables of
/// the states taken out of what it is given; for each state that it is not
/// entered and not left; for each transition that it can be taken; and that
/// the microstep is stable.
pub open spec fn next_declarations(
    states: Seq<StateView>,
    transitions: Seq<TransitionView>,
    loc: Location,
) -> Seq<StatementView> {
    seq![
        destructuring(given_configuration(loc), states),
        destructuring(given_initialized(loc), states),
        destructuring(given_history(loc), states),
    ] + empty_configuration(ENTRY_PREFIX@, boolean(false, loc), states) + empty_configuration(
        EXIT_PREFIX@,
        boolean(false, loc),
        states,
    ) + empty_transitions(AVAILABLE_TRANS_PREFIX@, boolean(true, loc), transitions) + seq![
        declaration(is_stable(loc), boolean(true, loc), loc),
    ]
}

/// The statements for the invocations of the states, where `guard` holds.
/// There are none.
pub open spec fn invocations(states: Seq<StateView>, guard: ExpressionView) -> Seq<StatementView> {
    Seq::empty()
}

/// The function that computes the configuration that follows a given one.
pub open spec fn next_function(
    states: Seq<StateView>,
    transitions: Seq<TransitionView>,
    loc: Location,
) -> FunctionView {
    FunctionView {
        params: seq![
            given_configuration(loc).expression(),
            given_initialized(loc).expression(),
            given_history(loc).expression(),
            has_event(loc).expression(),
        ],
        body: next_declarations(states, transitions, loc) + transition_select(
            transitions,
            has_event(loc),
            is_stable(loc),
        ) + invocations(states, is_stable(loc).expression()) + seq![stable(loc)]
            + establish_entryset(states, transitions, loc),
        loc,
    }
}

/// The microstep program of a core graph.
pub open spec fn microstep(core: CoreView) -> MicrostepView {
    MicrostepView {
        configuration_size: core.states.len() as usize,
        init: init_function(core.states, core.transitions, core.loc),
        next: next_function(core.states, core.transitions, core.loc),
        loc: core.loc,
    }
}

} // verus!
