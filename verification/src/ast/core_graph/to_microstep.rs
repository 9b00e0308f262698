//! From the core graph to the microstep program.

use crate::ast::conversion_error::Errors;
use crate::ast::core_graph::to_microstep::names::{
    gen_identifier, identifier, AVAILABLE_TRANS_PREFIX, CONFIGURATION_PREFIX, ENTRY_GUARD_PREFIX,
    ENTRY_PREFIX, EXIT_PREFIX, HISTORY_PREFIX, INITIALIZED_PREFIX, TRANS_PREFIX,
};
use crate::ast::core_graph::to_microstep::program::{
    assignment, boolean, conjunction, construction, declaration, destructuring, disjunction,
    empty_configuration, empty_transitions, enter_state_steps, enter_states, entry_ancestor_steps,
    entry_ancestors, entry_descendant_steps, entry_descendants, entry_descendants_compound,
    entry_descendants_initial, establish_entryset, execution, exit_state, exit_state_steps,
    exit_states, init_function, initial_transitions, intersection, is_active, is_applicable,
    is_available, is_enabled, kept_child, merge, merge_into, microstep, negation,
    next_declarations, next_function, selections, take_transition, take_transition_steps,
    take_transitions, target_ancestors, transition_select, union, variable_of, variables,
};
use crate::ast::core_graph::{
    states_view, transitions_view, Core, CoreView, State, StateId, StateType, StateView,
    Transition, TransitionType, TransitionView,
};
use crate::ast::location::Location;
use crate::ast::microstep::{
    expressions_view, guard_view, statements_view, AssignmentStatement, AssignmentStatementLeft,
    BooleanLiteral, ConditionExpression, ConfigurationCreateExpression,
    ConfigurationDestructureDeclaration, EventExpression, ExecuteStatement, Expression,
    ExpressionView, Function, Identifier, LogicalExpression, LogicalOperator, Microstep,
    MicrostepResult, ReturnStatement, SimpleExpression, Statement, StatementView,
    VariableDeclaration, VariableDeclarationId,
};
use crate::seqs::{all_below, concat_upto};
use vstd::prelude::*;

pub mod names;
pub mod order;
pub mod program;

verus! {

/// Puts `statement` at the end of `statements`.
fn push_statement(statements: &mut Vec<Statement>, statement: Statement)
    ensures
        statements_view(final(statements)@) == statements_view(old(statements)@).push(statement@),
{
    statements.push(statement);
    assert(statements_view(statements@) =~= statements_view(old(statements)@).push(statement@));
}

/// Puts the statements `more` at the end of `statements`.
fn append_statements(statements: &mut Vec<Statement>, more: Vec<Statement>)
    ensures
        statements_view(final(statements)@) == statements_view(old(statements)@) + statements_view(
            more@,
        ),
{
    let ghost added = more@;
    let mut more = more;
    statements.append(&mut more);
    assert(statements_view(statements@) =~= statements_view(old(statements)@) + statements_view(
        added,
    ));
}

/// Puts `expression` at the end of `expressions`.
fn push_expression(expressions: &mut Vec<Expression>, expression: Expression)
    ensures
        expressions_view(final(expressions)@) == expressions_view(old(expressions)@).push(
            expression@,
        ),
{
    expressions.push(expression);
    assert(expressions_view(expressions@) =~= expressions_view(old(expressions)@).push(
        expression@,
    ));
}

/// The expression that holds where `expr` does not.
pub fn gen_not(expr: Expression, loc: Location) -> (e: Expression)
    ensures
        e@ == negation(expr@, loc),
{
    let mut arguments: Vec<Expression> = Vec::new();
    arguments.push(expr);
    assert(expressions_view(arguments@) =~= seq![expr@]);
    Expression::LogicalExpression(
        LogicalExpression { operator: LogicalOperator::Not, arguments, loc },
    )
}

/// The expression that holds where `lhs` or `rhs` does.
pub fn gen_or(lhs: Expression, rhs: Expression, loc: Location) -> (e: Expression)
    ensures
        e@ == disjunction(lhs@, rhs@, loc),
{
    let mut arguments: Vec<Expression> = Vec::new();
    arguments.push(lhs);
    arguments.push(rhs);
    assert(expressions_view(arguments@) =~= seq![lhs@, rhs@]);
    Expression::LogicalExpression(
        LogicalExpression { operator: LogicalOperator::Or, arguments, loc },
    )
}

/// The expression that holds where `lhs` and `rhs` do.
pub fn gen_and(lhs: Expression, rhs: Expression, loc: Location) -> (e: Expression)
    ensures
        e@ == conjunction(lhs@, rhs@, loc),
{
    let mut arguments: Vec<Expression> = Vec::new();
    arguments.push(lhs);
    arguments.push(rhs);
    assert(expressions_view(arguments@) =~= seq![lhs@, rhs@]);
    Expression::LogicalExpression(
        LogicalExpression { operator: LogicalOperator::And, arguments, loc },
    )
}

/// The literal `value`.
pub fn gen_bool(value: bool, loc: Location) -> (e: Expression)
    ensures
        e@ == boolean(value, loc),
{
    Expression::BooleanLiteral(BooleanLiteral { value, loc })
}

/// The declaration of `id` with the first value `init`.
pub fn gen_var(id: Identifier, init: Expression, loc: Location) -> (s: Statement)
    ensures
        s@ == declaration(id@, init@, loc),
{
    Statement::VariableDeclaration(
        VariableDeclaration { id: VariableDeclarationId::Identifier(id), init, loc },
    )
}

/// The assignment of `right` to `left`.
pub fn gen_assign(left: Identifier, right: Expression, loc: Location) -> (s: Statement)
    ensures
        s@ == assignment(left@, right@, loc),
{
    Statement::AssignmentStatement(
        AssignmentStatement { left: AssignmentStatementLeft::Identifier(left), right, loc },
    )
}

/// The variable with the prefix `prefix` for the index `k`, as an
/// expression.
fn gen_variable(prefix: &str, k: usize, loc: Location) -> (e: Expression)
    ensures
        e@ == variable_of(prefix@, k, loc),
{
    Expression::Identifier(gen_identifier(prefix, k, loc))
}

/// For each of `ids`, in order, the statement that merges `guard` into its
/// variable with the prefix `prefix`: the variable becomes what `operator`
/// makes of it and `guard`.
pub fn gen_merge(
    guard: &Expression,
    operator: LogicalOperator,
    prefix: &str,
    ids: &Vec<StateId>,
    loc: Location,
) -> (statements: Vec<Statement>)
    ensures
        statements_view(statements@) == merge(guard@, operator, prefix@, ids@, loc),
{
    let mut statements: Vec<Statement> = Vec::new();
    let mut n: usize = 0;
    while n < ids.len()
        invariant
            n <= ids.len(),
            statements.len() == n,
            forall|i: int|
                0 <= i < n ==> (#[trigger] statements@[i])@ == merge_into(
                    guard@,
                    operator,
                    prefix@,
                    ids@[i],
                    loc,
                ),
        decreases ids.len() - n,
    {
        let mut arguments: Vec<Expression> = Vec::new();
        arguments.push(gen_variable(prefix, ids[n], loc));
        arguments.push(guard.clone());
        assert(expressions_view(arguments@) =~= seq![
            variable_of(prefix@, ids@[n as int], loc),
            guard@,
        ]);
        statements.push(
            gen_assign(
                gen_identifier(prefix, ids[n], loc),
                Expression::LogicalExpression(LogicalExpression { operator, arguments, loc }),
                loc,
            ),
        );
        n += 1;
    }
    assert(statements_view(statements@) =~= merge(guard@, operator, prefix@, ids@, loc));
    statements
}

/// For each of `ids`, the statement `v := v OR guard` for its variable `v`
/// with the prefix `prefix`.
pub fn gen_union(guard: &Expression, prefix: &str, ids: &Vec<StateId>, loc: Location) -> (statements:
    Vec<Statement>)
    ensures
        statements_view(statements@) == union(guard@, prefix@, ids@, loc),
{
    gen_merge(guard, LogicalOperator::Or, prefix, ids, loc)
}

/// For each of `ids`, the statement `v := v AND guard` for its variable `v`
/// with the prefix `prefix`.
pub fn gen_intersection(
    guard: &Expression,
    prefix: &str,
    ids: &Vec<StateId>,
    loc: Location,
) -> (statements: Vec<Statement>)
    ensures
        statements_view(statements@) == intersection(guard@, prefix@, ids@, loc),
{
    gen_merge(guard, LogicalOperator::And, prefix, ids, loc)
}

/// For each state, the declaration of its variable with the prefix `name`
/// and the first value `init`.
pub fn gen_empty_configuration(name: &str, init: Expression, states: &Vec<State>) -> (statements:
    Vec<Statement>)
    ensures
        statements_view(statements@) == empty_configuration(
            name@,
            init@,
            states_view(states@),
        ),
{
    let mut statements: Vec<Statement> = Vec::new();
    let mut n: usize = 0;
    while n < states.len()
        invariant
            n <= states.len(),
            statements.len() == n,
            forall|i: int|
                0 <= i < n ==> (#[trigger] statements@[i])@ == declaration(
                    identifier(name@, i as nat, states@[i].loc),
                    init@,
                    states@[i].loc,
                ),
        decreases states.len() - n,
    {
        let loc = states[n].loc;
        statements.push(gen_var(gen_identifier(name, n, loc), init.clone(), loc));
        n += 1;
    }
    assert(statements_view(statements@) =~= empty_configuration(
        name@,
        init@,
        states_view(states@),
    ));
    statements
}

/// For each transition, the declaration of its variable with the prefix
/// `name` and the first value `init`.
pub fn gen_empty_transitions(name: &str, init: Expression, transitions: &Vec<Transition>) -> (statements:
    Vec<Statement>)
    ensures
        statements_view(statements@) == empty_transitions(
            name@,
            init@,
            transitions_view(transitions@),
        ),
{
    let mut statements: Vec<Statement> = Vec::new();
    let mut n: usize = 0;
    while n < transitions.len()
        invariant
            n <= transitions.len(),
            statements.len() == n,
            forall|i: int|
                0 <= i < n ==> (#[trigger] statements@[i])@ == declaration(
                    identifier(name@, i as nat, transitions@[i].loc),
                    init@,
                    transitions@[i].loc,
                ),
        decreases transitions.len() - n,
    {
        let loc = transitions[n].loc;
        statements.push(gen_var(gen_identifier(name, n, loc), init.clone(), loc));
        n += 1;
    }
    assert(statements_view(statements@) =~= empty_transitions(
        name@,
        init@,
        transitions_view(transitions@),
    ));
    statements
}

/// For each state, its variable with the prefix `prefix`.
fn gen_variables(prefix: &str, states: &Vec<State>) -> (expressions: Vec<Expression>)
    ensures
        expressions_view(expressions@) == variables(prefix@, states_view(states@)),
{
    let mut expressions: Vec<Expression> = Vec::new();
    let mut n: usize = 0;
    while n < states.len()
        invariant
            n <= states.len(),
            expressions.len() == n,
            forall|i: int|
                0 <= i < n ==> (#[trigger] expressions@[i])@ == identifier(
                    prefix@,
                    i as nat,
                    states@[i].loc,
                ).expression(),
        decreases states.len() - n,
    {
        expressions.push(gen_variable(prefix, n, states[n].loc));
        n += 1;
    }
    assert(expressions_view(expressions@) =~= variables(prefix@, states_view(states@)));
    expressions
}

/// The declaration of one variable for each state, with the truth value
/// that `configuration` holds for the state.
pub fn gen_destruct(configuration: &Identifier, states: &Vec<State>) -> (s: Statement)
    requires
        states.len() > 0,
    ensures
        s@ == destructuring(configuration@, states_view(states@)),
{
    Statement::ConfigurationDestructureDeclaration(
        ConfigurationDestructureDeclaration {
            left: gen_variables(configuration.name.as_str(), states),
            right: Expression::Identifier(configuration.clone()),
            loc: states[0].loc,
        },
    )
}

/// The configuration that holds for each state the value of its variable
/// with the prefix `prefix`.
pub fn gen_construct(prefix: &str, states: &Vec<State>) -> (e: Expression)
    requires
        states.len() > 0,
    ensures
        e@ == construction(prefix@, states_view(states@)),
{
    Expression::ConfigurationCreateExpression(
        ConfigurationCreateExpression {
            arguments: gen_variables(prefix, states),
            loc: states[0].loc,
        },
    )
}

/// Whether `transition` can still be taken.
pub fn gen_is_transition_available(transition: &Transition) -> (e: Expression)
    ensures
        e@ == is_available(transition@),
{
    gen_variable(AVAILABLE_TRANS_PREFIX, transition.idx, transition.loc)
}

/// Whether the source of `transition` is in the configuration; for a
/// spontaneous transition, whether moreover not all its targets are.
pub fn gen_is_transition_active(transition: &Transition) -> (e: Expression)
    ensures
        e@ == is_active(transition@),
{
    let loc = transition.loc;
    let in_source = gen_variable(CONFIGURATION_PREFIX, transition.source, loc);
    match transition.t {
        TransitionType::Spontaneous => {
            let mut arguments: Vec<Expression> = Vec::new();
            let mut n: usize = 0;
            while n < transition.targets.len()
                invariant
                    n <= transition.targets.len(),
                    loc == transition.loc,
                    arguments.len() == n,
                    forall|i: int|
                        0 <= i < n ==> (#[trigger] arguments@[i])@ == variable_of(
                            CONFIGURATION_PREFIX@,
                            transition.targets@[i],
                            loc,
                        ),
                decreases transition.targets.len() - n,
            {
                arguments.push(gen_variable(CONFIGURATION_PREFIX, transition.targets[n], loc));
                n += 1;
            }
            assert(expressions_view(arguments@) =~= Seq::new(
                transition@.targets.len(),
                |i: int| variable_of(CONFIGURATION_PREFIX@, transition@.targets[i], loc),
            ));
            gen_and(
                in_source,
                gen_not(
                    Expression::LogicalExpression(
                        LogicalExpression { operator: LogicalOperator::And, arguments, loc },
                    ),
                    loc,
                ),
                loc,
            )
        },
        _ => in_source,
    }
}

/// Whether the event of `transition` has occurred; for a transition without
/// an event, whether none has.
pub fn gen_is_transition_applicable(transition: &Transition, has_event: &Identifier) -> (e:
    Expression)
    ensures
        e@ == is_applicable(transition@, has_event@),
{
    let loc = transition.loc;
    match transition.event {
        Some(id) => gen_and(
            Expression::Identifier(has_event.clone()),
            Expression::EventExpression(EventExpression { id, loc }),
            loc,
        ),
        None => gen_not(Expression::Identifier(has_event.clone()), loc),
    }
}

/// Whether the condition of `transition` holds, where it has one.
pub fn gen_is_transition_enabled(transition: &Transition) -> (e: Option<Expression>)
    ensures
        guard_view(e) == is_enabled(transition@),
{
    let loc = transition.loc;
    match transition.condition {
        Some(id) => Some(Expression::ConditionExpression(ConditionExpression { id, loc })),
        None => None,
    }
}

/// The statements that select the transitions, in document order.
pub fn gen_transition_select(
    transitions: &Vec<Transition>,
    has_event: &Identifier,
    is_stable: &Identifier,
) -> (statements: Vec<Statement>)
    ensures
        statements_view(statements@) == transition_select(
            transitions_view(transitions@),
            has_event@,
            is_stable@,
        ),
{
    let ghost steps = selections(transitions_view(transitions@), has_event@, is_stable@);
    let mut statements: Vec<Statement> = Vec::new();
    let mut n: usize = 0;
    while n < transitions.len()
        invariant
            n <= transitions.len(),
            steps == selections(transitions_view(transitions@), has_event@, is_stable@),
            statements_view(statements@) == concat_upto(n as int, steps),
        decreases transitions.len() - n,
    {
        let transition = &transitions[n];
        let ghost t = transition@;
        let ghost before = statements_view(statements@);
        assert(transitions_view(transitions@)[n as int] == t);
        match transition.t {
            TransitionType::History | TransitionType::Initial => {
                assert(before + steps(n as int) =~= before);
            },
            _ => {
                let loc = transition.loc;
                let mut arguments: Vec<Expression> = Vec::new();
                push_expression(&mut arguments, gen_is_transition_available(transition));
                push_expression(&mut arguments, gen_is_transition_active(transition));
                push_expression(
                    &mut arguments,
                    gen_is_transition_applicable(transition, has_event),
                );
                assert(expressions_view(arguments@) =~= seq![
                    is_available(t),
                    is_active(t),
                    is_applicable(t, has_event@),
                ]);
                match gen_is_transition_enabled(transition) {
                    Some(is_enabled) => {
                        push_expression(&mut arguments, is_enabled);
                    },
                    None => {},
                }
                push_statement(
                    &mut statements,
                    gen_var(
                        gen_identifier(TRANS_PREFIX, transition.idx, loc),
                        Expression::LogicalExpression(
                            LogicalExpression { operator: LogicalOperator::And, arguments, loc },
                        ),
                        loc,
                    ),
                );
                let guard = gen_variable(TRANS_PREFIX, transition.idx, loc);
                append_statements(
                    &mut statements,
                    gen_union(&guard, ENTRY_PREFIX, &transition.targets, loc),
                );
                append_statements(
                    &mut statements,
                    gen_union(&guard, EXIT_PREFIX, &transition.exits, loc),
                );
                append_statements(
                    &mut statements,
                    gen_intersection(
                        &gen_not(guard.clone(), loc),
                        AVAILABLE_TRANS_PREFIX,
                        &transition.conflicts,
                        loc,
                    ),
                );
                push_statement(
                    &mut statements,
                    gen_assign(
                        is_stable.clone(),
                        gen_and(
                            Expression::Identifier(is_stable.clone()),
                            gen_not(guard, loc),
                            loc,
                        ),
                        loc,
                    ),
                );
                assert(statements_view(statements@) =~= before + steps(n as int));
            },
        }
        n += 1;
    }
    statements
}

/// The statements that enter the ancestors of the states that are entered,
/// from the last state to the first.
pub fn gen_entryset_entry_ancestors(states: &Vec<State>) -> (statements: Vec<Statement>)
    ensures
        statements_view(statements@) == entry_ancestors(states_view(states@)),
{
    let ghost steps = entry_ancestor_steps(states_view(states@));
    let mut statements: Vec<Statement> = Vec::new();
    let mut n: usize = 0;
    while n < states.len()
        invariant
            n <= states.len(),
            steps == entry_ancestor_steps(states_view(states@)),
            statements_view(statements@) == concat_upto(n as int, steps),
        decreases states.len() - n,
    {
        let state = &states[states.len() - 1 - n];
        let ghost s = state@;
        let ghost before = statements_view(statements@);
        assert(states_view(states@)[states.len() - 1 - n] == s);
        let loc = state.loc;
        if state.descendants.len() == states.len() - 1 {
            push_statement(
                &mut statements,
                gen_assign(gen_identifier(ENTRY_PREFIX, state.idx, loc), gen_bool(true, loc), loc),
            );
        } else if state.descendants.len() != 0 {
            let mut arguments: Vec<Expression> = Vec::new();
            let mut k: usize = 0;
            while k < state.children.len()
                invariant
                    k <= state.children.len(),
                    arguments.len() == k,
                    forall|i: int|
                        0 <= i < k ==> (#[trigger] arguments@[i])@ == variable_of(
                            ENTRY_PREFIX@,
                            state.children@[i],
                            loc,
                        ),
                decreases state.children.len() - k,
            {
                arguments.push(gen_variable(ENTRY_PREFIX, state.children[k], loc));
                k += 1;
            }
            assert(expressions_view(arguments@) =~= Seq::new(
                s.children.len(),
                |i: int| variable_of(ENTRY_PREFIX@, s.children[i], s.loc),
            ));
            push_statement(
                &mut statements,
                gen_assign(
                    gen_identifier(ENTRY_PREFIX, state.idx, loc),
                    Expression::LogicalExpression(
                        LogicalExpression { operator: LogicalOperator::Or, arguments, loc },
                    ),
                    loc,
                ),
            );
        }
        assert(statements_view(statements@) =~= before + steps(n as int));
        n += 1;
    }
    statements
}

/// Whether each transition of `state` is among `transitions`, and each
/// target of such a transition among `states`.
pub open spec fn leads_in_range(
    state: StateView,
    states: Seq<StateView>,
    transitions: Seq<TransitionView>,
) -> bool {
    forall|i: int|
        0 <= i < state.transitions.len() ==> (#[trigger] state.transitions[i]) < transitions.len()
            && all_below(transitions[state.transitions[i] as int].targets, states.len() as int)
}

/// The statements for the initial pseudo-state `state`: its transitions are
/// taken, and then it is no longer entered.
pub fn gen_entryset_entry_descendants_initial(
    state: &State,
    states: &Vec<State>,
    transitions: &Vec<Transition>,
) -> (statements: Vec<Statement>)
    requires
        leads_in_range(state@, states_view(states@), transitions_view(transitions@)),
    ensures
        statements_view(statements@) == entry_descendants_initial(
            state@,
            states_view(states@),
            transitions_view(transitions@),
        ),
{
    let ghost s = state@;
    let ghost given = states_view(states@);
    let ghost leaving = transitions_view(transitions@);
    let ghost steps = initial_transitions(s, given, leaving);
    let loc = state.loc;
    let mut statements: Vec<Statement> = Vec::new();
    let mut n: usize = 0;
    while n < state.transitions.len()
        invariant
            n <= state.transitions.len(),
            s == state@,
            loc == s.loc,
            given == states_view(states@),
            leaving == transitions_view(transitions@),
            leads_in_range(s, given, leaving),
            steps == initial_transitions(s, given, leaving),
            statements_view(statements@) == concat_upto(n as int, steps),
        decreases state.transitions.len() - n,
    {
        let idx = state.transitions[n];
        assert(s.transitions[n as int] == idx);
        let transition = &transitions[idx];
        assert(leaving[idx as int] == transition@);
        let ghost before = statements_view(statements@);
        let ghost ancestors = target_ancestors(s, transition@.targets, given);
        push_statement(
            &mut statements,
            gen_assign(
                gen_identifier(TRANS_PREFIX, idx, loc),
                gen_variable(ENTRY_PREFIX, state.idx, loc),
                loc,
            ),
        );
        let entered = gen_variable(ENTRY_PREFIX, state.idx, loc);
        append_statements(
            &mut statements,
            gen_union(&entered, ENTRY_PREFIX, &transition.targets, loc),
        );
        let ghost begun = statements_view(statements@);
        let mut k: usize = 0;
        while k < transition.targets.len()
            invariant
                k <= transition.targets.len(),
                s == state@,
                loc == s.loc,
                given == states_view(states@),
                all_below(transition.targets@, states.len() as int),
                entered@ == variable_of(ENTRY_PREFIX@, s.idx, s.loc),
                ancestors == target_ancestors(s, transition@.targets, given),
                statements_view(statements@) == begun + concat_upto(k as int, ancestors),
            decreases transition.targets.len() - k,
        {
            let target = transition.targets[k];
            assert(given[target as int] == states@[target as int]@);
            let ghost so_far = statements_view(statements@);
            append_statements(
                &mut statements,
                gen_union(&entered, ENTRY_PREFIX, &states[target].ancestors, loc),
            );
            assert(statements_view(statements@) =~= begun + concat_upto(k as int + 1, ancestors));
            k += 1;
        }
        assert(statements_view(statements@) =~= before + steps(n as int));
        n += 1;
    }
    push_statement(
        &mut statements,
        gen_assign(gen_identifier(ENTRY_PREFIX, state.idx, loc), gen_bool(false, loc), loc),
    );
    statements
}

/// The statements for the compound state `state`: its initial children are
/// entered where it is entered and was not in the configuration; then each
/// child is entered also where it is in the configuration and is not left.
pub fn gen_entryset_entry_descendants_compound(state: &State) -> (statements: Vec<Statement>)
    ensures
        statements_view(statements@) == entry_descendants_compound(state@),
{
    let ghost s = state@;
    let loc = state.loc;
    let guard = gen_and(
        gen_variable(ENTRY_PREFIX, state.idx, loc),
        gen_not(gen_variable(CONFIGURATION_PREFIX, state.idx, loc), loc),
        loc,
    );
    let mut statements = gen_union(&guard, ENTRY_PREFIX, &state.initial, loc);
    let ghost begun = statements_view(statements@);
    let mut n: usize = 0;
    while n < state.children.len()
        invariant
            n <= state.children.len(),
            s == state@,
            loc == s.loc,
            statements_view(statements@) == begun + Seq::new(
                n as nat,
                |i: int| kept_child(s.children[i], s.loc),
            ),
        decreases state.children.len() - n,
    {
        let child = state.children[n];
        push_statement(
            &mut statements,
            gen_assign(
                gen_identifier(ENTRY_PREFIX, child, loc),
                gen_or(
                    gen_variable(ENTRY_PREFIX, child, loc),
                    gen_and(
                        gen_variable(CONFIGURATION_PREFIX, child, loc),
                        gen_not(gen_variable(EXIT_PREFIX, child, loc), loc),
                        loc,
                    ),
                    loc,
                ),
                loc,
            ),
        );
        assert(statements_view(statements@) =~= begun + Seq::new(
            (n + 1) as nat,
            |i: int| kept_child(s.children[i], s.loc),
        ));
        n += 1;
    }
    statements
}

/// Whether the transitions of each initial pseudo-state are among
/// `transitions`, and their targets among `states`.
pub open spec fn initials_in_range(
    states: Seq<StateView>,
    transitions: Seq<TransitionView>,
) -> bool {
    forall|i: int|
        0 <= i < states.len() && (#[trigger] states[i]).t == StateType::Initial ==> leads_in_range(
            states[i],
            states,
            transitions,
        )
}

/// The statements that enter the descendants of the states that are
/// entered, from the first state to the last.
pub fn gen_entryset_entry_descendants(states: &Vec<State>, transitions: &Vec<Transition>) -> (statements:
    Vec<Statement>)
    requires
        initials_in_range(states_view(states@), transitions_view(transitions@)),
    ensures
        statements_view(statements@) == entry_descendants(
            states_view(states@),
            transitions_view(transitions@),
        ),
{
    let ghost given = states_view(states@);
    let ghost leaving = transitions_view(transitions@);
    let ghost steps = entry_descendant_steps(given, leaving);
    let mut statements: Vec<Statement> = Vec::new();
    let mut n: usize = 0;
    while n < states.len()
        invariant
            n <= states.len(),
            given == states_view(states@),
            leaving == transitions_view(transitions@),
            initials_in_range(given, leaving),
            steps == entry_descendant_steps(given, leaving),
            statements_view(statements@) == concat_upto(n as int, steps),
        decreases states.len() - n,
    {
        let state = &states[n];
        let loc = state.loc;
        let ghost before = statements_view(statements@);
        assert(given[n as int] == state@);
        match state.t {
            StateType::Parallel => {
                append_statements(
                    &mut statements,
                    gen_union(
                        &gen_variable(ENTRY_PREFIX, state.idx, loc),
                        ENTRY_PREFIX,
                        &state.initial,
                        loc,
                    ),
                );
            },
            StateType::Initial => {
                append_statements(
                    &mut statements,
                    gen_entryset_entry_descendants_initial(state, states, transitions),
                );
            },
            StateType::Compound => {
                append_statements(&mut statements, gen_entryset_entry_descendants_compound(state));
            },
            _ => {
                assert(before + steps(n as int) =~= before);
            },
        }
        n += 1;
    }
    statements
}

/// The statements that execute what is executed when states are left, from
/// the last state to the first.
pub fn gen_entryset_exit_states(states: &Vec<State>) -> (statements: Vec<Statement>)
    ensures
        statements_view(statements@) == exit_states(states_view(states@)),
{
    let ghost steps = exit_state_steps(states_view(states@));
    let mut statements: Vec<Statement> = Vec::new();
    let mut n: usize = 0;
    while n < states.len()
        invariant
            n <= states.len(),
            steps == exit_state_steps(states_view(states@)),
            statements_view(statements@) == concat_upto(n as int, steps),
        decreases states.len() - n,
    {
        let state = &states[states.len() - 1 - n];
        let ghost s = state@;
        let ghost before = statements_view(statements@);
        assert(states_view(states@)[states.len() - 1 - n] == s);
        let loc = state.loc;
        let idx = state.idx;
        let mut k: usize = 0;
        while k < state.on_exit.len()
            invariant
                k <= state.on_exit.len(),
                s == state@,
                loc == s.loc,
                idx == s.idx,
                statements_view(statements@) == before + exit_state(s).take(k as int),
            decreases state.on_exit.len() - k,
        {
            push_statement(
                &mut statements,
                Statement::ExecuteStatement(
                    ExecuteStatement {
                        id: state.on_exit[k],
                        guard: Some(
                            gen_and(
                                gen_variable(CONFIGURATION_PREFIX, idx, loc),
                                gen_variable(EXIT_PREFIX, idx, loc),
                                loc,
                            ),
                        ),
                        loc,
                    },
                ),
            );
            assert(statements_view(statements@) =~= before + exit_state(s).take(k as int + 1));
            k += 1;
        }
        assert(exit_state(s).take(state.on_exit.len() as int) =~= exit_state(s));
        n += 1;
    }
    statements
}

/// The statements that execute the content of the transitions that are
/// taken, in document order.
pub fn gen_entryset_take_transitions(transitions: &Vec<Transition>) -> (statements: Vec<Statement>)
    ensures
        statements_view(statements@) == take_transitions(transitions_view(transitions@)),
{
    let ghost steps = take_transition_steps(transitions_view(transitions@));
    let mut statements: Vec<Statement> = Vec::new();
    let mut n: usize = 0;
    while n < transitions.len()
        invariant
            n <= transitions.len(),
            steps == take_transition_steps(transitions_view(transitions@)),
            statements_view(statements@) == concat_upto(n as int, steps),
        decreases transitions.len() - n,
    {
        let transition = &transitions[n];
        let ghost t = transition@;
        let ghost before = statements_view(statements@);
        assert(transitions_view(transitions@)[n as int] == t);
        let loc = transition.loc;
        let idx = transition.idx;
        let mut k: usize = 0;
        while k < transition.on_transition.len()
            invariant
                k <= transition.on_transition.len(),
                t == transition@,
                loc == t.loc,
                idx == t.idx,
                statements_view(statements@) == before + take_transition(t).take(k as int),
            decreases transition.on_transition.len() - k,
        {
            push_statement(
                &mut statements,
                Statement::ExecuteStatement(
                    ExecuteStatement {
                        id: transition.on_transition[k],
                        guard: Some(gen_variable(TRANS_PREFIX, idx, loc)),
                        loc,
                    },
                ),
            );
            assert(statements_view(statements@) =~= before + take_transition(t).take(
                k as int + 1,
            ));
            k += 1;
        }
        assert(take_transition(t).take(transition.on_transition.len() as int) =~= take_transition(
            t,
        ));
        n += 1;
    }
    statements
}

/// The statements that enter the states, from the first state to the last.
pub fn gen_entryset_enter_states(states: &Vec<State>) -> (statements: Vec<Statement>)
    ensures
        statements_view(statements@) == enter_states(states_view(states@)),
{
    let ghost steps = enter_state_steps(states_view(states@));
    let mut statements: Vec<Statement> = Vec::new();
    let mut n: usize = 0;
    while n < states.len()
        invariant
            n <= states.len(),
            steps == enter_state_steps(states_view(states@)),
            statements_view(statements@) == concat_upto(n as int, steps),
        decreases states.len() - n,
    {
        let state = &states[n];
        let ghost s = state@;
        let ghost before = statements_view(statements@);
        assert(states_view(states@)[n as int] == s);
        let loc = state.loc;
        let idx = state.idx;
        let ghost guard = identifier(ENTRY_GUARD_PREFIX@, idx as nat, loc);
        let ghost initialized = identifier(INITIALIZED_PREFIX@, idx as nat, loc);
        if state.on_init.len() > 0 || state.on_enter.len() > 0 {
            push_statement(
                &mut statements,
                gen_var(
                    gen_identifier(ENTRY_GUARD_PREFIX, idx, loc),
                    gen_and(
                        gen_variable(ENTRY_PREFIX, idx, loc),
                        gen_not(gen_variable(CONFIGURATION_PREFIX, idx, loc), loc),
                        loc,
                    ),
                    loc,
                ),
            );
        }
        let ghost declared = statements_view(statements@);
        let ghost initialising = Seq::new(
            s.on_init.len(),
            |i: int|
                execution(
                    s.on_init[i],
                    conjunction(
                        guard.expression(),
                        negation(initialized.expression(), s.loc),
                        s.loc,
                    ),
                    s.loc,
                ),
        );
        let mut k: usize = 0;
        while k < state.on_init.len()
            invariant
                k <= state.on_init.len(),
                s == state@,
                loc == s.loc,
                idx == s.idx,
                guard == identifier(ENTRY_GUARD_PREFIX@, idx as nat, loc),
                initialized == identifier(INITIALIZED_PREFIX@, idx as nat, loc),
                initialising.len() == s.on_init.len(),
                forall|i: int|
                    0 <= i < s.on_init.len() ==> #[trigger] initialising[i] == execution(
                        s.on_init[i],
                        conjunction(
                            guard.expression(),
                            negation(initialized.expression(), s.loc),
                            s.loc,
                        ),
                        s.loc,
                    ),
                statements_view(statements@) == declared + initialising.take(k as int),
            decreases state.on_init.len() - k,
        {
            push_statement(
                &mut statements,
                Statement::ExecuteStatement(
                    ExecuteStatement {
                        id: state.on_init[k],
                        guard: Some(
                            gen_and(
                                gen_variable(ENTRY_GUARD_PREFIX, idx, loc),
                                gen_not(gen_variable(INITIALIZED_PREFIX, idx, loc), loc),
                                loc,
                            ),
                        ),
                        loc,
                    },
                ),
            );
            assert(statements_view(statements@) =~= declared + initialising.take(k as int + 1));
            k += 1;
        }
        assert(initialising.take(state.on_init.len() as int) =~= initialising);
        push_statement(
            &mut statements,
            gen_assign(
                gen_identifier(INITIALIZED_PREFIX, idx, loc),
                gen_or(
                    gen_variable(INITIALIZED_PREFIX, idx, loc),
                    gen_variable(ENTRY_PREFIX, idx, loc),
                    loc,
                ),
                loc,
            ),
        );
        let ghost initialised = statements_view(statements@);
        let ghost entering = Seq::new(
            s.on_enter.len(),
            |i: int| execution(s.on_enter[i], guard.expression(), s.loc),
        );
        let mut k: usize = 0;
        while k < state.on_enter.len()
            invariant
                k <= state.on_enter.len(),
                s == state@,
                loc == s.loc,
                idx == s.idx,
                guard == identifier(ENTRY_GUARD_PREFIX@, idx as nat, loc),
                entering.len() == s.on_enter.len(),
                forall|i: int|
                    0 <= i < s.on_enter.len() ==> #[trigger] entering[i] == execution(
                        s.on_enter[i],
                        guard.expression(),
                        s.loc,
                    ),
                statements_view(statements@) == initialised + entering.take(k as int),
            decreases state.on_enter.len() - k,
        {
            push_statement(
                &mut statements,
                Statement::ExecuteStatement(
                    ExecuteStatement {
                        id: state.on_enter[k],
                        guard: Some(gen_variable(ENTRY_GUARD_PREFIX, idx, loc)),
                        loc,
                    },
                ),
            );
            assert(statements_view(statements@) =~= initialised + entering.take(k as int + 1));
            k += 1;
        }
        assert(entering.take(state.on_enter.len() as int) =~= entering);
        assert(statements_view(statements@) =~= before + steps(n as int));
        n += 1;
    }
    statements
}

/// The statements that establish the set of states that are entered, and
/// hand back the configuration.
pub fn gen_establish_entryset(
    states: &Vec<State>,
    transitions: &Vec<Transition>,
    loc: Location,
) -> (statements: Vec<Statement>)
    requires
        states.len() > 0,
        initials_in_range(states_view(states@), transitions_view(transitions@)),
    ensures
        statements_view(statements@) == establish_entryset(
            states_view(states@),
            transitions_view(transitions@),
            loc,
        ),
{
    let mut statements = gen_entryset_entry_ancestors(states);
    append_statements(&mut statements, gen_entryset_entry_descendants(states, transitions));
    append_statements(&mut statements, gen_entryset_exit_states(states));
    append_statements(&mut statements, gen_entryset_take_transitions(transitions));
    append_statements(&mut statements, gen_entryset_enter_states(states));
    push_statement(
        &mut statements,
        Statement::ReturnStatement(
            ReturnStatement {
                argument: Expression::MicrostepResult(
                    MicrostepResult {
                        configuration: gen_construct(ENTRY_PREFIX, states).to_simple(),
                        initialized: gen_construct(INITIALIZED_PREFIX, states).to_simple(),
                        history: gen_construct(HISTORY_PREFIX, states).to_simple(),
                        is_stable: gen_bool(false, loc).to_simple(),
                        loc,
                    },
                ),
                guard: None,
                loc,
            },
        ),
    );
    statements
}

/// The statements for the invocations of the states, where `guard` holds.
/// There are none.
pub fn gen_invocations(states: &Vec<State>, guard: &Option<Expression>) -> (statements: Vec<
    Statement,
>)
    ensures
        statements_view(statements@) == Seq::<StatementView>::empty(),
{
    let statements: Vec<Statement> = Vec::new();
    assert(statements_view(statements@) =~= Seq::<StatementView>::empty());
    statements
}

/// The function that computes the first configuration.
pub fn gen_init(states: &Vec<State>, transitions: &Vec<Transition>, loc: Location) -> (init:
    Function)
    requires
        states.len() > 0,
        initials_in_range(states_view(states@), transitions_view(transitions@)),
    ensures
        init@ == init_function(states_view(states@), transitions_view(transitions@), loc),
{
    let mut body = gen_empty_configuration(CONFIGURATION_PREFIX, gen_bool(false, loc), states);
    append_statements(
        &mut body,
        gen_empty_configuration(INITIALIZED_PREFIX, gen_bool(false, loc), states),
    );
    append_statements(
        &mut body,
        gen_empty_configuration(HISTORY_PREFIX, gen_bool(false, loc), states),
    );
    append_statements(
        &mut body,
        gen_empty_configuration(ENTRY_PREFIX, gen_bool(false, loc), states),
    );
    append_statements(
        &mut body,
        gen_empty_transitions(TRANS_PREFIX, gen_bool(false, loc), transitions),
    );
    append_statements(
        &mut body,
        gen_empty_configuration(EXIT_PREFIX, gen_bool(false, loc), states),
    );
    append_statements(&mut body, gen_establish_entryset(states, transitions, loc));
    let params: Vec<Expression> = Vec::new();
    assert(expressions_view(params@) =~= Seq::<ExpressionView>::empty());
    Function { params, body, loc }
}

/// The function that computes the configuration that follows a given one.
pub fn gen_select_transitions(
    states: &Vec<State>,
    transitions: &Vec<Transition>,
    loc: Location,
) -> (next: Function)
    requires
        states.len() > 0,
        initials_in_range(states_view(states@), transitions_view(transitions@)),
    ensures
        next@ == next_function(states_view(states@), transitions_view(transitions@), loc),
{
    let configuration_ident = Identifier { name: String::from_str(CONFIGURATION_PREFIX), loc };
    let initialized_ident = Identifier { name: String::from_str(INITIALIZED_PREFIX), loc };
    let history_ident = Identifier { name: String::from_str(HISTORY_PREFIX), loc };
    let has_event_ident = Identifier { name: String::from_str("has_event"), loc };
    let is_stable_ident = Identifier { name: String::from_str("is_stable"), loc };

    let mut body: Vec<Statement> = Vec::new();
    push_statement(&mut body, gen_destruct(&configuration_ident, states));
    push_statement(&mut body, gen_destruct(&initialized_ident, states));
    push_statement(&mut body, gen_destruct(&history_ident, states));
    append_statements(
        &mut body,
        gen_empty_configuration(ENTRY_PREFIX, gen_bool(false, loc), states),
    );
    append_statements(
        &mut body,
        gen_empty_configuration(EXIT_PREFIX, gen_bool(false, loc), states),
    );
    append_statements(
        &mut body,
        gen_empty_transitions(AVAILABLE_TRANS_PREFIX, gen_bool(true, loc), transitions),
    );
    push_statement(&mut body, gen_var(is_stable_ident.clone(), gen_bool(true, loc), loc));
    assert(statements_view(body@) =~= next_declarations(
        states_view(states@),
        transitions_view(transitions@),
        loc,
    ));
    append_statements(
        &mut body,
        gen_transition_select(transitions, &has_event_ident, &is_stable_ident),
    );
    append_statements(
        &mut body,
        gen_invocations(states, &Some(Expression::Identifier(is_stable_ident.clone()))),
    );
    push_statement(
        &mut body,
        Statement::ReturnStatement(
            ReturnStatement {
                argument: Expression::MicrostepResult(
                    MicrostepResult {
                        configuration: SimpleExpression::Identifier(configuration_ident.clone()),
                        initialized: SimpleExpression::Identifier(initialized_ident.clone()),
                        history: SimpleExpression::Identifier(history_ident.clone()),
                        is_stable: SimpleExpression::Identifier(is_stable_ident.clone()),
                        loc,
                    },
                ),
                guard: Some(Expression::Identifier(is_stable_ident)),
                loc,
            },
        ),
    );
    append_statements(&mut body, gen_establish_entryset(states, transitions, loc));

    let mut params: Vec<Expression> = Vec::new();
    push_expression(&mut params, Expression::Identifier(configuration_ident));
    push_expression(&mut params, Expression::Identifier(initialized_ident));
    push_expression(&mut params, Expression::Identifier(history_ident));
    push_expression(&mut params, Expression::Identifier(has_event_ident));
    assert(expressions_view(params@) =~= next_function(
        states_view(states@),
        transitions_view(transitions@),
        loc,
    ).params);
    Function { params, body, loc }
}

/// The microstep program of `core`.
pub fn to_microstep(core: &Core) -> (r: Result<Microstep, Errors>)
    requires
        core@.refs_in_range(),
    ensures
        r matches Ok(program) && program@ == microstep(core@),
{
    proof {
        lemma_initials_in_range(core@);
    }
    Ok(
        Microstep {
            configuration_size: core.states.len(),
            init: gen_init(&core.states, &core.transitions, core.loc),
            next: gen_select_transitions(&core.states, &core.transitions, core.loc),
            loc: core.loc,
        },
    )
}

/// In a graph whose indices are in range, the transitions of the initial
/// pseudo-states and their targets are.
pub proof fn lemma_initials_in_range(core: CoreView)
    requires
        core.refs_in_range(),
    ensures
        initials_in_range(core.states, core.transitions),
{
    let n = core.states.len() as int;
    let m = core.transitions.len() as int;
    assert forall|i: int|
        0 <= i < n && (#[trigger] core.states[i]).t == StateType::Initial implies leads_in_range(
        core.states[i],
        core.states,
        core.transitions,
    ) by {
        let s = core.states[i];
        assert(s.refs_below(n, m));
        assert forall|k: int| 0 <= k < s.transitions.len() implies (#[trigger] s.transitions[k])
            < m && all_below(core.transitions[s.transitions[k] as int].targets, n) by {
            assert(core.transitions[s.transitions[k] as int].refs_below(n, m));
        }
    }
}

/// The program of a graph depends on the contents of the graph alone:
/// graphs with the same contents have the same program.
pub proof fn lemma_same_graph_same_program(a: Core, b: Core)
    requires
        a@ == b@,
    ensures
        microstep(a@) == microstep(b@),
{
}

} // verus!
