use thot::ast::core_graph::to_microstep::names::{gen_identifier, variable_name};
use thot::ast::core_graph::to_microstep::{
    gen_and, gen_assign, gen_bool, gen_construct, gen_destruct, gen_empty_configuration,
    gen_empty_transitions, gen_entryset_enter_states, gen_entryset_entry_ancestors,
    gen_entryset_entry_descendants, gen_entryset_entry_descendants_compound,
    gen_entryset_entry_descendants_initial, gen_entryset_exit_states,
    gen_entryset_take_transitions, gen_establish_entryset, gen_init, gen_intersection,
    gen_invocations, gen_is_transition_active, gen_is_transition_applicable,
    gen_is_transition_available, gen_is_transition_enabled, gen_merge, gen_not, gen_or,
    gen_select_transitions, gen_transition_select, gen_union, gen_var, to_microstep,
};
use thot::ast::core_graph::{Core, State, StateType, Transition, TransitionType};
use thot::ast::location::{Location, Point};
use thot::ast::microstep::{
    AssignmentStatement, AssignmentStatementLeft, BooleanLiteral, ConditionExpression,
    ConfigurationCreateExpression, ConfigurationDestructureDeclaration, EventExpression,
    ExecuteStatement, Expression, Identifier, IntegerLiteral, LogicalExpression, LogicalOperator,
    MicrostepResult, ReturnStatement, SimpleExpression, Statement, StringLiteral,
    VariableDeclaration, VariableDeclarationId,
};

fn at(line: usize) -> Location {
    Location {
        start: Point { line, column: 0 },
        end: Point { line, column: 10 },
        source: Some(line),
    }
}

fn id(name: &str, loc: Location) -> Identifier {
    Identifier { name: name.to_string(), loc }
}

fn var(name: &str, loc: Location) -> Expression {
    Expression::Identifier(id(name, loc))
}

fn logical(operator: LogicalOperator, arguments: Vec<Expression>, loc: Location) -> Expression {
    Expression::LogicalExpression(LogicalExpression { operator, arguments, loc })
}

fn not(e: Expression, loc: Location) -> Expression {
    logical(LogicalOperator::Not, vec![e], loc)
}

fn and(a: Expression, b: Expression, loc: Location) -> Expression {
    logical(LogicalOperator::And, vec![a, b], loc)
}

fn or(a: Expression, b: Expression, loc: Location) -> Expression {
    logical(LogicalOperator::Or, vec![a, b], loc)
}

fn truth(value: bool, loc: Location) -> Expression {
    Expression::BooleanLiteral(BooleanLiteral { value, loc })
}

fn declare(name: &str, init: Expression, loc: Location) -> Statement {
    Statement::VariableDeclaration(VariableDeclaration {
        id: VariableDeclarationId::Identifier(id(name, loc)),
        init,
        loc,
    })
}

fn assign(name: &str, right: Expression, loc: Location) -> Statement {
    Statement::AssignmentStatement(AssignmentStatement {
        left: AssignmentStatementLeft::Identifier(id(name, loc)),
        right,
        loc,
    })
}

fn execute(content: usize, guard: Expression, loc: Location) -> Statement {
    Statement::ExecuteStatement(ExecuteStatement { id: content, guard: Some(guard), loc })
}

fn merged(operator: LogicalOperator, name: &str, guard: Expression, loc: Location) -> Statement {
    assign(name, logical(operator, vec![var(name, loc), guard], loc), loc)
}

fn state(idx: usize, t: StateType, line: usize) -> State {
    let mut s = State::new();
    s.idx = idx;
    s.t = t;
    s.loc = at(line);
    s
}

fn transition(idx: usize, t: TransitionType, source: usize, line: usize) -> Transition {
    let mut transition = Transition::new();
    transition.idx = idx;
    transition.t = t;
    transition.source = source;
    transition.loc = at(line);
    transition
}

fn packed(name: &str, states: &[State]) -> SimpleExpression {
    SimpleExpression::ConfigurationCreateExpression(ConfigurationCreateExpression {
        arguments: states
            .iter()
            .enumerate()
            .map(|(i, s)| var(&format!("{}{}", name, i), s.loc))
            .collect(),
        loc: states[0].loc,
    })
}

fn established(states: &[State], loc: Location) -> Statement {
    Statement::ReturnStatement(ReturnStatement {
        argument: Expression::MicrostepResult(MicrostepResult {
            configuration: packed("e", states),
            initialized: packed("i", states),
            history: packed("h", states),
            is_stable: SimpleExpression::BooleanLiteral(BooleanLiteral { value: false, loc }),
            loc,
        }),
        guard: None,
        loc,
    })
}

#[test]
fn new_state_and_new_transition_hold_nothing() {
    let s = State::new();
    assert_eq!(s.id, None);
    assert_eq!(s.idx, 0);
    assert_eq!(s.t, StateType::Atomic);
    assert_eq!(s.parent, 0);
    assert!(s.on_init.is_empty() && s.on_enter.is_empty() && s.on_exit.is_empty());
    assert!(s.invocations.is_empty() && s.children.is_empty() && s.ancestors.is_empty());
    assert!(s.descendants.is_empty() && s.initial.is_empty() && s.transitions.is_empty());
    assert_eq!(s.loc, Location::default());
    let t = Transition::new();
    assert_eq!(t.idx, 0);
    assert_eq!(t.t, TransitionType::External);
    assert_eq!(t.source, 0);
    assert_eq!(t.event, None);
    assert_eq!(t.condition, None);
    assert!(t.on_transition.is_empty() && t.targets.is_empty());
    assert!(t.conflicts.is_empty() && t.exits.is_empty());
    assert_eq!(t.loc, Location::default());
}

#[test]
fn default_location_is_the_first_line() {
    assert_eq!(Point::default(), Point { line: 1, column: 0 });
    assert_eq!(
        Location::default(),
        Location { start: Point { line: 1, column: 0 }, end: Point { line: 1, column: 0 }, source: None }
    );
}

#[test]
fn variable_names_are_prefix_and_decimal_index() {
    assert_eq!(variable_name("c", 0), "c0");
    assert_eq!(variable_name("e", 7), "e7");
    assert_eq!(variable_name("x", 10), "x10");
    assert_eq!(variable_name("t", 109), "t109");
    assert_eq!(variable_name("a", 1000), "a1000");
    assert_eq!(variable_name("", 42), "42");
    assert_eq!(variable_name("is_", 9876543210), "is_9876543210");
    assert_eq!(variable_name("g", usize::MAX), format!("g{}", usize::MAX));
    assert_eq!(gen_identifier("h", 31, at(3)), id("h31", at(3)));
}

#[test]
fn logical_expressions() {
    let l = at(2);
    assert_eq!(gen_not(var("a", at(1)), l), not(var("a", at(1)), l));
    assert_eq!(gen_or(var("a", at(1)), var("b", at(3)), l), or(var("a", at(1)), var("b", at(3)), l));
    assert_eq!(gen_and(var("a", at(1)), var("b", at(3)), l), and(var("a", at(1)), var("b", at(3)), l));
    assert_eq!(gen_bool(true, l), truth(true, l));
    assert_eq!(gen_bool(false, l), truth(false, l));
}

#[test]
fn declarations_and_assignments() {
    let l = at(2);
    assert_eq!(gen_var(id("v", at(1)), truth(true, at(3)), l), Statement::VariableDeclaration(VariableDeclaration {
        id: VariableDeclarationId::Identifier(id("v", at(1))),
        init: truth(true, at(3)),
        loc: l,
    }));
    assert_eq!(gen_assign(id("v", at(1)), truth(false, at(3)), l), Statement::AssignmentStatement(AssignmentStatement {
        left: AssignmentStatementLeft::Identifier(id("v", at(1))),
        right: truth(false, at(3)),
        loc: l,
    }));
}

#[test]
fn merging_a_guard_into_variables() {
    let l = at(4);
    let guard = var("t3", at(9));
    assert_eq!(
        gen_merge(&guard, LogicalOperator::Xor, "e", &vec![5, 2], l),
        vec![
            merged(LogicalOperator::Xor, "e5", guard.clone(), l),
            merged(LogicalOperator::Xor, "e2", guard.clone(), l),
        ]
    );
    assert_eq!(
        gen_union(&guard, "x", &vec![1, 12], l),
        vec![
            merged(LogicalOperator::Or, "x1", guard.clone(), l),
            merged(LogicalOperator::Or, "x12", guard.clone(), l),
        ]
    );
    assert_eq!(
        gen_intersection(&guard, "a", &vec![0], l),
        vec![merged(LogicalOperator::And, "a0", guard.clone(), l)]
    );
    assert!(gen_union(&guard, "x", &vec![], l).is_empty());
}

#[test]
fn empty_configurations() {
    let states = vec![state(0, StateType::Compound, 1), state(1, StateType::Atomic, 2)];
    let transitions = vec![
        transition(0, TransitionType::External, 1, 5),
        transition(1, TransitionType::External, 1, 6),
        transition(2, TransitionType::External, 1, 7),
    ];
    let init = truth(false, at(9));
    assert_eq!(
        gen_empty_configuration("c", init.clone(), &states),
        vec![declare("c0", init.clone(), at(1)), declare("c1", init.clone(), at(2))]
    );
    assert_eq!(
        gen_empty_transitions("t", init.clone(), &transitions),
        vec![
            declare("t0", init.clone(), at(5)),
            declare("t1", init.clone(), at(6)),
            declare("t2", init.clone(), at(7)),
        ]
    );
    assert!(gen_empty_transitions("t", init.clone(), &vec![]).is_empty());
}

#[test]
fn configurations_are_taken_apart_and_put_together() {
    let states = vec![state(0, StateType::Compound, 1), state(1, StateType::Atomic, 2)];
    assert_eq!(
        gen_destruct(&id("c", at(8)), &states),
        Statement::ConfigurationDestructureDeclaration(ConfigurationDestructureDeclaration {
            left: vec![var("c0", at(1)), var("c1", at(2))],
            right: var("c", at(8)),
            loc: at(1),
        })
    );
    assert_eq!(
        gen_construct("e", &states),
        Expression::ConfigurationCreateExpression(ConfigurationCreateExpression {
            arguments: vec![var("e0", at(1)), var("e1", at(2))],
            loc: at(1),
        })
    );
}

#[test]
fn simple_expressions() {
    let l = at(1);
    assert_eq!(var("a", l).to_simple(), SimpleExpression::Identifier(id("a", l)));
    assert_eq!(truth(true, l).to_simple(), SimpleExpression::BooleanLiteral(BooleanLiteral { value: true, loc: l }));
    assert_eq!(
        Expression::StringLiteral(StringLiteral { value: "s".to_string(), loc: l }).to_simple(),
        SimpleExpression::StringLiteral(StringLiteral { value: "s".to_string(), loc: l })
    );
    assert_eq!(
        Expression::IntegerLiteral(IntegerLiteral { value: 3, loc: l }).to_simple(),
        SimpleExpression::IntegerLiteral(IntegerLiteral { value: 3, loc: l })
    );
    assert_eq!(
        Expression::ConditionExpression(ConditionExpression { id: 3, loc: l }).to_simple(),
        SimpleExpression::ConditionExpression(ConditionExpression { id: 3, loc: l })
    );
    assert_eq!(
        Expression::EventExpression(EventExpression { id: 4, loc: l }).to_simple(),
        SimpleExpression::EventExpression(EventExpression { id: 4, loc: l })
    );
    assert_eq!(
        not(var("a", l), l).to_simple(),
        SimpleExpression::LogicalExpression(LogicalExpression {
            operator: LogicalOperator::Not,
            arguments: vec![var("a", l)],
            loc: l,
        })
    );
    assert_eq!(
        Expression::ConfigurationCreateExpression(ConfigurationCreateExpression { arguments: vec![], loc: l }).to_simple(),
        SimpleExpression::ConfigurationCreateExpression(ConfigurationCreateExpression { arguments: vec![], loc: l })
    );
}

#[test]
fn copies_of_expressions_are_equal() {
    let l = at(1);
    let e = Expression::MicrostepResult(MicrostepResult {
        configuration: SimpleExpression::Identifier(id("c", l)),
        initialized: SimpleExpression::LogicalExpression(LogicalExpression {
            operator: LogicalOperator::Or,
            arguments: vec![var("a", l), not(truth(true, at(2)), at(3))],
            loc: l,
        }),
        history: SimpleExpression::NullLiteral,
        is_stable: SimpleExpression::ConfigurationCreateExpression(ConfigurationCreateExpression {
            arguments: vec![Expression::NullLiteral, var("x", l)],
            loc: at(4),
        }),
        loc: at(5),
    });
    assert_eq!(e.clone(), e);
}

#[test]
fn whether_a_transition_is_taken() {
    let mut t = transition(4, TransitionType::External, 7, 3);
    t.targets = vec![8, 9];
    let l = at(3);
    assert_eq!(gen_is_transition_available(&t), var("a4", l));
    assert_eq!(gen_is_transition_active(&t), var("c7", l));
    let has_event = id("has_event", at(1));
    assert_eq!(gen_is_transition_applicable(&t, &has_event), not(var("has_event", at(1)), l));
    assert_eq!(gen_is_transition_enabled(&t), None);
    t.event = Some(11);
    t.condition = Some(12);
    assert_eq!(
        gen_is_transition_applicable(&t, &has_event),
        and(
            var("has_event", at(1)),
            Expression::EventExpression(EventExpression { id: 11, loc: l }),
            l
        )
    );
    assert_eq!(
        gen_is_transition_enabled(&t),
        Some(Expression::ConditionExpression(ConditionExpression { id: 12, loc: l }))
    );
    t.t = TransitionType::Spontaneous;
    assert_eq!(
        gen_is_transition_active(&t),
        and(
            var("c7", l),
            not(logical(LogicalOperator::And, vec![var("c8", l), var("c9", l)], l), l),
            l
        )
    );
}

#[test]
fn selecting_the_transitions() {
    let has_event = id("has_event", at(1));
    let is_stable = id("is_stable", at(1));
    let mut t0 = transition(0, TransitionType::External, 1, 3);
    t0.targets = vec![2];
    t0.exits = vec![1];
    t0.conflicts = vec![2];
    t0.condition = Some(5);
    let t1 = transition(1, TransitionType::Initial, 3, 4);
    let mut t2 = transition(2, TransitionType::OnEvent, 1, 5);
    t2.event = Some(6);
    t2.conflicts = vec![0];
    let t3 = transition(3, TransitionType::History, 3, 6);
    let l0 = at(3);
    let l2 = at(5);
    let expected = vec![
        declare(
            "t0",
            logical(
                LogicalOperator::And,
                vec![
                    var("a0", l0),
                    var("c1", l0),
                    not(var("has_event", at(1)), l0),
                    Expression::ConditionExpression(ConditionExpression { id: 5, loc: l0 }),
                ],
                l0,
            ),
            l0,
        ),
        merged(LogicalOperator::Or, "e2", var("t0", l0), l0),
        merged(LogicalOperator::Or, "x1", var("t0", l0), l0),
        merged(LogicalOperator::And, "a2", not(var("t0", l0), l0), l0),
        Statement::AssignmentStatement(AssignmentStatement {
            left: AssignmentStatementLeft::Identifier(id("is_stable", at(1))),
            right: and(var("is_stable", at(1)), not(var("t0", l0), l0), l0),
            loc: l0,
        }),
        declare(
            "t2",
            logical(
                LogicalOperator::And,
                vec![
                    var("a2", l2),
                    var("c1", l2),
                    and(
                        var("has_event", at(1)),
                        Expression::EventExpression(EventExpression { id: 6, loc: l2 }),
                        l2,
                    ),
                ],
                l2,
            ),
            l2,
        ),
        merged(LogicalOperator::And, "a0", not(var("t2", l2), l2), l2),
        Statement::AssignmentStatement(AssignmentStatement {
            left: AssignmentStatementLeft::Identifier(id("is_stable", at(1))),
            right: and(var("is_stable", at(1)), not(var("t2", l2), l2), l2),
            loc: l2,
        }),
    ];
    assert_eq!(gen_transition_select(&vec![t0, t1, t2, t3], &has_event, &is_stable), expected);
}

fn small_graph() -> Vec<State> {
    // 0 root (compound) > 1 a (compound) > 2 a1 (atomic), 3 a2 (atomic); 4 b (parallel) > 5 b1
    let mut root = state(0, StateType::Compound, 1);
    root.children = vec![1, 4];
    root.descendants = vec![1, 2, 3, 4, 5];
    root.initial = vec![1];
    let mut a = state(1, StateType::Compound, 2);
    a.parent = 0;
    a.ancestors = vec![0];
    a.children = vec![2, 3];
    a.descendants = vec![2, 3];
    a.initial = vec![2];
    let mut a1 = state(2, StateType::Atomic, 3);
    a1.parent = 1;
    a1.ancestors = vec![0, 1];
    let mut a2 = state(3, StateType::Atomic, 4);
    a2.parent = 1;
    a2.ancestors = vec![0, 1];
    let mut b = state(4, StateType::Parallel, 5);
    b.parent = 0;
    b.ancestors = vec![0];
    b.children = vec![5];
    b.descendants = vec![5];
    b.initial = vec![5];
    let mut b1 = state(5, StateType::Atomic, 6);
    b1.parent = 4;
    b1.ancestors = vec![0, 4];
    vec![root, a, a1, a2, b, b1]
}

#[test]
fn entering_the_ancestors() {
    let states = small_graph();
    assert_eq!(
        gen_entryset_entry_ancestors(&states),
        vec![
            assign("e4", logical(LogicalOperator::Or, vec![var("e5", at(5))], at(5)), at(5)),
            assign(
                "e1",
                logical(LogicalOperator::Or, vec![var("e2", at(2)), var("e3", at(2))], at(2)),
                at(2)
            ),
            assign("e0", truth(true, at(1)), at(1)),
        ]
    );
    assert!(gen_entryset_entry_ancestors(&vec![]).is_empty());
    assert_eq!(
        gen_entryset_entry_ancestors(&vec![state(0, StateType::Atomic, 1)]),
        vec![assign("e0", truth(true, at(1)), at(1))]
    );
}

fn kept(child: &str, number: usize, l: Location) -> Statement {
    let _ = child;
    assign(
        &format!("e{}", number),
        or(
            var(&format!("e{}", number), l),
            and(var(&format!("c{}", number), l), not(var(&format!("x{}", number), l), l), l),
            l,
        ),
        l,
    )
}

#[test]
fn entering_the_children_of_a_compound_state() {
    let states = small_graph();
    let l = at(2);
    let guard = and(var("e1", l), not(var("c1", l), l), l);
    assert_eq!(
        gen_entryset_entry_descendants_compound(&states[1]),
        vec![merged(LogicalOperator::Or, "e2", guard, l), kept("a1", 2, l), kept("a2", 3, l)]
    );
}

#[test]
fn entering_what_an_initial_pseudo_state_leads_to() {
    let mut states = small_graph();
    let mut initial = state(6, StateType::Initial, 7);
    initial.parent = 1;
    initial.ancestors = vec![0, 1];
    initial.transitions = vec![1, 0];
    states.push(initial);
    let mut t0 = transition(0, TransitionType::External, 6, 8);
    t0.targets = vec![3];
    let mut t1 = transition(1, TransitionType::External, 6, 9);
    t1.targets = vec![5, 0];
    let transitions = vec![t0, t1];
    let l = at(7);
    let e6 = var("e6", l);
    assert_eq!(
        gen_entryset_entry_descendants_initial(&states[6], &states, &transitions),
        vec![
            assign("t1", e6.clone(), l),
            merged(LogicalOperator::Or, "e5", e6.clone(), l),
            merged(LogicalOperator::Or, "e0", e6.clone(), l),
            merged(LogicalOperator::Or, "e0", e6.clone(), l),
            merged(LogicalOperator::Or, "e4", e6.clone(), l),
            assign("t0", e6.clone(), l),
            merged(LogicalOperator::Or, "e3", e6.clone(), l),
            merged(LogicalOperator::Or, "e0", e6.clone(), l),
            merged(LogicalOperator::Or, "e1", e6.clone(), l),
            assign("e6", truth(false, l), l),
        ]
    );
}

#[test]
fn entering_the_descendants() {
    let mut states = small_graph();
    let mut initial = state(6, StateType::Initial, 7);
    initial.parent = 0;
    initial.ancestors = vec![0];
    states.push(initial);
    let mut last = state(7, StateType::Final, 8);
    last.parent = 0;
    last.ancestors = vec![0];
    last.children = vec![1];
    last.initial = vec![1];
    states.push(last);
    let l0 = at(1);
    let l1 = at(2);
    let l4 = at(5);
    assert_eq!(
        gen_entryset_entry_descendants(&states, &vec![]),
        vec![
            merged(LogicalOperator::Or, "e1", and(var("e0", l0), not(var("c0", l0), l0), l0), l0),
            kept("a", 1, l0),
            kept("b", 4, l0),
            merged(LogicalOperator::Or, "e2", and(var("e1", l1), not(var("c1", l1), l1), l1), l1),
            kept("a1", 2, l1),
            kept("a2", 3, l1),
            merged(LogicalOperator::Or, "e5", var("e4", l4), l4),
            assign("e6", truth(false, at(7)), at(7)),
        ]
    );
}

#[test]
fn leaving_the_states() {
    let mut states = small_graph();
    states[1].on_exit = vec![10, 11];
    states[5].on_exit = vec![12];
    let guard = |n: usize, l: Location| and(var(&format!("c{}", n), l), var(&format!("x{}", n), l), l);
    assert_eq!(
        gen_entryset_exit_states(&states),
        vec![
            execute(12, guard(5, at(6)), at(6)),
            execute(10, guard(1, at(2)), at(2)),
            execute(11, guard(1, at(2)), at(2)),
        ]
    );
}

#[test]
fn taking_the_transitions() {
    let mut t0 = transition(0, TransitionType::External, 1, 3);
    t0.on_transition = vec![20, 21];
    let t1 = transition(1, TransitionType::External, 1, 4);
    let mut t2 = transition(2, TransitionType::Initial, 1, 5);
    t2.on_transition = vec![22];
    assert_eq!(
        gen_entryset_take_transitions(&vec![t0, t1, t2]),
        vec![
            execute(20, var("t0", at(3)), at(3)),
            execute(21, var("t0", at(3)), at(3)),
            execute(22, var("t2", at(5)), at(5)),
        ]
    );
}

#[test]
fn entering_the_states() {
    let mut plain = state(0, StateType::Compound, 1);
    plain.children = vec![1];
    let mut both = state(1, StateType::Atomic, 2);
    both.on_init = vec![30, 31];
    both.on_enter = vec![32];
    let mut entered = state(2, StateType::Atomic, 3);
    entered.on_enter = vec![33];
    let mut initialised = state(3, StateType::Atomic, 4);
    initialised.on_init = vec![34];
    let guard = |n: usize, l: Location| declare(
        &format!("g{}", n),
        and(var(&format!("e{}", n), l), not(var(&format!("c{}", n), l), l), l),
        l,
    );
    let first = |n: usize, l: Location| and(var(&format!("g{}", n), l), not(var(&format!("i{}", n), l), l), l);
    let done = |n: usize, l: Location| assign(
        &format!("i{}", n),
        or(var(&format!("i{}", n), l), var(&format!("e{}", n), l), l),
        l,
    );
    assert_eq!(
        gen_entryset_enter_states(&vec![plain, both, entered, initialised]),
        vec![
            done(0, at(1)),
            guard(1, at(2)),
            execute(30, first(1, at(2)), at(2)),
            execute(31, first(1, at(2)), at(2)),
            done(1, at(2)),
            execute(32, var("g1", at(2)), at(2)),
            guard(2, at(3)),
            done(2, at(3)),
            execute(33, var("g2", at(3)), at(3)),
            guard(3, at(4)),
            execute(34, first(3, at(4)), at(4)),
            done(3, at(4)),
        ]
    );
}

#[test]
fn there_are_no_statements_for_invocations() {
    let mut states = small_graph();
    states[1].invocations = vec![1, 2];
    assert!(gen_invocations(&states, &Some(var("is_stable", at(1)))).is_empty());
    assert!(gen_invocations(&states, &None).is_empty());
}

#[test]
fn establishing_the_entry_set_of_one_state() {
    let states = vec![state(0, StateType::Atomic, 1)];
    let l = at(9);
    assert_eq!(
        gen_establish_entryset(&states, &vec![], l),
        vec![
            assign("e0", truth(true, at(1)), at(1)),
            assign("i0", or(var("i0", at(1)), var("e0", at(1)), at(1)), at(1)),
            established(&states, l),
        ]
    );
}

#[test]
fn first_function_of_one_state() {
    let states = vec![state(0, StateType::Atomic, 1)];
    let l = at(9);
    let init = gen_init(&states, &vec![], l);
    assert!(init.params.is_empty());
    assert_eq!(init.loc, l);
    assert_eq!(
        init.body,
        vec![
            declare("c0", truth(false, l), at(1)),
            declare("i0", truth(false, l), at(1)),
            declare("h0", truth(false, l), at(1)),
            declare("e0", truth(false, l), at(1)),
            declare("x0", truth(false, l), at(1)),
            assign("e0", truth(true, at(1)), at(1)),
            assign("i0", or(var("i0", at(1)), var("e0", at(1)), at(1)), at(1)),
            established(&states, l),
        ]
    );
}

fn chain() -> Core {
    // 0 root > 1 a, 2 b; t0: a -> b, t1: a -> a
    let mut root = state(0, StateType::Compound, 1);
    root.children = vec![1, 2];
    root.descendants = vec![1, 2];
    root.initial = vec![1];
    let mut a = state(1, StateType::Atomic, 2);
    a.ancestors = vec![0];
    a.transitions = vec![0, 1];
    a.on_enter = vec![40];
    let mut b = state(2, StateType::Atomic, 3);
    b.ancestors = vec![0];
    b.on_exit = vec![41];
    let mut t0 = transition(0, TransitionType::External, 1, 4);
    t0.targets = vec![2];
    t0.exits = vec![1];
    t0.conflicts = vec![1];
    let mut t1 = transition(1, TransitionType::External, 1, 5);
    t1.targets = vec![1];
    t1.exits = vec![2];
    t1.conflicts = vec![0];
    t1.event = Some(3);
    Core { states: vec![root, a, b], transitions: vec![t0, t1], loc: at(1) }
}

#[test]
fn declarations_of_the_first_function_come_before_the_assignments() {
    let core = chain();
    let init = gen_init(&core.states, &core.transitions, core.loc);
    let declared: Vec<String> = init
        .body
        .iter()
        .take(5 * 3 + 2)
        .map(|s| match s {
            Statement::VariableDeclaration(VariableDeclaration {
                id: VariableDeclarationId::Identifier(id),
                init: Expression::BooleanLiteral(BooleanLiteral { value: false, .. }),
                ..
            }) => id.name.clone(),
            other => panic!("not a declaration: {:?}", other),
        })
        .collect();
    assert_eq!(
        declared,
        vec![
            "c0", "c1", "c2", "i0", "i1", "i2", "h0", "h1", "h2", "e0", "e1", "e2", "t0", "t1",
            "x0", "x1", "x2"
        ]
    );
    for s in init.body.iter().skip(5 * 3 + 2) {
        match s {
            Statement::VariableDeclaration(VariableDeclaration {
                id: VariableDeclarationId::Identifier(id),
                ..
            }) => assert!(id.name.starts_with('g')),
            _ => {}
        }
    }
    let first_assignment = init
        .body
        .iter()
        .position(|s| matches!(s, Statement::AssignmentStatement(_)))
        .unwrap();
    assert_eq!(first_assignment, 5 * 3 + 2);
}

#[test]
fn second_function() {
    let core = chain();
    let l = core.loc;
    let next = gen_select_transitions(&core.states, &core.transitions, l);
    assert_eq!(next.loc, l);
    assert_eq!(next.params, vec![var("c", l), var("i", l), var("h", l), var("has_event", l)]);
    let taken = |name: &str, n: usize| Statement::ConfigurationDestructureDeclaration(
        ConfigurationDestructureDeclaration {
            left: (0..n).map(|i| var(&format!("{}{}", name, i), core.states[i].loc)).collect(),
            right: var(name, l),
            loc: at(1),
        },
    );
    let l0 = at(4);
    let l1 = at(5);
    let mut expected = vec![
        taken("c", 3),
        taken("i", 3),
        taken("h", 3),
        declare("e0", truth(false, l), at(1)),
        declare("e1", truth(false, l), at(2)),
        declare("e2", truth(false, l), at(3)),
        declare("x0", truth(false, l), at(1)),
        declare("x1", truth(false, l), at(2)),
        declare("x2", truth(false, l), at(3)),
        declare("a0", truth(true, l), at(4)),
        declare("a1", truth(true, l), at(5)),
        declare("is_stable", truth(true, l), l),
        declare(
            "t0",
            logical(
                LogicalOperator::And,
                vec![var("a0", l0), var("c1", l0), not(var("has_event", l), l0)],
                l0,
            ),
            l0,
        ),
        merged(LogicalOperator::Or, "e2", var("t0", l0), l0),
        merged(LogicalOperator::Or, "x1", var("t0", l0), l0),
        merged(LogicalOperator::And, "a1", not(var("t0", l0), l0), l0),
        Statement::AssignmentStatement(AssignmentStatement {
            left: AssignmentStatementLeft::Identifier(id("is_stable", l)),
            right: and(var("is_stable", l), not(var("t0", l0), l0), l0),
            loc: l0,
        }),
        declare(
            "t1",
            logical(
                LogicalOperator::And,
                vec![
                    var("a1", l1),
                    var("c1", l1),
                    and(
                        var("has_event", l),
                        Expression::EventExpression(EventExpression { id: 3, loc: l1 }),
                        l1,
                    ),
                ],
                l1,
            ),
            l1,
        ),
        merged(LogicalOperator::Or, "e1", var("t1", l1), l1),
        merged(LogicalOperator::Or, "x2", var("t1", l1), l1),
        merged(LogicalOperator::And, "a0", not(var("t1", l1), l1), l1),
        Statement::AssignmentStatement(AssignmentStatement {
            left: AssignmentStatementLeft::Identifier(id("is_stable", l)),
            right: and(var("is_stable", l), not(var("t1", l1), l1), l1),
            loc: l1,
        }),
        Statement::ReturnStatement(ReturnStatement {
            argument: Expression::MicrostepResult(MicrostepResult {
                configuration: SimpleExpression::Identifier(id("c", l)),
                initialized: SimpleExpression::Identifier(id("i", l)),
                history: SimpleExpression::Identifier(id("h", l)),
                is_stable: SimpleExpression::Identifier(id("is_stable", l)),
                loc: l,
            }),
            guard: Some(var("is_stable", l)),
            loc: l,
        }),
    ];
    expected.extend(gen_establish_entryset(&core.states, &core.transitions, l));
    assert_eq!(next.body, expected);
}

#[test]
fn the_program_of_a_graph() {
    let core = chain();
    let program = to_microstep(&core).unwrap();
    assert_eq!(program.configuration_size, 3);
    assert_eq!(program.loc, core.loc);
    assert_eq!(program.init, gen_init(&core.states, &core.transitions, core.loc));
    assert_eq!(program.next, gen_select_transitions(&core.states, &core.transitions, core.loc));
    assert_eq!(
        gen_establish_entryset(&core.states, &core.transitions, core.loc),
        vec![
            assign("e0", truth(true, at(1)), at(1)),
            merged(
                LogicalOperator::Or,
                "e1",
                and(var("e0", at(1)), not(var("c0", at(1)), at(1)), at(1)),
                at(1)
            ),
            kept("a", 1, at(1)),
            kept("b", 2, at(1)),
            execute(41, and(var("c2", at(3)), var("x2", at(3)), at(3)), at(3)),
            assign("i0", or(var("i0", at(1)), var("e0", at(1)), at(1)), at(1)),
            declare("g1", and(var("e1", at(2)), not(var("c1", at(2)), at(2)), at(2)), at(2)),
            assign("i1", or(var("i1", at(2)), var("e1", at(2)), at(2)), at(2)),
            execute(40, var("g1", at(2)), at(2)),
            assign("i2", or(var("i2", at(3)), var("e2", at(3)), at(3)), at(3)),
            established(&core.states, core.loc),
        ]
    );
}

#[test]
fn the_same_graph_gives_the_same_program() {
    assert_eq!(to_microstep(&chain()).unwrap(), to_microstep(&chain()).unwrap());
}
