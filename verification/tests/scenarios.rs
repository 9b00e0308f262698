use thot::ast::core_graph::StateType;
use thot::ast::location::{Location, Point};
use thot::ast::microstep::{
    AssignmentStatement, AssignmentStatementLeft, BooleanLiteral, ConfigurationCreateExpression,
    Expression, Identifier, LogicalExpression, LogicalOperator, MicrostepResult, ReturnStatement,
    SimpleExpression, Statement, VariableDeclaration, VariableDeclarationId,
};
use thot::ast::statechart::to_core::to_core;
use thot::ast::statechart::{
    Binding, Node, Parallel, State, Statechart, Transition, TransitionType,
};
use thot::compile;

fn at(line: usize) -> Location {
    Location { start: Point { line, column: 2 }, end: Point { line, column: 5 }, source: None }
}

fn chart(children: Vec<Node>) -> Statechart {
    Statechart { binding: Binding::Late, children, loc: at(1) }
}

fn state(id: &str, line: usize, children: Vec<Node>) -> Node {
    Node::State(State { id: Some(id.to_string()), children, loc: at(line) })
}

fn transition(target: &str, line: usize) -> Node {
    Node::Transition(Transition {
        event: None,
        targets: vec![target.to_string()],
        t: TransitionType::External,
        condition: None,
        children: vec![],
        loc: at(line),
    })
}

fn var(name: &str, loc: Location) -> Expression {
    Expression::Identifier(Identifier { name: name.to_string(), loc })
}

fn no(loc: Location) -> Expression {
    Expression::BooleanLiteral(BooleanLiteral { value: false, loc })
}

fn declare(name: &str, init: Expression, loc: Location) -> Statement {
    Statement::VariableDeclaration(VariableDeclaration {
        id: VariableDeclarationId::Identifier(Identifier { name: name.to_string(), loc }),
        init,
        loc,
    })
}

fn assign(name: &str, right: Expression, loc: Location) -> Statement {
    Statement::AssignmentStatement(AssignmentStatement {
        left: AssignmentStatementLeft::Identifier(Identifier { name: name.to_string(), loc }),
        right,
        loc,
    })
}

fn merged(operator: LogicalOperator, name: &str, guard: Expression, loc: Location) -> Statement {
    assign(
        name,
        Expression::LogicalExpression(LogicalExpression {
            operator,
            arguments: vec![var(name, loc), guard],
            loc,
        }),
        loc,
    )
}

fn packed(name: &str, loc: Location) -> SimpleExpression {
    SimpleExpression::ConfigurationCreateExpression(ConfigurationCreateExpression {
        arguments: vec![var(name, loc)],
        loc,
    })
}

#[test]
fn the_program_of_the_empty_statechart() {
    let program = compile(&chart(vec![])).unwrap();
    let l = at(1);
    assert_eq!(program.configuration_size, 1);
    assert_eq!(program.loc, l);
    assert!(program.init.params.is_empty());
    assert_eq!(
        program.init.body,
        vec![
            declare("c0", no(l), l),
            declare("i0", no(l), l),
            declare("h0", no(l), l),
            declare("e0", no(l), l),
            declare("x0", no(l), l),
            assign("e0", Expression::BooleanLiteral(BooleanLiteral { value: true, loc: l }), l),
            merged(LogicalOperator::Or, "i0", var("e0", l), l),
            Statement::ReturnStatement(ReturnStatement {
                argument: Expression::MicrostepResult(MicrostepResult {
                    configuration: packed("e0", l),
                    initialized: packed("i0", l),
                    history: packed("h0", l),
                    is_stable: SimpleExpression::BooleanLiteral(BooleanLiteral {
                        value: false,
                        loc: l
                    }),
                    loc: l,
                }),
                guard: None,
                loc: l,
            }),
        ]
    );
    assert_eq!(program.next.params, vec![var("c", l), var("i", l), var("h", l), var("has_event", l)]);
    assert_eq!(program.next.body.len(), 3 + 2 + 1 + 1 + 3);
    assert_eq!(program.next.body[7..], program.init.body[5..]);
}

#[test]
fn a_parallel_state_enters_its_regions() {
    let tree = chart(vec![Node::Parallel(Parallel {
        id: Some("both".to_string()),
        children: vec![state("p", 3, vec![]), state("q", 4, vec![])],
        loc: at(2),
    })]);
    let core = to_core(&tree).unwrap();
    assert_eq!(core.states[1].t, StateType::Parallel);
    assert_eq!(core.states[1].initial, vec![2, 3]);
    let program = compile(&tree).unwrap();
    let body = &program.init.body;
    let first = body
        .iter()
        .position(|s| *s == merged(LogicalOperator::Or, "e2", var("e1", at(2)), at(2)))
        .unwrap();
    assert_eq!(body[first + 1], merged(LogicalOperator::Or, "e3", var("e1", at(2)), at(2)));
    assert_eq!(
        body.iter().filter(|s| **s == merged(LogicalOperator::Or, "e2", var("e1", at(2)), at(2))).count(),
        1
    );
}

#[test]
fn transitions_from_one_source_suppress_each_other() {
    let tree = chart(vec![
        state("a", 2, vec![transition("b", 3), transition("c", 4)]),
        state("b", 5, vec![]),
        state("c", 6, vec![]),
    ]);
    let core = to_core(&tree).unwrap();
    assert_eq!(core.transitions[0].conflicts, vec![1]);
    assert_eq!(core.transitions[1].conflicts, vec![0]);
    let program = compile(&tree).unwrap();
    let not = |name: &str, l: Location| {
        Expression::LogicalExpression(LogicalExpression {
            operator: LogicalOperator::Not,
            arguments: vec![var(name, l)],
            loc: l,
        })
    };
    let suppress_second = merged(LogicalOperator::And, "a1", not("t0", at(3)), at(3));
    let suppress_first = merged(LogicalOperator::And, "a0", not("t1", at(4)), at(4));
    let body = &program.next.body;
    let second = body.iter().position(|s| *s == suppress_second).unwrap();
    let first = body.iter().position(|s| *s == suppress_first).unwrap();
    assert!(second < first);
    assert!(!program.init.body.contains(&suppress_first));
    assert!(body.contains(&declare(
        "a0",
        Expression::BooleanLiteral(BooleanLiteral { value: true, loc: at(1) }),
        at(3)
    )));
    assert!(body.contains(&declare(
        "a1",
        Expression::BooleanLiteral(BooleanLiteral { value: true, loc: at(1) }),
        at(4)
    )));
    assert_eq!(
        body.iter()
            .filter(|s| match s {
                Statement::VariableDeclaration(VariableDeclaration {
                    id: VariableDeclarationId::Identifier(id),
                    ..
                }) => id.name.starts_with('a'),
                _ => false,
            })
            .count(),
        2
    );
}
