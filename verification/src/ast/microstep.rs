//! The microstep program: the small typed language that a statechart is
//! compiled to.
//!
//! A program is plain data.  Each type has a view that holds its contents as
//! mathematical values; the contracts of the generator are stated over these
//! views.

use crate::ast::location::Location;
use vstd::prelude::*;

verus! {

/// The handle of a piece of executable content.
pub type ExecutableId = usize;

/// The operator of a [`LogicalExpression`].
#[derive(Clone, Copy, Debug, PartialEq, Eq)]
pub enum LogicalOperator {
    And,
    Or,
    Not,
    Xor,
}

/// A name.
#[derive(Debug, Default, PartialEq, Eq)]
pub struct Identifier {
    pub name: String,
    pub loc: Location,
}

/// A literal string.
#[derive(Debug, Default, PartialEq, Eq)]
pub struct StringLiteral {
    pub value: String,
    pub loc: Location,
}

/// A literal truth value.
#[derive(Clone, Copy, Debug, Default, PartialEq, Eq)]
pub struct BooleanLiteral {
    pub value: bool,
    pub loc: Location,
}

/// A literal number.
#[derive(Clone, Copy, Debug, Default, PartialEq, Eq)]
pub struct IntegerLiteral {
    pub value: usize,
    pub loc: Location,
}

/// An operator applied to its arguments, in order.
#[derive(Debug, PartialEq, Eq)]
pub struct LogicalExpression {
    pub operator: LogicalOperator,
    pub arguments: Vec<Expression>,
    pub loc: Location,
}

/// A reference to a condition that is evaluated elsewhere.
#[derive(Clone, Copy, Debug, PartialEq, Eq)]
pub struct ConditionExpression {
    pub id: usize,
    pub loc: Location,
}

/// A reference to an event that is matched elsewhere.
#[derive(Clone, Copy, Debug, PartialEq, Eq)]
pub struct EventExpression {
    pub id: usize,
    pub loc: Location,
}

/// Truth values packed into one configuration value.
#[derive(Debug, PartialEq, Eq)]
pub struct ConfigurationCreateExpression {
    pub arguments: Vec<Expression>,
    pub loc: Location,
}

/// What one microstep hands back.
#[derive(Debug, PartialEq, Eq)]
pub struct MicrostepResult {
    pub configuration: SimpleExpression,
    pub initialized: SimpleExpression,
    pub history: SimpleExpression,
    pub is_stable: SimpleExpression,
    pub loc: Location,
}

/// An expression.
#[derive(Debug, PartialEq, Eq)]
pub enum Expression {
    Identifier(Identifier),
    NullLiteral,
    StringLiteral(StringLiteral),
    BooleanLiteral(BooleanLiteral),
    IntegerLiteral(IntegerLiteral),
    LogicalExpression(LogicalExpression),
    ConfigurationCreateExpression(ConfigurationCreateExpression),
    ConditionExpression(ConditionExpression),
    EventExpression(EventExpression),
    MicrostepResult(MicrostepResult),
}

/// The expressions that can stand in a field of a [`MicrostepResult`].
#[derive(Debug, PartialEq, Eq)]
pub enum SimpleExpression {
    Identifier(Identifier),
    NullLiteral,
    StringLiteral(StringLiteral),
    BooleanLiteral(BooleanLiteral),
    IntegerLiteral(IntegerLiteral),
    LogicalExpression(LogicalExpression),
    ConditionExpression(ConditionExpression),
    EventExpression(EventExpression),
    ConfigurationCreateExpression(ConfigurationCreateExpression),
}

/// The name that a [`VariableDeclaration`] introduces.
#[derive(Clone, Debug, PartialEq, Eq)]
pub enum VariableDeclarationId {
    Identifier(Identifier),
}

/// The declaration of one variable with its first value.
#[derive(Clone, Debug, Default, PartialEq, Eq)]
pub struct VariableDeclaration {
    pub id: VariableDeclarationId,
    pub init: Expression,
    pub loc: Location,
}

/// The declaration of one variable for each truth value of a configuration.
#[derive(Clone, Debug, Default, PartialEq, Eq)]
pub struct ConfigurationDestructureDeclaration {
    pub left: Vec<Expression>,
    pub right: Expression,
    pub loc: Location,
}

/// The name that an [`AssignmentStatement`] writes.
#[derive(Clone, Debug, PartialEq, Eq)]
pub enum AssignmentStatementLeft {
    Identifier(Identifier),
}

/// The assignment of a new value to a variable.
#[derive(Clone, Debug, Default, PartialEq, Eq)]
pub struct AssignmentStatement {
    pub left: AssignmentStatementLeft,
    pub right: Expression,
    pub loc: Location,
}

/// The execution of a piece of content, where the guard holds.
#[derive(Clone, Debug, Default, PartialEq, Eq)]
pub struct ExecuteStatement {
    pub id: ExecutableId,
    pub guard: Option<Expression>,
    pub loc: Location,
}

/// The end of the function with a result, where the guard holds.
#[derive(Clone, Debug, Default, PartialEq, Eq)]
pub struct ReturnStatement {
    pub argument: Expression,
    pub guard: Option<Expression>,
    pub loc: Location,
}

/// A statement.
#[derive(Clone, Debug, PartialEq, Eq)]
pub enum Statement {
    VariableDeclaration(VariableDeclaration),
    AssignmentStatement(AssignmentStatement),
    ConfigurationDestructureDeclaration(ConfigurationDestructureDeclaration),
    ReturnStatement(ReturnStatement),
    ExecuteStatement(ExecuteStatement),
}

/// A function: its parameters, and its statements in the order in which they
/// are executed.
#[derive(Clone, Debug, Default, PartialEq, Eq)]
pub struct Function {
    pub params: Vec<Expression>,
    pub body: Vec<Statement>,
    pub loc: Location,
}

/// The microstep program of a statechart.
#[derive(Clone, Debug, Default, PartialEq, Eq)]
pub struct Microstep {
    /// The number of states, which is the number of truth values in a
    /// configuration.
    pub configuration_size: usize,
    /// Computes the first configuration.
    pub init: Function,
    /// Computes the configuration that follows a given one.
    pub next: Function,
    pub loc: Location,
}

/// The contents of an [`Identifier`].
pub struct IdentifierView {
    pub name: Seq<char>,
    pub loc: Location,
}

/// The contents of an [`Expression`] or of a [`SimpleExpression`].
#[allow(inconsistent_fields)]
pub enum ExpressionView {
    Identifier { name: Seq<char>, loc: Location },
    NullLiteral,
    StringLiteral { value: Seq<char>, loc: Location },
    BooleanLiteral { value: bool, loc: Location },
    IntegerLiteral { value: usize, loc: Location },
    LogicalExpression { operator: LogicalOperator, arguments: Seq<ExpressionView>, loc: Location },
    ConfigurationCreateExpression { arguments: Seq<ExpressionView>, loc: Location },
    ConditionExpression { id: usize, loc: Location },
    EventExpression { id: usize, loc: Location },
    MicrostepResult {
        configuration: Box<ExpressionView>,
        initialized: Box<ExpressionView>,
        history: Box<ExpressionView>,
        is_stable: Box<ExpressionView>,
        loc: Location,
    },
}

/// The contents of a [`Statement`].
#[allow(inconsistent_fields)]
pub enum StatementView {
    VariableDeclaration { id: IdentifierView, init: ExpressionView, loc: Location },
    AssignmentStatement { left: IdentifierView, right: ExpressionView, loc: Location },
    ConfigurationDestructureDeclaration {
        left: Seq<ExpressionView>,
        right: ExpressionView,
        loc: Location,
    },
    ReturnStatement { argument: ExpressionView, guard: Option<ExpressionView>, loc: Location },
    ExecuteStatement { id: usize, guard: Option<ExpressionView>, loc: Location },
}

/// The contents of a [`Function`].
pub struct FunctionView {
    pub params: Seq<ExpressionView>,
    pub body: Seq<StatementView>,
    pub loc: Location,
}

/// The contents of a [`Microstep`].
pub struct MicrostepView {
    pub configuration_size: usize,
    pub init: FunctionView,
    pub next: FunctionView,
    pub loc: Location,
}

impl IdentifierView {
    /// The identifier as an expression.
    pub open spec fn expression(self) -> ExpressionView {
        ExpressionView::Identifier { name: self.name, loc: self.loc }
    }
}

impl ExpressionView {
    /// Whether the expression can stand in a field of a result.
    pub open spec fn is_simple(self) -> bool {
        !(self is NullLiteral) && !(self is MicrostepResult)
    }
}

/// The contents of an expression.
pub open spec fn expression_view(e: Expression) -> ExpressionView
    decreases e,
{
    match e {
        Expression::Identifier(v) => ExpressionView::Identifier { name: v.name@, loc: v.loc },
        Expression::NullLiteral => ExpressionView::NullLiteral,
        Expression::StringLiteral(v) => ExpressionView::StringLiteral {
            value: v.value@,
            loc: v.loc,
        },
        Expression::BooleanLiteral(v) => ExpressionView::BooleanLiteral {
            value: v.value,
            loc: v.loc,
        },
        Expression::IntegerLiteral(v) => ExpressionView::IntegerLiteral {
            value: v.value,
            loc: v.loc,
        },
        Expression::LogicalExpression(v) => ExpressionView::LogicalExpression {
            operator: v.operator,
            arguments: expressions_view(v.arguments@),
            loc: v.loc,
        },
        Expression::ConfigurationCreateExpression(v) => {
            ExpressionView::ConfigurationCreateExpression {
                arguments: expressions_view(v.arguments@),
                loc: v.loc,
            }
        },
        Expression::ConditionExpression(v) => ExpressionView::ConditionExpression {
            id: v.id,
            loc: v.loc,
        },
        Expression::EventExpression(v) => ExpressionView::EventExpression { id: v.id, loc: v.loc },
        Expression::MicrostepResult(v) => ExpressionView::MicrostepResult {
            configuration: Box::new(simple_expression_view(v.configuration)),
            initialized: Box::new(simple_expression_view(v.initialized)),
            history: Box::new(simple_expression_view(v.history)),
            is_stable: Box::new(simple_expression_view(v.is_stable)),
            loc: v.loc,
        },
    }
}

/// The contents of each expression of a sequence.
pub open spec fn expressions_view(s: Seq<Expression>) -> Seq<ExpressionView>
    decreases s,
{
    Seq::new(
        s.len(),
        |i: int|
            if 0 <= i < s.len() {
                expression_view(s[i])
            } else {
                ExpressionView::NullLiteral
            },
    )
}

/// The contents of a simple expression.
pub open spec fn simple_expression_view(e: SimpleExpression) -> ExpressionView
    decreases e,
{
    match e {
        SimpleExpression::Identifier(v) => ExpressionView::Identifier { name: v.name@, loc: v.loc },
        SimpleExpression::NullLiteral => ExpressionView::NullLiteral,
        SimpleExpression::StringLiteral(v) => ExpressionView::StringLiteral {
            value: v.value@,
            loc: v.loc,
        },
        SimpleExpression::BooleanLiteral(v) => ExpressionView::BooleanLiteral {
            value: v.value,
            loc: v.loc,
        },
        SimpleExpression::IntegerLiteral(v) => ExpressionView::IntegerLiteral {
            value: v.value,
            loc: v.loc,
        },
        SimpleExpression::LogicalExpression(v) => ExpressionView::LogicalExpression {
            operator: v.operator,
            arguments: expressions_view(v.arguments@),
            loc: v.loc,
        },
        SimpleExpression::ConditionExpression(v) => ExpressionView::ConditionExpression {
            id: v.id,
            loc: v.loc,
        },
        SimpleExpression::EventExpression(v) => ExpressionView::EventExpression {
            id: v.id,
            loc: v.loc,
        },
        SimpleExpression::ConfigurationCreateExpression(v) => {
            ExpressionView::ConfigurationCreateExpression {
                arguments: expressions_view(v.arguments@),
                loc: v.loc,
            }
        },
    }
}

impl View for Identifier {
    type V = IdentifierView;

    open spec fn view(&self) -> IdentifierView {
        IdentifierView { name: self.name@, loc: self.loc }
    }
}

impl View for Expression {
    type V = ExpressionView;

    open spec fn view(&self) -> ExpressionView {
        expression_view(*self)
    }
}

impl View for SimpleExpression {
    type V = ExpressionView;

    open spec fn view(&self) -> ExpressionView {
        simple_expression_view(*self)
    }
}

/// The contents of an optional expression.
pub open spec fn guard_view(guard: Option<Expression>) -> Option<ExpressionView> {
    match guard {
        Some(e) => Some(e@),
        None => None,
    }
}

impl View for Statement {
    type V = StatementView;

    open spec fn view(&self) -> StatementView {
        match *self {
            Statement::VariableDeclaration(v) => StatementView::VariableDeclaration {
                id: match v.id {
                    VariableDeclarationId::Identifier(id) => id@,
                },
                init: v.init@,
                loc: v.loc,
            },
            Statement::AssignmentStatement(v) => StatementView::AssignmentStatement {
                left: match v.left {
                    AssignmentStatementLeft::Identifier(id) => id@,
                },
                right: v.right@,
                loc: v.loc,
            },
            Statement::ConfigurationDestructureDeclaration(v) => {
                StatementView::ConfigurationDestructureDeclaration {
                    left: expressions_view(v.left@),
                    right: v.right@,
                    loc: v.loc,
                }
            },
            Statement::ReturnStatement(v) => StatementView::ReturnStatement {
                argument: v.argument@,
                guard: guard_view(v.guard),
                loc: v.loc,
            },
            Statement::ExecuteStatement(v) => StatementView::ExecuteStatement {
                id: v.id,
                guard: guard_view(v.guard),
                loc: v.loc,
            },
        }
    }
}

/// The contents of each statement of a sequence.
pub open spec fn statements_view(s: Seq<Statement>) -> Seq<StatementView> {
    Seq::new(s.len(), |i: int| s[i]@)
}

impl View for Function {
    type V = FunctionView;

    open spec fn view(&self) -> FunctionView {
        FunctionView {
            params: expressions_view(self.params@),
            body: statements_view(self.body@),
            loc: self.loc,
        }
    }
}

impl View for Microstep {
    type V = MicrostepView;

    open spec fn view(&self) -> MicrostepView {
        MicrostepView {
            configuration_size: self.configuration_size,
            init: self.init@,
            next: self.next@,
            loc: self.loc,
        }
    }
}

impl Clone for Identifier {
    fn clone(&self) -> (r: Identifier)
        ensures
            r@ == self@,
    {
        Identifier { name: self.name.clone(), loc: self.loc }
    }
}

impl Clone for StringLiteral {
    fn clone(&self) -> (r: StringLiteral)
        ensures
            r.value@ == self.value@,
            r.loc == self.loc,
    {
        StringLiteral { value: self.value.clone(), loc: self.loc }
    }
}

/// A copy of each expression of a vector.
pub fn clone_expressions(v: &Vec<Expression>) -> (r: Vec<Expression>)
    ensures
        expressions_view(r@) == expressions_view(v@),
    decreases v,
{
    let mut r: Vec<Expression> = Vec::new();
    let mut i: usize = 0;
    while i < v.len()
        invariant
            i <= v.len(),
            r.len() == i,
            forall|j: int| 0 <= j < i ==> r[j]@ == v[j]@,
        decreases v.len() - i,
    {
        proof {
            assert(decreases_to!(*v => v@[i as int]));
        }
        r.push(v[i].clone());
        i += 1;
    }
    assert(expressions_view(r@) =~= expressions_view(v@));
    r
}

impl Clone for LogicalExpression {
    fn clone(&self) -> (r: LogicalExpression)
        ensures
            r.operator == self.operator,
            expressions_view(r.arguments@) == expressions_view(self.arguments@),
            r.loc == self.loc,
        decreases self,
    {
        LogicalExpression {
            operator: self.operator,
            arguments: clone_expressions(&self.arguments),
            loc: self.loc,
        }
    }
}

impl Clone for ConfigurationCreateExpression {
    fn clone(&self) -> (r: ConfigurationCreateExpression)
        ensures
            expressions_view(r.arguments@) == expressions_view(self.arguments@),
            r.loc == self.loc,
        decreases self,
    {
        ConfigurationCreateExpression {
            arguments: clone_expressions(&self.arguments),
            loc: self.loc,
        }
    }
}

impl Clone for SimpleExpression {
    fn clone(&self) -> (r: SimpleExpression)
        ensures
            r@ == self@,
        decreases self,
    {
        match self {
            SimpleExpression::Identifier(v) => SimpleExpression::Identifier(v.clone()),
            SimpleExpression::NullLiteral => SimpleExpression::NullLiteral,
            SimpleExpression::StringLiteral(v) => SimpleExpression::StringLiteral(v.clone()),
            SimpleExpression::BooleanLiteral(v) => SimpleExpression::BooleanLiteral(*v),
            SimpleExpression::IntegerLiteral(v) => SimpleExpression::IntegerLiteral(*v),
            SimpleExpression::LogicalExpression(v) => SimpleExpression::LogicalExpression(
                v.clone(),
            ),
            SimpleExpression::ConditionExpression(v) => SimpleExpression::ConditionExpression(*v),
            SimpleExpression::EventExpression(v) => SimpleExpression::EventExpression(*v),
            SimpleExpression::ConfigurationCreateExpression(v) => {
                SimpleExpression::ConfigurationCreateExpression(v.clone())
            },
        }
    }
}

impl Clone for MicrostepResult {
    fn clone(&self) -> (r: MicrostepResult)
        ensures
            r.configuration@ == self.configuration@,
            r.initialized@ == self.initialized@,
            r.history@ == self.history@,
            r.is_stable@ == self.is_stable@,
            r.loc == self.loc,
        decreases self,
    {
        MicrostepResult {
            configuration: self.configuration.clone(),
            initialized: self.initialized.clone(),
            history: self.history.clone(),
            is_stable: self.is_stable.clone(),
            loc: self.loc,
        }
    }
}

impl Clone for Expression {
    fn clone(&self) -> (r: Expression)
        ensures
            r@ == self@,
        decreases self,
    {
        match self {
            Expression::Identifier(v) => Expression::Identifier(v.clone()),
            Expression::NullLiteral => Expression::NullLiteral,
            Expression::StringLiteral(v) => Expression::StringLiteral(v.clone()),
            Expression::BooleanLiteral(v) => Expression::BooleanLiteral(*v),
            Expression::IntegerLiteral(v) => Expression::IntegerLiteral(*v),
            Expression::LogicalExpression(v) => Expression::LogicalExpression(v.clone()),
            Expression::ConfigurationCreateExpression(v) => {
                Expression::ConfigurationCreateExpression(v.clone())
            },
            Expression::ConditionExpression(v) => Expression::ConditionExpression(*v),
            Expression::EventExpression(v) => Expression::EventExpression(*v),
            Expression::MicrostepResult(v) => Expression::MicrostepResult(v.clone()),
        }
    }
}

impl Expression {
    /// The same expression as a field of a result.
    pub fn to_simple(self) -> (r: SimpleExpression)
        requires
            self@.is_simple(),
        ensures
            r@ == self@,
    {
        match self {
            Expression::Identifier(v) => SimpleExpression::Identifier(v),
            Expression::StringLiteral(v) => SimpleExpression::StringLiteral(v),
            Expression::BooleanLiteral(v) => SimpleExpression::BooleanLiteral(v),
            Expression::IntegerLiteral(v) => SimpleExpression::IntegerLiteral(v),
            Expression::LogicalExpression(v) => SimpleExpression::LogicalExpression(v),
            Expression::ConditionExpression(v) => SimpleExpression::ConditionExpression(v),
            Expression::EventExpression(v) => SimpleExpression::EventExpression(v),
            Expression::ConfigurationCreateExpression(v) => {
                SimpleExpression::ConfigurationCreateExpression(v)
            },
            Expression::NullLiteral => SimpleExpression::NullLiteral,
            Expression::MicrostepResult(_) => SimpleExpression::NullLiteral,
        }
    }
}

impl Default for Expression {
    fn default() -> (e: Expression)
        ensures
            e@ == ExpressionView::NullLiteral,
    {
        Expression::NullLiteral
    }
}

impl Default for SimpleExpression {
    fn default() -> (e: SimpleExpression)
        ensures
            e@ == ExpressionView::NullLiteral,
    {
        SimpleExpression::NullLiteral
    }
}

impl Default for VariableDeclarationId {
    fn default() -> (id: VariableDeclarationId)
        ensures
            id->0@ == (IdentifierView { name: Seq::empty(), loc: Location::unknown() }),
    {
        VariableDeclarationId::Identifier(
            Identifier { name: String::new(), loc: Location::default() },
        )
    }
}

impl Default for AssignmentStatementLeft {
    fn default() -> (id: AssignmentStatementLeft)
        ensures
            id->0@ == (IdentifierView { name: Seq::empty(), loc: Location::unknown() }),
    {
        AssignmentStatementLeft::Identifier(
            Identifier { name: String::new(), loc: Location::default() },
        )
    }
}

} // verus!
