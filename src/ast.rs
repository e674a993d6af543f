use vstd::prelude::*;
use std::rc::Rc;
use crate::number::Num;
use crate::source::Location;

verus! {

/// A whole program: its top-level block and the names it declares.
#[derive(Debug)]
pub struct Program {
    pub body: BlockStatement,
    /// The variables declared at the top level.
    pub variables: Vec<Identifier>,
    /// The functions declared at the top level.
    pub functions: Vec<FunctionDeclaration>,
}

#[derive(Debug)]
pub struct Statement {
    pub stmt: Stmt,
    pub loc: Option<Box<Location>>,
}

impl Statement {
    /// A statement without a source location.
    pub fn new(stmt: Stmt) -> (r: Statement)
        ensures
            r.stmt == stmt,
            r.loc is None,
    {
        Statement { stmt, loc: None }
    }

    /// The same statement, tagged with a source location.
    pub fn with_loc(self, loc: &Location) -> (r: Statement)
        ensures
            r.stmt == self.stmt,
            r.loc matches Some(l) && *l == *loc,
    {
        Statement { stmt: self.stmt, loc: Some(Box::new(*loc)) }
    }
}

#[derive(Debug)]
pub enum Stmt {
    Empty,
    Block(BlockStatement),
    Expr(ExpressionStatement),
    If(Box<IfStatement>),
    Switch(SwitchStatement),
    For(Box<ForStatement>),
    ForIn(Box<ForInStatement>),
    Return(ReturnStatement),
    Break(BreakStatement),
    Continue(ContinueStatement),
    Label(Box<LabelStatement>),
    Throw(ThrowStatement),
    Try(TryStatement),
    Variable(VariableDeclaration),
    Function(FunctionDeclaration),
}

#[derive(Debug)]
pub enum ObjectKey {
    Computed(Expression),
    Identifier(String),
}

#[derive(Debug)]
pub struct ExpressionStatement {
    pub expression: Expression,
}

#[derive(Debug)]
pub struct VariableDeclarator {
    pub name: Pattern,
    pub init: Option<Box<Expression>>,
}

#[derive(Clone, Copy, Debug, PartialEq, Eq, Structural)]
pub enum DeclarationKind {
    Var,
    Let,
    Const,
}

#[derive(Debug)]
pub struct VariableDeclaration {
    pub kind: DeclarationKind,
    pub declarations: Vec<VariableDeclarator>,
}

#[derive(Debug)]
pub struct FunctionDeclaration {
    /// The name the declaration binds; it may differ from `function.func.id`.
    pub id: Identifier,
    pub function: FunctionExpression,
}

#[derive(Debug)]
pub struct BlockStatement {
    pub body: Vec<Statement>,
    /// The block-scoped names the block declares.
    pub bindings: Vec<Identifier>,
}

#[derive(Debug)]
pub struct IfStatement {
    pub test: Expression,
    pub consequent: Statement,
    pub alternate: Option<Statement>,
}

#[derive(Debug)]
pub struct SwitchStatement {
    pub discriminant: Expression,
    pub cases: Vec<SwitchCase>,
}

#[derive(Debug)]
pub struct SwitchCase {
    /// `None` marks the `default` case.
    pub test: Option<Expression>,
    pub consequent: Vec<Statement>,
}

#[derive(Debug)]
pub struct ForStatement {
    /// An empty statement, a variable declaration or an expression statement.
    pub init: Statement,
    pub test: Option<Expression>,
    pub update: Option<Expression>,
    pub body: Statement,
}

#[derive(Debug)]
pub struct ForInStatement {
    pub left: ForInTarget,
    pub right: Expression,
    pub body: Statement,
}

#[derive(Debug)]
pub enum ForInTarget {
    Var(VariableDeclaration),
    Expr(Expression),
}

#[derive(Debug)]
pub struct BreakStatement(pub Option<Identifier>);

#[derive(Debug)]
pub struct ContinueStatement(pub Option<Identifier>);

#[derive(Debug)]
pub struct LabelStatement(pub Identifier, pub Statement);

#[derive(Debug)]
pub struct ReturnStatement(pub Option<Expression>);

#[derive(Debug)]
pub struct ThrowStatement(pub Expression);

#[derive(Debug)]
pub struct TryStatement {
    pub block: BlockStatement,
    pub handler: Option<CatchClause>,
    pub finalizer: Option<BlockStatement>,
}

#[derive(Debug)]
pub struct CatchClause {
    pub param: Pattern,
    pub body: BlockStatement,
}

#[derive(Debug)]
pub struct Expression {
    pub expr: Expr,
    pub loc: Option<Box<Location>>,
}

impl Expression {
    /// An expression without a source location.
    pub fn new(expr: Expr) -> (r: Expression)
        ensures
            r.expr == expr,
            r.loc is None,
    {
        Expression { expr, loc: None }
    }

    /// The same expression, tagged with a source location.
    pub fn with_loc(self, loc: &Location) -> (r: Expression)
        ensures
            r.expr == self.expr,
            r.loc matches Some(l) && *l == *loc,
    {
        Expression { expr: self.expr, loc: Some(Box::new(*loc)) }
    }
}

#[derive(Debug)]
pub enum Expr {
    Literal(Literal),
    Identifier(Identifier),
    BinaryOp(Box<BinaryExpression>),
    LogicalOp(Box<LogicalExpression>),
    Call(Box<CallExpression>),
    Array(ArrayExpression),
    Object(ObjectExpression),
    Member(Box<MemberExpression>),
    Assign(Box<AssignmentExpression>),
    Conditional(Box<ConditionalExpression>),
    Unary(UnaryExpression),
    Update(Box<UpdateExpression>),
    Sequence(SequenceExpression),
    Function(FunctionExpression),
    This,
    New(Box<NewExpression>),
}

/// A copy of an optional label.
pub fn dup_label(label: &Option<Identifier>) -> (r: Option<Identifier>)
    ensures
        r == *label,
{
    match label {
        Some(l) => Some(l.dup()),
        None => None,
    }
}

/// The value a literal denotes.
#[derive(Clone, Debug, PartialEq, Eq)]
pub enum JSON {
    Null,
    Bool(bool),
    Number(Num),
    String(String),
}

#[derive(Clone, Debug, PartialEq, Eq)]
pub struct Literal(pub JSON);

#[derive(Clone, Debug, PartialEq, Eq, Hash)]
pub struct Identifier(pub String);

impl Identifier {
    pub fn as_str(&self) -> (r: &str)
        ensures
            r@ == self.0@,
    {
        self.0.as_str()
    }

    /// A copy of the identifier.
    pub fn dup(&self) -> (r: Identifier)
        ensures
            r == *self,
    {
        Identifier(self.0.clone())
    }

    pub fn from_str(s: &str) -> (r: Identifier)
        ensures
            r.0@ == s@,
    {
        Identifier(String::from_str(s))
    }
}

#[derive(Debug)]
pub struct BinaryExpression(pub Expression, pub BinOp, pub Expression);

#[derive(Debug)]
pub struct LogicalExpression(pub Expression, pub BoolOp, pub Expression);

#[derive(Debug)]
pub struct UnaryExpression(pub UnOp, pub Box<Expression>);

/// The operator, whether it is a prefix, and the target.
#[derive(Debug)]
pub struct UpdateExpression(pub UpdOp, pub bool, pub Expression);

#[derive(Debug)]
pub struct CallExpression(pub Expression, pub Vec<Expression>);

#[derive(Debug)]
pub struct ArrayExpression(pub Vec<Expression>);

#[derive(Debug)]
pub struct ObjectExpression(pub Vec<(ObjectKey, Expression)>);

/// The object, the property, and whether the property is computed (`a[e]`).
#[derive(Debug)]
pub struct MemberExpression(pub Expression, pub Expression, pub bool);

#[derive(Debug)]
pub struct SequenceExpression(pub Vec<Expression>);

#[derive(Debug)]
pub struct AssignmentExpression(pub Expression, pub AssignOp, pub Expression);

#[derive(Debug)]
pub struct ConditionalExpression {
    pub condexpr: Expression,
    pub thenexpr: Expression,
    pub elseexpr: Expression,
}

#[derive(Debug)]
pub struct Function {
    pub id: Option<Identifier>,
    /// The formal parameters, in order.
    pub params: Vec<Pattern>,
    /// The local variables the body declares.
    pub variables: Vec<Identifier>,
    /// The functions the body declares.
    pub functions: Vec<FunctionDeclaration>,
    pub free_variables: Vec<Identifier>,
    pub body: BlockStatement,
    pub is_generator: bool,
    pub is_expression: bool,
    pub is_async: bool,
}

#[derive(Debug)]
pub struct FunctionExpression {
    pub func: Rc<Function>,
}

pub type Pattern = Identifier;

#[derive(Debug)]
pub struct NewExpression(pub Expression, pub Vec<Expression>);

#[derive(Clone, Copy, Debug, PartialEq, Eq, Structural)]
pub enum BinOp {
    Plus,
    Minus,
    Star,
    Slash,
    Percent,
    EqEq,
    NotEq,
    EqEqEq,
    NotEqEq,
    Less,
    Greater,
    LtEq,
    GtEq,
    Pipe,
    Hat,
    Ampersand,
    LtLt,
    GtGt,
    GtGtGt,
    In,
    InstanceOf,
}

#[derive(Clone, Copy, Debug, PartialEq, Eq, Structural)]
pub enum BoolOp {
    And,
    Or,
}

/// `None` for plain `=`, else the operator of a compound assignment.
#[derive(Clone, Copy, Debug, PartialEq, Eq, Structural)]
pub struct AssignOp(pub Option<BinOp>);

#[derive(Clone, Copy, Debug, PartialEq, Eq, Structural)]
pub enum UnOp {
    Exclamation,
    Minus,
    Plus,
    Tilde,
    Typeof,
    Void,
    Delete,
}

#[derive(Clone, Copy, Debug, PartialEq, Eq, Structural)]
pub enum UpdOp {
    Increment,
    Decrement,
}

/// A block of the given statements, declaring nothing of its own.
pub fn block(body: Vec<Statement>) -> (r: BlockStatement)
    ensures
        r.body == body,
        r.bindings@.len() == 0,
{
    BlockStatement { body, bindings: Vec::new() }
}

/// A `var` declaration with one initialised declarator per pair.
pub fn var(decls: Vec<(String, Expression)>) -> (r: VariableDeclaration)
    ensures
        r.kind == DeclarationKind::Var,
        r.declarations@.len() == decls@.len(),
        forall|i: int|
            0 <= i < decls@.len() ==> {
                &&& (#[trigger] r.declarations@[i]).name.0 == decls@[i].0
                &&& r.declarations@[i].init matches Some(e) && *e == decls@[i].1
            },
{
    let mut declarations: Vec<VariableDeclarator> = Vec::new();
    let mut rest = decls;
    let ghost all = rest@;
    let n = rest.len();
    let mut i: usize = 0;
    while i < n
        invariant
            n == all.len(),
            i <= n,
            rest@ == all.subrange(i as int, n as int),
            declarations@.len() == i,
            forall|j: int|
                0 <= j < i ==> {
                    &&& (#[trigger] declarations@[j]).name.0 == all[j].0
                    &&& declarations@[j].init matches Some(e) && *e == all[j].1
                },
        decreases n - i,
    {
        let (name, init) = rest.remove(0);
        declarations.push(VariableDeclarator { name: Identifier(name), init: Some(Box::new(init)) });
        i = i + 1;
        proof {
            assert(rest@ =~= all.subrange(i as int, n as int));
        }
    }
    VariableDeclaration { kind: DeclarationKind::Var, declarations }
}

/// A literal expression.
pub fn lit(value: JSON) -> (r: Expression)
    ensures
        r.expr == Expr::Literal(Literal(value)),
        r.loc is None,
{
    Expression::new(Expr::Literal(Literal(value)))
}

/// A reference to a name.
pub fn id(name: &str) -> (r: Expression)
    ensures
        r.expr matches Expr::Identifier(i) && i.0@ == name@,
        r.loc is None,
{
    Expression::new(Expr::Identifier(Identifier::from_str(name)))
}

/// The sum `left + right`.
pub fn add(left: Expression, right: Expression) -> (r: Expression)
    ensures
        r.expr matches Expr::BinaryOp(b) && b.0 == left && b.1 == BinOp::Plus && b.2 == right,
        r.loc is None,
{
    Expression::new(Expr::BinaryOp(Box::new(BinaryExpression(left, BinOp::Plus, right))))
}

} // verus!
