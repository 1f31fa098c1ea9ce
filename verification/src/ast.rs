//! The syntax tree of the sandbox language.
use vstd::prelude::*;

verus! {

/// A place in the source text.
#[derive(Debug, Clone, Copy)]
pub struct Span {
    pub row: u64,
    pub col: u64,
    pub length: u64,
}

/// A syntax node that may know where it came from.
pub trait ASTNode {
    fn get_callsite(&self) -> Option<Span>;
}

/// A syntax node with its optional source location.
#[derive(Debug)]
pub struct Node<T> {
    pub kind: T,
    pub span: Option<Span>,
}

/// A whole program.
#[derive(Debug)]
pub struct Module {
    pub body: Vec<Node<Stmt>>,
    pub span: Option<Span>,
}

impl ASTNode for Module {
    fn get_callsite(&self) -> (r: Option<Span>)
        ensures
            r == self.span,
    {
        self.span
    }
}

/// A fixed subscript: a list position or an attribute name.
#[derive(Debug, Clone, PartialEq)]
pub enum SubscriptLoad {
    Idx(i64),
    String(String),
}

/// An expression.
#[derive(Debug)]
pub enum Expr {
    Literal(Literal),
    Variable(String),
    BinaryOp { left: Box<Node<Expr>>, op: BinaryOperator, right: Box<Node<Expr>> },
    UnaryOp { op: UnaryOperator, operand: Box<Node<Expr>> },
    Wrapped(Box<Node<Expr>>),
    Call { function: Box<Node<Expr>>, args: Vec<Node<Expr>> },
    Attribute { value: Box<Node<Expr>>, attr: String },
    Subscript { value: Box<Node<Expr>>, slice: SubscriptLoad },
}

/// The target of an assignment.
#[derive(Debug)]
pub enum AssignExpr {
    Variable(String),
    Wrapped(Box<Node<AssignExpr>>),
    Attribute { value: Box<Node<Expr>>, attr: String },
    Subscript { value: Box<Node<Expr>>, slice: SubscriptLoad },
}

/// A literal. A float literal keeps its source digits; its value is computed by the host.
#[derive(Debug, Clone, PartialEq)]
pub enum Literal {
    Int(i64),
    Float(String),
    String(String),
    Bool(bool),
    Nil,
}

/// A binary operator.
#[derive(Debug, Clone, Copy, PartialEq, Eq, Structural)]
pub enum BinaryOperator {
    Add,
    Subtract,
    Multiply,
    Divide,
    And,
    Or,
    Xor,
    Modulo,
    BitwiseAnd,
    BitwiseOr,
    Eq,
    NotEq,
    Lt,
    Lte,
    Gt,
    Gte,
    LeftShift,
    RightShift,
}

/// A unary operator.
#[derive(Debug, Clone, Copy, PartialEq, Eq, Structural)]
pub enum UnaryOperator {
    Positive,
    Negative,
    Not,
}

/// A statement.
#[derive(Debug)]
pub enum Stmt {
    Expression(Node<Expr>),
    Assign { target: Node<AssignExpr>, value: Node<Expr> },
    If { test: Node<Expr>, body: Vec<Node<Stmt>>, otherwise: Option<Vec<Node<Stmt>>> },
    Scoped(Vec<Node<Stmt>>),
    Loop { test: Node<Expr>, body: Vec<Node<Stmt>> },
    FunctionDef { name: String, args: Vec<String>, body: Vec<Node<Stmt>> },
    Return(Option<Node<Expr>>),
}

/// A literal's content.
pub ghost enum GLit {
    Int(i64),
    Float(Seq<char>),
    Str(Seq<char>),
    Bool(bool),
    Nil,
}

/// A subscript's content.
pub ghost enum GSub {
    Idx(i64),
    Name(Seq<char>),
}

/// An expression's content.
pub ghost enum GExpr {
    Lit(GLit),
    Var(Seq<char>),
    Bin(Box<GExpr>, BinaryOperator, Box<GExpr>),
    Un(UnaryOperator, Box<GExpr>),
    Wrap(Box<GExpr>),
    Call(Box<GExpr>, Seq<GExpr>),
    Attr(Box<GExpr>, Seq<char>),
    Index(Box<GExpr>, GSub),
}

/// An assignment target's content.
pub ghost enum GTarget {
    Var(Seq<char>),
    Wrap(Box<GTarget>),
    Attr(GExpr, Seq<char>),
    Index(GExpr, GSub),
}

/// A statement's content.
pub ghost enum GStmt {
    Expr(GExpr),
    Assign(GTarget, GExpr),
    If(GExpr, Seq<GStmt>, Option<Seq<GStmt>>),
    Scoped(Seq<GStmt>),
    Loop(GExpr, Seq<GStmt>),
    Fn(Seq<char>, Seq<Seq<char>>, Seq<GStmt>),
    Return(Option<GExpr>),
}

pub open spec fn lit_view(l: Literal) -> GLit {
    match l {
        Literal::Int(i) => GLit::Int(i),
        Literal::Float(s) => GLit::Float(s@),
        Literal::String(s) => GLit::Str(s@),
        Literal::Bool(b) => GLit::Bool(b),
        Literal::Nil => GLit::Nil,
    }
}

pub open spec fn sub_view(s: SubscriptLoad) -> GSub {
    match s {
        SubscriptLoad::Idx(i) => GSub::Idx(i),
        SubscriptLoad::String(n) => GSub::Name(n@),
    }
}

/// The content of an expression of the tree.
pub open spec fn expr_view(e: Expr) -> GExpr
    decreases e,
{
    match e {
        Expr::Literal(l) => GExpr::Lit(lit_view(l)),
        Expr::Variable(v) => GExpr::Var(v@),
        Expr::BinaryOp { left, op, right } => GExpr::Bin(Box::new(expr_view(left.kind)), op, Box::new(expr_view(right.kind))),
        Expr::UnaryOp { op, operand } => GExpr::Un(op, Box::new(expr_view(operand.kind))),
        Expr::Wrapped(x) => GExpr::Wrap(Box::new(expr_view(x.kind))),
        Expr::Call { function, args } => GExpr::Call(Box::new(expr_view(function.kind)), exprs_view(args@)),
        Expr::Attribute { value, attr } => GExpr::Attr(Box::new(expr_view(value.kind)), attr@),
        Expr::Subscript { value, slice } => GExpr::Index(Box::new(expr_view(value.kind)), sub_view(slice)),
    }
}

/// The contents of a list of expressions.
pub open spec fn exprs_view(s: Seq<Node<Expr>>) -> Seq<GExpr>
    decreases s,
{
    if s.len() == 0 {
        Seq::empty()
    } else {
        exprs_view(s.drop_last()).push(expr_view(s.last().kind))
    }
}

/// The content of an assignment target of the tree.
pub open spec fn target_view(t: AssignExpr) -> GTarget
    decreases t,
{
    match t {
        AssignExpr::Variable(v) => GTarget::Var(v@),
        AssignExpr::Wrapped(x) => GTarget::Wrap(Box::new(target_view(x.kind))),
        AssignExpr::Attribute { value, attr } => GTarget::Attr(expr_view(value.kind), attr@),
        AssignExpr::Subscript { value, slice } => GTarget::Index(expr_view(value.kind), sub_view(slice)),
    }
}

/// The names of a list of strings.
pub open spec fn names_view(s: Seq<String>) -> Seq<Seq<char>> {
    s.map_values(|n: String| n@)
}

/// The content of a statement of the tree.
pub open spec fn stmt_view(s: Stmt) -> GStmt
    decreases s,
{
    match s {
        Stmt::Expression(e) => GStmt::Expr(expr_view(e.kind)),
        Stmt::Assign { target, value } => GStmt::Assign(target_view(target.kind), expr_view(value.kind)),
        Stmt::If { test, body, otherwise } => GStmt::If(
            expr_view(test.kind),
            stmts_view(body@),
            match otherwise {
                Some(o) => Some(stmts_view(o@)),
                None => None,
            },
        ),
        Stmt::Scoped(body) => GStmt::Scoped(stmts_view(body@)),
        Stmt::Loop { test, body } => GStmt::Loop(expr_view(test.kind), stmts_view(body@)),
        Stmt::FunctionDef { name, args, body } => GStmt::Fn(name@, names_view(args@), stmts_view(body@)),
        Stmt::Return(v) => GStmt::Return(match v {
            Some(e) => Some(expr_view(e.kind)),
            None => None,
        }),
    }
}

/// The contents of a list of statements.
pub open spec fn stmts_view(s: Seq<Node<Stmt>>) -> Seq<GStmt>
    decreases s,
{
    if s.len() == 0 {
        Seq::empty()
    } else {
        stmts_view(s.drop_last()).push(stmt_view(s.last().kind))
    }
}

/// Every node below this expression carries no source location.
pub open spec fn spanless_expr(e: Expr) -> bool
    decreases e,
{
    match e {
        Expr::Literal(_) => true,
        Expr::Variable(_) => true,
        Expr::BinaryOp { left, op, right } => left.span is None && spanless_expr(left.kind) && right.span is None
            && spanless_expr(right.kind),
        Expr::UnaryOp { op, operand } => operand.span is None && spanless_expr(operand.kind),
        Expr::Wrapped(x) => x.span is None && spanless_expr(x.kind),
        Expr::Call { function, args } => function.span is None && spanless_expr(function.kind) && spanless_exprs(args@),
        Expr::Attribute { value, attr } => value.span is None && spanless_expr(value.kind),
        Expr::Subscript { value, slice } => value.span is None && spanless_expr(value.kind),
    }
}

/// Every node of these expressions carries no source location.
pub open spec fn spanless_exprs(s: Seq<Node<Expr>>) -> bool
    decreases s,
{
    if s.len() == 0 {
        true
    } else {
        spanless_exprs(s.drop_last()) && s.last().span is None && spanless_expr(s.last().kind)
    }
}

/// Every node below this assignment target carries no source location.
pub open spec fn spanless_target(t: AssignExpr) -> bool
    decreases t,
{
    match t {
        AssignExpr::Variable(_) => true,
        AssignExpr::Wrapped(x) => x.span is None && spanless_target(x.kind),
        AssignExpr::Attribute { value, attr } => value.span is None && spanless_expr(value.kind),
        AssignExpr::Subscript { value, slice } => value.span is None && spanless_expr(value.kind),
    }
}

/// Every node below this statement carries no source location.
pub open spec fn spanless_stmt(s: Stmt) -> bool
    decreases s,
{
    match s {
        Stmt::Expression(e) => e.span is None && spanless_expr(e.kind),
        Stmt::Assign { target, value } => target.span is None && spanless_target(target.kind) && value.span is None
            && spanless_expr(value.kind),
        Stmt::If { test, body, otherwise } => test.span is None && spanless_expr(test.kind) && spanless_stmts(body@)
            && match otherwise {
                Some(o) => spanless_stmts(o@),
                None => true,
            },
        Stmt::Scoped(body) => spanless_stmts(body@),
        Stmt::Loop { test, body } => test.span is None && spanless_expr(test.kind) && spanless_stmts(body@),
        Stmt::FunctionDef { name, args, body } => spanless_stmts(body@),
        Stmt::Return(v) => match v {
            Some(e) => e.span is None && spanless_expr(e.kind),
            None => true,
        },
    }
}

/// Every node of these statements carries no source location.
pub open spec fn spanless_stmts(s: Seq<Node<Stmt>>) -> bool
    decreases s,
{
    if s.len() == 0 {
        true
    } else {
        spanless_stmts(s.drop_last()) && s.last().span is None && spanless_stmt(s.last().kind)
    }
}

} // verus!
