//! The syntax tree as the parser reads it, and its conversion into the tree
//! that is compiled.
//!
//! The two trees hold the same content: conversion renames parenthesized atoms
//! to wrapped expressions and attaches no source locations.
use vstd::prelude::*;
use crate::ast::{
    self, BinaryOperator, GExpr, GStmt, GTarget, Literal, Node, SubscriptLoad, UnaryOperator, expr_view,
    exprs_view, lit_view, names_view, stmt_view, stmts_view, sub_view, target_view, spanless_expr, spanless_exprs,
    spanless_target, spanless_stmt, spanless_stmts,
};

verus! {

/// An assignment operator: plain, or compound with a binary operator.
#[derive(Debug, Copy, Clone, PartialEq, Eq, Structural)]
pub enum AssignOp {
    Assign,
    Add,
    Sub,
    Mul,
    Div,
    Mod,
    BitAnd,
    BitOr,
    BitXor,
    Shl,
    Shr,
}

/// An operand that needs no operator.
#[derive(Debug)]
pub enum Atom {
    Literal(Literal),
    Variable(String),
    Paren(Box<Expr>),
}

/// An expression as read.
#[derive(Debug)]
pub enum Expr {
    Atom(Atom),
    Binary(Box<Expr>, BinaryOperator, Box<Expr>),
    Unary(UnaryOperator, Box<Expr>),
    Call(Box<Expr>, Vec<Expr>),
    Subscript(Box<Expr>, SubscriptLoad),
    Attr(Box<Expr>, String),
}

/// What can be assigned to.
#[derive(Debug)]
pub enum AssignExpr {
    Variable(String),
    Paren(Box<AssignExpr>),
    Subscript(Box<Expr>, SubscriptLoad),
    Attr(Box<Expr>, String),
}

/// Statements between braces.
#[derive(Debug)]
pub struct Block {
    pub stmts: Vec<Stmt>,
}

/// A statement as read. `Return` occurs only inside function bodies.
#[derive(Debug)]
pub enum Stmt {
    Expr(Expr),
    Assign { target: AssignExpr, value: Expr },
    If { test: Expr, body: Block, otherwise: Option<Block> },
    Scoped(Block),
    Loop { test: Expr, body: Block },
    Fn { name: String, args: Vec<String>, body: Block },
    Return(Option<Expr>),
}

/// A whole program as read.
#[derive(Debug)]
pub struct TopLevelBlock {
    pub stmts: Vec<Stmt>,
}

/// The content of an expression as read.
pub open spec fn syn_expr_view(e: Expr) -> GExpr
    decreases e,
{
    match e {
        Expr::Atom(Atom::Literal(l)) => GExpr::Lit(lit_view(l)),
        Expr::Atom(Atom::Variable(v)) => GExpr::Var(v@),
        Expr::Atom(Atom::Paren(x)) => GExpr::Wrap(Box::new(syn_expr_view(*x))),
        Expr::Binary(l, op, r) => GExpr::Bin(Box::new(syn_expr_view(*l)), op, Box::new(syn_expr_view(*r))),
        Expr::Unary(op, x) => GExpr::Un(op, Box::new(syn_expr_view(*x))),
        Expr::Call(f, args) => GExpr::Call(Box::new(syn_expr_view(*f)), syn_exprs_view(args@)),
        Expr::Subscript(v, s) => GExpr::Index(Box::new(syn_expr_view(*v)), sub_view(s)),
        Expr::Attr(v, a) => GExpr::Attr(Box::new(syn_expr_view(*v)), a@),
    }
}

/// The contents of expressions as read.
pub open spec fn syn_exprs_view(s: Seq<Expr>) -> Seq<GExpr>
    decreases s,
{
    if s.len() == 0 {
        Seq::empty()
    } else {
        syn_exprs_view(s.drop_last()).push(syn_expr_view(s.last()))
    }
}

/// The content of an assignment target as read.
pub open spec fn syn_target_view(t: AssignExpr) -> GTarget
    decreases t,
{
    match t {
        AssignExpr::Variable(v) => GTarget::Var(v@),
        AssignExpr::Paren(x) => GTarget::Wrap(Box::new(syn_target_view(*x))),
        AssignExpr::Subscript(v, s) => GTarget::Index(syn_expr_view(*v), sub_view(s)),
        AssignExpr::Attr(v, a) => GTarget::Attr(syn_expr_view(*v), a@),
    }
}

/// The content of a statement as read.
pub open spec fn syn_stmt_view(s: Stmt) -> GStmt
    decreases s,
{
    match s {
        Stmt::Expr(e) => GStmt::Expr(syn_expr_view(e)),
        Stmt::Assign { target, value } => GStmt::Assign(syn_target_view(target), syn_expr_view(value)),
        Stmt::If { test, body, otherwise } => GStmt::If(
            syn_expr_view(test),
            syn_stmts_view(body.stmts@),
            match otherwise {
                Some(o) => Some(syn_stmts_view(o.stmts@)),
                None => None,
            },
        ),
        Stmt::Scoped(b) => GStmt::Scoped(syn_stmts_view(b.stmts@)),
        Stmt::Loop { test, body } => GStmt::Loop(syn_expr_view(test), syn_stmts_view(body.stmts@)),
        Stmt::Fn { name, args, body } => GStmt::Fn(name@, names_view(args@), syn_stmts_view(body.stmts@)),
        Stmt::Return(v) => GStmt::Return(match v {
            Some(e) => Some(syn_expr_view(e)),
            None => None,
        }),
    }
}

/// The contents of statements as read.
pub open spec fn syn_stmts_view(s: Seq<Stmt>) -> Seq<GStmt>
    decreases s,
{
    if s.len() == 0 {
        Seq::empty()
    } else {
        syn_stmts_view(s.drop_last()).push(syn_stmt_view(s.last()))
    }
}

/// The binary operator of a compound assignment.
pub open spec fn assign_bin(op: AssignOp) -> Option<BinaryOperator> {
    match op {
        AssignOp::Assign => None,
        AssignOp::Add => Some(BinaryOperator::Add),
        AssignOp::Sub => Some(BinaryOperator::Subtract),
        AssignOp::Mul => Some(BinaryOperator::Multiply),
        AssignOp::Div => Some(BinaryOperator::Divide),
        AssignOp::Mod => Some(BinaryOperator::Modulo),
        AssignOp::BitAnd => Some(BinaryOperator::BitwiseAnd),
        AssignOp::BitOr => Some(BinaryOperator::BitwiseOr),
        AssignOp::BitXor => Some(BinaryOperator::Xor),
        AssignOp::Shl => Some(BinaryOperator::LeftShift),
        AssignOp::Shr => Some(BinaryOperator::RightShift),
    }
}

/// How tightly a prefix operator binds its operand: tighter than any infix
/// operator, so `-a + b` reads as `(-a) + b`.
pub open spec fn prefix_bp(op: UnaryOperator) -> u8 {
    21
}

/// How tightly an infix operator binds to its left and to its right.
pub open spec fn infix_bp(op: BinaryOperator) -> (u8, u8) {
    match op {
        BinaryOperator::Or => (1, 2),
        BinaryOperator::And => (3, 4),
        BinaryOperator::Eq | BinaryOperator::NotEq => (5, 6),
        BinaryOperator::Lt | BinaryOperator::Lte | BinaryOperator::Gt | BinaryOperator::Gte => (7, 8),
        BinaryOperator::BitwiseOr => (9, 10),
        BinaryOperator::Xor => (11, 12),
        BinaryOperator::BitwiseAnd => (13, 14),
        BinaryOperator::LeftShift | BinaryOperator::RightShift => (15, 16),
        BinaryOperator::Add | BinaryOperator::Subtract => (17, 18),
        BinaryOperator::Multiply | BinaryOperator::Divide | BinaryOperator::Modulo => (19, 20),
    }
}

/// The precedence level of a binary operator, as in Rust: multiplicative over
/// additive over shifts over `&` over `^` over `|` over comparisons over
/// equality over `&&` over `||`.
pub open spec fn precedence_level(op: BinaryOperator) -> int {
    match op {
        BinaryOperator::Multiply | BinaryOperator::Divide | BinaryOperator::Modulo => 10,
        BinaryOperator::Add | BinaryOperator::Subtract => 9,
        BinaryOperator::LeftShift | BinaryOperator::RightShift => 8,
        BinaryOperator::BitwiseAnd => 7,
        BinaryOperator::Xor => 6,
        BinaryOperator::BitwiseOr => 5,
        BinaryOperator::Lt | BinaryOperator::Lte | BinaryOperator::Gt | BinaryOperator::Gte => 4,
        BinaryOperator::Eq | BinaryOperator::NotEq => 3,
        BinaryOperator::And => 2,
        BinaryOperator::Or => 1,
    }
}

/// Binary operators associate to the left and respect precedence: an operator
/// of a higher level binds its left operand tighter than one of a lower level
/// binds its right operand, and of two operators of one level the first one
/// takes the operand between them, so `a - b - c` is `(a - b) - c`.
pub proof fn law_binary_precedence(a: BinaryOperator, b: BinaryOperator)
    ensures
        infix_bp(a).0 < infix_bp(a).1,
        precedence_level(a) == precedence_level(b) ==> infix_bp(b).0 < infix_bp(a).1,
        precedence_level(a) > precedence_level(b) ==> infix_bp(a).0 > infix_bp(b).1,
{
}

/// A prefix operator binds tighter than every infix operator.
pub proof fn law_prefix_binds_tightest(u: UnaryOperator, b: BinaryOperator)
    ensures
        prefix_bp(u) > infix_bp(b).0,
        prefix_bp(u) > infix_bp(b).1,
{
}

/// The binary operator of a compound assignment; `None` for a plain one.
pub fn map_assign_op_to_binary_op(op: AssignOp) -> (r: Option<BinaryOperator>)
    ensures
        r == assign_bin(op),
{
    match op {
        AssignOp::Assign => None,
        AssignOp::Add => Some(BinaryOperator::Add),
        AssignOp::Sub => Some(BinaryOperator::Subtract),
        AssignOp::Mul => Some(BinaryOperator::Multiply),
        AssignOp::Div => Some(BinaryOperator::Divide),
        AssignOp::Mod => Some(BinaryOperator::Modulo),
        AssignOp::BitAnd => Some(BinaryOperator::BitwiseAnd),
        AssignOp::BitOr => Some(BinaryOperator::BitwiseOr),
        AssignOp::BitXor => Some(BinaryOperator::Xor),
        AssignOp::Shl => Some(BinaryOperator::LeftShift),
        AssignOp::Shr => Some(BinaryOperator::RightShift),
    }
}

/// How tightly a prefix operator binds its operand.
pub fn prefix_binding_power(op: &UnaryOperator) -> (r: u8)
    ensures
        r == prefix_bp(*op),
{
    match op {
        UnaryOperator::Not => 21,
        UnaryOperator::Negative | UnaryOperator::Positive => 21,
    }
}

/// How tightly an infix operator binds to its left and to its right.
pub fn infix_binding_power(op: &BinaryOperator) -> (r: (u8, u8))
    ensures
        r == infix_bp(*op),
{
    match op {
        BinaryOperator::Or => (1, 2),
        BinaryOperator::And => (3, 4),
        BinaryOperator::Eq | BinaryOperator::NotEq => (5, 6),
        BinaryOperator::Lt | BinaryOperator::Lte | BinaryOperator::Gt | BinaryOperator::Gte => (7, 8),
        BinaryOperator::BitwiseOr => (9, 10),
        BinaryOperator::Xor => (11, 12),
        BinaryOperator::BitwiseAnd => (13, 14),
        BinaryOperator::LeftShift | BinaryOperator::RightShift => (15, 16),
        BinaryOperator::Add | BinaryOperator::Subtract => (17, 18),
        BinaryOperator::Multiply | BinaryOperator::Divide | BinaryOperator::Modulo => (19, 20),
    }
}

/// A literal's copy.
pub fn copy_literal(l: &Literal) -> (r: Literal)
    ensures
        lit_view(r) == lit_view(*l),
{
    match l {
        Literal::Int(i) => Literal::Int(*i),
        Literal::Float(s) => Literal::Float(s.clone()),
        Literal::String(s) => Literal::String(s.clone()),
        Literal::Bool(b) => Literal::Bool(*b),
        Literal::Nil => Literal::Nil,
    }
}

/// A subscript's copy.
pub fn copy_sub(s: &SubscriptLoad) -> (r: SubscriptLoad)
    ensures
        sub_view(r) == sub_view(*s),
{
    match s {
        SubscriptLoad::Idx(i) => SubscriptLoad::Idx(*i),
        SubscriptLoad::String(n) => SubscriptLoad::String(n.clone()),
    }
}

/// A copy of an expression as read.
pub fn copy_expr(e: &Expr) -> (r: Expr)
    ensures
        syn_expr_view(r) == syn_expr_view(*e),
    decreases e,
{
    match e {
        Expr::Atom(Atom::Literal(l)) => Expr::Atom(Atom::Literal(copy_literal(l))),
        Expr::Atom(Atom::Variable(v)) => Expr::Atom(Atom::Variable(v.clone())),
        Expr::Atom(Atom::Paren(x)) => Expr::Atom(Atom::Paren(Box::new(copy_expr(x)))),
        Expr::Binary(l, op, r) => Expr::Binary(Box::new(copy_expr(l)), *op, Box::new(copy_expr(r))),
        Expr::Unary(op, x) => Expr::Unary(*op, Box::new(copy_expr(x))),
        Expr::Call(f, args) => {
            let f2 = copy_expr(f);
            let a2 = copy_exprs(args);
            Expr::Call(Box::new(f2), a2)
        },
        Expr::Subscript(v, s) => Expr::Subscript(Box::new(copy_expr(v)), copy_sub(s)),
        Expr::Attr(v, a) => Expr::Attr(Box::new(copy_expr(v)), a.clone()),
    }
}

/// Copies of expressions as read.
pub fn copy_exprs(v: &Vec<Expr>) -> (r: Vec<Expr>)
    ensures
        syn_exprs_view(r@) == syn_exprs_view(v@),
    decreases v@,
{
    let mut r: Vec<Expr> = Vec::new();
    let mut i: usize = 0;
    while i < v.len()
        invariant
            i <= v@.len(),
            syn_exprs_view(r@) == syn_exprs_view(v@.subrange(0, i as int)),
        decreases v@.len() - i,
    {
        let x = copy_expr(&v[i]);
        let ghost before = r@;
        r.push(x);
        proof {
            assert(r@.drop_last() =~= before);
            assert(v@.subrange(0, i as int + 1).drop_last() =~= v@.subrange(0, i as int));
        }
        i = i + 1;
    }
    assert(v@.subrange(0, v@.len() as int) =~= v@);
    r
}

/// The expression that reads an assignment target.
pub fn target_to_expr(t: &AssignExpr) -> (r: Expr)
    ensures
        syn_expr_view(r) == target_expr(syn_target_view(*t)),
    decreases t,
{
    match t {
        AssignExpr::Variable(v) => Expr::Atom(Atom::Variable(v.clone())),
        AssignExpr::Paren(x) => Expr::Atom(Atom::Paren(Box::new(target_to_expr(x)))),
        AssignExpr::Subscript(v, s) => Expr::Subscript(Box::new(copy_expr(v)), copy_sub(s)),
        AssignExpr::Attr(v, a) => Expr::Attr(Box::new(copy_expr(v)), a.clone()),
    }
}

/// The expression that reads an assignment target.
pub open spec fn target_expr(t: GTarget) -> GExpr
    decreases t,
{
    match t {
        GTarget::Var(v) => GExpr::Var(v),
        GTarget::Wrap(x) => GExpr::Wrap(Box::new(target_expr(*x))),
        GTarget::Attr(e, a) => GExpr::Attr(Box::new(e), a),
        GTarget::Index(e, s) => GExpr::Index(Box::new(e), s),
    }
}

/// The assignment target an expression denotes, if it denotes one.
pub open spec fn to_target(e: GExpr) -> Option<GTarget>
    decreases e,
{
    match e {
        GExpr::Var(v) => Some(GTarget::Var(v)),
        GExpr::Wrap(x) => match to_target(*x) {
            Some(t) => Some(GTarget::Wrap(Box::new(t))),
            None => None,
        },
        GExpr::Attr(b, a) => Some(GTarget::Attr(*b, a)),
        GExpr::Index(b, s) => Some(GTarget::Index(*b, s)),
        _ => None,
    }
}

/// The assignment target an expression denotes; the expression back when it denotes none.
pub fn expr_to_target(e: Expr) -> (r: Result<AssignExpr, Expr>)
    ensures
        match r {
            Ok(t) => to_target(syn_expr_view(e)) == Some(syn_target_view(t)),
            Err(_) => to_target(syn_expr_view(e)) is None,
        },
    decreases e,
{
    match e {
        Expr::Atom(Atom::Variable(v)) => Ok(AssignExpr::Variable(v)),
        Expr::Atom(Atom::Paren(x)) => match expr_to_target(*x) {
            Ok(t) => Ok(AssignExpr::Paren(Box::new(t))),
            Err(x) => Err(Expr::Atom(Atom::Paren(Box::new(x)))),
        },
        Expr::Subscript(v, s) => Ok(AssignExpr::Subscript(v, s)),
        Expr::Attr(v, a) => Ok(AssignExpr::Attr(v, a)),
        other => Err(other),
    }
}

/// The compiled tree of an expression as read.
pub fn convert_expr(expr: Expr) -> (r: Node<ast::Expr>)
    ensures
        expr_view(r.kind) == syn_expr_view(expr),
        r.span is None,
        spanless_expr(r.kind),
    decreases expr,
{
    let kind = match expr {
        Expr::Atom(Atom::Literal(l)) => ast::Expr::Literal(l),
        Expr::Atom(Atom::Variable(v)) => ast::Expr::Variable(v),
        Expr::Atom(Atom::Paren(x)) => ast::Expr::Wrapped(Box::new(convert_expr(*x))),
        Expr::Binary(l, op, r) => ast::Expr::BinaryOp {
            left: Box::new(convert_expr(*l)),
            op,
            right: Box::new(convert_expr(*r)),
        },
        Expr::Unary(op, x) => ast::Expr::UnaryOp { op, operand: Box::new(convert_expr(*x)) },
        Expr::Call(f, args) => {
            let function = Box::new(convert_expr(*f));
            let args = convert_exprs(args);
            ast::Expr::Call { function, args }
        },
        Expr::Subscript(v, s) => ast::Expr::Subscript { value: Box::new(convert_expr(*v)), slice: s },
        Expr::Attr(v, a) => ast::Expr::Attribute { value: Box::new(convert_expr(*v)), attr: a },
    };
    Node { kind, span: None }
}

/// The compiled trees of expressions as read.
fn convert_exprs(v: Vec<Expr>) -> (r: Vec<Node<ast::Expr>>)
    ensures
        exprs_view(r@) == syn_exprs_view(v@),
        spanless_exprs(r@),
    decreases v@,
{
    let mut v = v;
    let ghost whole = v@;
    match v.pop() {
        None => {
            let r: Vec<Node<ast::Expr>> = Vec::new();
            assert(r@ =~= Seq::<Node<ast::Expr>>::empty());
            r
        },
        Some(last) => {
            assert(whole == v@.push(last));
            assert(whole.drop_last() =~= v@);
            let mut r = convert_exprs(v);
            let ghost before = r@;
            r.push(convert_expr(last));
            assert(r@.drop_last() =~= before);
            r
        },
    }
}

/// The compiled tree of an assignment target as read.
pub fn convert_assign_expr(expr: AssignExpr) -> (r: Node<ast::AssignExpr>)
    ensures
        target_view(r.kind) == syn_target_view(expr),
        r.span is None,
        spanless_target(r.kind),
    decreases expr,
{
    let kind = match expr {
        AssignExpr::Variable(v) => ast::AssignExpr::Variable(v),
        AssignExpr::Paren(x) => ast::AssignExpr::Wrapped(Box::new(convert_assign_expr(*x))),
        AssignExpr::Subscript(v, s) => ast::AssignExpr::Subscript { value: Box::new(convert_expr(*v)), slice: s },
        AssignExpr::Attr(v, a) => ast::AssignExpr::Attribute { value: Box::new(convert_expr(*v)), attr: a },
    };
    Node { kind, span: None }
}

/// The compiled tree of a statement as read.
pub fn convert_stmt(stmt: Stmt) -> (r: Node<ast::Stmt>)
    ensures
        stmt_view(r.kind) == syn_stmt_view(stmt),
        r.span is None,
        spanless_stmt(r.kind),
    decreases stmt,
{
    let kind = match stmt {
        Stmt::Expr(e) => ast::Stmt::Expression(convert_expr(e)),
        Stmt::Assign { target, value } => ast::Stmt::Assign {
            target: convert_assign_expr(target),
            value: convert_expr(value),
        },
        Stmt::If { test, body, otherwise } => {
            let test = convert_expr(test);
            let body = convert_stmts(body.stmts);
            let otherwise = match otherwise {
                Some(o) => Some(convert_stmts(o.stmts)),
                None => None,
            };
            ast::Stmt::If { test, body, otherwise }
        },
        Stmt::Scoped(b) => ast::Stmt::Scoped(convert_stmts(b.stmts)),
        Stmt::Loop { test, body } => {
            let test = convert_expr(test);
            let body = convert_stmts(body.stmts);
            ast::Stmt::Loop { test, body }
        },
        Stmt::Fn { name, args, body } => {
            let body = convert_stmts(body.stmts);
            ast::Stmt::FunctionDef { name, args, body }
        },
        Stmt::Return(v) => ast::Stmt::Return(
            match v {
                Some(e) => Some(convert_expr(e)),
                None => None,
            },
        ),
    };
    Node { kind, span: None }
}

/// The compiled trees of statements as read.
pub fn convert_stmts(v: Vec<Stmt>) -> (r: Vec<Node<ast::Stmt>>)
    ensures
        stmts_view(r@) == syn_stmts_view(v@),
        spanless_stmts(r@),
    decreases v@,
{
    let mut v = v;
    let ghost whole = v@;
    match v.pop() {
        None => {
            let r: Vec<Node<ast::Stmt>> = Vec::new();
            assert(r@ =~= Seq::<Node<ast::Stmt>>::empty());
            r
        },
        Some(last) => {
            assert(whole == v@.push(last));
            assert(whole.drop_last() =~= v@);
            let mut r = convert_stmts(v);
            let ghost before = r@;
            r.push(convert_stmt(last));
            assert(r@.drop_last() =~= before);
            r
        },
    }
}

} // verus!
