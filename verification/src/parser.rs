//! Reading a token list as a program.
//!
//! Statements end with `;`, except `if`, `while` and `fn`, whose bodies are
//! blocks; a braced block used as a statement is followed by `;`. An assignment
//! is an assignable expression, an assignment operator, an expression and `;`;
//! `a op= b` stands for `a = a op b`. `return` is a statement only inside a
//! function body (and not in a braced block there). Expressions are read by
//! precedence climbing: `!` and `-` bind with power 9, binary operators by
//! `infix_bp`, and calls `f(..)`, attributes `a.b` and subscripts `a[1]`,
//! `a[-1]`, `a["k"]` bind tightest.
use vstd::prelude::*;
use crate::ast::{
    BinaryOperator, GExpr, GLit, GStmt, GSub, GTarget, Literal, Module, SubscriptLoad, UnaryOperator, names_view,
    stmts_view, sub_view,
};
use crate::lexer::{Keyword, ParseError, Punct, Token, TokenView, lex, lex_spec, tokens_view};
use crate::syntax::{
    AssignOp, Atom, Block, Expr, Stmt, TopLevelBlock, assign_bin, convert_stmts, expr_to_target, infix_binding_power,
    infix_bp, map_assign_op_to_binary_op, prefix_binding_power, prefix_bp, syn_expr_view, syn_exprs_view, syn_stmt_view,
    syn_stmts_view, target_expr, target_to_expr, to_target,
};

verus! {

/// The token at `i`, if any.
pub open spec fn tok(ts: Seq<TokenView>, i: int) -> Option<TokenView> {
    if 0 <= i < ts.len() {
        Some(ts[i])
    } else {
        None
    }
}

/// The token at `i` is the operator or delimiter `p`.
pub open spec fn is_punct(ts: Seq<TokenView>, i: int, p: Punct) -> bool {
    tok(ts, i) == Some(TokenView::Punct(p))
}

/// The token at `i` is the keyword `k`.
pub open spec fn is_kw(ts: Seq<TokenView>, i: int, k: Keyword) -> bool {
    tok(ts, i) == Some(TokenView::Keyword(k))
}

/// A syntax error at token `i`.
pub open spec fn err_at(i: int) -> ParseError {
    ParseError::SyntaxError(i as usize)
}

/// The binary operator a token stands for.
pub open spec fn infix_of(p: Punct) -> Option<BinaryOperator> {
    match p {
        Punct::AndAnd => Some(BinaryOperator::And),
        Punct::OrOr => Some(BinaryOperator::Or),
        Punct::EqEq => Some(BinaryOperator::Eq),
        Punct::Ne => Some(BinaryOperator::NotEq),
        Punct::Le => Some(BinaryOperator::Lte),
        Punct::Ge => Some(BinaryOperator::Gte),
        Punct::Shl => Some(BinaryOperator::LeftShift),
        Punct::Shr => Some(BinaryOperator::RightShift),
        Punct::Lt => Some(BinaryOperator::Lt),
        Punct::Gt => Some(BinaryOperator::Gt),
        Punct::Plus => Some(BinaryOperator::Add),
        Punct::Minus => Some(BinaryOperator::Subtract),
        Punct::Star => Some(BinaryOperator::Multiply),
        Punct::Slash => Some(BinaryOperator::Divide),
        Punct::Percent => Some(BinaryOperator::Modulo),
        Punct::Amp => Some(BinaryOperator::BitwiseAnd),
        Punct::Pipe => Some(BinaryOperator::BitwiseOr),
        Punct::Caret => Some(BinaryOperator::Xor),
        _ => None,
    }
}

/// The binary operator at token `i`, if any.
pub open spec fn infix_at(ts: Seq<TokenView>, i: int) -> Option<BinaryOperator> {
    match tok(ts, i) {
        Some(TokenView::Punct(p)) => infix_of(p),
        _ => None,
    }
}

/// The assignment operator a token stands for.
pub open spec fn assign_op_of(p: Punct) -> Option<AssignOp> {
    match p {
        Punct::Assign => Some(AssignOp::Assign),
        Punct::PlusEq => Some(AssignOp::Add),
        Punct::MinusEq => Some(AssignOp::Sub),
        Punct::StarEq => Some(AssignOp::Mul),
        Punct::SlashEq => Some(AssignOp::Div),
        Punct::PercentEq => Some(AssignOp::Mod),
        Punct::AmpEq => Some(AssignOp::BitAnd),
        Punct::PipeEq => Some(AssignOp::BitOr),
        Punct::CaretEq => Some(AssignOp::BitXor),
        Punct::ShlEq => Some(AssignOp::Shl),
        Punct::ShrEq => Some(AssignOp::Shr),
        _ => None,
    }
}

/// The assignment operator at token `i`, if any.
pub open spec fn assign_op_at(ts: Seq<TokenView>, i: int) -> Option<AssignOp> {
    match tok(ts, i) {
        Some(TokenView::Punct(p)) => assign_op_of(p),
        _ => None,
    }
}

/// The value assigned by `t op= v`.
pub open spec fn desugar(op: AssignOp, t: GTarget, v: GExpr) -> GExpr {
    match assign_bin(op) {
        None => v,
        Some(b) => GExpr::Bin(Box::new(target_expr(t)), b, Box::new(v)),
    }
}

/// A parse of an expression: the expression and the position after it.
pub type ExprParse = Result<(GExpr, int), ParseError>;

/// The expression at `pos` whose binary operators bind at least `min_bp`.
pub open spec fn expr_at(ts: Seq<TokenView>, pos: int, min_bp: u8) -> ExprParse
    decreases ts.len() - pos, 3int,
{
    if pos < 0 || pos > ts.len() {
        Err(err_at(pos))
    } else {
        let first = if is_punct(ts, pos, Punct::Bang) {
            match expr_at(ts, pos + 1, prefix_bp(UnaryOperator::Not)) {
                Ok((r, p)) => Ok((GExpr::Un(UnaryOperator::Not, Box::new(r)), p)),
                Err(e) => Err(e),
            }
        } else if is_punct(ts, pos, Punct::Minus) {
            match expr_at(ts, pos + 1, prefix_bp(UnaryOperator::Negative)) {
                Ok((r, p)) => Ok((GExpr::Un(UnaryOperator::Negative, Box::new(r)), p)),
                Err(e) => Err(e),
            }
        } else {
            primary_at(ts, pos)
        };
        match first {
            Err(e) => Err(e),
            Ok((lhs, p)) => if pos < p <= ts.len() {
                infix_loop(ts, p, min_bp, lhs)
            } else {
                Err(err_at(pos))
            },
        }
    }
}

/// Binary operators binding at least `min_bp` applied to `lhs`, from `p` on.
pub open spec fn infix_loop(ts: Seq<TokenView>, p: int, min_bp: u8, lhs: GExpr) -> ExprParse
    decreases ts.len() - p, 3int,
{
    if p < 0 || p > ts.len() {
        Err(err_at(p))
    } else {
        match infix_at(ts, p) {
            Some(op) => if infix_bp(op).0 >= min_bp {
                match expr_at(ts, p + 1, infix_bp(op).1) {
                    Err(e) => Err(e),
                    Ok((rhs, q)) => if p < q <= ts.len() {
                        infix_loop(ts, q, min_bp, GExpr::Bin(Box::new(lhs), op, Box::new(rhs)))
                    } else {
                        Err(err_at(p))
                    },
                }
            } else {
                Ok((lhs, p))
            },
            None => Ok((lhs, p)),
        }
    }
}

/// A literal, a variable or a parenthesized expression at `pos`, with its calls,
/// attributes and subscripts.
pub open spec fn primary_at(ts: Seq<TokenView>, pos: int) -> ExprParse
    decreases ts.len() - pos, 2int,
{
    if pos < 0 || pos >= ts.len() {
        Err(err_at(pos))
    } else {
        match ts[pos] {
            TokenView::Int(i) => postfix_at(ts, pos + 1, GExpr::Lit(GLit::Int(i))),
            TokenView::Float(f) => postfix_at(ts, pos + 1, GExpr::Lit(GLit::Float(f))),
            TokenView::Str(s) => postfix_at(ts, pos + 1, GExpr::Lit(GLit::Str(s))),
            TokenView::Keyword(Keyword::True) => postfix_at(ts, pos + 1, GExpr::Lit(GLit::Bool(true))),
            TokenView::Keyword(Keyword::False) => postfix_at(ts, pos + 1, GExpr::Lit(GLit::Bool(false))),
            TokenView::Keyword(Keyword::NoneLit) => postfix_at(ts, pos + 1, GExpr::Lit(GLit::Nil)),
            TokenView::Ident(n) => postfix_at(ts, pos + 1, GExpr::Var(n)),
            TokenView::Punct(Punct::LParen) => match expr_at(ts, pos + 1, 0) {
                Err(e) => Err(e),
                Ok((x, p)) => if pos < p < ts.len() && is_punct(ts, p, Punct::RParen) {
                    postfix_at(ts, p + 1, GExpr::Wrap(Box::new(x)))
                } else {
                    Err(err_at(p))
                },
            },
            _ => Err(err_at(pos)),
        }
    }
}

/// Calls, attributes and subscripts applied to `base`, from `p` on.
pub open spec fn postfix_at(ts: Seq<TokenView>, p: int, base: GExpr) -> ExprParse
    decreases ts.len() - p, 1int,
{
    if p < 0 || p > ts.len() {
        Err(err_at(p))
    } else if is_punct(ts, p, Punct::LParen) {
        match args_at(ts, p + 1, Seq::empty()) {
            Err(e) => Err(e),
            Ok((args, q)) => if p < q <= ts.len() {
                postfix_at(ts, q, GExpr::Call(Box::new(base), args))
            } else {
                Err(err_at(p))
            },
        }
    } else if is_punct(ts, p, Punct::Dot) {
        match tok(ts, p + 1) {
            Some(TokenView::Ident(n)) => postfix_at(ts, p + 2, GExpr::Attr(Box::new(base), n)),
            _ => Err(err_at(p + 1)),
        }
    } else if is_punct(ts, p, Punct::LBracket) {
        match subscript_at(ts, p + 1) {
            Err(e) => Err(e),
            Ok((s, q)) => if p < q < ts.len() && is_punct(ts, q, Punct::RBracket) {
                postfix_at(ts, q + 1, GExpr::Index(Box::new(base), s))
            } else {
                Err(err_at(q))
            },
        }
    } else {
        Ok((base, p))
    }
}

/// A compound assignment `t op= v` applies the operator that `op` stands for
/// on its own: `+=` adds, `-=` subtracts, `<<=` shifts, and so on; plain `=`
/// applies none.
pub proof fn law_compound_assignment_operator()
    ensures
        assign_bin(assign_op_of(Punct::PlusEq)->0) == infix_of(Punct::Plus),
        assign_bin(assign_op_of(Punct::MinusEq)->0) == infix_of(Punct::Minus),
        assign_bin(assign_op_of(Punct::StarEq)->0) == infix_of(Punct::Star),
        assign_bin(assign_op_of(Punct::SlashEq)->0) == infix_of(Punct::Slash),
        assign_bin(assign_op_of(Punct::PercentEq)->0) == infix_of(Punct::Percent),
        assign_bin(assign_op_of(Punct::AmpEq)->0) == infix_of(Punct::Amp),
        assign_bin(assign_op_of(Punct::PipeEq)->0) == infix_of(Punct::Pipe),
        assign_bin(assign_op_of(Punct::CaretEq)->0) == infix_of(Punct::Caret),
        assign_bin(assign_op_of(Punct::ShlEq)->0) == infix_of(Punct::Shl),
        assign_bin(assign_op_of(Punct::ShrEq)->0) == infix_of(Punct::Shr),
        assign_op_of(Punct::Assign) is Some && assign_bin(assign_op_of(Punct::Assign)->0) is None,
{
}

/// Reading `x o1 y o2 z` over integer literals: when `o2` is of the same level
/// as `o1` the first operator takes `y`, giving `(x o1 y) o2 z`; when `o2` binds
/// tighter it takes `y`, giving `x o1 (y o2 z)`. The whole expression is read.
pub proof fn law_binary_grouping(x: i64, p1: Punct, y: i64, p2: Punct, z: i64)
    requires
        infix_of(p1) is Some,
        infix_of(p2) is Some,
    ensures
        ({
            let ts = seq![TokenView::Int(x), TokenView::Punct(p1), TokenView::Int(y), TokenView::Punct(p2), TokenView::Int(z)];
            let (o1, o2) = (infix_of(p1)->0, infix_of(p2)->0);
            let (lx, ly, lz) = (GExpr::Lit(GLit::Int(x)), GExpr::Lit(GLit::Int(y)), GExpr::Lit(GLit::Int(z)));
            &&& crate::syntax::precedence_level(o1) == crate::syntax::precedence_level(o2) ==> expr_at(ts, 0, 0)
                == Ok::<(GExpr, int), ParseError>((GExpr::Bin(Box::new(GExpr::Bin(Box::new(lx), o1, Box::new(ly))), o2, Box::new(lz)), 5))
            &&& crate::syntax::precedence_level(o1) < crate::syntax::precedence_level(o2) ==> expr_at(ts, 0, 0)
                == Ok::<(GExpr, int), ParseError>((GExpr::Bin(Box::new(lx), o1, Box::new(GExpr::Bin(Box::new(ly), o2, Box::new(lz)))), 5))
        }),
{
    let ts = seq![TokenView::Int(x), TokenView::Punct(p1), TokenView::Int(y), TokenView::Punct(p2), TokenView::Int(z)];
    let (o1, o2) = (infix_of(p1)->0, infix_of(p2)->0);
    let (lx, ly, lz) = (GExpr::Lit(GLit::Int(x)), GExpr::Lit(GLit::Int(y)), GExpr::Lit(GLit::Int(z)));
    crate::syntax::law_binary_precedence(o1, o2);
    crate::syntax::law_binary_precedence(o2, o1);
    assert(infix_at(ts, 1) == Some(o1));
    assert(infix_at(ts, 3) == Some(o2));
    assert(infix_at(ts, 5) is None);
    assert(postfix_at(ts, 1, lx) == Ok::<(GExpr, int), ParseError>((lx, 1)));
    assert(postfix_at(ts, 3, ly) == Ok::<(GExpr, int), ParseError>((ly, 3)));
    assert(postfix_at(ts, 5, lz) == Ok::<(GExpr, int), ParseError>((lz, 5)));
    assert(primary_at(ts, 0) == Ok::<(GExpr, int), ParseError>((lx, 1)));
    assert(primary_at(ts, 2) == Ok::<(GExpr, int), ParseError>((ly, 3)));
    assert(primary_at(ts, 4) == Ok::<(GExpr, int), ParseError>((lz, 5)));
    let r1 = infix_bp(o1).1;
    let r2 = infix_bp(o2).1;
    assert(infix_loop(ts, 5, r2, lz) == Ok::<(GExpr, int), ParseError>((lz, 5)));
    assert(expr_at(ts, 4, r2) == Ok::<(GExpr, int), ParseError>((lz, 5)));
    if crate::syntax::precedence_level(o1) == crate::syntax::precedence_level(o2) {
        assert(infix_loop(ts, 3, r1, ly) == Ok::<(GExpr, int), ParseError>((ly, 3)));
        assert(expr_at(ts, 2, r1) == Ok::<(GExpr, int), ParseError>((ly, 3)));
        let b1 = GExpr::Bin(Box::new(lx), o1, Box::new(ly));
        let b2 = GExpr::Bin(Box::new(b1), o2, Box::new(lz));
        assert(infix_loop(ts, 5, 0, b2) == Ok::<(GExpr, int), ParseError>((b2, 5)));
        assert(infix_loop(ts, 3, 0, b1) == Ok::<(GExpr, int), ParseError>((b2, 5)));
        assert(infix_loop(ts, 1, 0, lx) == Ok::<(GExpr, int), ParseError>((b2, 5)));
    }
    if crate::syntax::precedence_level(o1) < crate::syntax::precedence_level(o2) {
        let b1 = GExpr::Bin(Box::new(ly), o2, Box::new(lz));
        assert(infix_loop(ts, 5, r1, b1) == Ok::<(GExpr, int), ParseError>((b1, 5)));
        assert(infix_loop(ts, 3, r1, ly) == Ok::<(GExpr, int), ParseError>((b1, 5)));
        assert(expr_at(ts, 2, r1) == Ok::<(GExpr, int), ParseError>((b1, 5)));
        let b2 = GExpr::Bin(Box::new(lx), o1, Box::new(b1));
        assert(infix_loop(ts, 5, 0, b2) == Ok::<(GExpr, int), ParseError>((b2, 5)));
        assert(infix_loop(ts, 1, 0, lx) == Ok::<(GExpr, int), ParseError>((b2, 5)));
    }
}

/// Call arguments from `p` up to and including `)`, after the arguments `acc`.
pub open spec fn args_at(ts: Seq<TokenView>, p: int, acc: Seq<GExpr>) -> Result<(Seq<GExpr>, int), ParseError>
    decreases ts.len() - p, 4int,
{
    if p < 0 || p >= ts.len() {
        Err(err_at(p))
    } else if is_punct(ts, p, Punct::RParen) {
        Ok((acc, p + 1))
    } else {
        match expr_at(ts, p, 0) {
            Err(e) => Err(e),
            Ok((x, q)) => if p < q <= ts.len() {
                if is_punct(ts, q, Punct::Comma) {
                    args_at(ts, q + 1, acc.push(x))
                } else if is_punct(ts, q, Punct::RParen) {
                    Ok((acc.push(x), q + 1))
                } else {
                    Err(err_at(q))
                }
            } else {
                Err(err_at(p))
            },
        }
    }
}

/// A fixed subscript at `p`: an integer, a negated integer or a string.
pub open spec fn subscript_at(ts: Seq<TokenView>, p: int) -> Result<(GSub, int), ParseError> {
    match tok(ts, p) {
        Some(TokenView::Int(i)) => Ok((GSub::Idx(i), p + 1)),
        Some(TokenView::Str(s)) => Ok((GSub::Name(s), p + 1)),
        Some(TokenView::Punct(Punct::Minus)) => match tok(ts, p + 1) {
            Some(TokenView::Int(i)) => Ok((GSub::Idx(0i64.wrapping_sub(i)), p + 2)),
            _ => Err(err_at(p + 1)),
        },
        _ => Err(err_at(p)),
    }
}

/// A parse of a statement: the statement and the position after it.
pub type StmtParse = Result<(GStmt, int), ParseError>;

/// A parse of a statement list: the statements and the position after them.
pub type StmtsParse = Result<(Seq<GStmt>, int), ParseError>;

/// The statement at `pos`; `in_fn` when inside a function body.
pub open spec fn stmt_at(ts: Seq<TokenView>, pos: int, in_fn: bool) -> StmtParse
    decreases ts.len() - pos, 2int,
{
    if pos < 0 || pos >= ts.len() {
        Err(err_at(pos))
    } else if is_kw(ts, pos, Keyword::If) {
        if_at(ts, pos + 1, in_fn)
    } else if is_kw(ts, pos, Keyword::While) {
        match expr_at(ts, pos + 1, 0) {
            Err(e) => Err(e),
            Ok((t, p)) => if pos < p <= ts.len() {
                match block_at(ts, p, in_fn) {
                    Err(e) => Err(e),
                    Ok((b, q)) => Ok((GStmt::Loop(t, b), q)),
                }
            } else {
                Err(err_at(pos))
            },
        }
    } else if is_kw(ts, pos, Keyword::Fn) {
        fn_at(ts, pos + 1)
    } else if in_fn && is_kw(ts, pos, Keyword::Return) {
        if is_punct(ts, pos + 1, Punct::Semi) {
            Ok((GStmt::Return(None), pos + 2))
        } else {
            match expr_at(ts, pos + 1, 0) {
                Err(e) => Err(e),
                Ok((x, p)) => if is_punct(ts, p, Punct::Semi) {
                    Ok((GStmt::Return(Some(x)), p + 1))
                } else {
                    Err(err_at(p))
                },
            }
        }
    } else if is_punct(ts, pos, Punct::LBrace) {
        match block_at(ts, pos, false) {
            Err(e) => Err(e),
            Ok((b, q)) => if is_punct(ts, q, Punct::Semi) {
                Ok((GStmt::Scoped(b), q + 1))
            } else {
                Err(err_at(q))
            },
        }
    } else {
        match expr_at(ts, pos, 0) {
            Err(e) => Err(e),
            Ok((x, p)) => match assign_op_at(ts, p) {
                Some(op) => match to_target(x) {
                    None => Err(ParseError::InvalidAssignmentTarget),
                    Some(t) => match expr_at(ts, p + 1, 0) {
                        Err(e) => Err(e),
                        Ok((v, q)) => if is_punct(ts, q, Punct::Semi) {
                            Ok((GStmt::Assign(t, desugar(op, t, v)), q + 1))
                        } else {
                            Err(err_at(q))
                        },
                    },
                },
                None => if is_punct(ts, p, Punct::Semi) {
                    Ok((GStmt::Expr(x), p + 1))
                } else {
                    Err(err_at(p))
                },
            },
        }
    }
}

/// The rest of an `if` statement after the keyword, at `pos`.
pub open spec fn if_at(ts: Seq<TokenView>, pos: int, in_fn: bool) -> StmtParse
    decreases ts.len() - pos, 0int,
{
    if pos < 0 || pos > ts.len() {
        Err(err_at(pos))
    } else {
        match expr_at(ts, pos, 0) {
            Err(e) => Err(e),
            Ok((t, p)) => if pos < p <= ts.len() {
                match block_at(ts, p, in_fn) {
                    Err(e) => Err(e),
                    Ok((b, q)) => if p < q <= ts.len() {
                        if is_kw(ts, q, Keyword::Else) {
                            if is_kw(ts, q + 1, Keyword::If) {
                                match if_at(ts, q + 2, in_fn) {
                                    Err(e) => Err(e),
                                    Ok((s, r)) => Ok((GStmt::If(t, b, Some(seq![s])), r)),
                                }
                            } else {
                                match block_at(ts, q + 1, in_fn) {
                                    Err(e) => Err(e),
                                    Ok((o, r)) => Ok((GStmt::If(t, b, Some(o)), r)),
                                }
                            }
                        } else {
                            Ok((GStmt::If(t, b, None), q))
                        }
                    } else {
                        Err(err_at(p))
                    },
                }
            } else {
                Err(err_at(pos))
            },
        }
    }
}

/// Parameter names from `p` up to and including `)`, after the names `acc`.
pub open spec fn params_at(ts: Seq<TokenView>, p: int, acc: Seq<Seq<char>>) -> Result<(Seq<Seq<char>>, int), ParseError>
    decreases ts.len() - p,
{
    if p < 0 || p >= ts.len() {
        Err(err_at(p))
    } else if is_punct(ts, p, Punct::RParen) {
        Ok((acc, p + 1))
    } else {
        match ts[p] {
            TokenView::Ident(n) => if is_punct(ts, p + 1, Punct::Comma) {
                params_at(ts, p + 2, acc.push(n))
            } else if is_punct(ts, p + 1, Punct::RParen) {
                Ok((acc.push(n), p + 2))
            } else {
                Err(err_at(p + 1))
            },
            _ => Err(err_at(p)),
        }
    }
}

/// The rest of a function definition after `fn`, at `pos`.
pub open spec fn fn_at(ts: Seq<TokenView>, pos: int) -> StmtParse
    decreases ts.len() - pos, 0int,
{
    match tok(ts, pos) {
        Some(TokenView::Ident(name)) => if is_punct(ts, pos + 1, Punct::LParen) {
            match params_at(ts, pos + 2, Seq::empty()) {
                Err(e) => Err(e),
                Ok((args, p)) => if pos < p <= ts.len() {
                    match block_at(ts, p, true) {
                        Err(e) => Err(e),
                        Ok((b, q)) => Ok((GStmt::Fn(name, args, b), q)),
                    }
                } else {
                    Err(err_at(pos))
                },
            }
        } else {
            Err(err_at(pos + 1))
        },
        _ => Err(err_at(pos)),
    }
}

/// A braced block at `pos`.
pub open spec fn block_at(ts: Seq<TokenView>, pos: int, in_fn: bool) -> StmtsParse
    decreases ts.len() - pos, 1int,
{
    if 0 <= pos < ts.len() && is_punct(ts, pos, Punct::LBrace) {
        items_at(ts, pos + 1, in_fn, Seq::empty())
    } else {
        Err(err_at(pos))
    }
}

/// Statements from `p` up to and including `}`, after the statements `acc`.
pub open spec fn items_at(ts: Seq<TokenView>, p: int, in_fn: bool, acc: Seq<GStmt>) -> StmtsParse
    decreases ts.len() - p, 3int,
{
    if p < 0 || p >= ts.len() {
        Err(err_at(p))
    } else if is_punct(ts, p, Punct::RBrace) {
        Ok((acc, p + 1))
    } else {
        match stmt_at(ts, p, in_fn) {
            Err(e) => Err(e),
            Ok((s, q)) => if p < q <= ts.len() {
                items_at(ts, q, in_fn, acc.push(s))
            } else {
                Err(err_at(p))
            },
        }
    }
}

/// The top-level statements from `p` to the end, after the statements `acc`.
pub open spec fn top_at(ts: Seq<TokenView>, p: int, acc: Seq<GStmt>) -> Result<Seq<GStmt>, ParseError>
    decreases ts.len() - p,
{
    if p < 0 || p >= ts.len() {
        Ok(acc)
    } else {
        match stmt_at(ts, p, false) {
            Err(e) => Err(e),
            Ok((s, q)) => if p < q <= ts.len() {
                top_at(ts, q, acc.push(s))
            } else {
                Err(err_at(p))
            },
        }
    }
}

/// The program a token list reads as.
pub open spec fn program_spec(ts: Seq<TokenView>) -> Result<Seq<GStmt>, ParseError> {
    top_at(ts, 0, Seq::empty())
}

/// The contents of the tokens.
pub open spec fn tv(ts: Seq<Token>) -> Seq<TokenView> {
    tokens_view(ts)
}

fn punct_is(ts: &Vec<Token>, i: usize, p: Punct) -> (r: bool)
    ensures
        r == is_punct(tv(ts@), i as int, p),
{
    if i < ts.len() {
        match &ts[i] {
            Token::Punct(q) => *q == p,
            _ => false,
        }
    } else {
        false
    }
}

fn kw_is(ts: &Vec<Token>, i: usize, k: Keyword) -> (r: bool)
    ensures
        r == is_kw(tv(ts@), i as int, k),
{
    if i < ts.len() {
        match &ts[i] {
            Token::Keyword(q) => *q == k,
            _ => false,
        }
    } else {
        false
    }
}

fn infix_of_exec(p: Punct) -> (r: Option<BinaryOperator>)
    ensures
        r == infix_of(p),
{
    match p {
        Punct::AndAnd => Some(BinaryOperator::And),
        Punct::OrOr => Some(BinaryOperator::Or),
        Punct::EqEq => Some(BinaryOperator::Eq),
        Punct::Ne => Some(BinaryOperator::NotEq),
        Punct::Le => Some(BinaryOperator::Lte),
        Punct::Ge => Some(BinaryOperator::Gte),
        Punct::Shl => Some(BinaryOperator::LeftShift),
        Punct::Shr => Some(BinaryOperator::RightShift),
        Punct::Lt => Some(BinaryOperator::Lt),
        Punct::Gt => Some(BinaryOperator::Gt),
        Punct::Plus => Some(BinaryOperator::Add),
        Punct::Minus => Some(BinaryOperator::Subtract),
        Punct::Star => Some(BinaryOperator::Multiply),
        Punct::Slash => Some(BinaryOperator::Divide),
        Punct::Percent => Some(BinaryOperator::Modulo),
        Punct::Amp => Some(BinaryOperator::BitwiseAnd),
        Punct::Pipe => Some(BinaryOperator::BitwiseOr),
        Punct::Caret => Some(BinaryOperator::Xor),
        _ => None,
    }
}

fn infix_at_exec(ts: &Vec<Token>, i: usize) -> (r: Option<BinaryOperator>)
    ensures
        r == infix_at(tv(ts@), i as int),
{
    if i < ts.len() {
        match &ts[i] {
            Token::Punct(p) => infix_of_exec(*p),
            _ => None,
        }
    } else {
        None
    }
}

fn assign_op_at_exec(ts: &Vec<Token>, i: usize) -> (r: Option<AssignOp>)
    ensures
        r == assign_op_at(tv(ts@), i as int),
{
    if i < ts.len() {
        match &ts[i] {
            Token::Punct(p) => match p {
                Punct::Assign => Some(AssignOp::Assign),
                Punct::PlusEq => Some(AssignOp::Add),
                Punct::MinusEq => Some(AssignOp::Sub),
                Punct::StarEq => Some(AssignOp::Mul),
                Punct::SlashEq => Some(AssignOp::Div),
                Punct::PercentEq => Some(AssignOp::Mod),
                Punct::AmpEq => Some(AssignOp::BitAnd),
                Punct::PipeEq => Some(AssignOp::BitOr),
                Punct::CaretEq => Some(AssignOp::BitXor),
                Punct::ShlEq => Some(AssignOp::Shl),
                Punct::ShrEq => Some(AssignOp::Shr),
                _ => None,
            },
            _ => None,
        }
    } else {
        None
    }
}

/// The result of an expression parse, as content.
pub open spec fn expr_parse_view(r: Result<(Expr, usize), ParseError>) -> ExprParse {
    match r {
        Ok((e, p)) => Ok((syn_expr_view(e), p as int)),
        Err(e) => Err(e),
    }
}

/// The expression at `pos` whose binary operators bind at least `min_bp`.
pub fn parse_expr(ts: &Vec<Token>, pos: usize, min_bp: u8) -> (r: Result<(Expr, usize), ParseError>)
    ensures
        expr_parse_view(r) == expr_at(tv(ts@), pos as int, min_bp),
    decreases ts@.len() - pos, 3int,
{
    if pos > ts.len() {
        return Err(ParseError::SyntaxError(pos));
    }
    let first = if punct_is(ts, pos, Punct::Bang) {
        match parse_expr(ts, pos + 1, prefix_binding_power(&UnaryOperator::Not)) {
            Ok((r, p)) => Ok((Expr::Unary(UnaryOperator::Not, Box::new(r)), p)),
            Err(e) => Err(e),
        }
    } else if punct_is(ts, pos, Punct::Minus) {
        match parse_expr(ts, pos + 1, prefix_binding_power(&UnaryOperator::Negative)) {
            Ok((r, p)) => Ok((Expr::Unary(UnaryOperator::Negative, Box::new(r)), p)),
            Err(e) => Err(e),
        }
    } else {
        parse_primary(ts, pos)
    };
    match first {
        Err(e) => Err(e),
        Ok((lhs, p)) => if pos < p && p <= ts.len() {
            parse_infix(ts, p, min_bp, lhs)
        } else {
            Err(ParseError::SyntaxError(pos))
        },
    }
}

/// Binary operators binding at least `min_bp` applied to `lhs`, from `p` on.
fn parse_infix(ts: &Vec<Token>, p: usize, min_bp: u8, lhs: Expr) -> (r: Result<(Expr, usize), ParseError>)
    ensures
        expr_parse_view(r) == infix_loop(tv(ts@), p as int, min_bp, syn_expr_view(lhs)),
    decreases ts@.len() - p, 3int,
{
    if p > ts.len() {
        return Err(ParseError::SyntaxError(p));
    }
    match infix_at_exec(ts, p) {
        Some(op) => {
            let (l_bp, r_bp) = infix_binding_power(&op);
            if l_bp >= min_bp {
                match parse_expr(ts, p + 1, r_bp) {
                    Err(e) => Err(e),
                    Ok((rhs, q)) => if p < q && q <= ts.len() {
                        parse_infix(ts, q, min_bp, Expr::Binary(Box::new(lhs), op, Box::new(rhs)))
                    } else {
                        Err(ParseError::SyntaxError(p))
                    },
                }
            } else {
                Ok((lhs, p))
            }
        },
        None => Ok((lhs, p)),
    }
}

/// A literal, a variable or a parenthesized expression at `pos`, with what follows it.
fn parse_primary(ts: &Vec<Token>, pos: usize) -> (r: Result<(Expr, usize), ParseError>)
    ensures
        expr_parse_view(r) == primary_at(tv(ts@), pos as int),
    decreases ts@.len() - pos, 2int,
{
    if pos >= ts.len() {
        return Err(ParseError::SyntaxError(pos));
    }
    let atom = match &ts[pos] {
        Token::Int(i) => Literal::Int(*i),
        Token::Float(f) => Literal::Float(f.clone()),
        Token::Str(s) => Literal::String(s.clone()),
        Token::Keyword(Keyword::True) => Literal::Bool(true),
        Token::Keyword(Keyword::False) => Literal::Bool(false),
        Token::Keyword(Keyword::NoneLit) => Literal::Nil,
        Token::Ident(n) => {
            return parse_postfix(ts, pos + 1, Expr::Atom(Atom::Variable(n.clone())));
        },
        Token::Punct(Punct::LParen) => {
            return match parse_expr(ts, pos + 1, 0) {
                Err(e) => Err(e),
                Ok((x, p)) => if pos < p && p < ts.len() && punct_is(ts, p, Punct::RParen) {
                    parse_postfix(ts, p + 1, Expr::Atom(Atom::Paren(Box::new(x))))
                } else {
                    Err(ParseError::SyntaxError(p))
                },
            };
        },
        _ => {
            return Err(ParseError::SyntaxError(pos));
        },
    };
    parse_postfix(ts, pos + 1, Expr::Atom(Atom::Literal(atom)))
}

/// Calls, attributes and subscripts applied to `base`, from `p` on.
fn parse_postfix(ts: &Vec<Token>, p: usize, base: Expr) -> (r: Result<(Expr, usize), ParseError>)
    ensures
        expr_parse_view(r) == postfix_at(tv(ts@), p as int, syn_expr_view(base)),
    decreases ts@.len() - p, 1int,
{
    if p > ts.len() {
        return Err(ParseError::SyntaxError(p));
    }
    if punct_is(ts, p, Punct::LParen) {
        let empty: Vec<Expr> = Vec::new();
        assert(syn_exprs_view(empty@) =~= Seq::<GExpr>::empty());
        match parse_args(ts, p + 1, empty) {
            Err(e) => Err(e),
            Ok((args, q)) => if p < q && q <= ts.len() {
                parse_postfix(ts, q, Expr::Call(Box::new(base), args))
            } else {
                Err(ParseError::SyntaxError(p))
            },
        }
    } else if punct_is(ts, p, Punct::Dot) {
        if p + 1 < ts.len() {
            match &ts[p + 1] {
                Token::Ident(n) => parse_postfix(ts, p + 2, Expr::Attr(Box::new(base), n.clone())),
                _ => Err(ParseError::SyntaxError(p + 1)),
            }
        } else {
            Err(ParseError::SyntaxError(p + 1))
        }
    } else if punct_is(ts, p, Punct::LBracket) {
        match parse_subscript(ts, p + 1) {
            Err(e) => Err(e),
            Ok((s, q)) => if p < q && q < ts.len() && punct_is(ts, q, Punct::RBracket) {
                parse_postfix(ts, q + 1, Expr::Subscript(Box::new(base), s))
            } else {
                Err(ParseError::SyntaxError(q))
            },
        }
    } else {
        Ok((base, p))
    }
}

/// Call arguments from `p` up to and including `)`, after the arguments `acc`.
fn parse_args(ts: &Vec<Token>, p: usize, acc: Vec<Expr>) -> (r: Result<(Vec<Expr>, usize), ParseError>)
    ensures
        match r {
            Ok((v, q)) => args_at(tv(ts@), p as int, syn_exprs_view(acc@)) == Ok::<(Seq<GExpr>, int), ParseError>((syn_exprs_view(v@), q as int)),
            Err(e) => args_at(tv(ts@), p as int, syn_exprs_view(acc@)) == Err::<(Seq<GExpr>, int), ParseError>(e),
        },
    decreases ts@.len() - p, 4int,
{
    if p >= ts.len() {
        return Err(ParseError::SyntaxError(p));
    }
    if punct_is(ts, p, Punct::RParen) {
        return Ok((acc, p + 1));
    }
    match parse_expr(ts, p, 0) {
        Err(e) => Err(e),
        Ok((x, q)) => if p < q && q <= ts.len() {
            let mut acc = acc;
            let ghost before = acc@;
            let ghost xv = syn_expr_view(x);
            acc.push(x);
            assert(acc@.drop_last() =~= before);
            assert(syn_exprs_view(acc@) == syn_exprs_view(before).push(xv));
            if punct_is(ts, q, Punct::Comma) {
                parse_args(ts, q + 1, acc)
            } else if punct_is(ts, q, Punct::RParen) {
                Ok((acc, q + 1))
            } else {
                Err(ParseError::SyntaxError(q))
            }
        } else {
            Err(ParseError::SyntaxError(p))
        },
    }
}

/// A fixed subscript at `p`.
fn parse_subscript(ts: &Vec<Token>, p: usize) -> (r: Result<(SubscriptLoad, usize), ParseError>)
    ensures
        match r {
            Ok((s, q)) => subscript_at(tv(ts@), p as int) == Ok::<(GSub, int), ParseError>((sub_view(s), q as int)),
            Err(e) => subscript_at(tv(ts@), p as int) == Err::<(GSub, int), ParseError>(e),
        },
{
    if p >= ts.len() {
        return Err(ParseError::SyntaxError(p));
    }
    match &ts[p] {
        Token::Int(i) => Ok((SubscriptLoad::Idx(*i), p + 1)),
        Token::Str(s) => Ok((SubscriptLoad::String(s.clone()), p + 1)),
        Token::Punct(Punct::Minus) => {
            if p + 1 < ts.len() {
                match &ts[p + 1] {
                    Token::Int(i) => Ok((SubscriptLoad::Idx(0i64.wrapping_sub(*i)), p + 2)),
                    _ => Err(ParseError::SyntaxError(p + 1)),
                }
            } else {
                Err(ParseError::SyntaxError(p + 1))
            }
        },
        _ => Err(ParseError::SyntaxError(p)),
    }
}

/// The result of a statement parse, as content.
pub open spec fn stmt_parse_view(r: Result<(Stmt, usize), ParseError>) -> StmtParse {
    match r {
        Ok((x, p)) => Ok((syn_stmt_view(x), p as int)),
        Err(e) => Err(e),
    }
}

/// The result of a block parse, as content.
pub open spec fn block_parse_view(r: Result<(Block, usize), ParseError>) -> StmtsParse {
    match r {
        Ok((b, p)) => Ok((syn_stmts_view(b.stmts@), p as int)),
        Err(e) => Err(e),
    }
}

/// The statement at `pos`; `in_fn` when inside a function body.
fn parse_stmt(ts: &Vec<Token>, pos: usize, in_fn: bool) -> (r: Result<(Stmt, usize), ParseError>)
    ensures
        stmt_parse_view(r) == stmt_at(tv(ts@), pos as int, in_fn),
    decreases ts@.len() - pos, 2int,
{
    if pos >= ts.len() {
        return Err(ParseError::SyntaxError(pos));
    }
    if kw_is(ts, pos, Keyword::If) {
        return parse_if(ts, pos + 1, in_fn);
    }
    if kw_is(ts, pos, Keyword::While) {
        return match parse_expr(ts, pos + 1, 0) {
            Err(e) => Err(e),
            Ok((t, p)) => if pos < p && p <= ts.len() {
                match parse_block(ts, p, in_fn) {
                    Err(e) => Err(e),
                    Ok((b, q)) => Ok((Stmt::Loop { test: t, body: b }, q)),
                }
            } else {
                Err(ParseError::SyntaxError(pos))
            },
        };
    }
    if kw_is(ts, pos, Keyword::Fn) {
        return parse_fn(ts, pos + 1);
    }
    if in_fn && kw_is(ts, pos, Keyword::Return) {
        if punct_is(ts, pos + 1, Punct::Semi) {
            return Ok((Stmt::Return(None), pos + 2));
        }
        return match parse_expr(ts, pos + 1, 0) {
            Err(e) => Err(e),
            Ok((x, p)) => if punct_is(ts, p, Punct::Semi) {
                Ok((Stmt::Return(Some(x)), p + 1))
            } else {
                Err(ParseError::SyntaxError(p))
            },
        };
    }
    if punct_is(ts, pos, Punct::LBrace) {
        return match parse_block(ts, pos, false) {
            Err(e) => Err(e),
            Ok((b, q)) => if punct_is(ts, q, Punct::Semi) {
                Ok((Stmt::Scoped(b), q + 1))
            } else {
                Err(ParseError::SyntaxError(q))
            },
        };
    }
    match parse_expr(ts, pos, 0) {
        Err(e) => Err(e),
        Ok((x, p)) => match assign_op_at_exec(ts, p) {
            Some(op) => match expr_to_target(x) {
                Err(_) => Err(ParseError::InvalidAssignmentTarget),
                Ok(t) => match parse_expr(ts, p + 1, 0) {
                    Err(e) => Err(e),
                    Ok((v, q)) => if punct_is(ts, q, Punct::Semi) {
                        let value = match map_assign_op_to_binary_op(op) {
                            None => v,
                            Some(b) => Expr::Binary(Box::new(target_to_expr(&t)), b, Box::new(v)),
                        };
                        Ok((Stmt::Assign { target: t, value }, q + 1))
                    } else {
                        Err(ParseError::SyntaxError(q))
                    },
                },
            },
            None => if punct_is(ts, p, Punct::Semi) {
                Ok((Stmt::Expr(x), p + 1))
            } else {
                Err(ParseError::SyntaxError(p))
            },
        },
    }
}

/// The rest of an `if` statement after the keyword, at `pos`.
fn parse_if(ts: &Vec<Token>, pos: usize, in_fn: bool) -> (r: Result<(Stmt, usize), ParseError>)
    ensures
        stmt_parse_view(r) == if_at(tv(ts@), pos as int, in_fn),
    decreases ts@.len() - pos, 0int,
{
    if pos > ts.len() {
        return Err(ParseError::SyntaxError(pos));
    }
    let (t, p) = match parse_expr(ts, pos, 0) {
        Err(e) => return Err(e),
        Ok(x) => x,
    };
    if !(pos < p && p <= ts.len()) {
        return Err(ParseError::SyntaxError(pos));
    }
    let (b, q) = match parse_block(ts, p, in_fn) {
        Err(e) => return Err(e),
        Ok(x) => x,
    };
    if !(p < q && q <= ts.len()) {
        return Err(ParseError::SyntaxError(p));
    }
    if kw_is(ts, q, Keyword::Else) {
        if kw_is(ts, q + 1, Keyword::If) {
            match parse_if(ts, q + 2, in_fn) {
                Err(e) => Err(e),
                Ok((s, r)) => {
                    let ghost sv = syn_stmt_view(s);
                    let mut stmts: Vec<Stmt> = Vec::new();
                    stmts.push(s);
                    proof {
                        assert(stmts@.drop_last() =~= Seq::<Stmt>::empty());
                        assert(syn_stmts_view(Seq::<Stmt>::empty()) == Seq::<GStmt>::empty());
                        assert(syn_stmts_view(stmts@.drop_last()) == Seq::<GStmt>::empty());
                        assert(syn_stmt_view(stmts@.last()) == sv);
                        assert(syn_stmts_view(stmts@) =~= seq![sv]);
                    }
                    Ok((Stmt::If { test: t, body: b, otherwise: Some(Block { stmts }) }, r))
                },
            }
        } else {
            match parse_block(ts, q + 1, in_fn) {
                Err(e) => Err(e),
                Ok((o, r)) => Ok((Stmt::If { test: t, body: b, otherwise: Some(o) }, r)),
            }
        }
    } else {
        Ok((Stmt::If { test: t, body: b, otherwise: None }, q))
    }
}

/// Parameter names from `p` up to and including `)`, after the names `acc`.
fn parse_params(ts: &Vec<Token>, p: usize, acc: Vec<String>) -> (r: Result<(Vec<String>, usize), ParseError>)
    ensures
        match r {
            Ok((v, q)) => params_at(tv(ts@), p as int, names_view(acc@)) == Ok::<(Seq<Seq<char>>, int), ParseError>((names_view(v@), q as int)),
            Err(e) => params_at(tv(ts@), p as int, names_view(acc@)) == Err::<(Seq<Seq<char>>, int), ParseError>(e),
        },
    decreases ts@.len() - p,
{
    if p >= ts.len() {
        return Err(ParseError::SyntaxError(p));
    }
    if punct_is(ts, p, Punct::RParen) {
        return Ok((acc, p + 1));
    }
    match &ts[p] {
        Token::Ident(n) => {
            let mut acc = acc;
            let ghost before = acc@;
            acc.push(n.clone());
            assert(names_view(acc@) =~= names_view(before).push(n@));
            if punct_is(ts, p + 1, Punct::Comma) {
                parse_params(ts, p + 2, acc)
            } else if punct_is(ts, p + 1, Punct::RParen) {
                Ok((acc, p + 2))
            } else {
                Err(ParseError::SyntaxError(p + 1))
            }
        },
        _ => Err(ParseError::SyntaxError(p)),
    }
}

/// The rest of a function definition after `fn`, at `pos`.
fn parse_fn(ts: &Vec<Token>, pos: usize) -> (r: Result<(Stmt, usize), ParseError>)
    ensures
        stmt_parse_view(r) == fn_at(tv(ts@), pos as int),
    decreases ts@.len() - pos, 0int,
{
    if pos >= ts.len() {
        return Err(ParseError::SyntaxError(pos));
    }
    let name = match &ts[pos] {
        Token::Ident(n) => n.clone(),
        _ => return Err(ParseError::SyntaxError(pos)),
    };
    if !punct_is(ts, pos + 1, Punct::LParen) {
        return Err(ParseError::SyntaxError(pos + 1));
    }
    let empty: Vec<String> = Vec::new();
    assert(names_view(empty@) =~= Seq::<Seq<char>>::empty());
    match parse_params(ts, pos + 2, empty) {
        Err(e) => Err(e),
        Ok((args, p)) => if pos < p && p <= ts.len() {
            match parse_block(ts, p, true) {
                Err(e) => Err(e),
                Ok((b, q)) => Ok((Stmt::Fn { name, args, body: b }, q)),
            }
        } else {
            Err(ParseError::SyntaxError(pos))
        },
    }
}

/// A braced block at `pos`.
fn parse_block(ts: &Vec<Token>, pos: usize, in_fn: bool) -> (r: Result<(Block, usize), ParseError>)
    ensures
        block_parse_view(r) == block_at(tv(ts@), pos as int, in_fn),
    decreases ts@.len() - pos, 1int,
{
    if pos < ts.len() && punct_is(ts, pos, Punct::LBrace) {
        let empty: Vec<Stmt> = Vec::new();
        assert(syn_stmts_view(empty@) =~= Seq::<GStmt>::empty());
        match parse_items(ts, pos + 1, in_fn, empty) {
            Err(e) => Err(e),
            Ok((stmts, q)) => Ok((Block { stmts }, q)),
        }
    } else {
        Err(ParseError::SyntaxError(pos))
    }
}

/// Statements from `p` up to and including `}`, after the statements `acc`.
fn parse_items(ts: &Vec<Token>, p: usize, in_fn: bool, acc: Vec<Stmt>) -> (r: Result<(Vec<Stmt>, usize), ParseError>)
    ensures
        match r {
            Ok((v, q)) => items_at(tv(ts@), p as int, in_fn, syn_stmts_view(acc@)) == Ok::<(Seq<GStmt>, int), ParseError>((syn_stmts_view(v@), q as int)),
            Err(e) => items_at(tv(ts@), p as int, in_fn, syn_stmts_view(acc@)) == Err::<(Seq<GStmt>, int), ParseError>(e),
        },
    decreases ts@.len() - p, 3int,
{
    if p >= ts.len() {
        return Err(ParseError::SyntaxError(p));
    }
    if punct_is(ts, p, Punct::RBrace) {
        return Ok((acc, p + 1));
    }
    match parse_stmt(ts, p, in_fn) {
        Err(e) => Err(e),
        Ok((x, q)) => if p < q && q <= ts.len() {
            let mut acc = acc;
            let ghost before = acc@;
            let ghost xv = syn_stmt_view(x);
            acc.push(x);
            assert(acc@.drop_last() =~= before);
            assert(syn_stmts_view(acc@) == syn_stmts_view(before).push(xv));
            parse_items(ts, q, in_fn, acc)
        } else {
            Err(ParseError::SyntaxError(p))
        },
    }
}

/// The program a token list reads as.
pub fn parse_program(ts: &Vec<Token>) -> (r: Result<TopLevelBlock, ParseError>)
    ensures
        match r {
            Ok(b) => program_spec(tv(ts@)) == Ok::<Seq<GStmt>, ParseError>(syn_stmts_view(b.stmts@)),
            Err(e) => program_spec(tv(ts@)) == Err::<Seq<GStmt>, ParseError>(e),
        },
{
    let mut acc: Vec<Stmt> = Vec::new();
    let mut p: usize = 0;
    assert(syn_stmts_view(acc@) =~= Seq::<GStmt>::empty());
    while p < ts.len()
        invariant
            p <= ts@.len(),
            program_spec(tv(ts@)) == top_at(tv(ts@), p as int, syn_stmts_view(acc@)),
        decreases ts@.len() - p,
    {
        match parse_stmt(ts, p, false) {
            Err(e) => return Err(e),
            Ok((x, q)) => {
                if !(p < q && q <= ts.len()) {
                    return Err(ParseError::SyntaxError(p));
                }
                let ghost before = acc@;
                let ghost xv = syn_stmt_view(x);
                acc.push(x);
                assert(acc@.drop_last() =~= before);
                assert(syn_stmts_view(acc@) == syn_stmts_view(before).push(xv));
                p = q;
            },
        }
    }
    Ok(TopLevelBlock { stmts: acc })
}

/// The statements a source text reads as.
pub open spec fn parse_spec(cs: Seq<char>) -> Result<Seq<GStmt>, ParseError> {
    match lex_spec(cs) {
        Ok(ts) => program_spec(ts),
        Err(e) => Err(e),
    }
}

/// Reads a source text as a program.
pub fn parse(source: &str) -> (r: Result<Module, ParseError>)
    ensures
        match r {
            Ok(m) => parse_spec(source@) == Ok::<Seq<GStmt>, ParseError>(stmts_view(m.body@)) && m.span is None
                && crate::ast::spanless_stmts(m.body@),
            Err(e) => parse_spec(source@) == Err::<Seq<GStmt>, ParseError>(e),
        },
{
    let ts = match lex(source) {
        Ok(ts) => ts,
        Err(e) => return Err(e),
    };
    let block = match parse_program(&ts) {
        Ok(b) => b,
        Err(e) => return Err(e),
    };
    let body = convert_stmts(block.stmts);
    Ok(Module { body, span: None })
}

} // verus!
