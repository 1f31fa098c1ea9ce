//! Compilation of the syntax tree into the linear instruction list.
//!
//! Every piece of code is compiled for the position `o` at which its first
//! instruction will stand, so that jump targets are absolute.
use vstd::prelude::*;
use crate::ast::{AssignExpr, BinaryOperator, Expr, Literal, Module, Node, Stmt, UnaryOperator};
use crate::instructions::{copy_subscript, inst_target, shift_inst, Instruction};

verus! {

/// The instruction that pushes a literal.
pub open spec fn literal_code(l: Literal) -> Seq<Instruction> {
    match l {
        Literal::Bool(v) => seq![Instruction::LoadLitBool(v)],
        Literal::Int(v) => seq![Instruction::LoadLitInt(v)],
        Literal::Float(v) => seq![Instruction::LoadLitFloat(v)],
        Literal::String(v) => seq![Instruction::LoadLitString(v)],
        Literal::Nil => seq![Instruction::LoadNone],
    }
}

/// The instruction of a binary operator that is not short-circuiting.
pub open spec fn binop_inst(op: BinaryOperator) -> Instruction {
    match op {
        BinaryOperator::Add => Instruction::Add,
        BinaryOperator::Subtract => Instruction::Sub,
        BinaryOperator::Multiply => Instruction::Mul,
        BinaryOperator::Divide => Instruction::Div,
        BinaryOperator::BitwiseAnd => Instruction::BitwiseAnd,
        BinaryOperator::BitwiseOr => Instruction::BitwiseOr,
        BinaryOperator::Xor => Instruction::BitwiseXor,
        BinaryOperator::Modulo => Instruction::Mod,
        BinaryOperator::Eq => Instruction::Eq,
        BinaryOperator::NotEq => Instruction::NotEq,
        BinaryOperator::Lt => Instruction::Lt,
        BinaryOperator::Lte => Instruction::Lte,
        BinaryOperator::Gt => Instruction::Gt,
        BinaryOperator::Gte => Instruction::Gte,
        BinaryOperator::LeftShift => Instruction::Shl,
        BinaryOperator::RightShift => Instruction::Shr,
        BinaryOperator::And => Instruction::JmpZ(0),
        BinaryOperator::Or => Instruction::JmpNz(0),
    }
}

/// The instruction of a unary operator.
pub open spec fn unop_inst(op: UnaryOperator) -> Instruction {
    match op {
        UnaryOperator::Positive => Instruction::UnaryPlus,
        UnaryOperator::Negative => Instruction::UnaryMinus,
        UnaryOperator::Not => Instruction::Not,
    }
}

/// The code of an expression placed at position `o`.
///
/// `&&` and `||` jump over their right operand when the left one decides.
/// A call pushes its arguments last to first, then their number, then the function.
pub open spec fn expr_code(e: Expr, o: int) -> Seq<Instruction>
    decreases e,
{
    match e {
        Expr::Literal(l) => literal_code(l),
        Expr::Wrapped(x) => expr_code(x.kind, o),
        Expr::Variable(v) => seq![Instruction::LoadName(v)],
        Expr::BinaryOp { left, op, right } => {
            let l = expr_code(left.kind, o);
            if op == BinaryOperator::And || op == BinaryOperator::Or {
                let r = expr_code(right.kind, o + l.len() + 1);
                let target = (o + l.len() + r.len() + 1) as u64;
                let jump = if op == BinaryOperator::And {
                    Instruction::JmpZ(target)
                } else {
                    Instruction::JmpNz(target)
                };
                l + seq![jump] + r
            } else {
                let r = expr_code(right.kind, o + l.len());
                l + r + seq![binop_inst(op)]
            }
        },
        Expr::UnaryOp { op, operand } => expr_code(operand.kind, o) + seq![unop_inst(op)],
        Expr::Call { function, args } => {
            let a = rev_args_code(args@, o);
            let f = expr_code(function.kind, o + a.len() + 1);
            a + seq![Instruction::LoadLitInt(args@.len() as i64)] + f + seq![Instruction::Call]
        },
        Expr::Attribute { value, attr } => expr_code(value.kind, o) + seq![Instruction::LoadObjectAttr(attr)],
        Expr::Subscript { value, slice } => expr_code(value.kind, o) + seq![Instruction::LoadObjectIndex(slice)],
    }
}

/// The code of call arguments placed at `o`, last argument first.
pub open spec fn rev_args_code(args: Seq<Node<Expr>>, o: int) -> Seq<Instruction>
    decreases args,
{
    if args.len() == 0 {
        Seq::empty()
    } else {
        let last = expr_code(args.last().kind, o);
        last + rev_args_code(args.drop_last(), o + last.len())
    }
}

/// The code of an assignment target placed at `o`.
pub open spec fn assign_code(t: AssignExpr, o: int) -> Seq<Instruction>
    decreases t,
{
    match t {
        AssignExpr::Variable(v) => seq![Instruction::LoadName(v)],
        AssignExpr::Wrapped(x) => assign_code(x.kind, o),
        AssignExpr::Attribute { value, attr } => expr_code(value.kind, o) + seq![Instruction::LoadObjectAttr(attr)],
        AssignExpr::Subscript { value, slice } => expr_code(value.kind, o) + seq![Instruction::LoadObjectIndex(slice)],
    }
}

/// The code that binds the arguments of a function on entry.
pub open spec fn prologue_code(args: Seq<String>) -> Seq<Instruction>
    decreases args.len(),
{
    if args.len() == 0 {
        Seq::empty()
    } else {
        prologue_code(args.drop_last()) + seq![
            Instruction::LoadName(args.last()),
            Instruction::Swap,
            Instruction::Assign,
        ]
    }
}

/// The code of a statement placed at `o`.
pub open spec fn stmt_code(s: Stmt, o: int) -> Seq<Instruction>
    decreases s,
{
    match s {
        Stmt::Expression(e) => expr_code(e.kind, o) + seq![Instruction::Pop],
        Stmt::Assign { target, value } => {
            let t = assign_code(target.kind, o);
            let v = expr_code(value.kind, o + t.len());
            t + v + seq![Instruction::Assign]
        },
        Stmt::Scoped(body) => stmts_code(body@, o),
        Stmt::If { test, body, otherwise } => {
            let t = expr_code(test.kind, o);
            let b = stmts_code(body@, o + t.len() + 1);
            match otherwise {
                None => t + seq![Instruction::JmpZ((o + t.len() + b.len() + 1) as u64)] + b,
                Some(other) => {
                    let e = stmts_code(other@, o + t.len() + b.len() + 2);
                    t + seq![Instruction::JmpZ((o + t.len() + b.len() + 2) as u64)] + b + seq![
                        Instruction::Jmp((o + t.len() + b.len() + e.len() + 2) as u64),
                    ] + e
                },
            }
        },
        Stmt::Loop { test, body } => {
            let t = expr_code(test.kind, o);
            let b = stmts_code(body@, o + t.len() + 1);
            t + seq![Instruction::JmpZ((o + t.len() + b.len() + 2) as u64)] + b + seq![Instruction::Jmp(o as u64)]
        },
        Stmt::FunctionDef { name, args, body } => {
            let entry = o + 4;
            let p = prologue_code(args@);
            let b = stmts_code(body@, entry + p.len());
            seq![
                Instruction::LoadName(name),
                Instruction::LoadDPtr(entry as u64, args@.len() as usize),
                Instruction::Assign,
                Instruction::Jmp((entry + p.len() + b.len() + 2) as u64),
            ] + p + b + seq![Instruction::LoadNone, Instruction::Ret]
        },
        Stmt::Return(value) => match value {
            Some(e) => expr_code(e.kind, o) + seq![Instruction::Ret],
            None => seq![Instruction::LoadNone, Instruction::Ret],
        },
    }
}

/// The code of a statement list placed at `o`, one statement after the other.
pub open spec fn stmts_code(s: Seq<Node<Stmt>>, o: int) -> Seq<Instruction>
    decreases s,
{
    if s.len() == 0 {
        Seq::empty()
    } else {
        let front = stmts_code(s.drop_last(), o);
        front + stmt_code(s.last().kind, o + front.len())
    }
}

/// The code of a whole program.
pub open spec fn module_code(m: Module) -> Seq<Instruction> {
    stmts_code(m.body@, 0)
}

/// Appends `b` to `a`.
fn join(a: &mut Vec<Instruction>, b: Vec<Instruction>)
    ensures
        final(a)@ == old(a)@ + b@,
{
    let mut b = b;
    a.append(&mut b);
}

/// The code of a literal.
pub fn literal_inst(l: &Literal) -> (r: Vec<Instruction>)
    ensures
        r@ == literal_code(*l),
{
    let r = match l {
        Literal::Bool(v) => vec![Instruction::LoadLitBool(*v)],
        Literal::Int(v) => vec![Instruction::LoadLitInt(*v)],
        Literal::Float(v) => vec![Instruction::LoadLitFloat(v.clone())],
        Literal::String(v) => vec![Instruction::LoadLitString(v.clone())],
        Literal::Nil => vec![Instruction::LoadNone],
    };
    assert(r@ =~= literal_code(*l));
    r
}


/// The instruction of a binary operator that is not short-circuiting.
fn binop_instruction(op: BinaryOperator) -> (r: Instruction)
    ensures
        r == binop_inst(op),
{
    match op {
        BinaryOperator::Add => Instruction::Add,
        BinaryOperator::Subtract => Instruction::Sub,
        BinaryOperator::Multiply => Instruction::Mul,
        BinaryOperator::Divide => Instruction::Div,
        BinaryOperator::BitwiseAnd => Instruction::BitwiseAnd,
        BinaryOperator::BitwiseOr => Instruction::BitwiseOr,
        BinaryOperator::Xor => Instruction::BitwiseXor,
        BinaryOperator::Modulo => Instruction::Mod,
        BinaryOperator::Eq => Instruction::Eq,
        BinaryOperator::NotEq => Instruction::NotEq,
        BinaryOperator::Lt => Instruction::Lt,
        BinaryOperator::Lte => Instruction::Lte,
        BinaryOperator::Gt => Instruction::Gt,
        BinaryOperator::Gte => Instruction::Gte,
        BinaryOperator::LeftShift => Instruction::Shl,
        BinaryOperator::RightShift => Instruction::Shr,
        BinaryOperator::And => Instruction::JmpZ(0),
        BinaryOperator::Or => Instruction::JmpNz(0),
    }
}

/// The code of an expression placed at position `o`.
pub fn expr_inst(e: &Expr, o: u64) -> (r: Vec<Instruction>)
    requires
        o + expr_code(*e, o as int).len() <= u64::MAX,
    ensures
        r@ == expr_code(*e, o as int),
    decreases e,
{
    match e {
        Expr::Literal(l) => literal_inst(l),
        Expr::Wrapped(x) => expr_inst(&x.kind, o),
        Expr::Variable(v) => {
            let r = vec![Instruction::LoadName(v.clone())];
            assert(r@ =~= expr_code(*e, o as int));
            r
        },
        Expr::BinaryOp { left, op, right } => {
            let ghost full = expr_code(*e, o as int);
            let mut inst = expr_inst(&left.kind, o);
            let l = inst.len() as u64;
            if *op == BinaryOperator::And || *op == BinaryOperator::Or {
                let r = expr_inst(&right.kind, o + l + 1);
                let target = o + l + r.len() as u64 + 1;
                let jump = if *op == BinaryOperator::And {
                    Instruction::JmpZ(target)
                } else {
                    Instruction::JmpNz(target)
                };
                inst.push(jump);
                join(&mut inst, r);
            } else {
                let r = expr_inst(&right.kind, o + l);
                join(&mut inst, r);
                inst.push(binop_instruction(*op));
            }
            assert(inst@ =~= full);
            inst
        },
        Expr::UnaryOp { op, operand } => {
            let mut inst = expr_inst(&operand.kind, o);
            let u = match op {
                UnaryOperator::Positive => Instruction::UnaryPlus,
                UnaryOperator::Negative => Instruction::UnaryMinus,
                UnaryOperator::Not => Instruction::Not,
            };
            inst.push(u);
            assert(inst@ =~= expr_code(*e, o as int));
            inst
        },
        Expr::Call { function, args } => {
            let ghost full = expr_code(*e, o as int);
            let mut inst = rev_args_inst(args, o);
            let a = inst.len() as u64;
            inst.push(Instruction::LoadLitInt(args.len() as i64));
            let f = expr_inst(&function.kind, o + a + 1);
            join(&mut inst, f);
            inst.push(Instruction::Call);
            assert(inst@ =~= full);
            inst
        },
        Expr::Attribute { value, attr } => {
            let mut inst = expr_inst(&value.kind, o);
            inst.push(Instruction::LoadObjectAttr(attr.clone()));
            assert(inst@ =~= expr_code(*e, o as int));
            inst
        },
        Expr::Subscript { value, slice } => {
            let mut inst = expr_inst(&value.kind, o);
            inst.push(Instruction::LoadObjectIndex(copy_subscript(slice)));
            assert(inst@ =~= expr_code(*e, o as int));
            inst
        },
    }
}

/// The code of call arguments placed at `o`, last argument first.
pub fn rev_args_inst(args: &Vec<Node<Expr>>, o: u64) -> (r: Vec<Instruction>)
    requires
        o + rev_args_code(args@, o as int).len() <= u64::MAX,
    ensures
        r@ == rev_args_code(args@, o as int),
    decreases args@,
{
    let mut inst: Vec<Instruction> = Vec::new();
    let mut k: usize = args.len();
    let ghost full = rev_args_code(args@, o as int);
    assert(args@.subrange(0, k as int) =~= args@);
    assert(inst@ + rev_args_code(args@.subrange(0, k as int), o + inst@.len()) =~= full);
    while k > 0
        invariant
            k <= args@.len(),
            o + rev_args_code(args@, o as int).len() <= u64::MAX,
            full == rev_args_code(args@, o as int),
            inst@ + rev_args_code(args@.subrange(0, k as int), o + inst@.len()) == full,
        decreases k,
    {
        let ghost sub = args@.subrange(0, k as int);
        assert(sub.drop_last() =~= args@.subrange(0, k - 1));
        assert(sub.last() == args@[k - 1]);
        let c = expr_inst(&args[k - 1].kind, o + inst.len() as u64);
        join(&mut inst, c);
        k = k - 1;
        assert(inst@ + rev_args_code(args@.subrange(0, k as int), o + inst@.len()) =~= full);
    }
    assert(rev_args_code(args@.subrange(0, 0), o + inst@.len()) =~= Seq::<Instruction>::empty());
    assert(inst@ =~= full);
    inst
}

/// The code of an assignment target placed at `o`.
pub fn assign_inst(t: &AssignExpr, o: u64) -> (r: Vec<Instruction>)
    requires
        o + assign_code(*t, o as int).len() <= u64::MAX,
    ensures
        r@ == assign_code(*t, o as int),
    decreases t,
{
    match t {
        AssignExpr::Variable(v) => {
            let r = vec![Instruction::LoadName(v.clone())];
            assert(r@ =~= assign_code(*t, o as int));
            r
        },
        AssignExpr::Wrapped(x) => assign_inst(&x.kind, o),
        AssignExpr::Attribute { value, attr } => {
            let mut inst = expr_inst(&value.kind, o);
            inst.push(Instruction::LoadObjectAttr(attr.clone()));
            assert(inst@ =~= assign_code(*t, o as int));
            inst
        },
        AssignExpr::Subscript { value, slice } => {
            let mut inst = expr_inst(&value.kind, o);
            inst.push(Instruction::LoadObjectIndex(copy_subscript(slice)));
            assert(inst@ =~= assign_code(*t, o as int));
            inst
        },
    }
}

/// The code that binds the arguments of a function on entry.
pub fn prologue_inst(args: &Vec<String>) -> (r: Vec<Instruction>)
    ensures
        r@ == prologue_code(args@),
{
    let mut inst: Vec<Instruction> = Vec::new();
    let mut i: usize = 0;
    while i < args.len()
        invariant
            i <= args@.len(),
            inst@ == prologue_code(args@.subrange(0, i as int)),
        decreases args@.len() - i,
    {
        inst.push(Instruction::LoadName(args[i].clone()));
        inst.push(Instruction::Swap);
        inst.push(Instruction::Assign);
        i = i + 1;
        let ghost sub = args@.subrange(0, i as int);
        assert(sub.drop_last() =~= args@.subrange(0, i - 1));
        assert(inst@ =~= prologue_code(sub));
    }
    assert(args@.subrange(0, args@.len() as int) =~= args@);
    inst
}

/// The code of a statement placed at `o`.
pub fn stmt_inst(s: &Stmt, o: u64) -> (r: Vec<Instruction>)
    requires
        o + stmt_code(*s, o as int).len() <= u64::MAX,
    ensures
        r@ == stmt_code(*s, o as int),
    decreases s,
{
    let ghost full = stmt_code(*s, o as int);
    match s {
        Stmt::Expression(e) => {
            let mut inst = expr_inst(&e.kind, o);
            inst.push(Instruction::Pop);
            assert(inst@ =~= full);
            inst
        },
        Stmt::Assign { target, value } => {
            let mut inst = assign_inst(&target.kind, o);
            let t = inst.len() as u64;
            let v = expr_inst(&value.kind, o + t);
            join(&mut inst, v);
            inst.push(Instruction::Assign);
            assert(inst@ =~= full);
            inst
        },
        Stmt::Scoped(body) => stmts_inst(body, o),
        Stmt::If { test, body, otherwise } => {
            let mut inst = expr_inst(&test.kind, o);
            let t = inst.len() as u64;
            let b = stmts_inst(body, o + t + 1);
            let bl = b.len() as u64;
            match otherwise {
                None => {
                    inst.push(Instruction::JmpZ(o + t + bl + 1));
                    join(&mut inst, b);
                },
                Some(other) => {
                    let e = stmts_inst(other, o + t + bl + 2);
                    let el = e.len() as u64;
                    inst.push(Instruction::JmpZ(o + t + bl + 2));
                    join(&mut inst, b);
                    inst.push(Instruction::Jmp(o + t + bl + el + 2));
                    join(&mut inst, e);
                },
            }
            assert(inst@ =~= full);
            inst
        },
        Stmt::Loop { test, body } => {
            let mut inst = expr_inst(&test.kind, o);
            let t = inst.len() as u64;
            let b = stmts_inst(body, o + t + 1);
            let bl = b.len() as u64;
            inst.push(Instruction::JmpZ(o + t + bl + 2));
            join(&mut inst, b);
            inst.push(Instruction::Jmp(o));
            assert(inst@ =~= full);
            inst
        },
        Stmt::FunctionDef { name, args, body } => {
            let entry = o + 4;
            let p = prologue_inst(args);
            let pl = p.len() as u64;
            let b = stmts_inst(body, entry + pl);
            let bl = b.len() as u64;
            let mut inst: Vec<Instruction> = Vec::new();
            inst.push(Instruction::LoadName(name.clone()));
            inst.push(Instruction::LoadDPtr(entry, args.len()));
            inst.push(Instruction::Assign);
            inst.push(Instruction::Jmp(entry + pl + bl + 2));
            join(&mut inst, p);
            join(&mut inst, b);
            inst.push(Instruction::LoadNone);
            inst.push(Instruction::Ret);
            assert(inst@ =~= full);
            inst
        },
        Stmt::Return(value) => match value {
            Some(e) => {
                let mut inst = expr_inst(&e.kind, o);
                inst.push(Instruction::Ret);
                assert(inst@ =~= full);
                inst
            },
            None => {
                let inst = vec![Instruction::LoadNone, Instruction::Ret];
                assert(inst@ =~= full);
                inst
            },
        },
    }
}

/// The code of a statement list placed at `o`.
pub fn stmts_inst(s: &Vec<Node<Stmt>>, o: u64) -> (r: Vec<Instruction>)
    requires
        o + stmts_code(s@, o as int).len() <= u64::MAX,
    ensures
        r@ == stmts_code(s@, o as int),
    decreases s@,
{
    let mut inst: Vec<Instruction> = Vec::new();
    let mut i: usize = 0;
    proof {
        lemma_stmts_code_prefix_len(s@, o as int, s@.len() as int);
        assert(s@.subrange(0, s@.len() as int) =~= s@);
        assert(inst@ =~= stmts_code(s@.subrange(0, 0), o as int));
    }
    while i < s.len()
        invariant
            i <= s@.len(),
            o + stmts_code(s@, o as int).len() <= u64::MAX,
            stmts_code(s@.subrange(0, i as int), o as int).len() <= stmts_code(s@, o as int).len(),
            forall|j: int| i <= j <= s@.len() ==> #[trigger] stmts_code(s@.subrange(0, j), o as int).len() <= stmts_code(s@, o as int).len(),
            inst@ == stmts_code(s@.subrange(0, i as int), o as int),
        decreases s@.len() - i,
    {
        let ghost sub = s@.subrange(0, i as int + 1);
        assert(sub.drop_last() =~= s@.subrange(0, i as int));
        assert(sub.last() == s@[i as int]);
        assert(stmts_code(sub, o as int).len() <= stmts_code(s@, o as int).len());
        let c = stmt_inst(&s[i].kind, o + inst.len() as u64);
        join(&mut inst, c);
        i = i + 1;
    }
    assert(s@.subrange(0, s@.len() as int) =~= s@);
    inst
}

/// Lengths of the code of prefixes of a statement list grow with the prefix.
proof fn lemma_stmts_code_prefix_len(s: Seq<Node<Stmt>>, o: int, n: int)
    requires
        0 <= n <= s.len(),
    ensures
        forall|j: int| 0 <= j <= n ==> #[trigger] stmts_code(s.subrange(0, j), o).len() <= stmts_code(s.subrange(0, n), o).len(),
    decreases n,
{
    if n > 0 {
        lemma_stmts_code_prefix_len(s, o, n - 1);
        let sub = s.subrange(0, n);
        assert(sub.drop_last() =~= s.subrange(0, n - 1));
    }
    assert(s.subrange(0, s.len() as int) =~= s);
}

/// Compiles a program into instructions that start at position 0.
pub fn compile(module: &Module) -> (r: Vec<Instruction>)
    requires
        module_code(*module).len() <= u64::MAX,
    ensures
        r@ == module_code(*module),
{
    stmts_inst(&module.body, 0)
}

/// Code with every jump target and entry point moved forward by `d`.
pub open spec fn shift_code(c: Seq<Instruction>, d: int) -> Seq<Instruction> {
    c.map_values(|i: Instruction| shift_inst(i, d))
}

proof fn lemma_shift_concat(a: Seq<Instruction>, b: Seq<Instruction>, d: int)
    ensures
        shift_code(a + b, d) == shift_code(a, d) + shift_code(b, d),
{
    assert(shift_code(a + b, d) =~= shift_code(a, d) + shift_code(b, d));
}

proof fn lemma_shift_fixed(a: Seq<Instruction>, d: int)
    requires
        forall|i: int| 0 <= i < a.len() ==> inst_target(#[trigger] a[i]) is None,
    ensures
        shift_code(a, d) == a,
{
    assert forall|i: int| 0 <= i < a.len() implies #[trigger] shift_code(a, d)[i] == a[i] by {
        assert(inst_target(a[i]) is None);
    }
    assert(shift_code(a, d) =~= a);
}

proof fn lemma_prologue_fixed(args: Seq<String>, d: int)
    ensures
        shift_code(prologue_code(args), d) == prologue_code(args),
    decreases args.len(),
{
    if args.len() > 0 {
        lemma_prologue_fixed(args.drop_last(), d);
        let tail = seq![Instruction::LoadName(args.last()), Instruction::Swap, Instruction::Assign];
        lemma_shift_fixed(tail, d);
        lemma_shift_concat(prologue_code(args.drop_last()), tail, d);
    }
}

proof fn lemma_literal_fixed(l: Literal, d: int)
    ensures
        shift_code(literal_code(l), d) == literal_code(l),
{
    lemma_shift_fixed(literal_code(l), d);
}

proof fn lemma_expr_shift(e: Expr, o: int, d: int)
    requires
        0 <= o,
        0 <= d,
        o + d + expr_code(e, o).len() <= u64::MAX,
    ensures
        expr_code(e, o + d) == shift_code(expr_code(e, o), d),
    decreases e,
{
    match e {
        Expr::Literal(l) => lemma_literal_fixed(l, d),
        Expr::Variable(v) => lemma_shift_fixed(seq![Instruction::LoadName(v)], d),
        Expr::Wrapped(x) => lemma_expr_shift(x.kind, o, d),
        Expr::BinaryOp { left, op, right } => {
            let l = expr_code(left.kind, o);
            lemma_expr_shift(left.kind, o, d);
            if op == BinaryOperator::And || op == BinaryOperator::Or {
                let r = expr_code(right.kind, o + l.len() + 1);
                lemma_expr_shift(right.kind, o + l.len() + 1, d);
                assert(o + d + l.len() + 1 == o + l.len() + 1 + d);
                let target = (o + l.len() + r.len() + 1) as u64;
                let jump = if op == BinaryOperator::And {
                    Instruction::JmpZ(target)
                } else {
                    Instruction::JmpNz(target)
                };
                lemma_shift_concat(l, seq![jump], d);
                lemma_shift_concat(l + seq![jump], r, d);
                assert(shift_code(seq![jump], d) =~= seq![shift_inst(jump, d)]);
            } else {
                let r = expr_code(right.kind, o + l.len());
                lemma_expr_shift(right.kind, o + l.len(), d);
                assert(o + d + l.len() == o + l.len() + d);
                lemma_shift_fixed(seq![binop_inst(op)], d);
                lemma_shift_concat(l, r, d);
                lemma_shift_concat(l + r, seq![binop_inst(op)], d);
            }
        },
        Expr::UnaryOp { op, operand } => {
            lemma_expr_shift(operand.kind, o, d);
            lemma_shift_fixed(seq![unop_inst(op)], d);
            lemma_shift_concat(expr_code(operand.kind, o), seq![unop_inst(op)], d);
        },
        Expr::Call { function, args } => {
            let a = rev_args_code(args@, o);
            lemma_args_shift(args@, o, d);
            let n = seq![Instruction::LoadLitInt(args@.len() as i64)];
            let f = expr_code(function.kind, o + a.len() + 1);
            lemma_expr_shift(function.kind, o + a.len() + 1, d);
            assert(o + d + a.len() + 1 == o + a.len() + 1 + d);
            let c = seq![Instruction::Call];
            lemma_shift_fixed(n, d);
            lemma_shift_fixed(c, d);
            lemma_shift_concat(a, n, d);
            lemma_shift_concat(a + n, f, d);
            lemma_shift_concat(a + n + f, c, d);
        },
        Expr::Attribute { value, attr } => {
            lemma_expr_shift(value.kind, o, d);
            lemma_shift_fixed(seq![Instruction::LoadObjectAttr(attr)], d);
            lemma_shift_concat(expr_code(value.kind, o), seq![Instruction::LoadObjectAttr(attr)], d);
        },
        Expr::Subscript { value, slice } => {
            lemma_expr_shift(value.kind, o, d);
            lemma_shift_fixed(seq![Instruction::LoadObjectIndex(slice)], d);
            lemma_shift_concat(expr_code(value.kind, o), seq![Instruction::LoadObjectIndex(slice)], d);
        },
    }
}

proof fn lemma_args_shift(args: Seq<Node<Expr>>, o: int, d: int)
    requires
        0 <= o,
        0 <= d,
        o + d + rev_args_code(args, o).len() <= u64::MAX,
    ensures
        rev_args_code(args, o + d) == shift_code(rev_args_code(args, o), d),
    decreases args,
{
    if args.len() > 0 {
        let last = expr_code(args.last().kind, o);
        lemma_expr_shift(args.last().kind, o, d);
        lemma_args_shift(args.drop_last(), o + last.len(), d);
        assert(o + d + last.len() == o + last.len() + d);
        lemma_shift_concat(last, rev_args_code(args.drop_last(), o + last.len()), d);
    } else {
        assert(shift_code(Seq::<Instruction>::empty(), d) =~= Seq::<Instruction>::empty());
    }
}

proof fn lemma_assign_shift(t: AssignExpr, o: int, d: int)
    requires
        0 <= o,
        0 <= d,
        o + d + assign_code(t, o).len() <= u64::MAX,
    ensures
        assign_code(t, o + d) == shift_code(assign_code(t, o), d),
    decreases t,
{
    match t {
        AssignExpr::Variable(v) => lemma_shift_fixed(seq![Instruction::LoadName(v)], d),
        AssignExpr::Wrapped(x) => lemma_assign_shift(x.kind, o, d),
        AssignExpr::Attribute { value, attr } => {
            lemma_expr_shift(value.kind, o, d);
            lemma_shift_fixed(seq![Instruction::LoadObjectAttr(attr)], d);
            lemma_shift_concat(expr_code(value.kind, o), seq![Instruction::LoadObjectAttr(attr)], d);
        },
        AssignExpr::Subscript { value, slice } => {
            lemma_expr_shift(value.kind, o, d);
            lemma_shift_fixed(seq![Instruction::LoadObjectIndex(slice)], d);
            lemma_shift_concat(expr_code(value.kind, o), seq![Instruction::LoadObjectIndex(slice)], d);
        },
    }
}

proof fn lemma_stmt_shift(s: Stmt, o: int, d: int)
    requires
        0 <= o,
        0 <= d,
        o + d + stmt_code(s, o).len() <= u64::MAX,
    ensures
        stmt_code(s, o + d) == shift_code(stmt_code(s, o), d),
    decreases s, 1int,
{
    match s {
        Stmt::Expression(e) => {
            lemma_expr_shift(e.kind, o, d);
            lemma_shift_fixed(seq![Instruction::Pop], d);
            lemma_shift_concat(expr_code(e.kind, o), seq![Instruction::Pop], d);
        },
        Stmt::Assign { target, value } => {
            let t = assign_code(target.kind, o);
            lemma_assign_shift(target.kind, o, d);
            let v = expr_code(value.kind, o + t.len());
            lemma_expr_shift(value.kind, o + t.len(), d);
            assert(o + d + t.len() == o + t.len() + d);
            lemma_shift_fixed(seq![Instruction::Assign], d);
            lemma_shift_concat(t, v, d);
            lemma_shift_concat(t + v, seq![Instruction::Assign], d);
        },
        Stmt::Scoped(body) => lemma_stmts_shift(body@, o, d),
        Stmt::If { .. } => lemma_if_shift(s, o, d),
        Stmt::Loop { test, body } => {
            let t = expr_code(test.kind, o);
            lemma_expr_shift(test.kind, o, d);
            let b = stmts_code(body@, o + t.len() + 1);
            lemma_stmts_shift(body@, o + t.len() + 1, d);
            assert(o + d + t.len() + 1 == o + t.len() + 1 + d);
            let j1 = seq![Instruction::JmpZ((o + t.len() + b.len() + 2) as u64)];
            let j2 = seq![Instruction::Jmp(o as u64)];
            assert(shift_code(j1, d) =~= seq![shift_inst(j1[0], d)]);
            assert(shift_code(j2, d) =~= seq![shift_inst(j2[0], d)]);
            lemma_shift_concat(t, j1, d);
            lemma_shift_concat(t + j1, b, d);
            lemma_shift_concat(t + j1 + b, j2, d);
        },
        Stmt::FunctionDef { name, args, body } => {
            let entry = o + 4;
            let p = prologue_code(args@);
            lemma_prologue_fixed(args@, d);
            let b = stmts_code(body@, entry + p.len());
            lemma_stmts_shift(body@, entry + p.len(), d);
            assert(o + d + 4 + p.len() == entry + p.len() + d);
            let head = seq![
                Instruction::LoadName(name),
                Instruction::LoadDPtr(entry as u64, args@.len() as usize),
                Instruction::Assign,
                Instruction::Jmp((entry + p.len() + b.len() + 2) as u64),
            ];
            let tail = seq![Instruction::LoadNone, Instruction::Ret];
            assert(shift_code(head, d) =~= seq![
                shift_inst(head[0], d), shift_inst(head[1], d), shift_inst(head[2], d), shift_inst(head[3], d)
            ]);
            lemma_shift_fixed(tail, d);
            lemma_shift_concat(head, p, d);
            lemma_shift_concat(head + p, b, d);
            lemma_shift_concat(head + p + b, tail, d);
        },
        Stmt::Return(value) => match value {
            Some(e) => {
                lemma_expr_shift(e.kind, o, d);
                lemma_shift_fixed(seq![Instruction::Ret], d);
                lemma_shift_concat(expr_code(e.kind, o), seq![Instruction::Ret], d);
            },
            None => lemma_shift_fixed(seq![Instruction::LoadNone, Instruction::Ret], d),
        },
    }
}

proof fn lemma_if_shift(s: Stmt, o: int, d: int)
    requires
        s is If,
        0 <= o,
        0 <= d,
        o + d + stmt_code(s, o).len() <= u64::MAX,
    ensures
        stmt_code(s, o + d) == shift_code(stmt_code(s, o), d),
    decreases s, 0int,
{
    match s {
        Stmt::If { test, body, otherwise } => {
            let t = expr_code(test.kind, o);
            lemma_expr_shift(test.kind, o, d);
            let b = stmts_code(body@, o + t.len() + 1);
            lemma_stmts_shift(body@, o + t.len() + 1, d);
            assert(o + d + t.len() + 1 == o + t.len() + 1 + d);
            match otherwise {
                None => {
                    let j = seq![Instruction::JmpZ((o + t.len() + b.len() + 1) as u64)];
                    assert(shift_code(j, d) =~= seq![shift_inst(j[0], d)]);
                    lemma_shift_concat(t, j, d);
                    lemma_shift_concat(t + j, b, d);
                },
                Some(other) => {
                    let e = stmts_code(other@, o + t.len() + b.len() + 2);
                    lemma_stmts_shift(other@, o + t.len() + b.len() + 2, d);
                    assert(o + d + t.len() + b.len() + 2 == o + t.len() + b.len() + 2 + d);
                    let j1 = seq![Instruction::JmpZ((o + t.len() + b.len() + 2) as u64)];
                    let j2 = seq![Instruction::Jmp((o + t.len() + b.len() + e.len() + 2) as u64)];
                    assert(shift_code(j1, d) =~= seq![shift_inst(j1[0], d)]);
                    assert(shift_code(j2, d) =~= seq![shift_inst(j2[0], d)]);
                    lemma_shift_concat(t, j1, d);
                    lemma_shift_concat(t + j1, b, d);
                    lemma_shift_concat(t + j1 + b, j2, d);
                    lemma_shift_concat(t + j1 + b + j2, e, d);
                },
            }
        },
        _ => {},
    }
}

proof fn lemma_stmts_shift(s: Seq<Node<Stmt>>, o: int, d: int)
    requires
        0 <= o,
        0 <= d,
        o + d + stmts_code(s, o).len() <= u64::MAX,
    ensures
        stmts_code(s, o + d) == shift_code(stmts_code(s, o), d),
    decreases s, 2int,
{
    if s.len() > 0 {
        let front = stmts_code(s.drop_last(), o);
        lemma_stmts_shift(s.drop_last(), o, d);
        lemma_stmt_shift(s.last().kind, o + front.len(), d);
        assert(o + d + front.len() == o + front.len() + d);
        lemma_shift_concat(front, stmt_code(s.last().kind, o + front.len()), d);
    } else {
        assert(shift_code(Seq::<Instruction>::empty(), d) =~= Seq::<Instruction>::empty());
    }
}

/// Compiling a program to start at position `d` gives the code compiled to
/// start at 0 with every jump target and entry point moved forward by `d`, so
/// `stmts_inst(&m.body, d)` and `offset(compile(&m), d)` agree.
pub proof fn law_compile_at_offset(m: Module, d: u64)
    requires
        module_code(m).len() + d <= u64::MAX,
    ensures
        stmts_code(m.body@, d as int) == shift_code(module_code(m), d as int),
{
    lemma_stmts_shift(m.body@, 0, d as int);
}

/// Compiling one statement to start at `o + d` gives its code compiled to start
/// at `o` with every jump target and entry point moved forward by `d`.
pub proof fn law_stmt_at_offset(s: Stmt, o: u64, d: u64)
    requires
        o + d + stmt_code(s, o as int).len() <= u64::MAX,
    ensures
        stmt_code(s, o + d) == shift_code(stmt_code(s, o as int), d as int),
{
    lemma_stmt_shift(s, o as int, d as int);
}

/// Compiling a statement list to start at `o + d` gives its code compiled to
/// start at `o` with every jump target and entry point moved forward by `d`.
pub proof fn law_stmts_at_offset(s: Seq<Node<Stmt>>, o: u64, d: u64)
    requires
        o + d + stmts_code(s, o as int).len() <= u64::MAX,
    ensures
        stmts_code(s, o + d) == shift_code(stmts_code(s, o as int), d as int),
{
    lemma_stmts_shift(s, o as int, d as int);
}

/// Shifting code forward by `d` and back again gives it back, when every target
/// stays within `u64` on the way.
proof fn lemma_unshift(c: Seq<Instruction>, lo: int, hi: int, d: int)
    requires
        targets_within(c, lo, hi),
        0 <= lo,
        0 <= d,
        hi + d <= u64::MAX,
    ensures
        shift_code(shift_code(c, d), -d) == c,
{
    assert forall|i: int| 0 <= i < c.len() implies #[trigger] shift_code(shift_code(c, d), -d)[i] == c[i] by {
        assert(inst_target(c[i]) matches Some(t) ==> lo <= t <= hi);
    }
    assert(shift_code(shift_code(c, d), -d) =~= c);
}

/// Compiling one statement at position `b` gives its code compiled at `a` with
/// every jump target and entry point moved by `b - a`, forwards or backwards.
pub proof fn law_stmt_moved(s: Stmt, a: u64, b: u64)
    requires
        a + stmt_code(s, a as int).len() <= u64::MAX,
        b + stmt_code(s, a as int).len() <= u64::MAX,
    ensures
        stmt_code(s, b as int) == shift_code(stmt_code(s, a as int), b - a),
{
    lemma_stmt_len(s, a as int, b as int);
    if a <= b {
        lemma_stmt_shift(s, a as int, b - a);
    } else {
        lemma_stmt_shift(s, b as int, a - b);
        lemma_stmt_within(s, b as int);
        lemma_unshift(stmt_code(s, b as int), b as int, b + stmt_code(s, b as int).len(), a - b);
    }
}

/// Compiling a statement list at position `b` gives its code compiled at `a`
/// with every jump target and entry point moved by `b - a`, forwards or backwards.
pub proof fn law_stmts_moved(s: Seq<Node<Stmt>>, a: u64, b: u64)
    requires
        a + stmts_code(s, a as int).len() <= u64::MAX,
        b + stmts_code(s, a as int).len() <= u64::MAX,
    ensures
        stmts_code(s, b as int) == shift_code(stmts_code(s, a as int), b - a),
{
    lemma_stmts_len(s, a as int, b as int);
    if a <= b {
        lemma_stmts_shift(s, a as int, b - a);
    } else {
        lemma_stmts_shift(s, b as int, a - b);
        lemma_stmts_within(s, b as int);
        lemma_unshift(stmts_code(s, b as int), b as int, b + stmts_code(s, b as int).len(), a - b);
    }
}

/// The code of one statement placed at `o` never jumps out of itself: every
/// jump target and entry point lies between `o` and its end.
pub proof fn law_stmt_targets_in_code(s: Stmt, o: u64)
    requires
        o + stmt_code(s, o as int).len() <= u64::MAX,
    ensures
        targets_within(stmt_code(s, o as int), o as int, o + stmt_code(s, o as int).len()),
{
    lemma_stmt_within(s, o as int);
}

/// An operation on two literals compiles to pushing the left literal, then the
/// right one, then the operator's instruction; `&&` and `||` compile to a
/// conditional jump over the right operand, which is taken when the left one
/// decides (`&&` on false, `||` on true).
pub proof fn law_literal_operation_code(x: i64, op: BinaryOperator, y: i64, o: int)
    ensures
        ({
            let e = Expr::BinaryOp {
                left: Box::new(Node { kind: Expr::Literal(Literal::Int(x)), span: None }),
                op,
                right: Box::new(Node { kind: Expr::Literal(Literal::Int(y)), span: None }),
            };
            &&& op != BinaryOperator::And && op != BinaryOperator::Or ==> expr_code(e, o)
                == seq![Instruction::LoadLitInt(x), Instruction::LoadLitInt(y), binop_inst(op)]
            &&& op == BinaryOperator::And ==> expr_code(e, o)
                == seq![Instruction::LoadLitInt(x), Instruction::JmpZ((o + 3) as u64), Instruction::LoadLitInt(y)]
            &&& op == BinaryOperator::Or ==> expr_code(e, o)
                == seq![Instruction::LoadLitInt(x), Instruction::JmpNz((o + 3) as u64), Instruction::LoadLitInt(y)]
        }),
{
    let l = Expr::Literal(Literal::Int(x));
    let r = Expr::Literal(Literal::Int(y));
    assert(expr_code(l, o) == seq![Instruction::LoadLitInt(x)]);
    assert(expr_code(r, o + 1) == seq![Instruction::LoadLitInt(y)]);
    assert(expr_code(r, o + 2) == seq![Instruction::LoadLitInt(y)]);
    assert(seq![Instruction::LoadLitInt(x)] + seq![Instruction::LoadLitInt(y)] + seq![binop_inst(op)]
        =~= seq![Instruction::LoadLitInt(x), Instruction::LoadLitInt(y), binop_inst(op)]);
    assert(seq![Instruction::LoadLitInt(x)] + seq![Instruction::JmpZ((o + 3) as u64)] + seq![Instruction::LoadLitInt(y)]
        =~= seq![Instruction::LoadLitInt(x), Instruction::JmpZ((o + 3) as u64), Instruction::LoadLitInt(y)]);
    assert(seq![Instruction::LoadLitInt(x)] + seq![Instruction::JmpNz((o + 3) as u64)] + seq![Instruction::LoadLitInt(y)]
        =~= seq![Instruction::LoadLitInt(x), Instruction::JmpNz((o + 3) as u64), Instruction::LoadLitInt(y)]);
}

/// Every jump target and entry point in `c` lies in `lo..=hi`.
pub open spec fn targets_within(c: Seq<Instruction>, lo: int, hi: int) -> bool {
    forall|i: int| 0 <= i < c.len() ==> (inst_target(#[trigger] c[i]) matches Some(t) ==> lo <= t <= hi)
}

proof fn lemma_within_join(a: Seq<Instruction>, b: Seq<Instruction>, lo: int, hi: int, la: int, ha: int, lb: int, hb: int)
    requires
        targets_within(a, la, ha),
        targets_within(b, lb, hb),
        lo <= la,
        ha <= hi,
        lo <= lb,
        hb <= hi,
    ensures
        targets_within(a + b, lo, hi),
{
    assert forall|i: int| 0 <= i < (a + b).len() implies (inst_target(#[trigger] (a + b)[i]) matches Some(t) ==> lo <= t <= hi) by {
        if i < a.len() {
            assert((a + b)[i] == a[i]);
        } else {
            assert((a + b)[i] == b[i - a.len()]);
        }
    }
}

proof fn lemma_within_one(x: Instruction, lo: int, hi: int)
    requires
        inst_target(x) matches Some(t) ==> lo <= t <= hi,
    ensures
        targets_within(seq![x], lo, hi),
{
}

proof fn lemma_prologue_within(args: Seq<String>, lo: int, hi: int)
    ensures
        targets_within(prologue_code(args), lo, hi),
    decreases args.len(),
{
    if args.len() > 0 {
        lemma_prologue_within(args.drop_last(), lo, hi);
        let tail = seq![Instruction::LoadName(args.last()), Instruction::Swap, Instruction::Assign];
        lemma_within_join(prologue_code(args.drop_last()), tail, lo, hi, lo, hi, lo, hi);
    }
}

proof fn lemma_expr_within(e: Expr, o: int)
    requires
        0 <= o,
        o + expr_code(e, o).len() <= u64::MAX,
    ensures
        targets_within(expr_code(e, o), o, o + expr_code(e, o).len()),
    decreases e,
{
    let hi = o + expr_code(e, o).len();
    match e {
        Expr::Wrapped(x) => lemma_expr_within(x.kind, o),
        Expr::BinaryOp { left, op, right } => {
            let l = expr_code(left.kind, o);
            lemma_expr_within(left.kind, o);
            if op == BinaryOperator::And || op == BinaryOperator::Or {
                let r = expr_code(right.kind, o + l.len() + 1);
                lemma_expr_within(right.kind, o + l.len() + 1);
                let target = (o + l.len() + r.len() + 1) as u64;
                let jump = if op == BinaryOperator::And {
                    Instruction::JmpZ(target)
                } else {
                    Instruction::JmpNz(target)
                };
                lemma_within_one(jump, o, hi);
                lemma_within_join(l, seq![jump], o, hi, o, o + l.len(), o, hi);
                lemma_within_join(l + seq![jump], r, o, hi, o, hi, o + l.len() + 1, hi);
            } else {
                let r = expr_code(right.kind, o + l.len());
                lemma_expr_within(right.kind, o + l.len());
                lemma_within_join(l, r, o, hi, o, o + l.len(), o + l.len(), hi);
                lemma_within_join(l + r, seq![binop_inst(op)], o, hi, o, hi, o, hi);
            }
        },
        Expr::UnaryOp { op, operand } => {
            lemma_expr_within(operand.kind, o);
            lemma_within_join(expr_code(operand.kind, o), seq![unop_inst(op)], o, hi, o, hi, o, hi);
        },
        Expr::Call { function, args } => {
            let a = rev_args_code(args@, o);
            lemma_args_within(args@, o);
            let n = seq![Instruction::LoadLitInt(args@.len() as i64)];
            let f = expr_code(function.kind, o + a.len() + 1);
            lemma_expr_within(function.kind, o + a.len() + 1);
            lemma_within_join(a, n, o, hi, o, o + a.len(), o, hi);
            lemma_within_join(a + n, f, o, hi, o, hi, o + a.len() + 1, hi);
            lemma_within_join(a + n + f, seq![Instruction::Call], o, hi, o, hi, o, hi);
        },
        Expr::Attribute { value, attr } => {
            lemma_expr_within(value.kind, o);
            lemma_within_join(expr_code(value.kind, o), seq![Instruction::LoadObjectAttr(attr)], o, hi, o, hi, o, hi);
        },
        Expr::Subscript { value, slice } => {
            lemma_expr_within(value.kind, o);
            lemma_within_join(expr_code(value.kind, o), seq![Instruction::LoadObjectIndex(slice)], o, hi, o, hi, o, hi);
        },
        _ => {},
    }
}

proof fn lemma_args_within(args: Seq<Node<Expr>>, o: int)
    requires
        0 <= o,
        o + rev_args_code(args, o).len() <= u64::MAX,
    ensures
        targets_within(rev_args_code(args, o), o, o + rev_args_code(args, o).len()),
    decreases args,
{
    if args.len() > 0 {
        let hi = o + rev_args_code(args, o).len();
        let last = expr_code(args.last().kind, o);
        lemma_expr_within(args.last().kind, o);
        lemma_args_within(args.drop_last(), o + last.len());
        lemma_within_join(last, rev_args_code(args.drop_last(), o + last.len()), o, hi, o, o + last.len(), o + last.len(), hi);
    }
}

proof fn lemma_assign_within(t: AssignExpr, o: int)
    requires
        0 <= o,
        o + assign_code(t, o).len() <= u64::MAX,
    ensures
        targets_within(assign_code(t, o), o, o + assign_code(t, o).len()),
    decreases t,
{
    let hi = o + assign_code(t, o).len();
    match t {
        AssignExpr::Variable(v) => {},
        AssignExpr::Wrapped(x) => lemma_assign_within(x.kind, o),
        AssignExpr::Attribute { value, attr } => {
            lemma_expr_within(value.kind, o);
            lemma_within_join(expr_code(value.kind, o), seq![Instruction::LoadObjectAttr(attr)], o, hi, o, hi, o, hi);
        },
        AssignExpr::Subscript { value, slice } => {
            lemma_expr_within(value.kind, o);
            lemma_within_join(expr_code(value.kind, o), seq![Instruction::LoadObjectIndex(slice)], o, hi, o, hi, o, hi);
        },
    }
}

proof fn lemma_stmt_within(s: Stmt, o: int)
    requires
        0 <= o,
        o + stmt_code(s, o).len() <= u64::MAX,
    ensures
        targets_within(stmt_code(s, o), o, o + stmt_code(s, o).len()),
    decreases s, 1int,
{
    let hi = o + stmt_code(s, o).len();
    match s {
        Stmt::Expression(e) => {
            lemma_expr_within(e.kind, o);
            lemma_within_join(expr_code(e.kind, o), seq![Instruction::Pop], o, hi, o, hi, o, hi);
        },
        Stmt::Assign { target, value } => {
            let t = assign_code(target.kind, o);
            lemma_assign_within(target.kind, o);
            let v = expr_code(value.kind, o + t.len());
            lemma_expr_within(value.kind, o + t.len());
            lemma_within_join(t, v, o, hi, o, o + t.len(), o + t.len(), hi);
            lemma_within_join(t + v, seq![Instruction::Assign], o, hi, o, hi, o, hi);
        },
        Stmt::Scoped(body) => lemma_stmts_within(body@, o),
        Stmt::If { .. } => lemma_if_within(s, o),
        Stmt::Loop { test, body } => {
            let t = expr_code(test.kind, o);
            lemma_expr_within(test.kind, o);
            let b = stmts_code(body@, o + t.len() + 1);
            lemma_stmts_within(body@, o + t.len() + 1);
            let j1 = seq![Instruction::JmpZ((o + t.len() + b.len() + 2) as u64)];
            let j2 = seq![Instruction::Jmp(o as u64)];
            lemma_within_join(t, j1, o, hi, o, o + t.len(), o, hi);
            lemma_within_join(t + j1, b, o, hi, o, hi, o + t.len() + 1, hi);
            lemma_within_join(t + j1 + b, j2, o, hi, o, hi, o, hi);
        },
        Stmt::FunctionDef { name, args, body } => {
            let entry = o + 4;
            let p = prologue_code(args@);
            lemma_prologue_within(args@, o, hi);
            let b = stmts_code(body@, entry + p.len());
            lemma_stmts_within(body@, entry + p.len());
            let head = seq![
                Instruction::LoadName(name),
                Instruction::LoadDPtr(entry as u64, args@.len() as usize),
                Instruction::Assign,
                Instruction::Jmp((entry + p.len() + b.len() + 2) as u64),
            ];
            let tail = seq![Instruction::LoadNone, Instruction::Ret];
            assert(targets_within(head, o, hi)) by {
                assert forall|i: int| 0 <= i < head.len() implies (inst_target(#[trigger] head[i]) matches Some(t) ==> o <= t <= hi) by {
                    if i == 1 {
                        assert(head[1] == Instruction::LoadDPtr(entry as u64, args@.len() as usize));
                    }
                    if i == 3 {
                        assert(head[3] == Instruction::Jmp((entry + p.len() + b.len() + 2) as u64));
                    }
                }
            }
            lemma_within_join(head, p, o, hi, o, hi, o, hi);
            lemma_within_join(head + p, b, o, hi, o, hi, entry + p.len(), hi);
            lemma_within_join(head + p + b, tail, o, hi, o, hi, o, hi);
        },
        Stmt::Return(value) => match value {
            Some(e) => {
                lemma_expr_within(e.kind, o);
                lemma_within_join(expr_code(e.kind, o), seq![Instruction::Ret], o, hi, o, hi, o, hi);
            },
            None => {},
        },
    }
}

proof fn lemma_if_within(s: Stmt, o: int)
    requires
        s is If,
        0 <= o,
        o + stmt_code(s, o).len() <= u64::MAX,
    ensures
        targets_within(stmt_code(s, o), o, o + stmt_code(s, o).len()),
    decreases s, 0int,
{
    let hi = o + stmt_code(s, o).len();
    match s {
        Stmt::If { test, body, otherwise } => {
            let t = expr_code(test.kind, o);
            lemma_expr_within(test.kind, o);
            let b = stmts_code(body@, o + t.len() + 1);
            lemma_stmts_within(body@, o + t.len() + 1);
            match otherwise {
                None => {
                    let j = seq![Instruction::JmpZ((o + t.len() + b.len() + 1) as u64)];
                    lemma_within_join(t, j, o, hi, o, o + t.len(), o, hi);
                    lemma_within_join(t + j, b, o, hi, o, hi, o + t.len() + 1, hi);
                },
                Some(other) => {
                    let e = stmts_code(other@, o + t.len() + b.len() + 2);
                    lemma_stmts_within(other@, o + t.len() + b.len() + 2);
                    let j1 = seq![Instruction::JmpZ((o + t.len() + b.len() + 2) as u64)];
                    let j2 = seq![Instruction::Jmp((o + t.len() + b.len() + e.len() + 2) as u64)];
                    lemma_within_join(t, j1, o, hi, o, o + t.len(), o, hi);
                    lemma_within_join(t + j1, b, o, hi, o, hi, o + t.len() + 1, hi);
                    lemma_within_join(t + j1 + b, j2, o, hi, o, hi, o, hi);
                    lemma_within_join(t + j1 + b + j2, e, o, hi, o, hi, o + t.len() + b.len() + 2, hi);
                },
            }
        },
        _ => {},
    }
}

proof fn lemma_stmts_within(s: Seq<Node<Stmt>>, o: int)
    requires
        0 <= o,
        o + stmts_code(s, o).len() <= u64::MAX,
    ensures
        targets_within(stmts_code(s, o), o, o + stmts_code(s, o).len()),
    decreases s, 2int,
{
    if s.len() > 0 {
        let hi = o + stmts_code(s, o).len();
        let front = stmts_code(s.drop_last(), o);
        lemma_stmts_within(s.drop_last(), o);
        lemma_stmt_within(s.last().kind, o + front.len());
        lemma_within_join(front, stmt_code(s.last().kind, o + front.len()), o, hi, o, o + front.len(), o + front.len(), hi);
    }
}

/// Compiled code never jumps out of itself: every jump target and function
/// entry point lies between 0 and the length of the code, where a run ends.
pub proof fn law_targets_in_code(m: Module)
    requires
        module_code(m).len() <= u64::MAX,
    ensures
        targets_within(module_code(m), 0, module_code(m).len() as int),
{
    lemma_stmts_within(m.body@, 0);
}

proof fn lemma_expr_len(e: Expr, a: int, b: int)
    ensures
        expr_code(e, a).len() == expr_code(e, b).len(),
    decreases e,
{
    match e {
        Expr::Wrapped(x) => lemma_expr_len(x.kind, a, b),
        Expr::BinaryOp { left, op, right } => {
            lemma_expr_len(left.kind, a, b);
            let la = expr_code(left.kind, a).len();
            if op == BinaryOperator::And || op == BinaryOperator::Or {
                lemma_expr_len(right.kind, a + la + 1, b + la + 1);
            } else {
                lemma_expr_len(right.kind, a + la, b + la);
            }
        },
        Expr::UnaryOp { op, operand } => lemma_expr_len(operand.kind, a, b),
        Expr::Call { function, args } => {
            lemma_args_len(args@, a, b);
            let n = rev_args_code(args@, a).len();
            lemma_expr_len(function.kind, a + n + 1, b + n + 1);
        },
        Expr::Attribute { value, attr } => lemma_expr_len(value.kind, a, b),
        Expr::Subscript { value, slice } => lemma_expr_len(value.kind, a, b),
        _ => {},
    }
}

proof fn lemma_args_len(args: Seq<Node<Expr>>, a: int, b: int)
    ensures
        rev_args_code(args, a).len() == rev_args_code(args, b).len(),
    decreases args,
{
    if args.len() > 0 {
        lemma_expr_len(args.last().kind, a, b);
        let n = expr_code(args.last().kind, a).len();
        lemma_args_len(args.drop_last(), a + n, b + n);
    }
}

proof fn lemma_assign_len(t: AssignExpr, a: int, b: int)
    ensures
        assign_code(t, a).len() == assign_code(t, b).len(),
    decreases t,
{
    match t {
        AssignExpr::Wrapped(x) => lemma_assign_len(x.kind, a, b),
        AssignExpr::Attribute { value, attr } => lemma_expr_len(value.kind, a, b),
        AssignExpr::Subscript { value, slice } => lemma_expr_len(value.kind, a, b),
        _ => {},
    }
}

proof fn lemma_stmt_len(s: Stmt, a: int, b: int)
    ensures
        stmt_code(s, a).len() == stmt_code(s, b).len(),
    decreases s, 1int,
{
    match s {
        Stmt::Expression(e) => lemma_expr_len(e.kind, a, b),
        Stmt::Assign { target, value } => {
            lemma_assign_len(target.kind, a, b);
            let n = assign_code(target.kind, a).len();
            lemma_expr_len(value.kind, a + n, b + n);
        },
        Stmt::Scoped(body) => lemma_stmts_len(body@, a, b),
        Stmt::If { .. } => lemma_if_len(s, a, b),
        Stmt::Loop { test, body } => {
            lemma_expr_len(test.kind, a, b);
            let n = expr_code(test.kind, a).len();
            lemma_stmts_len(body@, a + n + 1, b + n + 1);
        },
        Stmt::FunctionDef { name, args, body } => {
            let p = prologue_code(args@).len();
            lemma_stmts_len(body@, a + 4 + p, b + 4 + p);
        },
        Stmt::Return(value) => match value {
            Some(e) => lemma_expr_len(e.kind, a, b),
            None => {},
        },
    }
}

proof fn lemma_if_len(s: Stmt, a: int, b: int)
    requires
        s is If,
    ensures
        stmt_code(s, a).len() == stmt_code(s, b).len(),
    decreases s, 0int,
{
    match s {
        Stmt::If { test, body, otherwise } => {
            lemma_expr_len(test.kind, a, b);
            let n = expr_code(test.kind, a).len();
            lemma_stmts_len(body@, a + n + 1, b + n + 1);
            let m = stmts_code(body@, a + n + 1).len();
            match otherwise {
                Some(other) => lemma_stmts_len(other@, a + n + m + 2, b + n + m + 2),
                None => {},
            }
        },
        _ => {},
    }
}

proof fn lemma_stmts_len(s: Seq<Node<Stmt>>, a: int, b: int)
    ensures
        stmts_code(s, a).len() == stmts_code(s, b).len(),
    decreases s, 2int,
{
    if s.len() > 0 {
        lemma_stmts_len(s.drop_last(), a, b);
        let n = stmts_code(s.drop_last(), a).len();
        lemma_stmt_len(s.last().kind, a + n, b + n);
    }
}

/// `Some(n)` when `n` fits in a `u64`.
pub open spec fn fitting(n: int) -> Option<u64> {
    if 0 <= n <= u64::MAX {
        Some(n as u64)
    } else {
        None
    }
}

/// `a + b`, when both are known and the sum fits.
fn add_len(a: Option<u64>, b: Option<u64>) -> (r: Option<u64>)
    ensures
        (a is Some && b is Some) ==> r == fitting(a->0 + b->0),
        (a is None || b is None) ==> r is None,
{
    match (a, b) {
        (Some(x), Some(y)) => x.checked_add(y),
        _ => None,
    }
}

/// The number of instructions of an expression, when it fits in a `u64`.
pub fn expr_len(e: &Expr) -> (r: Option<u64>)
    ensures
        r == fitting(expr_code(*e, 0).len() as int),
    decreases e,
{
    match e {
        Expr::Literal(_) => Some(1),
        Expr::Variable(_) => Some(1),
        Expr::Wrapped(x) => expr_len(&x.kind),
        Expr::BinaryOp { left, op, right } => {
            let l = expr_len(&left.kind);
            let r = expr_len(&right.kind);
            proof {
                let n = expr_code(left.kind, 0).len();
                if *op == BinaryOperator::And || *op == BinaryOperator::Or {
                    lemma_expr_len(right.kind, n + 1int, 0);
                } else {
                    lemma_expr_len(right.kind, n as int, 0);
                }
            }
            add_len(add_len(l, r), Some(1))
        },
        Expr::UnaryOp { op, operand } => add_len(expr_len(&operand.kind), Some(1)),
        Expr::Call { function, args } => {
            let a = args_len(args);
            let f = expr_len(&function.kind);
            proof {
                let n = rev_args_code(args@, 0).len();
                lemma_expr_len(function.kind, n + 1int, 0);
            }
            add_len(add_len(a, f), Some(2))
        },
        Expr::Attribute { value, attr } => add_len(expr_len(&value.kind), Some(1)),
        Expr::Subscript { value, slice } => add_len(expr_len(&value.kind), Some(1)),
    }
}

/// The number of instructions of call arguments, when it fits in a `u64`.
pub fn args_len(args: &Vec<Node<Expr>>) -> (r: Option<u64>)
    ensures
        r == fitting(rev_args_code(args@, 0).len() as int),
    decreases args@,
{
    let mut total: Option<u64> = Some(0);
    let mut i: usize = 0;
    proof {
        assert(args@.subrange(0, 0) =~= Seq::<Node<Expr>>::empty());
    }
    while i < args.len()
        invariant
            i <= args@.len(),
            total == fitting(rev_args_code(args@.subrange(0, i as int), 0).len() as int),
        decreases args@.len() - i,
    {
        let n = expr_len(&args[i].kind);
        proof {
            let sub = args@.subrange(0, i as int + 1);
            assert(sub.drop_last() =~= args@.subrange(0, i as int));
            assert(sub.last() == args@[i as int]);
            let k = expr_code(args@[i as int].kind, 0).len();
            lemma_args_len(args@.subrange(0, i as int), k as int, 0);
        }
        total = add_len(total, n);
        i = i + 1;
    }
    assert(args@.subrange(0, args@.len() as int) =~= args@);
    total
}

/// The number of instructions of an assignment target, when it fits in a `u64`.
pub fn assign_len(t: &AssignExpr) -> (r: Option<u64>)
    ensures
        r == fitting(assign_code(*t, 0).len() as int),
    decreases t,
{
    match t {
        AssignExpr::Variable(_) => Some(1),
        AssignExpr::Wrapped(x) => assign_len(&x.kind),
        AssignExpr::Attribute { value, attr } => add_len(expr_len(&value.kind), Some(1)),
        AssignExpr::Subscript { value, slice } => add_len(expr_len(&value.kind), Some(1)),
    }
}

/// The number of instructions of a statement, when it fits in a `u64`.
pub fn stmt_len(s: &Stmt) -> (r: Option<u64>)
    ensures
        r == fitting(stmt_code(*s, 0).len() as int),
    decreases s,
{
    match s {
        Stmt::Expression(e) => add_len(expr_len(&e.kind), Some(1)),
        Stmt::Assign { target, value } => {
            let t = assign_len(&target.kind);
            let v = expr_len(&value.kind);
            proof {
                lemma_expr_len(value.kind, assign_code(target.kind, 0).len() as int, 0);
            }
            add_len(add_len(t, v), Some(1))
        },
        Stmt::Scoped(body) => stmts_len(body),
        Stmt::If { test, body, otherwise } => {
            let t = expr_len(&test.kind);
            let b = stmts_len(body);
            proof {
                let n = expr_code(test.kind, 0).len();
                lemma_stmts_len(body@, n + 1int, 0);
            }
            match otherwise {
                None => add_len(add_len(t, b), Some(1)),
                Some(other) => {
                    let e = stmts_len(other);
                    proof {
                        let n = expr_code(test.kind, 0).len();
                        let m = stmts_code(body@, n + 1int).len();
                        lemma_stmts_len(other@, n + m + 2int, 0);
                    }
                    add_len(add_len(add_len(t, b), e), Some(2))
                },
            }
        },
        Stmt::Loop { test, body } => {
            let t = expr_len(&test.kind);
            let b = stmts_len(body);
            proof {
                let n = expr_code(test.kind, 0).len();
                lemma_stmts_len(body@, n + 1int, 0);
            }
            add_len(add_len(t, b), Some(2))
        },
        Stmt::FunctionDef { name, args, body } => {
            let b = stmts_len(body);
            let p = prologue_len(args);
            proof {
                lemma_stmts_len(body@, 4int + prologue_code(args@).len(), 0);
            }
            add_len(add_len(p, b), Some(6))
        },
        Stmt::Return(value) => match value {
            Some(e) => add_len(expr_len(&e.kind), Some(1)),
            None => Some(2),
        },
    }
}

/// The number of instructions of a function's argument bindings, when it fits in a `u64`.
fn prologue_len(args: &Vec<String>) -> (r: Option<u64>)
    ensures
        r == fitting(prologue_code(args@).len() as int),
{
    proof {
        lemma_prologue_len(args@);
    }
    if args.len() as u64 > u64::MAX / 3 {
        None
    } else {
        Some(3 * args.len() as u64)
    }
}

proof fn lemma_prologue_len(args: Seq<String>)
    ensures
        prologue_code(args).len() == 3 * args.len(),
    decreases args.len(),
{
    if args.len() > 0 {
        lemma_prologue_len(args.drop_last());
    }
}

/// The number of instructions of a statement list, when it fits in a `u64`.
pub fn stmts_len(s: &Vec<Node<Stmt>>) -> (r: Option<u64>)
    ensures
        r == fitting(stmts_code(s@, 0).len() as int),
    decreases s@,
{
    let mut total: Option<u64> = Some(0);
    let mut i: usize = 0;
    proof {
        assert(s@.subrange(0, 0) =~= Seq::<Node<Stmt>>::empty());
    }
    while i < s.len()
        invariant
            i <= s@.len(),
            total == fitting(stmts_code(s@.subrange(0, i as int), 0).len() as int),
        decreases s@.len() - i,
    {
        let n = stmt_len(&s[i].kind);
        proof {
            let sub = s@.subrange(0, i as int + 1);
            assert(sub.drop_last() =~= s@.subrange(0, i as int));
            assert(sub.last() == s@[i as int]);
            let k = stmts_code(s@.subrange(0, i as int), 0).len();
            lemma_stmt_len(s@[i as int].kind, k as int, 0);
        }
        total = add_len(total, n);
        i = i + 1;
    }
    assert(s@.subrange(0, s@.len() as int) =~= s@);
    total
}

/// The code of a program placed at position `base`, or `None` when its jump
/// targets would not fit in a `u64`.
pub fn compile_at(module: &Module, base: u64) -> (r: Option<Vec<Instruction>>)
    ensures
        r is None <==> base + module_code(*module).len() > u64::MAX,
        r matches Some(c) ==> c@ == stmts_code(module.body@, base as int),
{
    match stmts_len(&module.body) {
        None => None,
        Some(n) => {
            if n > u64::MAX - base {
                return None;
            }
            proof {
                lemma_stmts_len(module.body@, base as int, 0);
            }
            Some(stmts_inst(&module.body, base))
        },
    }
}

} // verus!
