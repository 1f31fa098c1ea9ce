//! Properties of running the machine that hold across all programs, stated over
//! what one step (`InstStateMachine::run_once`) may lead to.
use vstd::prelude::*;
use crate::error::{ExecutionError, NonRecoverableError};
use crate::exec::{MachineView, StackItem, StateView};
use crate::mapping::{insert_entry, names_unique, lemma_insert_entry_unique};
use crate::machine::{FnExtern, MethodResolver, is_run, protocol_step};
use crate::error::RecoverableError;
use crate::instructions::Instruction;
use crate::mem::ValueView;
use crate::step::{Effect, call_spec, fn_output_spec, granted_state, pop_gets, popped, restored, retrieve_spec, top_get,
    assign_spec, fail, fetched, current_inst, finish, finish_effect, inst_spec, effect_keeps,
    lemma_inst_keeps, lemma_realizes_keeps, lookup, realizes, run_once_spec, runnable,
};

verus! {

/// A machine that stopped, or that waits for the host, is left exactly as it is
/// by a step.
pub proof fn law_halted_stays(m: MachineView, post: MachineView, curr: usize, max: usize)
    requires
        realizes(post, curr, max, run_once_spec(m)),
        !runnable(m.state),
        !(m.state matches Err(ExecutionError::Recoverable(_))),
    ensures
        post == m,
{
}

/// A recoverable error that the host did not act on becomes non-recoverable at
/// the next step, and nothing else changes.
pub proof fn law_unhandled_recoverable_escalates(m: MachineView, post: MachineView, curr: usize, max: usize)
    requires
        realizes(post, curr, max, run_once_spec(m)),
        m.state matches Err(ExecutionError::Recoverable(_)),
    ensures
        m.state matches Err(ExecutionError::Recoverable(rec)) && post == fail(
            m,
            ExecutionError::NonRecoverable(NonRecoverableError::NonRecoveredRecoverableError(rec)),
        ),
{
}

/// A run whose innermost frame has passed the last instruction terminates,
/// with nothing else changed.
pub proof fn law_end_terminates(m: MachineView, post: MachineView, curr: usize, max: usize)
    requires
        realizes(post, curr, max, run_once_spec(m)),
        runnable(m.state),
        m.frames.len() > 0,
        m.frames.last().ptr >= m.instructions.len(),
    ensures
        post == (MachineView { state: Ok(StateView::Terminated), ..m }),
{
}

/// A ready machine with no budget left stops with a timeout asking for one
/// more instruction, and runs nothing.
pub proof fn law_no_budget_times_out(m: MachineView, post: MachineView, curr: usize, max: usize)
    requires
        realizes(post, curr, max, run_once_spec(m)),
        m.state == Ok::<StateView, ExecutionError>(StateView::Ready),
        m.frames.len() > 0,
        m.frames.last().ptr < m.instructions.len(),
        m.lim == 0,
    ensures
        post == (MachineView { state: Ok(StateView::Timeout(1)), ..m }),
{
}

/// A timed-out machine waits, unchanged, until it has been granted the budget
/// that it asked for.
pub proof fn law_timeout_waits(m: MachineView, post: MachineView, curr: usize, max: usize, req: u64)
    requires
        realizes(post, curr, max, run_once_spec(m)),
        m.state == Ok::<StateView, ExecutionError>(StateView::Timeout(req)),
        req > m.lim,
        m.frames.len() > 0,
        m.frames.last().ptr < m.instructions.len(),
    ensures
        post == m,
{
}

/// Every instruction that runs costs exactly one unit of budget, whatever it
/// does and whether or not it succeeds, and no step changes the program.
pub proof fn law_step_costs_one(m: MachineView, post: MachineView, curr: usize, max: usize)
    requires
        realizes(post, curr, max, run_once_spec(m)),
        runnable(m.state),
        !(m.state matches Ok(StateView::Timeout(req)) && req > m.lim),
        m.frames.len() > 0,
        m.frames.last().ptr < m.instructions.len(),
        m.lim > 0,
    ensures
        post.lim == m.lim - 1,
        post.instructions == m.instructions,
{
    let m1 = fetched(m);
    let e = inst_spec(m1, current_inst(m));
    lemma_inst_keeps(m1, current_inst(m));
    assert(effect_keeps(m1, finish_effect(e)));
    lemma_realizes_keeps(post, curr, max, m1, finish_effect(e));
}

/// Assigning to a variable binds it: afterwards the name, looked up from the
/// innermost frame, gives the assigned value (also when the step ran out of
/// memory, which leaves the binding made).
pub proof fn law_assign_binds(m: MachineView, post: MachineView, curr: usize, max: usize, name: String, v: usize)
    requires
        realizes(post, curr, max, assign_spec(m)),
        m.stack.len() >= 2,
        m.stack.last() == StackItem::Value(v),
        m.stack[m.stack.len() - 2] == StackItem::AttrReference(None, name),
        m.frames.len() > 0,
        names_unique(m.frames.last().vars),
    ensures
        lookup(post.frames, name@) == Some(v),
{
    let i = m.frames.len() - 1;
    lemma_insert_entry_unique(m.frames[i].vars, name@, v);
    assert(post.frames.last().vars == insert_entry(m.frames[i].vars, name@, v));
}

/// A step never adds budget and never changes the program.
pub proof fn law_step_never_grants(m: MachineView, post: MachineView, curr: usize, max: usize)
    requires
        realizes(post, curr, max, run_once_spec(m)),
    ensures
        post.lim <= m.lim,
        post.instructions == m.instructions,
{
    if runnable(m.state) && m.frames.len() > 0 && m.frames.last().ptr < m.instructions.len()
        && !(m.state matches Ok(StateView::Timeout(req)) && req > m.lim) && m.lim > 0 {
        law_step_costs_one(m, post, curr, max);
    }
}

/// The machine is ready to run its next instruction and has budget for it.
pub open spec fn runs_instruction(m: MachineView) -> bool {
    &&& m.state == Ok::<StateView, ExecutionError>(StateView::Ready)
    &&& m.frames.len() > 0
    &&& m.frames.last().ptr < m.instructions.len()
    &&& m.lim > 0
}

/// How many steps of a run ran an instruction.
pub open spec fn instructions_run(trace: Seq<MachineView>) -> nat
    decreases trace.len(),
{
    if trace.len() <= 1 {
        0
    } else {
        instructions_run(trace.drop_last()) + if runs_instruction(trace[trace.len() - 2]) { 1nat } else { 0nat }
    }
}

/// Over a whole run that serves no host work, the budget spent is exactly the
/// number of instructions that ran: one unit each, nothing for the steps that
/// only stop the machine.
pub proof fn law_run_budget<F: FnExtern>(rs: Seq<MethodResolver<F>>, trace: Seq<MachineView>, max: usize)
    requires
        is_run(rs, false, trace, max),
    ensures
        trace.last().lim + instructions_run(trace) == trace[0].lim,
    decreases trace.len(),
{
    if trace.len() > 1 {
        let t = trace.drop_last();
        assert forall|i: int| 0 <= i < t.len() - 1 implies #[trigger] protocol_step(rs, false, t[i], t[i + 1], max) by {
            assert(protocol_step(rs, false, trace[i], trace[i + 1], max));
        }
        law_run_budget(rs, t, max);
        let k = trace.len() - 2;
        let m = trace[k];
        let post = trace.last();
        assert(protocol_step(rs, false, trace[k], trace[k + 1], max));
        assert(trace[k + 1] == post);
        let c = choose|c: usize| c <= max && #[trigger] realizes(post, c, max, run_once_spec(m));
        if runs_instruction(m) {
            law_step_costs_one(m, post, c, max);
        }
        assert(t.last() == m);
    }
}

/// The machine after the host grants `extra` more budget.
pub open spec fn granted(m: MachineView, extra: u64) -> MachineView {
    MachineView { lim: m.lim.saturating_add(extra), state: granted_state(m.state), ..m }
}

/// Values pushed back by a replayed host call are popped again in the order
/// they were first handed to the host.
proof fn lemma_pop_restored(m: MachineView, s: Seq<StackItem>, vals: Seq<usize>)
    requires
        m.stack == s + restored(vals),
    ensures
        pop_gets(m, vals.len()) == Ok::<(Seq<usize>, MachineView), (ExecutionError, MachineView)>((vals, MachineView { stack: s, ..m })),
    decreases vals.len(),
{
    if vals.len() == 0 {
        assert(m.stack =~= s);
        assert(vals =~= Seq::<usize>::empty());
        assert(m == MachineView { stack: s, ..m });
    } else {
        let k = vals.len();
        assert(m.stack.last() == StackItem::Value(vals[0]));
        let m1 = popped(m);
        assert(m1.stack =~= s + restored(vals.drop_first()));
        lemma_pop_restored(m1, s, vals.drop_first());
        assert(top_get(m) == Ok::<(usize, MachineView), (ExecutionError, MachineView)>((vals[0], m1)));
        assert(vals.drop_first().len() == (k - 1) as nat);
        assert(seq![vals[0]] + vals.drop_first() =~= vals);
        assert(MachineView { stack: s, ..m1 } == MachineView { stack: s, ..m });
        assert(pop_gets(m, k) == Ok::<(Seq<usize>, MachineView), (ExecutionError, MachineView)>(
            (seq![vals[0]] + vals.drop_first(), MachineView { stack: s, ..m1 })));
    }
}

/// A host call that ran out of budget is replayed: once budget is granted, the
/// next step issues the same call again, and the host is handed the same
/// arguments, with the stack as it was before the first attempt.
pub proof fn law_timeout_replays_call(
    m: MachineView,
    name: Seq<char>,
    vals: Seq<usize>,
    amount: u64,
    post: MachineView,
    curr: usize,
    max: usize,
    extra: u64,
)
    requires
        m.state == Ok::<StateView, ExecutionError>(StateView::FnExternOutput(name, vals)),
        realizes(post, curr, max, fn_output_spec(m, Err(ExecutionError::Recoverable(RecoverableError::TimeoutError(amount))))),
        post.state == Err::<StateView, ExecutionError>(ExecutionError::Recoverable(RecoverableError::TimeoutError(amount))),
        m.frames.len() > 0,
        1 <= m.frames.last().ptr <= m.instructions.len(),
        m.instructions[m.frames.last().ptr - 1] == Instruction::Call,
        vals.len() <= i64::MAX,
        vals.len() <= usize::MAX,
        m.heap.len() + 1 < usize::MAX,
        extra > 0,
    ensures
        run_once_spec(granted(post, extra)) matches Effect::Done(next)
            && next.state == Ok::<StateView, ExecutionError>(StateView::FnExternInput(name, vals.len() as usize))
            && retrieve_spec(next).state == Ok::<StateView, ExecutionError>(StateView::FnExternOutput(name, vals))
            && retrieve_spec(next).stack == m.stack,
{
    reveal(inst_spec);
    let g = granted(post, extra);
    let k = vals.len();
    let h = m.heap.len();
    assert(g.state == Ok::<StateView, ExecutionError>(StateView::Ready));
    assert(g.frames.last().ptr == m.frames.last().ptr - 1);
    assert(current_inst(g) == Instruction::Call);
    let f1 = fetched(g);
    assert(f1.stack == m.stack + restored(vals) + seq![StackItem::Value(h as usize), StackItem::Value((h + 1) as usize)]);
    let a1 = popped(f1);
    assert(top_get(f1) == Ok::<(usize, MachineView), (ExecutionError, MachineView)>(((h + 1) as usize, a1)));
    assert(a1.heap[h as int + 1] == ValueView::FnPtrExternal(name, k as usize));
    let a2 = popped(a1);
    assert(top_get(a1) == Ok::<(usize, MachineView), (ExecutionError, MachineView)>((h as usize, a2)));
    assert(a2.heap[h as int] == ValueView::Int(k as i64));
    assert(a2.stack =~= m.stack + restored(vals));
    assert(!crate::step::count_mismatch(k as i64, k as usize));
    let next = MachineView { state: Ok(StateView::FnExternInput(name, k as usize)), ..a2 };
    assert(call_spec(f1) == Effect::Done(next));
    assert(finish(next) == next);
    assert(run_once_spec(g) == Effect::Done(next));
    lemma_pop_restored(next, m.stack, vals);
}

/// An allocation that fits even when every value ever allocated is counted, with
/// the stack slots and frames, is never refused: a machine whose memory use is
/// within what its view accounts for reaches the successful outcome.
pub proof fn law_fitting_allocation_succeeds(post: MachineView, curr: usize, max: usize, need: int, ok: MachineView, short: MachineView)
    requires
        realizes(post, curr, max, Effect::Alloc { need, ok, short }),
        curr <= crate::exec::accounted(post),
        crate::exec::accounted(short) + need <= max,
    ensures
        post == ok,
{
}

/// The relation a comparison operator of the language stands for, on integers.
pub open spec fn int_relation(op: crate::ast::BinaryOperator, x: i64, y: i64) -> Option<bool> {
    match op {
        crate::ast::BinaryOperator::Lt => Some(x < y),
        crate::ast::BinaryOperator::Lte => Some(x <= y),
        crate::ast::BinaryOperator::Gt => Some(x > y),
        crate::ast::BinaryOperator::Gte => Some(x >= y),
        crate::ast::BinaryOperator::Eq => Some(x == y),
        crate::ast::BinaryOperator::NotEq => Some(x != y),
        _ => None,
    }
}

/// The number an arithmetic operator of the language stands for, on integers,
/// where it is exact: sums, differences and products that fit in 64 bits, and
/// remainders of non-negative numbers.
pub open spec fn int_arithmetic(op: crate::ast::BinaryOperator, x: i64, y: i64) -> Option<int> {
    match op {
        crate::ast::BinaryOperator::Add => if i64::MIN <= x + y <= i64::MAX { Some(x + y) } else { None },
        crate::ast::BinaryOperator::Subtract => if i64::MIN <= x - y <= i64::MAX { Some(x - y) } else { None },
        crate::ast::BinaryOperator::Multiply => if i64::MIN <= x * y <= i64::MAX { Some(x * y) } else { None },
        crate::ast::BinaryOperator::Modulo => if 0 <= x && 0 < y { Some((x as int) % (y as int)) } else { None },
        _ => None,
    }
}

/// The instruction a binary operator compiles to computes that operator: run
/// on two integers on top of the stack, it replaces them by the truth of the
/// comparison, or by the exact result of the arithmetic, that the source
/// operator denotes.
pub proof fn law_compiled_operator_computes(op: crate::ast::BinaryOperator, m: MachineView, pa: usize, pb: usize, x: i64, y: i64)
    requires
        m.stack.len() >= 2,
        m.stack.last() == StackItem::Value(pb),
        m.stack[m.stack.len() - 2] == StackItem::Value(pa),
        m.heap[pa as int] == ValueView::Int(x),
        m.heap[pb as int] == ValueView::Int(y),
    ensures
        ({
            let m2 = MachineView { stack: m.stack.drop_last().drop_last(), ..m };
            &&& int_relation(op, x, y) matches Some(r) ==>
                inst_spec(m, crate::compile::binop_inst(op)) == crate::step::alloc_push(m2, ValueView::Bool(r))
            &&& int_arithmetic(op, x, y) matches Some(n) ==>
                inst_spec(m, crate::compile::binop_inst(op)) == crate::step::alloc_push(m2, ValueView::Int(n as i64))
        }),
{
    reveal(inst_spec);
    let m1 = popped(m);
    let m2 = popped(m1);
    assert(top_get(m) == Ok::<(usize, MachineView), (ExecutionError, MachineView)>((pb, m1)));
    assert(m1.stack.last() == StackItem::Value(pa));
    assert(top_get(m1) == Ok::<(usize, MachineView), (ExecutionError, MachineView)>((pa, m2)));
    assert(m2 == MachineView { stack: m.stack.drop_last().drop_last(), ..m });
    crate::ops::law_integer_comparisons(x, y);
    crate::ops::law_integer_arithmetic(x, y);
}

/// A conditional jump pops its condition and then jumps exactly when the
/// condition decides so: `JmpZ` on `false` or on the integer 0, `JmpNz` on
/// `true` or on a non-zero integer; otherwise execution falls through.
pub proof fn law_conditional_jumps(m: MachineView, p: usize, loc: u64, b: bool, i: i64)
    requires
        m.stack.len() >= 1,
        m.stack.last() == StackItem::Value(p),
        m.frames.len() > 0,
    ensures
        m.heap[p as int] == ValueView::Bool(b) ==> {
            &&& inst_spec(m, Instruction::JmpZ(loc)) == Effect::Done(
                if b { popped(m) } else { crate::step::jumped(popped(m), loc) })
            &&& inst_spec(m, Instruction::JmpNz(loc)) == Effect::Done(
                if b { crate::step::jumped(popped(m), loc) } else { popped(m) })
        },
        m.heap[p as int] == ValueView::Int(i) ==> {
            &&& inst_spec(m, Instruction::JmpZ(loc)) == Effect::Done(
                if i != 0 { popped(m) } else { crate::step::jumped(popped(m), loc) })
            &&& inst_spec(m, Instruction::JmpNz(loc)) == Effect::Done(
                if i != 0 { crate::step::jumped(popped(m), loc) } else { popped(m) })
        },
{
    reveal(inst_spec);
    assert(top_get(m) == Ok::<(usize, MachineView), (ExecutionError, MachineView)>((p, popped(m))));
}

} // verus!
