//! What one instruction does to the machine, stated over its view.
//!
//! Every instruction either reaches one determined next view, or needs some bytes
//! of memory: with them it reaches one view, and when even after collecting
//! garbage they do not fit it stops in another, with the memory error.
use vstd::prelude::*;
use crate::ast::SubscriptLoad;
use crate::error::{CriticalError, ExecutionError, NonRecoverableError, RecoverableError, TypeConversionError, memory_exhausted, spec_conversion_error};
use crate::exec::{FrameView, MachineView, StackItem, StateView, SLOT, FN_FRAME_COST, frame_cost, item_size};
use crate::instructions::Instruction;
use crate::mapping::{entry_of, insert_entry};
use crate::mem::{ValueView, value_size};
use crate::ops::{BinOp, UnOp, OpOutcome, FloatRequest, Scalar, binop_spec, unop_spec, truthy, scalar_value};

verus! {

/// The value stack ran empty.
pub open spec fn underflow() -> ExecutionError {
    ExecutionError::Critical(CriticalError::VStackUnderflowError)
}

/// No call frame is left.
pub open spec fn fn_underflow() -> ExecutionError {
    ExecutionError::Critical(CriticalError::FnStackUnderflowError)
}

/// A program error.
pub open spec fn program_error(e: NonRecoverableError) -> ExecutionError {
    ExecutionError::NonRecoverable(e)
}

/// The view with its run state replaced by an error.
pub open spec fn fail(m: MachineView, e: ExecutionError) -> MachineView {
    MachineView { state: Err(e), ..m }
}

/// The variable `name` as seen from the innermost frame outwards.
pub open spec fn lookup(frames: Seq<FrameView>, name: Seq<char>) -> Option<usize>
    decreases frames.len(),
{
    if frames.len() == 0 {
        None
    } else {
        match entry_of(frames.last().vars, name) {
            Some(p) => Some(p),
            None => lookup(frames.drop_last(), name),
        }
    }
}

/// A list position counted from the end when negative.
pub open spec fn norm_index(i: i64, len: int) -> int {
    if i < 0 {
        i + len
    } else {
        i as int
    }
}

/// The value a stack item stands for.
pub open spec fn get_spec(heap: Seq<ValueView>, frames: Seq<FrameView>, item: StackItem) -> Result<usize, ExecutionError> {
    match item {
        StackItem::Value(p) => Ok(p),
        StackItem::AttrReference(Some(obj), name) => match heap[obj as int] {
            ValueView::Object(es) => match entry_of(es, name@) {
                Some(p) => Ok(p),
                None => Err(program_error(NonRecoverableError::ReferenceNotExistError(name))),
            },
            _ => Err(program_error(NonRecoverableError::UnexpectedAttrError)),
        },
        StackItem::AttrReference(None, name) => match lookup(frames, name@) {
            Some(p) => Ok(p),
            None => Err(program_error(NonRecoverableError::ReferenceNotExistError(name))),
        },
        StackItem::IdxReference(arr, i) => match heap[arr as int] {
            ValueView::Collection(items) => {
                let idx = norm_index(i, items.len() as int);
                if 0 <= idx < items.len() {
                    Ok(items[idx])
                } else {
                    Err(program_error(NonRecoverableError::IndexOutOfRangeError))
                }
            },
            _ => Err(program_error(NonRecoverableError::UnexpectedIdxError)),
        },
    }
}

/// The view with its top stack item removed.
pub open spec fn popped(m: MachineView) -> MachineView {
    MachineView { stack: m.stack.drop_last(), ..m }
}

/// Pops the top item and resolves it: the value, or the error, with the view after the pop.
pub open spec fn top_get(m: MachineView) -> Result<(usize, MachineView), (ExecutionError, MachineView)> {
    if m.stack.len() == 0 {
        Err((underflow(), m))
    } else {
        match get_spec(m.heap, m.frames, m.stack.last()) {
            Ok(p) => Ok((p, popped(m))),
            Err(e) => Err((e, popped(m))),
        }
    }
}

/// Pops and resolves `n` items; the values come in the order they were popped.
pub open spec fn pop_gets(m: MachineView, n: nat) -> Result<(Seq<usize>, MachineView), (ExecutionError, MachineView)>
    decreases n,
{
    if n == 0 {
        Ok((Seq::empty(), m))
    } else {
        match top_get(m) {
            Err(f) => Err(f),
            Ok((p, m1)) => match pop_gets(m1, (n - 1) as nat) {
                Err(f) => Err(f),
                Ok((ps, m2)) => Ok((seq![p] + ps, m2)),
            },
        }
    }
}

/// The stack without its top `k` items (all of them when there are fewer).
pub open spec fn drop_top(s: Seq<StackItem>, k: int) -> Seq<StackItem> {
    if k >= s.len() {
        Seq::empty()
    } else {
        s.subrange(0, s.len() - k)
    }
}

/// What an instruction does.
pub ghost enum Effect {
    /// It reaches this view.
    Done(MachineView),
    /// It needs `need` more bytes: with them it reaches `ok`; when they do not fit it stops in `short`.
    Alloc { need: int, ok: MachineView, short: MachineView },
}

/// The machine view `post`, with memory use `curr` under limit `max`, is an outcome of `e`.
pub open spec fn realizes(post: MachineView, curr: usize, max: usize, e: Effect) -> bool {
    match e {
        Effect::Done(v) => post == v,
        Effect::Alloc { need, ok, short } => post == ok || (post == short && curr + need > max),
    }
}

/// The view with a new cell holding `v` and its pointer on top of the stack.
pub open spec fn pushed(m: MachineView, v: ValueView) -> MachineView {
    MachineView { heap: m.heap.push(v), stack: m.stack.push(StackItem::Value(m.heap.len() as usize)), ..m }
}

/// Allocate `v` and push its pointer.
pub open spec fn alloc_push(m: MachineView, v: ValueView) -> Effect {
    Effect::Alloc { need: value_size(v) + SLOT, ok: pushed(m, v), short: fail(m, memory_exhausted()) }
}

/// Push a stack item.
pub open spec fn item_push(m: MachineView, item: StackItem) -> Effect {
    Effect::Alloc { need: item_size(item) as int, ok: MachineView { stack: m.stack.push(item), ..m }, short: fail(m, memory_exhausted()) }
}

/// The effect of an operator's outcome, the operands already popped.
pub open spec fn op_effect(m: MachineView, op: BinOp, out: OpOutcome) -> Effect {
    match out {
        OpOutcome::Value(v) => alloc_push(m, v),
        OpOutcome::Failed(e) => if op == BinOp::Eq {
            alloc_push(m, ValueView::Bool(false))
        } else if op == BinOp::Ne {
            alloc_push(m, ValueView::Bool(true))
        } else {
            Effect::Done(fail(m, spec_conversion_error(e)))
        },
        OpOutcome::Host(req) => Effect::Done(MachineView { state: Ok(StateView::FloatInput(req)), ..m }),
    }
}

/// `a op b`, with `b` on top of the stack.
pub open spec fn binary_spec(m: MachineView, op: BinOp) -> Effect {
    match top_get(m) {
        Err((e, m1)) => Effect::Done(fail(m1, e)),
        Ok((b, m1)) => match top_get(m1) {
            Err((e, m2)) => Effect::Done(fail(m2, e)),
            Ok((a, m2)) => op_effect(m2, op, binop_spec(op, m2.heap[a as int], m2.heap[b as int])),
        },
    }
}

/// `op a`.
pub open spec fn unary_spec(m: MachineView, op: UnOp) -> Effect {
    match top_get(m) {
        Err((e, m1)) => Effect::Done(fail(m1, e)),
        Ok((a, m1)) => match unop_spec(op, m1.heap[a as int]) {
            OpOutcome::Value(v) => alloc_push(m1, v),
            OpOutcome::Failed(e) => Effect::Done(fail(m1, spec_conversion_error(e))),
            OpOutcome::Host(req) => Effect::Done(MachineView { state: Ok(StateView::FloatInput(req)), ..m1 }),
        },
    }
}

/// Bytes more that a frame at position `i` is charged after its variables become `vars`.
pub open spec fn frame_growth(i: int, old_vars: Seq<(Seq<char>, usize)>, vars: Seq<(Seq<char>, usize)>) -> int {
    if i == 0 {
        0
    } else {
        frame_cost(vars) - frame_cost(old_vars)
    }
}

/// Binds the target below the top of the stack to the value on top.
pub open spec fn assign_spec(m: MachineView) -> Effect {
    match top_get(m) {
        Err((e, m1)) => Effect::Done(fail(m1, e)),
        Ok((v, m1)) => if m1.stack.len() == 0 {
            Effect::Done(fail(m1, underflow()))
        } else {
            let m2 = popped(m1);
            match m1.stack.last() {
                StackItem::Value(_) => Effect::Done(fail(m2, program_error(NonRecoverableError::UndefinedVarError))),
                StackItem::AttrReference(None, name) => if m2.frames.len() == 0 {
                    Effect::Done(fail(m2, fn_underflow()))
                } else {
                    let i = m2.frames.len() - 1;
                    let top = m2.frames[i];
                    let vars = insert_entry(top.vars, name@, v);
                    let m3 = MachineView { frames: m2.frames.update(i, FrameView { vars, ..top }), ..m2 };
                    Effect::Alloc { need: frame_growth(i, top.vars, vars), ok: m3, short: fail(m3, memory_exhausted()) }
                },
                StackItem::AttrReference(Some(obj), name) => match m2.heap[obj as int] {
                    ValueView::Object(es) => {
                        let nv = ValueView::Object(insert_entry(es, name@, v));
                        let m3 = MachineView { heap: m2.heap.update(obj as int, nv), ..m2 };
                        Effect::Alloc {
                            need: value_size(nv) - value_size(m2.heap[obj as int]),
                            ok: m3,
                            short: fail(m3, memory_exhausted()),
                        }
                    },
                    _ => Effect::Done(fail(m2, program_error(NonRecoverableError::UnexpectedAttrError))),
                },
                StackItem::IdxReference(arr, i) => match m2.heap[arr as int] {
                    ValueView::Collection(items) => {
                        let idx = norm_index(i, items.len() as int);
                        if 0 <= idx < items.len() {
                            Effect::Done(MachineView {
                                heap: m2.heap.update(arr as int, ValueView::Collection(items.update(idx, v))),
                                ..m2
                            })
                        } else {
                            Effect::Done(fail(m2, program_error(NonRecoverableError::IndexOutOfRangeError)))
                        }
                    },
                    _ => Effect::Done(m2),
                },
            }
        },
    }
}

/// The view with the innermost frame continuing at `loc`.
pub open spec fn jumped(m: MachineView, loc: u64) -> MachineView {
    let i = m.frames.len() - 1;
    MachineView { frames: m.frames.update(i, FrameView { ptr: loc, ..m.frames[i] }), ..m }
}

/// A jump taken when the popped condition's truthiness is `when`.
pub open spec fn cond_jump_spec(m: MachineView, loc: u64, when: bool) -> Effect {
    match top_get(m) {
        Err((e, m1)) => Effect::Done(fail(m1, e)),
        Ok((a, m1)) => if truthy(m1.heap[a as int]) == when {
            if m1.frames.len() == 0 {
                Effect::Done(fail(m1, fn_underflow()))
            } else {
                Effect::Done(jumped(m1, loc))
            }
        } else {
            Effect::Done(m1)
        },
    }
}

/// The popped argument count `given` does not match the function's `n`.
pub open spec fn count_mismatch(given: i64, n: usize) -> bool {
    given < 0 || given as int != n as int
}

/// Calls the function on top of the stack; below it lies the argument count.
pub open spec fn call_spec(m: MachineView) -> Effect {
    match top_get(m) {
        Err((e, m1)) => Effect::Done(fail(m1, e)),
        Ok((f, m1)) => match m1.heap[f as int] {
            ValueView::DPtr(entry, n) => match top_get(m1) {
                Err((e, m2)) => Effect::Done(fail(m2, e)),
                Ok((g, m2)) => match m2.heap[g as int] {
                    ValueView::Int(given) => if count_mismatch(given, n) {
                        Effect::Done(fail(m2, program_error(NonRecoverableError::IncorrectArgumentCountError)))
                    } else {
                        Effect::Alloc {
                            need: FN_FRAME_COST as int,
                            ok: MachineView { frames: m2.frames.push(FrameView { ptr: entry, vars: Seq::empty() }), ..m2 },
                            short: fail(m2, memory_exhausted()),
                        }
                    },
                    _ => Effect::Done(fail(m2, program_error(NonRecoverableError::UnexpectedFunctionCall))),
                },
            },
            ValueView::FnPtrExternal(name, n) => match top_get(m1) {
                Err((e, m2)) => Effect::Done(fail(m2, e)),
                Ok((g, m2)) => match m2.heap[g as int] {
                    ValueView::Int(given) => if count_mismatch(given, n) {
                        Effect::Done(fail(m2, program_error(NonRecoverableError::IncorrectArgumentCountError)))
                    } else {
                        Effect::Done(MachineView { state: Ok(StateView::FnExternInput(name, n)), ..m2 })
                    },
                    _ => Effect::Done(fail(m2, program_error(NonRecoverableError::UnexpectedFunctionCall))),
                },
            },
            _ => Effect::Done(fail(m1, program_error(NonRecoverableError::UnexpectedFunctionCall))),
        },
    }
}

/// Pops `n` values into a new list, the top first.
pub open spec fn construct_arr_spec(m: MachineView, n: u64) -> Effect {
    if n > m.stack.len() {
        Effect::Done(fail(m, underflow()))
    } else {
        match pop_gets(m, n as nat) {
            Err((e, m1)) => Effect::Done(fail(m1, e)),
            Ok((ps, m1)) => alloc_push(m1, ValueView::Collection(ps)),
        }
    }
}

/// Pops pairs of a name and a value, from pair `idx` on, into the entries `es`.
/// A name that is not a string ends it: the remaining items are dropped.
pub open spec fn obj_pairs(m: MachineView, n: u64, idx: u64, es: Seq<(Seq<char>, usize)>)
    -> Result<(Seq<(Seq<char>, usize)>, MachineView), (ExecutionError, MachineView)>
    decreases n - idx,
{
    if idx >= n {
        Ok((es, m))
    } else {
        match top_get(m) {
            Err(f) => Err(f),
            Ok((k, m1)) => match top_get(m1) {
                Err(f) => Err(f),
                Ok((v, m2)) => match m2.heap[k as int] {
                    ValueView::String(key) => obj_pairs(m2, n, (idx + 1) as u64, insert_entry(es, key, v)),
                    _ => Err((
                        program_error(NonRecoverableError::AttrNotStringError),
                        MachineView { stack: drop_top(m2.stack, (n - idx) * 2), ..m2 },
                    )),
                },
            },
        }
    }
}

/// Pops `n` name/value pairs into a new object.
pub open spec fn construct_obj_spec(m: MachineView, n: u64) -> Effect {
    if n * 2 > m.stack.len() {
        Effect::Done(fail(m, underflow()))
    } else {
        match obj_pairs(m, n, 0, Seq::empty()) {
            Err((e, m1)) => Effect::Done(fail(m1, e)),
            Ok((es, m1)) => alloc_push(m1, ValueView::Object(es)),
        }
    }
}

/// Pops an object and pushes a reference to its attribute `name`.
pub open spec fn load_attr_spec(m: MachineView, name: String) -> Effect {
    match top_get(m) {
        Err((e, m1)) => Effect::Done(fail(m1, e)),
        Ok((v, m1)) => match m1.heap[v as int] {
            ValueView::Object(_) => item_push(m1, StackItem::AttrReference(Some(v), name)),
            _ => Effect::Done(fail(m1, program_error(NonRecoverableError::UnexpectedAttrError))),
        },
    }
}

/// Pops a list or object and pushes a reference to the subscripted element; a
/// subscript of the other kind pushes nothing.
pub open spec fn load_index_spec(m: MachineView, sub: SubscriptLoad) -> Effect {
    match top_get(m) {
        Err((e, m1)) => Effect::Done(fail(m1, e)),
        Ok((v, m1)) => match m1.heap[v as int] {
            ValueView::Collection(_) => match sub {
                SubscriptLoad::Idx(i) => item_push(m1, StackItem::IdxReference(v, i)),
                SubscriptLoad::String(_) => Effect::Done(m1),
            },
            ValueView::Object(_) => match sub {
                SubscriptLoad::String(s) => item_push(m1, StackItem::AttrReference(Some(v), s)),
                SubscriptLoad::Idx(_) => Effect::Done(m1),
            },
            _ => Effect::Done(fail(m1, program_error(NonRecoverableError::UnexpectedIdxError))),
        },
    }
}

/// Exchanges the two topmost stack items.
pub open spec fn swap_spec(m: MachineView) -> Effect {
    let n = m.stack.len();
    if n == 0 {
        Effect::Done(fail(m, underflow()))
    } else if n == 1 {
        Effect::Done(fail(popped(m), underflow()))
    } else {
        Effect::Done(MachineView { stack: m.stack.update(n - 1, m.stack[n - 2]).update(n - 2, m.stack[n - 1]), ..m })
    }
}

/// What instruction `inst` does to the view `m`.
#[verifier::opaque]
pub open spec fn inst_spec(m: MachineView, inst: Instruction) -> Effect {
    match inst {
        Instruction::Add => binary_spec(m, BinOp::Add),
        Instruction::Sub => binary_spec(m, BinOp::Sub),
        Instruction::Mul => binary_spec(m, BinOp::Mul),
        Instruction::Div => binary_spec(m, BinOp::Div),
        Instruction::Mod => binary_spec(m, BinOp::Mod),
        Instruction::BitwiseAnd => binary_spec(m, BinOp::BitAnd),
        Instruction::BitwiseOr => binary_spec(m, BinOp::BitOr),
        Instruction::BitwiseXor => binary_spec(m, BinOp::BitXor),
        Instruction::Shl => binary_spec(m, BinOp::Shl),
        Instruction::Shr => binary_spec(m, BinOp::Shr),
        Instruction::UnaryPlus => unary_spec(m, UnOp::Pos),
        Instruction::UnaryMinus => unary_spec(m, UnOp::Neg),
        Instruction::Not => unary_spec(m, UnOp::Not),
        Instruction::BitwiseNot => unary_spec(m, UnOp::BitNot),
        Instruction::Eq => binary_spec(m, BinOp::Eq),
        Instruction::NotEq => binary_spec(m, BinOp::Ne),
        Instruction::Lt => binary_spec(m, BinOp::Lt),
        Instruction::Lte => binary_spec(m, BinOp::Le),
        Instruction::Gt => binary_spec(m, BinOp::Gt),
        Instruction::Gte => binary_spec(m, BinOp::Ge),
        Instruction::Assign => assign_spec(m),
        Instruction::JmpNz(loc) => cond_jump_spec(m, loc, true),
        Instruction::JmpZ(loc) => cond_jump_spec(m, loc, false),
        Instruction::Jmp(loc) => if m.frames.len() == 0 {
            Effect::Done(fail(m, fn_underflow()))
        } else {
            Effect::Done(jumped(m, loc))
        },
        Instruction::Call => call_spec(m),
        Instruction::Ret => if m.frames.len() == 0 {
            Effect::Done(fail(m, fn_underflow()))
        } else {
            Effect::Done(MachineView { frames: m.frames.drop_last(), ..m })
        },
        Instruction::LoadNone => alloc_push(m, ValueView::Nil),
        Instruction::LoadLitFloat(s) => Effect::Done(MachineView { state: Ok(StateView::FloatInput(FloatRequest::Literal(s))), ..m }),
        Instruction::LoadLitInt(i) => alloc_push(m, ValueView::Int(i)),
        Instruction::LoadLitString(s) => alloc_push(m, ValueView::String(s@)),
        Instruction::LoadLitBool(b) => alloc_push(m, ValueView::Bool(b)),
        Instruction::ConstructArr(n) => construct_arr_spec(m, n),
        Instruction::ConstructObj(n) => construct_obj_spec(m, n),
        Instruction::LoadName(name) => item_push(m, StackItem::AttrReference(None, name)),
        Instruction::LoadObjectAttr(name) => load_attr_spec(m, name),
        Instruction::LoadObjectIndex(sub) => load_index_spec(m, sub),
        Instruction::Terminate => Effect::Done(MachineView { state: Ok(StateView::Terminated), ..m }),
        Instruction::Interrupt => Effect::Done(MachineView { state: Ok(StateView::Interrupt), ..m }),
        Instruction::Pop => if m.stack.len() == 0 {
            Effect::Done(fail(m, underflow()))
        } else {
            Effect::Done(popped(m))
        },
        Instruction::Swap => swap_spec(m),
        Instruction::LoadDPtr(entry, n) => alloc_push(m, ValueView::DPtr(entry, n)),
    }
}

/// The view after an instruction body returned `r`: an error becomes the run state.
pub open spec fn outcome(m: MachineView, r: Result<(), ExecutionError>) -> MachineView {
    match r {
        Ok(_) => m,
        Err(e) => fail(m, e),
    }
}

/// A run ends when the innermost frame has stepped past the last instruction.
pub open spec fn finish(v: MachineView) -> MachineView {
    if v.state == Ok::<StateView, ExecutionError>(StateView::Ready) && v.frames.len() > 0 && v.frames.last().ptr == v.instructions.len() {
        MachineView { state: Ok(StateView::Terminated), ..v }
    } else {
        v
    }
}

/// `finish` applied to every outcome of an effect.
pub open spec fn finish_effect(e: Effect) -> Effect {
    match e {
        Effect::Done(v) => Effect::Done(finish(v)),
        Effect::Alloc { need, ok, short } => Effect::Alloc { need, ok: finish(ok), short: finish(short) },
    }
}

/// The run state lets `run_once` go on to the next instruction.
pub open spec fn runnable(s: Result<StateView, ExecutionError>) -> bool {
    match s {
        Ok(StateView::Ready) => true,
        Ok(StateView::Timeout(_)) => true,
        _ => false,
    }
}

/// The view in which the instruction at the innermost frame's position runs:
/// the position moved past it and one unit of budget spent.
pub open spec fn fetched(m: MachineView) -> MachineView {
    let i = m.frames.len() - 1;
    MachineView {
        lim: (m.lim - 1) as u64,
        state: Ok(StateView::Ready),
        frames: m.frames.update(i, FrameView { ptr: (m.frames[i].ptr + 1) as u64, ..m.frames[i] }),
        ..m
    }
}

/// The instruction at the innermost frame's position.
pub open spec fn current_inst(m: MachineView) -> Instruction {
    m.instructions[m.frames.last().ptr as int]
}

/// What one call of `run_once` does.
pub open spec fn run_once_spec(m: MachineView) -> Effect {
    if runnable(m.state) {
        if m.frames.len() == 0 {
            Effect::Done(m)
        } else if m.frames.last().ptr >= m.instructions.len() {
            Effect::Done(MachineView { state: Ok(StateView::Terminated), ..m })
        } else if m.state matches Ok(StateView::Timeout(req)) && req > m.lim {
            Effect::Done(m)
        } else if m.lim == 0 {
            Effect::Done(MachineView { state: Ok(StateView::Timeout(1)), ..m })
        } else {
            finish_effect(inst_spec(fetched(m), current_inst(m)))
        }
    } else {
        match m.state {
            Err(ExecutionError::Recoverable(rec)) => Effect::Done(fail(
                m,
                ExecutionError::NonRecoverable(NonRecoverableError::NonRecoveredRecoverableError(rec)),
            )),
            _ => Effect::Done(m),
        }
    }
}

/// What `run_once` returns, given the view `post` it leaves.
pub open spec fn run_once_result(m: MachineView, post: MachineView) -> Result<StateView, ExecutionError> {
    if runnable(m.state) && m.frames.len() == 0 {
        Err(fn_underflow())
    } else {
        post.state
    }
}

/// Finishing a view that realizes an effect realizes the finished effect.
pub proof fn lemma_finish_realizes(post: MachineView, curr: usize, max: usize, e: Effect)
    requires
        realizes(post, curr, max, e),
    ensures
        realizes(finish(post), curr, max, finish_effect(e)),
{
}

/// `v` runs the same program as `m` with the same budget left.
pub open spec fn keeps(m: MachineView, v: MachineView) -> bool {
    v.instructions == m.instructions && v.lim == m.lim
}

/// Every outcome of `e` keeps the program and budget of `m`.
pub open spec fn effect_keeps(m: MachineView, e: Effect) -> bool {
    match e {
        Effect::Done(v) => keeps(m, v),
        Effect::Alloc { ok, short, .. } => keeps(m, ok) && keeps(m, short),
    }
}

pub proof fn lemma_pop_gets_keeps(m: MachineView, n: nat)
    ensures
        match pop_gets(m, n) {
            Ok((_, v)) => keeps(m, v) && v.heap == m.heap && v.frames == m.frames && v.state == m.state,
            Err((_, v)) => keeps(m, v) && v.heap == m.heap && v.frames == m.frames && v.state == m.state,
        },
    decreases n,
{
    if n > 0 {
        match top_get(m) {
            Err(_) => {},
            Ok((_, m1)) => {
                lemma_pop_gets_keeps(m1, (n - 1) as nat);
            },
        }
    }
}

proof fn lemma_obj_pairs_keeps(m: MachineView, n: u64, idx: u64, es: Seq<(Seq<char>, usize)>)
    ensures
        match obj_pairs(m, n, idx, es) {
            Ok((_, v)) => keeps(m, v) && v.heap == m.heap && v.frames == m.frames && v.state == m.state,
            Err((_, v)) => keeps(m, v) && v.heap == m.heap && v.frames == m.frames && v.state == m.state,
        },
    decreases n - idx,
{
    if idx < n {
        match top_get(m) {
            Err(_) => {},
            Ok((k, m1)) => match top_get(m1) {
                Err(_) => {},
                Ok((v, m2)) => match m2.heap[k as int] {
                    ValueView::String(key) => {
                        lemma_obj_pairs_keeps(m2, n, (idx + 1) as u64, insert_entry(es, key, v));
                    },
                    _ => {},
                },
            },
        }
    }
}

proof fn lemma_binary_keeps(m: MachineView, op: BinOp)
    ensures
        effect_keeps(m, binary_spec(m, op)),
{
}

proof fn lemma_unary_keeps(m: MachineView, op: UnOp)
    ensures
        effect_keeps(m, unary_spec(m, op)),
{
}

proof fn lemma_assign_keeps(m: MachineView)
    ensures
        effect_keeps(m, assign_spec(m)),
{
}

proof fn lemma_jump_keeps(m: MachineView, loc: u64, when: bool)
    ensures
        effect_keeps(m, cond_jump_spec(m, loc, when)),
{
}

proof fn lemma_call_keeps(m: MachineView)
    ensures
        effect_keeps(m, call_spec(m)),
{
}

proof fn lemma_load_attr_keeps(m: MachineView, name: String)
    ensures
        effect_keeps(m, load_attr_spec(m, name)),
{
}

proof fn lemma_load_index_keeps(m: MachineView, sub: SubscriptLoad)
    ensures
        effect_keeps(m, load_index_spec(m, sub)),
{
}

/// No instruction changes the program or the budget; `run_once` spends the budget.
pub proof fn lemma_inst_keeps(m: MachineView, inst: Instruction)
    ensures
        effect_keeps(m, inst_spec(m, inst)),
{
    reveal(inst_spec);
    match inst {
        Instruction::ConstructArr(n) => {
            lemma_pop_gets_keeps(m, n as nat);
        },
        Instruction::ConstructObj(n) => {
            lemma_obj_pairs_keeps(m, n, 0, Seq::empty());
        },
        Instruction::Assign => {
            lemma_assign_keeps(m);
        },
        Instruction::Call => {
            lemma_call_keeps(m);
        },
        Instruction::JmpNz(loc) => {
            lemma_jump_keeps(m, loc, true);
        },
        Instruction::JmpZ(loc) => {
            lemma_jump_keeps(m, loc, false);
        },
        Instruction::LoadObjectAttr(name) => {
            lemma_load_attr_keeps(m, name);
        },
        Instruction::LoadObjectIndex(sub) => {
            lemma_load_index_keeps(m, sub);
        },
        Instruction::UnaryPlus => lemma_unary_keeps(m, UnOp::Pos),
        Instruction::UnaryMinus => lemma_unary_keeps(m, UnOp::Neg),
        Instruction::Not => lemma_unary_keeps(m, UnOp::Not),
        Instruction::BitwiseNot => lemma_unary_keeps(m, UnOp::BitNot),
        Instruction::Add => lemma_binary_keeps(m, BinOp::Add),
        Instruction::Sub => lemma_binary_keeps(m, BinOp::Sub),
        Instruction::Mul => lemma_binary_keeps(m, BinOp::Mul),
        Instruction::Div => lemma_binary_keeps(m, BinOp::Div),
        Instruction::Mod => lemma_binary_keeps(m, BinOp::Mod),
        Instruction::BitwiseAnd => lemma_binary_keeps(m, BinOp::BitAnd),
        Instruction::BitwiseOr => lemma_binary_keeps(m, BinOp::BitOr),
        Instruction::BitwiseXor => lemma_binary_keeps(m, BinOp::BitXor),
        Instruction::Shl => lemma_binary_keeps(m, BinOp::Shl),
        Instruction::Shr => lemma_binary_keeps(m, BinOp::Shr),
        Instruction::Eq => lemma_binary_keeps(m, BinOp::Eq),
        Instruction::NotEq => lemma_binary_keeps(m, BinOp::Ne),
        Instruction::Lt => lemma_binary_keeps(m, BinOp::Lt),
        Instruction::Lte => lemma_binary_keeps(m, BinOp::Le),
        Instruction::Gt => lemma_binary_keeps(m, BinOp::Gt),
        Instruction::Gte => lemma_binary_keeps(m, BinOp::Ge),
        _ => {},
    }
}

/// An outcome of an effect that keeps the program and budget keeps them.
pub proof fn lemma_realizes_keeps(post: MachineView, curr: usize, max: usize, m: MachineView, e: Effect)
    requires
        realizes(post, curr, max, e),
        effect_keeps(m, e),
    ensures
        keeps(m, post),
{
}

/// What taking the arguments of a pending host call leaves.
pub open spec fn retrieve_spec(m: MachineView) -> MachineView {
    match m.state {
        Ok(StateView::FnExternInput(name, b)) => match pop_gets(m, b as nat) {
            Ok((ps, m1)) => MachineView { state: Ok(StateView::FnExternOutput(name, ps)), ..m1 },
            Err((e, m1)) => fail(m1, e),
        },
        _ => m,
    }
}

/// The arguments of a host call pushed back, the first argument on top.
pub open spec fn restored(vals: Seq<usize>) -> Seq<StackItem> {
    Seq::new(vals.len(), |j: int| StackItem::Value(vals[vals.len() - 1 - j]))
}

/// A host call that ran out of budget is undone: its arguments, argument count
/// and function go back on the stack and the call instruction runs again.
pub open spec fn replay_spec(m: MachineView, name: Seq<char>, vals: Seq<usize>, amount: u64) -> Effect {
    let k = vals.len();
    let h = m.heap.len();
    let count = ValueView::Int(k as i64);
    let func = ValueView::FnPtrExternal(name, k as usize);
    let i = m.frames.len() - 1;
    Effect::Alloc {
        need: k * SLOT + value_size(count) + SLOT + value_size(func) + SLOT,
        ok: MachineView {
            state: Err(ExecutionError::Recoverable(RecoverableError::TimeoutError(amount))),
            heap: m.heap.push(count).push(func),
            stack: m.stack + restored(vals) + seq![StackItem::Value(h as usize), StackItem::Value((h + 1) as usize)],
            frames: m.frames.update(i, FrameView { ptr: (m.frames[i].ptr - 1) as u64, ..m.frames[i] }),
            ..m
        },
        short: fail(m, memory_exhausted()),
    }
}

/// What handing the result of a host call to the machine does.
pub open spec fn fn_output_spec(m: MachineView, result: Result<usize, ExecutionError>) -> Effect {
    match m.state {
        Ok(StateView::FnExternOutput(name, vals)) => match result {
            Ok(p) => Effect::Alloc {
                need: SLOT as int,
                ok: MachineView { state: Ok(StateView::Ready), stack: m.stack.push(StackItem::Value(p)), ..m },
                short: fail(m, memory_exhausted()),
            },
            Err(ExecutionError::Recoverable(RecoverableError::TimeoutError(amount))) => replay_spec(m, name, vals, amount),
            Err(e) => Effect::Done(fail(m, e)),
        },
        _ => Effect::Done(m),
    }
}

/// What handing the host's floating-point result to the machine does.
pub open spec fn float_reply_spec(m: MachineView, reply: Result<Scalar, TypeConversionError>) -> Effect {
    match m.state {
        Ok(StateView::FloatInput(req)) => {
            let m1 = MachineView { state: Ok(StateView::Ready), ..m };
            finish_effect(match reply {
                Ok(s) => alloc_push(m1, scalar_value(s)),
                Err(e) => match req {
                    FloatRequest::Binary(BinOp::Eq, _, _) => alloc_push(m1, ValueView::Bool(false)),
                    FloatRequest::Binary(BinOp::Ne, _, _) => alloc_push(m1, ValueView::Bool(true)),
                    _ => Effect::Done(fail(m1, spec_conversion_error(e))),
                },
            })
        },
        _ => Effect::Done(m),
    }
}

/// The run state after more budget was granted: a timeout clears.
pub open spec fn granted_state(s: Result<StateView, ExecutionError>) -> Result<StateView, ExecutionError> {
    match s {
        Ok(StateView::Timeout(_)) => Ok(StateView::Ready),
        Err(ExecutionError::Recoverable(RecoverableError::TimeoutError(_))) => Ok(StateView::Ready),
        _ => s,
    }
}

/// The run state keeps a host loop going: ready, or waiting for a host function or float.
pub open spec fn in_loop(s: Result<StateView, ExecutionError>) -> bool {
    match s {
        Ok(StateView::Ready) => true,
        Ok(StateView::FnExternInput(_, _)) => true,
        Ok(StateView::FloatInput(_)) => true,
        _ => false,
    }
}

/// What is left for a host loop: twice the budget, one more while waiting for the host.
pub open spec fn loop_measure(m: MachineView) -> int {
    2 * m.lim + match m.state {
        Ok(StateView::FnExternInput(_, _)) => 1int,
        Ok(StateView::FloatInput(_)) => 1int,
        _ => 0int,
    }
}

/// A ready machine either spends budget on its next instruction or stops.
pub proof fn lemma_run_once_progress(pre: MachineView, post: MachineView, curr: usize, max: usize)
    requires
        realizes(post, curr, max, run_once_spec(pre)),
        pre.state == Ok::<StateView, ExecutionError>(StateView::Ready),
        pre.frames.len() > 0,
    ensures
        post.lim < pre.lim || !in_loop(post.state),
        post.instructions == pre.instructions,
{
    if pre.frames.last().ptr < pre.instructions.len() && pre.lim > 0 {
        let m1 = fetched(pre);
        let e = inst_spec(m1, current_inst(pre));
        lemma_inst_keeps(m1, current_inst(pre));
        match e {
            Effect::Done(v) => {},
            Effect::Alloc { need, ok, short } => {},
        }
    }
}

/// Taking the arguments of a host call keeps the program and the budget.
pub proof fn lemma_retrieve_keeps(m: MachineView)
    ensures
        keeps(m, retrieve_spec(m)),
{
    match m.state {
        Ok(StateView::FnExternInput(name, b)) => {
            lemma_pop_gets_keeps(m, b as nat);
        },
        _ => {},
    }
}

} // verus!
