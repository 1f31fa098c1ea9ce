//! Running instructions: each body realizes what `step` states of it.
use vstd::prelude::*;
use crate::error::{CriticalError, ExecutionError, NonRecoverableError, memory_exhausted};
use crate::exec::{accounted, 
    InstStateMachine, MachineView, StackItem, StackEntry, State, StateView, FnStackFrame, FrameView,
    result_view, copy_result,
    halted, item_ptrs, item_ptr, lemma_stack_charge_push, lemma_frame_charge_push, lemma_charges_nonneg,
    lemma_frame_charge_update, lemma_frame_charge_parts, frame_cost, keeps_live, lemma_keeps_live, SLOT, FN_FRAME_COST,
};
use crate::mapping::{entries_view, insert_entry, lemma_unique_view};
use crate::mem::{GetSize, Value, ValueView, all_live, points_live, value_children, value_size};
use crate::ops::{BinOp, UnOp, OpResult, FloatRequest, binop, unop, is_truthy};
use crate::instructions::Instruction;
use crate::step::{
    Effect, realizes, outcome, binary_spec, unary_spec, cond_jump_spec, swap_spec, inst_spec, jumped,
    assign_spec, call_spec, construct_arr_spec, construct_obj_spec, load_attr_spec, load_index_spec,
    top_get, pop_gets, obj_pairs, drop_top, pushed, fail, popped, frame_growth, count_mismatch, norm_index, fn_underflow,
    fetched, finish, finish_effect, run_once_spec, run_once_result, runnable, current_inst,
    retrieve_spec, restored, replay_spec, fn_output_spec, float_reply_spec,
};

verus! {

impl InstStateMachine {
    /// Pushes `item` when its slot fits, collecting garbage first if needed.
    fn push_checked(&mut self, item: StackItem) -> (r: Result<(), ExecutionError>)
        requires
            old(self).wf(),
            all_live(old(self).memory@, item_ptrs(item)),
        ensures
            final(self).wf(),
            r is Ok ==> final(self)@ == (MachineView { stack: old(self)@.stack.push(item), ..old(self)@ }),
            r is Err ==> r == Err::<(), ExecutionError>(memory_exhausted()) && final(self)@ == old(self)@
                && final(self).memory.curr + crate::exec::item_size(item) > final(self).memory.max,
            final(self).memory.max == old(self).memory.max,
            final(self).fn_stack_frame == old(self).fn_stack_frame,
            final(self).state == old(self).state,
    {
        let size = item.get_size();
        let extra: Vec<usize> = match item_ptr(&item) {
            Some(p) => {
                let v = vec![p];
                assert(v@[0] == item_ptrs(item)[0]);
                v
            },
            None => Vec::new(),
        };
        proof {
            assert forall|k: int| 0 <= k < extra@.len() implies points_live(self.memory@, #[trigger] extra@[k]) by {
                assert(extra@[k] == item_ptrs(item)[k]);
            }
        }
        if !self.reserve(size, &extra) {
            return Err(ExecutionError::NonRecoverable(NonRecoverableError::MemoryError));
        }
        proof {
            assert forall|k: int| 0 <= k < item_ptrs(item).len() implies points_live(self.memory@, #[trigger] item_ptrs(item)[k]) by {
                assert(extra@[k] == item_ptrs(item)[k]);
            }
        }
        self.push_item(item);
        Ok(())
    }

    /// Points the innermost frame at `loc`.
    fn set_top_ptr(&mut self, loc: u64)
        requires
            old(self).wf(),
            old(self)@.frames.len() > 0,
            !crate::exec::calling(old(self)@.state),
        ensures
            final(self).wf(),
            final(self)@ == jumped(old(self)@, loc),
            final(self).memory == old(self).memory,
            final(self).stack == old(self).stack,
            final(self).state == old(self).state,
    {
        let ghost pre = self.fn_stack_frame@;
        let mut f = self.fn_stack_frame.pop().unwrap();
        proof {
            assert(pre == self.fn_stack_frame@.push(f));
            lemma_frame_charge_push(self.fn_stack_frame@, f);
        }
        f.ptr = loc;
        proof {
            lemma_frame_charge_push(self.fn_stack_frame@, f);
        }
        self.fn_stack_frame.push(f);
        proof {
            let i = pre.len() - 1;
            assert(self.fn_stack_frame@ == pre.update(i, f));
            assert(self@.frames =~= old(self)@.frames.update(i, FrameView { ptr: loc, ..old(self)@.frames[i] }));
            assert forall|j: int| 0 <= j < self.fn_stack_frame@.len() implies (#[trigger] self.fn_stack_frame@[j]).mapping.wf() by {
                assert(self.fn_stack_frame@[j].mapping == pre[j].mapping);
            }
            assert forall|a: int, b: int| 0 <= a < self@.frames.len() && 0 <= b < self@.frames[a].vars.len()
                implies points_live(self.memory@, #[trigger] self@.frames[a].vars[b].1) by {
                assert(self@.frames[a].vars == old(self)@.frames[a].vars);
            }
            if !halted(self@.state) {
                assert forall|j: int| 0 <= j < self.fn_stack_frame@.len() implies (#[trigger] self.fn_stack_frame@[j]).acct
                    == (if j == 0 { None } else { Some(crate::exec::frame_cost(self.fn_stack_frame@[j]@.vars)) }) by {
                    assert(self.fn_stack_frame@[j].acct == pre[j].acct);
                    assert(self.fn_stack_frame@[j]@.vars == pre[j]@.vars);
                }
            }
        }
    }

    /// `a op b`.
    fn eval_binary(&mut self, op: BinOp) -> (r: Result<(), ExecutionError>)
        requires
            old(self).wf(),
            !halted(old(self)@.state),
        ensures
            final(self).wf(),
            realizes(outcome(final(self)@, r), final(self).memory.curr, final(self).memory.max, binary_spec(old(self)@, op)),
            r is Err ==> !(r->Err_0 is Recoverable),
            final(self).memory.max == old(self).memory.max,
    {
        let b = match self.pop_get() {
            Ok(b) => b,
            Err(e) => return Err(e),
        };
        let a = match self.pop_get() {
            Ok(a) => a,
            Err(e) => return Err(e),
        };
        let out = binop(op, self.memory.get(a), self.memory.get(b));
        match out {
            OpResult::Value(v) => self.push_new(v),
            OpResult::Failed(e) => {
                if op == BinOp::Eq {
                    self.push_new(Value::Bool(false))
                } else if op == BinOp::Ne {
                    self.push_new(Value::Bool(true))
                } else {
                    Err(ExecutionError::from(e))
                }
            },
            OpResult::Host(req) => {
                self.state = Ok(State::FloatInput(req));
                Ok(())
            },
        }
    }

    /// `op a`.
    fn eval_unary(&mut self, op: UnOp) -> (r: Result<(), ExecutionError>)
        requires
            old(self).wf(),
            !halted(old(self)@.state),
        ensures
            final(self).wf(),
            realizes(outcome(final(self)@, r), final(self).memory.curr, final(self).memory.max, unary_spec(old(self)@, op)),
            r is Err ==> !(r->Err_0 is Recoverable),
            final(self).memory.max == old(self).memory.max,
    {
        let a = match self.pop_get() {
            Ok(a) => a,
            Err(e) => return Err(e),
        };
        let out = unop(op, self.memory.get(a));
        match out {
            OpResult::Value(v) => self.push_new(v),
            OpResult::Failed(e) => Err(ExecutionError::from(e)),
            OpResult::Host(req) => {
                self.state = Ok(State::FloatInput(req));
                Ok(())
            },
        }
    }

    /// A jump taken when the popped condition's truthiness is `when`.
    fn eval_cond_jump(&mut self, loc: u64, when: bool) -> (r: Result<(), ExecutionError>)
        requires
            old(self).wf(),
            !crate::exec::calling(old(self)@.state),
        ensures
            final(self).wf(),
            realizes(outcome(final(self)@, r), final(self).memory.curr, final(self).memory.max, cond_jump_spec(old(self)@, loc, when)),
            r is Err ==> !(r->Err_0 is Recoverable),
            final(self).memory.max == old(self).memory.max,
    {
        let a = match self.pop_get() {
            Ok(a) => a,
            Err(e) => return Err(e),
        };
        let t = is_truthy(self.memory.get(a));
        if t == when {
            if self.fn_stack_frame.len() == 0 {
                return Err(ExecutionError::Critical(CriticalError::FnStackUnderflowError));
            }
            self.set_top_ptr(loc);
        }
        Ok(())
    }

    /// Discards the top of the stack.
    fn eval_pop(&mut self) -> (r: Result<(), ExecutionError>)
        requires
            old(self).wf(),
        ensures
            final(self).wf(),
            realizes(outcome(final(self)@, r), final(self).memory.curr, final(self).memory.max, inst_spec(old(self)@, crate::instructions::Instruction::Pop)),
            r is Err ==> !(r->Err_0 is Recoverable),
            final(self).memory.max == old(self).memory.max,
    {
        reveal(inst_spec);
        match self.pop_item() {
            Some(_) => Ok(()),
            None => Err(ExecutionError::Critical(CriticalError::VStackUnderflowError)),
        }
    }

    /// Exchanges the two topmost stack items.
    fn eval_swap(&mut self) -> (r: Result<(), ExecutionError>)
        requires
            old(self).wf(),
        ensures
            final(self).wf(),
            realizes(outcome(final(self)@, r), final(self).memory.curr, final(self).memory.max, swap_spec(old(self)@)),
            r is Err ==> !(r->Err_0 is Recoverable),
            final(self).memory.max == old(self).memory.max,
    {
        let n = self.stack.len();
        if n == 0 {
            return Err(ExecutionError::Critical(CriticalError::VStackUnderflowError));
        }
        if n == 1 {
            let _ = self.pop_item();
            return Err(ExecutionError::Critical(CriticalError::VStackUnderflowError));
        }
        let ghost pre = self.stack@;
        let a = self.stack.pop().unwrap();
        let b = self.stack.pop().unwrap();
        let ghost base = self.stack@;
        proof {
            assert(pre == base.push(b).push(a));
            lemma_stack_charge_push(base, b);
            lemma_stack_charge_push(base.push(b), a);
            lemma_stack_charge_push(base, a);
            lemma_stack_charge_push(base.push(a), b);
        }
        self.stack.push(a);
        self.stack.push(b);
        proof {
            assert(self.stack@ == base.push(a).push(b));
            let m = old(self)@;
            assert(self@.stack =~= m.stack.update(n - 1, m.stack[n - 2]).update(n - 2, m.stack[n - 1]));
            assert forall|i: int| 0 <= i < self.stack@.len() implies (#[trigger] self.stack@[i]).acct == crate::exec::item_size(self.stack@[i].item) by {
                if i < n - 2 {
                    assert(self.stack@[i] == pre[i]);
                } else if i == n - 2 {
                    assert(self.stack@[i] == pre[n - 1]);
                } else {
                    assert(self.stack@[i] == pre[n - 2]);
                }
            }
            assert forall|i: int| 0 <= i < self@.stack.len() implies all_live(self.memory@, item_ptrs(#[trigger] self@.stack[i])) by {
                if i < n - 2 {
                    assert(self@.stack[i] == m.stack[i]);
                } else if i == n - 2 {
                    assert(self@.stack[i] == m.stack[n - 1]);
                } else {
                    assert(self@.stack[i] == m.stack[n - 2]);
                }
            }
        }
        Ok(())
    }

    /// Leaves the current function.
    fn eval_ret(&mut self) -> (r: Result<(), ExecutionError>)
        requires
            old(self).wf(),
            !crate::exec::calling(old(self)@.state),
        ensures
            final(self).wf(),
            realizes(outcome(final(self)@, r), final(self).memory.curr, final(self).memory.max, inst_spec(old(self)@, crate::instructions::Instruction::Ret)),
            r is Err ==> !(r->Err_0 is Recoverable),
            final(self).memory.max == old(self).memory.max,
    {
        reveal(inst_spec);
        let ghost pre = self.fn_stack_frame@;
        match self.fn_stack_frame.pop() {
            None => Err(ExecutionError::Critical(CriticalError::FnStackUnderflowError)),
            Some(f) => {
                proof {
                    assert(pre == self.fn_stack_frame@.push(f));
                    lemma_frame_charge_push(self.fn_stack_frame@, f);
                    lemma_charges_nonneg(self.stack@, self.fn_stack_frame@);
                }
                match f.acct {
                    Some(n) => self.memory.release(n),
                    None => {},
                }
                proof {
                    assert(self@.frames =~= old(self)@.frames.drop_last());
                    assert forall|j: int| 0 <= j < self.fn_stack_frame@.len() implies (#[trigger] self.fn_stack_frame@[j]).mapping.wf() by {
                        assert(self.fn_stack_frame@[j] == pre[j]);
                    }
                    assert forall|a: int, b: int| 0 <= a < self@.frames.len() && 0 <= b < self@.frames[a].vars.len()
                        implies points_live(self.memory@, #[trigger] self@.frames[a].vars[b].1) by {
                        assert(self@.frames[a] == old(self)@.frames[a]);
                    }
                    if !halted(self@.state) {
                        assert forall|j: int| 0 <= j < self.fn_stack_frame@.len() implies (#[trigger] self.fn_stack_frame@[j]).acct
                            == (if j == 0 { None } else { Some(crate::exec::frame_cost(self.fn_stack_frame@[j]@.vars)) }) by {
                            assert(self.fn_stack_frame@[j] == pre[j]);
                        }
                    }
                }
                Ok(())
            },
        }
    }
}

/// The pointers `ps` put before the values of a run of pops.
pub open spec fn prepend_ptrs(
    ps: Seq<usize>,
    r: Result<(Seq<usize>, MachineView), (ExecutionError, MachineView)>,
) -> Result<(Seq<usize>, MachineView), (ExecutionError, MachineView)> {
    match r {
        Ok((qs, m)) => Ok((ps + qs, m)),
        Err(f) => Err(f),
    }
}

/// The entries of `insert_entry` are those of `s` or the new binding.
pub proof fn lemma_insert_entry_targets(s: Seq<(Seq<char>, usize)>, k: Seq<char>, p: usize)
    ensures
        forall|j: int| 0 <= j < insert_entry(s, k, p).len() ==>
            (#[trigger] insert_entry(s, k, p)[j]).1 == p || (j < s.len() && insert_entry(s, k, p)[j].1 == s[j].1),
        insert_entry(s, k, p).len() >= s.len(),
{
}

impl InstStateMachine {
    /// Binds variable `name` in the innermost frame to `v`, recharging the frame.
    fn assign_var(&mut self, name: String, v: usize) -> (r: Result<(), ExecutionError>)
        requires
            old(self).wf(),
            points_live(old(self).memory@, v),
            !halted(old(self)@.state),
            !crate::exec::calling(old(self)@.state),
        ensures
            final(self).wf(),
            old(self)@.frames.len() == 0 ==> r == Err::<(), ExecutionError>(fn_underflow()) && final(self)@ == old(self)@,
            old(self)@.frames.len() > 0 ==> ({
                let m = old(self)@;
                let i = m.frames.len() - 1;
                let top = m.frames[i];
                let vars = insert_entry(top.vars, name@, v);
                let m3 = MachineView { frames: m.frames.update(i, FrameView { vars, ..top }), ..m };
                realizes(outcome(final(self)@, r), final(self).memory.curr, final(self).memory.max,
                    Effect::Alloc { need: frame_growth(i, top.vars, vars), ok: m3, short: fail(m3, memory_exhausted()) })
            }),
            r is Err ==> !(r->Err_0 is Recoverable),
            final(self).memory.max == old(self).memory.max,
    {
        let n = self.fn_stack_frame.len();
        if n == 0 {
            return Err(ExecutionError::Critical(CriticalError::FnStackUnderflowError));
        }
        let i = n - 1;
        let ghost m = self@;
        let ghost top = m.frames[i as int];
        let ghost vars = insert_entry(top.vars, name@, v);
        let ghost m3 = MachineView { frames: m.frames.update(i as int, FrameView { vars, ..top }), ..m };
        let mut mapping = crate::mem::copy_mapping(&self.fn_stack_frame[i].mapping);
        assert(mapping.wf());
        mapping.insert(name, v);
        let kb = crate::mem::mapping_key_bytes(&mapping);
        proof {
            crate::mem::lemma_key_bytes_nonneg(entries_view(mapping.entries@));
        }
        let new_cost = crate::mem::sat_add(FN_FRAME_COST, kb);
        assert(new_cost == frame_cost(vars));
        let acct = self.fn_stack_frame[i].acct;
        let ptr = self.fn_stack_frame[i].ptr;
        let ghost pre_frames = self.fn_stack_frame@;
        proof {
            lemma_insert_entry_targets(top.vars, name@, v);
            assert(entries_view(mapping.entries@) == vars);
        }
        let res: Result<(), ExecutionError> = match acct {
            None => {
                let f = FnStackFrame { ptr, mapping, acct: None };
                proof {
                    lemma_frame_charge_update(pre_frames, i as int, f);
                }
                self.fn_stack_frame.set(i, f);
                Ok(())
            },
            Some(oc) => {
                if new_cost <= oc {
                    proof {
                        lemma_charges_nonneg(self.stack@, self.fn_stack_frame@);
                        lemma_frame_charge_parts(pre_frames, i as int);
                    }
                    self.memory.release(oc - new_cost);
                    let f = FnStackFrame { ptr, mapping, acct: Some(new_cost) };
                    proof {
                        lemma_frame_charge_update(pre_frames, i as int, f);
                    }
                    self.fn_stack_frame.set(i, f);
                    Ok(())
                } else {
                    let extra = vec![v];
                    proof {
                        assert(extra@[0] == v);
                        assert(all_live(self.memory@, extra@));
                    }
                    if self.reserve(new_cost - oc, &extra) {
                        let _ = self.memory.charge(new_cost - oc);
                        let f = FnStackFrame { ptr, mapping, acct: Some(new_cost) };
                        proof {
                            lemma_frame_charge_update(pre_frames, i as int, f);
                            assert(points_live(self.memory@, extra@[0]));
                        }
                        self.fn_stack_frame.set(i, f);
                        Ok(())
                    } else {
                        let f = FnStackFrame { ptr, mapping, acct: Some(oc) };
                        proof {
                            lemma_frame_charge_update(pre_frames, i as int, f);
                            assert(points_live(self.memory@, extra@[0]));
                        }
                        self.fn_stack_frame.set(i, f);
                        self.state = Err(ExecutionError::NonRecoverable(NonRecoverableError::MemoryError));
                        Err(ExecutionError::NonRecoverable(NonRecoverableError::MemoryError))
                    }
                }
            },
        };
        proof {
            assert(self@.frames =~= m3.frames);
            assert forall|j: int| 0 <= j < self.fn_stack_frame@.len() implies (#[trigger] self.fn_stack_frame@[j]).mapping.wf() by {
                if j != i {
                    assert(self.fn_stack_frame@[j] == pre_frames[j]);
                }
            }
            assert forall|a: int, b: int| 0 <= a < self@.frames.len() && 0 <= b < self@.frames[a].vars.len()
                implies points_live(self.memory@, #[trigger] self@.frames[a].vars[b].1) by {
                if a != i {
                    assert(self@.frames[a] == m.frames[a]);
                    assert(points_live(self.memory@, m.frames[a].vars[b].1));
                } else {
                    if self@.frames[a].vars[b].1 != v {
                        assert(points_live(self.memory@, m.frames[a].vars[b].1));
                    }
                }
            }
            if !halted(self@.state) {
                assert forall|j: int| 0 <= j < self.fn_stack_frame@.len() implies (#[trigger] self.fn_stack_frame@[j]).acct
                    == (if j == 0 { None } else { Some(frame_cost(self.fn_stack_frame@[j]@.vars)) }) by {
                    if j != i {
                        assert(self.fn_stack_frame@[j] == pre_frames[j]);
                    }
                }
            }
        }
        res
    }

    /// Binds attribute `name` of object `obj` to `v`, re-reading the object's size.
    fn assign_attr(&mut self, obj: usize, name: String, v: usize) -> (r: Result<(), ExecutionError>)
        requires
            old(self).wf(),
            points_live(old(self).memory@, v),
            points_live(old(self).memory@, obj),
            !halted(old(self)@.state),
        ensures
            final(self).wf(),
            realizes(outcome(final(self)@, r), final(self).memory.curr, final(self).memory.max,
                match old(self)@.heap[obj as int] {
                    ValueView::Object(es) => {
                        let nv = ValueView::Object(insert_entry(es, name@, v));
                        let m3 = MachineView { heap: old(self)@.heap.update(obj as int, nv), ..old(self)@ };
                        Effect::Alloc { need: value_size(nv) - value_size(old(self)@.heap[obj as int]), ok: m3, short: fail(m3, memory_exhausted()) }
                    },
                    _ => Effect::Done(fail(old(self)@, crate::step::program_error(NonRecoverableError::UnexpectedAttrError))),
                }),
            r is Err ==> !(r->Err_0 is Recoverable),
            final(self).memory.max == old(self).memory.max,
    {
        let ghost m = self@;
        let nv: Value = match self.memory.get(obj) {
            Value::Object(mp) => {
                proof {
                    assert(crate::exec::value_ok(m.heap[obj as int]));
                    lemma_unique_view(mp.entries@);
                }
                let mut m2 = crate::mem::copy_mapping(mp);
                m2.insert(name, v);
                Value::Object(m2)
            },
            _ => {
                return Err(ExecutionError::NonRecoverable(NonRecoverableError::UnexpectedAttrError));
            },
        };
        let ghost es = m.heap[obj as int]->Object_0;
        proof {
            lemma_insert_entry_targets(es, name@, v);
            crate::mapping::lemma_insert_entry_unique(es, name@, v);
            assert(nv@ == ValueView::Object(insert_entry(es, name@, v)));
        }
        let new_size = nv.get_size();
        let old_size = self.memory.cells[obj].size;
        assert(old_size == value_size(m.heap[obj as int]));
        let ghost m3 = MachineView { heap: m.heap.update(obj as int, nv@), ..m };
        let ok = if new_size <= old_size {
            true
        } else {
            let extra = vec![obj, v];
            proof {
                assert(extra@[0] == obj && extra@[1] == v);
                assert(all_live(self.memory@, extra@));
            }
            let ok = self.reserve(new_size - old_size, &extra);
            proof {
                assert(points_live(self.memory@, extra@[0]));
                assert(points_live(self.memory@, extra@[1]));
            }
            ok
        };
        let ghost pre = self.memory@;
        let ghost mv = self@;
        proof {
            assert forall|k: int| 0 <= k < value_children(nv@).len() implies points_live(self.memory@, #[trigger] value_children(nv@)[k]) by {
                if value_children(nv@)[k] != v {
                    assert(value_children(nv@)[k] == value_children(pre[obj as int].value)[k]);
                }
            }
        }
        self.memory.set_value(obj, nv);
        if ok {
            let _ = self.memory.change_alloc(obj);
        }
        proof {
            assert(keeps_live(pre, self.memory@));
            lemma_keeps_live(pre, self.memory@, mv);
            assert(self@.heap =~= m3.heap);
            assert forall|i: int| 0 <= i < self@.heap.len() implies crate::exec::value_ok(#[trigger] self@.heap[i]) by {
                if i != obj {
                    assert(self@.heap[i] == m.heap[i]);
                }
            }
        }
        if ok {
            proof {
                assert forall|i: int| 0 <= i < self.memory@.len() && (#[trigger] self.memory@[i]).live
                    implies self.memory@[i].size == value_size(self.memory@[i].value) by {
                    if i != obj {
                        assert(self.memory@[i] == pre[i]);
                    }
                }
            }
            Ok(())
        } else {
            self.state = Err(ExecutionError::NonRecoverable(NonRecoverableError::MemoryError));
            Err(ExecutionError::NonRecoverable(NonRecoverableError::MemoryError))
        }
    }

    /// Stores `v` at position `i` of list `arr`; a target that is no list is left alone.
    fn assign_index(&mut self, arr: usize, i: i64, v: usize) -> (r: Result<(), ExecutionError>)
        requires
            old(self).wf(),
            points_live(old(self).memory@, v),
            points_live(old(self).memory@, arr),
            !halted(old(self)@.state),
        ensures
            final(self).wf(),
            final(self).memory.curr == old(self).memory.curr,
            final(self).memory.max == old(self).memory.max,
            outcome(final(self)@, r) == match old(self)@.heap[arr as int] {
                ValueView::Collection(items) => {
                    let idx = norm_index(i, items.len() as int);
                    if 0 <= idx < items.len() {
                        MachineView { heap: old(self)@.heap.update(arr as int, ValueView::Collection(items.update(idx, v))), ..old(self)@ }
                    } else {
                        fail(old(self)@, crate::step::program_error(NonRecoverableError::IndexOutOfRangeError))
                    }
                },
                _ => old(self)@,
            },
            r is Err ==> !(r->Err_0 is Recoverable),
    {
        let ghost m = self@;
        let nv = match self.memory.get(arr) {
            Value::Collection(items) => {
                let len = items.len();
                let idx: i128 = if i < 0 { i as i128 + len as i128 } else { i as i128 };
                if 0 <= idx && idx < len as i128 {
                    let k = idx as usize;
                    let mut it2 = crate::mem::copy_ptrs(items);
                    it2.set(k, v);
                    Value::Collection(it2)
                } else {
                    return Err(ExecutionError::NonRecoverable(NonRecoverableError::IndexOutOfRangeError));
                }
            },
            _ => {
                return Ok(());
            },
        };
        let ghost pre = self.memory@;
        proof {
            assert forall|k: int| 0 <= k < value_children(nv@).len() implies points_live(self.memory@, #[trigger] value_children(nv@)[k]) by {
                if value_children(nv@)[k] != v {
                    assert(value_children(nv@)[k] == value_children(pre[arr as int].value)[k]);
                }
            }
        }
        self.memory.set_value(arr, nv);
        proof {
            assert(keeps_live(pre, self.memory@));
            lemma_keeps_live(pre, self.memory@, m);
            assert(self@.heap =~= m.heap.update(arr as int, nv@));
            assert forall|q: int| 0 <= q < self@.heap.len() implies crate::exec::value_ok(#[trigger] self@.heap[q]) by {
                if q != arr {
                    assert(self@.heap[q] == m.heap[q]);
                }
            }
            assert forall|q: int| 0 <= q < self.memory@.len() && (#[trigger] self.memory@[q]).live
                implies self.memory@[q].size == value_size(self.memory@[q].value) by {
                if q != arr {
                    assert(self.memory@[q] == pre[q]);
                }
            }
        }
        Ok(())
    }

    /// Binds the target below the top of the stack to the value on top.
    fn eval_assign(&mut self) -> (r: Result<(), ExecutionError>)
        requires
            old(self).wf(),
            !halted(old(self)@.state),
            !crate::exec::calling(old(self)@.state),
        ensures
            final(self).wf(),
            realizes(outcome(final(self)@, r), final(self).memory.curr, final(self).memory.max, assign_spec(old(self)@)),
            r is Err ==> !(r->Err_0 is Recoverable),
            final(self).memory.max == old(self).memory.max,
    {
        let v = match self.pop_get() {
            Ok(v) => v,
            Err(e) => return Err(e),
        };
        let target = match self.pop_item() {
            Some(t) => t,
            None => return Err(ExecutionError::Critical(CriticalError::VStackUnderflowError)),
        };
        match target {
            StackItem::Value(_) => Err(ExecutionError::NonRecoverable(NonRecoverableError::UndefinedVarError)),
            StackItem::AttrReference(None, name) => self.assign_var(name, v),
            StackItem::AttrReference(Some(obj), name) => {
                assert(item_ptrs(StackItem::AttrReference(Some(obj), name))[0] == obj);
                self.assign_attr(obj, name, v)
            },
            StackItem::IdxReference(arr, i) => {
                assert(item_ptrs(StackItem::IdxReference(arr, i))[0] == arr);
                self.assign_index(arr, i, v)
            },
        }
    }
}

impl InstStateMachine {
    /// Calls the function on top of the stack; below it lies the argument count.
    fn eval_call(&mut self) -> (r: Result<(), ExecutionError>)
        requires
            old(self).wf(),
            !halted(old(self)@.state),
            !crate::exec::calling(old(self)@.state),
            old(self)@.frames.len() > 0,
            old(self)@.frames.last().ptr >= 1,
        ensures
            final(self).wf(),
            realizes(outcome(final(self)@, r), final(self).memory.curr, final(self).memory.max, call_spec(old(self)@)),
            r is Err ==> !(r->Err_0 is Recoverable),
            final(self).memory.max == old(self).memory.max,
    {
        let f = match self.pop_get() {
            Ok(f) => f,
            Err(e) => return Err(e),
        };
        let fv = self.memory.get(f).duplicate();
        match fv {
            Value::DPtr(entry, n) => {
                let g = match self.pop_get() {
                    Ok(g) => g,
                    Err(e) => return Err(e),
                };
                let given = match self.memory.get(g) {
                    Value::Int(k) => *k,
                    _ => return Err(ExecutionError::NonRecoverable(NonRecoverableError::UnexpectedFunctionCall)),
                };
                if given < 0 || given as u64 != n as u64 {
                    return Err(ExecutionError::NonRecoverable(NonRecoverableError::IncorrectArgumentCountError));
                }
                let none: Vec<usize> = Vec::new();
                if !self.reserve(FN_FRAME_COST, &none) {
                    return Err(ExecutionError::NonRecoverable(NonRecoverableError::MemoryError));
                }
                let _ = self.memory.charge(FN_FRAME_COST);
                let frame = FnStackFrame { ptr: entry, mapping: crate::mapping::Mapping::new(), acct: Some(FN_FRAME_COST) };
                let ghost pre = self.fn_stack_frame@;
                proof {
                    lemma_frame_charge_push(pre, frame);
                    assert(entries_view(frame.mapping.entries@) =~= Seq::<(Seq<char>, usize)>::empty());
                    assert(frame_cost(Seq::<(Seq<char>, usize)>::empty()) == FN_FRAME_COST);
                }
                self.fn_stack_frame.push(frame);
                proof {
                    assert(self@.frames =~= old(self)@.frames.push(FrameView { ptr: entry, vars: Seq::empty() }));
                    assert forall|j: int| 0 <= j < self.fn_stack_frame@.len() implies (#[trigger] self.fn_stack_frame@[j]).mapping.wf() by {
                        if j < pre.len() {
                            assert(self.fn_stack_frame@[j] == pre[j]);
                        }
                    }
                    assert forall|a: int, b: int| 0 <= a < self@.frames.len() && 0 <= b < self@.frames[a].vars.len()
                        implies points_live(self.memory@, #[trigger] self@.frames[a].vars[b].1) by {
                        assert(a < pre.len());
                        assert(self@.frames[a] == old(self)@.frames[a]);
                    }
                    assert forall|j: int| 0 <= j < self.fn_stack_frame@.len() implies (#[trigger] self.fn_stack_frame@[j]).acct
                        == (if j == 0 { None } else { Some(frame_cost(self.fn_stack_frame@[j]@.vars)) }) by {
                        if j < pre.len() {
                            assert(self.fn_stack_frame@[j] == pre[j]);
                        }
                    }
                }
                Ok(())
            },
            Value::FnPtrExternal(name, n) => {
                let g = match self.pop_get() {
                    Ok(g) => g,
                    Err(e) => return Err(e),
                };
                let given = match self.memory.get(g) {
                    Value::Int(k) => *k,
                    _ => return Err(ExecutionError::NonRecoverable(NonRecoverableError::UnexpectedFunctionCall)),
                };
                if given < 0 || given as u64 != n as u64 {
                    return Err(ExecutionError::NonRecoverable(NonRecoverableError::IncorrectArgumentCountError));
                }
                self.state = Ok(State::FnExternInput(name, n));
                Ok(())
            },
            _ => Err(ExecutionError::NonRecoverable(NonRecoverableError::UnexpectedFunctionCall)),
        }
    }

    /// Pops `n` values into a new list, the top first.
    fn eval_construct_arr(&mut self, n: u64) -> (r: Result<(), ExecutionError>)
        requires
            old(self).wf(),
            !halted(old(self)@.state),
        ensures
            final(self).wf(),
            realizes(outcome(final(self)@, r), final(self).memory.curr, final(self).memory.max, construct_arr_spec(old(self)@, n)),
            r is Err ==> !(r->Err_0 is Recoverable),
            final(self).memory.max == old(self).memory.max,
    {
        if n > self.stack.len() as u64 {
            return Err(ExecutionError::Critical(CriticalError::VStackUnderflowError));
        }
        let ghost m0 = self@;
        let mut arr: Vec<usize> = Vec::new();
        let mut i: u64 = 0;
        while i < n
            invariant
                self.wf(),
                !halted(self@.state),
                i <= n,
                m0 == old(self)@,
                n <= m0.stack.len(),
                self@.state == m0.state,
                self.memory.max == old(self).memory.max,
                pop_gets(m0, n as nat) == prepend_ptrs(arr@, pop_gets(self@, (n - i) as nat)),
                all_live(self.memory@, arr@),
            decreases n - i,
        {
            let ghost cur = self@;
            let ghost k = (n - i) as nat;
            proof {
                assert(pop_gets(cur, k) == match top_get(cur) {
                    Err(f) => Err(f),
                    Ok((p, m1)) => match pop_gets(m1, (k - 1) as nat) {
                        Err(f) => Err(f),
                        Ok((ps, m2)) => Ok((seq![p] + ps, m2)),
                    },
                });
            }
            match self.pop_get() {
                Ok(p) => {
                    let ghost before = arr@;
                    arr.push(p);
                    proof {
                        match pop_gets(self@, (k - 1) as nat) {
                            Ok((ps, m2)) => {
                                assert(before + (seq![p] + ps) =~= arr@ + ps);
                            },
                            Err(_) => {},
                        }
                        assert forall|t: int| 0 <= t < arr@.len() implies points_live(self.memory@, #[trigger] arr@[t]) by {
                            if t < before.len() {
                                assert(arr@[t] == before[t]);
                            }
                        }
                    }
                },
                Err(e) => {
                    return Err(e);
                },
            }
            i = i + 1;
        }
        proof {
            assert(arr@ + Seq::<usize>::empty() =~= arr@);
        }
        self.push_new(Value::Collection(arr))
    }

    /// Pops `n` name/value pairs into a new object.
    fn eval_construct_obj(&mut self, n: u64) -> (r: Result<(), ExecutionError>)
        requires
            old(self).wf(),
            !halted(old(self)@.state),
        ensures
            final(self).wf(),
            realizes(outcome(final(self)@, r), final(self).memory.curr, final(self).memory.max, construct_obj_spec(old(self)@, n)),
            r is Err ==> !(r->Err_0 is Recoverable),
            final(self).memory.max == old(self).memory.max,
    {
        let total = match n.checked_mul(2) {
            Some(t) => t,
            None => {
                let l = self.stack.len();
                assert(l as int <= u64::MAX) by {
                    assert(usize::MAX == 0xffff_ffff || usize::MAX == 0xffff_ffff_ffff_ffff);
                }
                return Err(ExecutionError::Critical(CriticalError::VStackUnderflowError));
            },
        };
        if total > self.stack.len() as u64 {
            return Err(ExecutionError::Critical(CriticalError::VStackUnderflowError));
        }
        let ghost m0 = self@;
        let mut obj = crate::mapping::Mapping::new();
        proof {
            assert(entries_view(obj.entries@) =~= Seq::<(Seq<char>, usize)>::empty());
        }
        let mut idx: u64 = 0;
        while idx < n
            invariant
                self.wf(),
                !halted(self@.state),
                idx <= n,
                total == n * 2,
                m0 == old(self)@,
                n * 2 <= m0.stack.len(),
                self@.state == m0.state,
                self.memory.max == old(self).memory.max,
                obj.wf(),
                forall|t: int| 0 <= t < obj.entries@.len() ==> points_live(self.memory@, #[trigger] obj.entries@[t].1),
                obj_pairs(m0, n, 0, Seq::empty()) == obj_pairs(self@, n, idx, entries_view(obj.entries@)),
            decreases n - idx,
        {
            let ghost cur = self@;
            let k = match self.pop_get() {
                Ok(k) => k,
                Err(e) => return Err(e),
            };
            let v = match self.pop_get() {
                Ok(v) => v,
                Err(e) => return Err(e),
            };
            let ghost m2 = self@;
            let key = match self.memory.get(k) {
                Value::String(s) => Some(s.clone()),
                _ => None,
            };
            match key {
                Some(s) => {
                    let ghost before = obj.entries@;
                    proof {
                        lemma_unique_view(obj.entries@);
                        lemma_insert_entry_targets(entries_view(before), s@, v);
                    }
                    obj.insert(s, v);
                    proof {
                        assert forall|t: int| 0 <= t < obj.entries@.len() implies points_live(self.memory@, #[trigger] obj.entries@[t].1) by {
                            assert(entries_view(obj.entries@)[t].1 == obj.entries@[t].1);
                            if obj.entries@[t].1 != v {
                                assert(entries_view(before)[t].1 == before[t].1);
                            }
                        }
                    }
                },
                None => {
                    let cnt = (n - idx) * 2;
                    let mut j: u64 = 0;
                    assert(drop_top(m2.stack, 0) =~= m2.stack);
                    while j < cnt
                        invariant
                            self.wf(),
                            j <= cnt,
                            self@ == (MachineView { stack: drop_top(m2.stack, j as int), ..m2 }),
                            self.memory.max == old(self).memory.max,
                        decreases cnt - j,
                    {
                        let _ = self.pop_item();
                        proof {
                            let s = m2.stack;
                            if j < s.len() {
                                assert(drop_top(s, j as int).drop_last() =~= drop_top(s, j as int + 1));
                            } else {
                                assert(drop_top(s, j as int + 1) =~= Seq::<StackItem>::empty());
                            }
                        }
                        j = j + 1;
                    }
                    return Err(ExecutionError::NonRecoverable(NonRecoverableError::AttrNotStringError));
                },
            }
            idx = idx + 1;
        }
        proof {
            lemma_unique_view(obj.entries@);
            assert forall|t: int| 0 <= t < value_children(Value::Object(obj)@).len()
                implies points_live(self.memory@, #[trigger] value_children(Value::Object(obj)@)[t]) by {
                assert(value_children(Value::Object(obj)@)[t] == obj.entries@[t].1);
            }
        }
        self.push_new(Value::Object(obj))
    }

    /// Pops an object and pushes a reference to its attribute `name`.
    fn eval_load_attr(&mut self, name: String) -> (r: Result<(), ExecutionError>)
        requires
            old(self).wf(),
        ensures
            final(self).wf(),
            realizes(outcome(final(self)@, r), final(self).memory.curr, final(self).memory.max, load_attr_spec(old(self)@, name)),
            r is Err ==> !(r->Err_0 is Recoverable),
            final(self).memory.max == old(self).memory.max,
    {
        let v = match self.pop_get() {
            Ok(v) => v,
            Err(e) => return Err(e),
        };
        let is_obj = match self.memory.get(v) {
            Value::Object(_) => true,
            _ => false,
        };
        if is_obj {
            let item = StackItem::AttrReference(Some(v), name);
            assert(item_ptrs(item)[0] == v);
            self.push_checked(item)
        } else {
            Err(ExecutionError::NonRecoverable(NonRecoverableError::UnexpectedAttrError))
        }
    }

    /// Pops a list or object and pushes a reference to the subscripted element.
    fn eval_load_index(&mut self, sub: crate::ast::SubscriptLoad) -> (r: Result<(), ExecutionError>)
        requires
            old(self).wf(),
        ensures
            final(self).wf(),
            realizes(outcome(final(self)@, r), final(self).memory.curr, final(self).memory.max, load_index_spec(old(self)@, sub)),
            r is Err ==> !(r->Err_0 is Recoverable),
            final(self).memory.max == old(self).memory.max,
    {
        let v = match self.pop_get() {
            Ok(v) => v,
            Err(e) => return Err(e),
        };
        let kind: u8 = match self.memory.get(v) {
            Value::Collection(_) => 0,
            Value::Object(_) => 1,
            _ => 2,
        };
        if kind == 0 {
            match sub {
                crate::ast::SubscriptLoad::Idx(i) => {
                    let item = StackItem::IdxReference(v, i);
                    assert(item_ptrs(item)[0] == v);
                    self.push_checked(item)
                },
                crate::ast::SubscriptLoad::String(_) => Ok(()),
            }
        } else if kind == 1 {
            match sub {
                crate::ast::SubscriptLoad::String(s) => {
                    let item = StackItem::AttrReference(Some(v), s);
                    assert(item_ptrs(item)[0] == v);
                    self.push_checked(item)
                },
                crate::ast::SubscriptLoad::Idx(_) => Ok(()),
            }
        } else {
            Err(ExecutionError::NonRecoverable(NonRecoverableError::UnexpectedIdxError))
        }
    }
}

/// `x` as a `u64`.
pub fn usize_as_u64(x: usize) -> (r: u64)
    ensures
        r == x,
{
    assert(x as int <= u64::MAX) by {
        assert(usize::MAX == 0xffff_ffff || usize::MAX == 0xffff_ffff_ffff_ffff);
    }
    x as u64
}

impl InstStateMachine {
    /// Runs one instruction; the run state must be ready, and for a `Call` the
    /// innermost frame must already point past it (a host call that runs out of
    /// budget is replayed from there).
    pub fn inst_eval(&mut self, inst: Instruction) -> (r: Result<State, ExecutionError>)
        requires
            old(self).wf(),
            old(self)@.state == Ok::<StateView, ExecutionError>(StateView::Ready),
            old(self)@.frames.len() > 0,
            inst is Call ==> old(self)@.frames.last().ptr >= 1,
        ensures
            final(self).wf(),
            final(self).memory.curr <= accounted(final(self)@),
            realizes(final(self)@, final(self).memory.curr, final(self).memory.max, inst_spec(old(self)@, inst)),
            result_view(r) == final(self)@.state,
            final(self).memory.max == old(self).memory.max,
    {
        reveal(inst_spec);
        let res: Result<(), ExecutionError> = match inst {
            Instruction::Add => self.eval_binary(BinOp::Add),
            Instruction::Sub => self.eval_binary(BinOp::Sub),
            Instruction::Mul => self.eval_binary(BinOp::Mul),
            Instruction::Div => self.eval_binary(BinOp::Div),
            Instruction::Mod => self.eval_binary(BinOp::Mod),
            Instruction::BitwiseAnd => self.eval_binary(BinOp::BitAnd),
            Instruction::BitwiseOr => self.eval_binary(BinOp::BitOr),
            Instruction::BitwiseXor => self.eval_binary(BinOp::BitXor),
            Instruction::Shl => self.eval_binary(BinOp::Shl),
            Instruction::Shr => self.eval_binary(BinOp::Shr),
            Instruction::UnaryPlus => self.eval_unary(UnOp::Pos),
            Instruction::UnaryMinus => self.eval_unary(UnOp::Neg),
            Instruction::Not => self.eval_unary(UnOp::Not),
            Instruction::BitwiseNot => self.eval_unary(UnOp::BitNot),
            Instruction::Eq => self.eval_binary(BinOp::Eq),
            Instruction::NotEq => self.eval_binary(BinOp::Ne),
            Instruction::Lt => self.eval_binary(BinOp::Lt),
            Instruction::Lte => self.eval_binary(BinOp::Le),
            Instruction::Gt => self.eval_binary(BinOp::Gt),
            Instruction::Gte => self.eval_binary(BinOp::Ge),
            Instruction::Assign => self.eval_assign(),
            Instruction::JmpNz(loc) => self.eval_cond_jump(loc, true),
            Instruction::JmpZ(loc) => self.eval_cond_jump(loc, false),
            Instruction::Jmp(loc) => {
                self.set_top_ptr(loc);
                Ok(())
            },
            Instruction::Call => self.eval_call(),
            Instruction::Ret => self.eval_ret(),
            Instruction::LoadNone => self.push_new(Value::Nil),
            Instruction::LoadLitFloat(s) => {
                self.state = Ok(State::FloatInput(FloatRequest::Literal(s)));
                Ok(())
            },
            Instruction::LoadLitInt(i) => self.push_new(Value::Int(i)),
            Instruction::LoadLitString(s) => self.push_new(Value::String(s)),
            Instruction::LoadLitBool(b) => self.push_new(Value::Bool(b)),
            Instruction::ConstructArr(n) => self.eval_construct_arr(n),
            Instruction::ConstructObj(n) => self.eval_construct_obj(n),
            Instruction::LoadName(name) => {
                let item = StackItem::AttrReference(None, name);
                self.push_checked(item)
            },
            Instruction::LoadObjectAttr(name) => self.eval_load_attr(name),
            Instruction::LoadObjectIndex(sub) => self.eval_load_index(sub),
            Instruction::Terminate => {
                self.state = Ok(State::Terminated);
                Ok(())
            },
            Instruction::Interrupt => {
                self.state = Ok(State::Interrupt);
                Ok(())
            },
            Instruction::Pop => self.eval_pop(),
            Instruction::Swap => self.eval_swap(),
            Instruction::LoadDPtr(entry, n) => self.push_new(Value::DPtr(entry, n)),
        };
        match res {
            Ok(()) => {},
            Err(e) => {
                self.state = Err(e);
            },
        }
        proof { self.lemma_curr_accounted(); }
        copy_result(&self.state)
    }

    /// Runs the next instruction, or reports why none runs.
    ///
    /// A stopped machine (terminated, interrupted, waiting for the host, or failed)
    /// is left as it is; a recoverable error that nobody handled becomes
    /// non-recoverable. Reaching the end of the program terminates the run, and an
    /// exhausted budget stops it with `Timeout`.
    pub fn run_once(&mut self) -> (r: Result<State, ExecutionError>)
        requires
            old(self).wf(),
        ensures
            final(self).wf(),
            final(self).memory.curr <= accounted(final(self)@),
            realizes(final(self)@, final(self).memory.curr, final(self).memory.max, run_once_spec(old(self)@)),
            result_view(r) == run_once_result(old(self)@, final(self)@),
            final(self).memory.max == old(self).memory.max,
            final(self).memory.curr <= final(self).memory.max,
    {
        match &self.state {
            Ok(State::Ready) => {},
            Ok(State::Timeout(_)) => {},
            Err(ExecutionError::Recoverable(rec)) => {
                let rec = *rec;
                self.state = Err(ExecutionError::NonRecoverable(NonRecoverableError::NonRecoveredRecoverableError(rec)));
                proof { self.lemma_curr_accounted(); }
                return copy_result(&self.state);
            },
            _ => {
                proof { self.lemma_curr_accounted(); }
                return copy_result(&self.state);
            },
        }
        let n = self.fn_stack_frame.len();
        if n == 0 {
            proof { self.lemma_curr_accounted(); }
            return Err(ExecutionError::Critical(CriticalError::FnStackUnderflowError));
        }
        let ptr = self.fn_stack_frame[n - 1].ptr;
        let len = usize_as_u64(self.instructions.len());
        if ptr >= len {
            self.state = Ok(State::Terminated);
            proof { self.lemma_curr_accounted(); }
            return copy_result(&self.state);
        }
        let blocked = match &self.state {
            Ok(State::Timeout(req)) => *req > self.lim,
            _ => false,
        };
        if blocked {
            proof { self.lemma_curr_accounted(); }
            return copy_result(&self.state);
        }
        if self.lim == 0 {
            self.state = Ok(State::Timeout(1));
            proof { self.lemma_curr_accounted(); }
            return copy_result(&self.state);
        }
        self.state = Ok(State::Ready);
        let inst = self.instructions[ptr as usize].duplicate();
        self.set_top_ptr(ptr + 1);
        self.lim = self.lim - 1;
        proof {
            assert(self@ == fetched(old(self)@));
        }
        let _ = self.inst_eval(inst);
        let ghost post = self@;
        proof {
            crate::step::lemma_finish_realizes(post, self.memory.curr, self.memory.max, inst_spec(fetched(old(self)@), current_inst(old(self)@)));
            crate::step::lemma_inst_keeps(fetched(old(self)@), current_inst(old(self)@));
            crate::step::lemma_realizes_keeps(post, self.memory.curr, self.memory.max, fetched(old(self)@), inst_spec(fetched(old(self)@), current_inst(old(self)@)));
        }
        let m = self.fn_stack_frame.len();
        let done = match &self.state {
            Ok(State::Ready) => m > 0 && self.fn_stack_frame[m - 1].ptr == len,
            _ => false,
        };
        if done {
            self.state = Ok(State::Terminated);
        }
        assert(self@ == finish(post));
        proof { self.lemma_curr_accounted(); }
        copy_result(&self.state)
    }
}

impl InstStateMachine {
    /// Takes the arguments of a pending host call off the stack, the first argument
    /// first, and records them; `None` when no call is pending.
    pub fn retrieve_fn_input(&mut self) -> (r: Result<Option<(String, Vec<usize>)>, ExecutionError>)
        requires
            old(self).wf(),
        ensures
            final(self).wf(),
            final(self)@ == retrieve_spec(old(self)@),
            final(self).memory.max == old(self).memory.max,
            match old(self)@.state {
                Ok(StateView::FnExternInput(name, b)) => match pop_gets(old(self)@, b as nat) {
                    Ok((ps, _)) => r is Ok && r->Ok_0 is Some && (r->Ok_0->0).0@ == name && (r->Ok_0->0).1@ == ps,
                    Err((e, _)) => r == Err::<Option<(String, Vec<usize>)>, ExecutionError>(e),
                },
                _ => r == Ok::<Option<(String, Vec<usize>)>, ExecutionError>(None),
            },
            r is Ok && r->Ok_0 is Some ==> all_live(final(self).memory@, (r->Ok_0->0).1@),
    {
        let (name, b) = match &self.state {
            Ok(State::FnExternInput(name, b)) => (name.clone(), *b),
            _ => return Ok(None),
        };
        let ghost m0 = self@;
        let mut vals: Vec<usize> = Vec::new();
        let mut i: usize = 0;
        while i < b
            invariant
                self.wf(),
                i <= b,
                m0 == old(self)@,
                m0.state == Ok::<StateView, ExecutionError>(StateView::FnExternInput(name@, b)),
                self@.state == m0.state,
                self@.frames == m0.frames,
                self.memory.max == old(self).memory.max,
                pop_gets(m0, b as nat) == prepend_ptrs(vals@, pop_gets(self@, (b - i) as nat)),
                all_live(self.memory@, vals@),
            decreases b - i,
        {
            let ghost cur = self@;
            let ghost k = (b - i) as nat;
            proof {
                assert(pop_gets(cur, k) == match top_get(cur) {
                    Err(f) => Err(f),
                    Ok((p, m1)) => match pop_gets(m1, (k - 1) as nat) {
                        Err(f) => Err(f),
                        Ok((ps, m2)) => Ok((seq![p] + ps, m2)),
                    },
                });
            }
            match self.pop_get() {
                Ok(p) => {
                    let ghost before = vals@;
                    vals.push(p);
                    proof {
                        match pop_gets(self@, (k - 1) as nat) {
                            Ok((ps, m2)) => {
                                assert(before + (seq![p] + ps) =~= vals@ + ps);
                            },
                            Err(_) => {},
                        }
                        assert forall|t: int| 0 <= t < vals@.len() implies points_live(self.memory@, #[trigger] vals@[t]) by {
                            if t < before.len() {
                                assert(vals@[t] == before[t]);
                            }
                        }
                    }
                },
                Err(e) => {
                    self.state = Err(e.duplicate());
                    return Err(e);
                },
            }
            i = i + 1;
        }
        proof {
            assert(vals@ + Seq::<usize>::empty() =~= vals@);
        }
        let out = crate::mem::copy_ptrs(&vals);
        self.state = Ok(State::FnExternOutput(name.clone(), vals));
        Ok(Some((name, out)))
    }

    /// Hands the result of a host call to the machine. A recoverable timeout puts
    /// the call back so that it runs again once more budget is granted. Returns
    /// whether a call was waiting for its result.
    pub fn push_fn_output(&mut self, result: Result<usize, ExecutionError>) -> (r: bool)
        requires
            old(self).wf(),
            result is Ok ==> points_live(old(self).memory@, result->Ok_0),
        ensures
            final(self).wf(),
            final(self).memory.curr <= accounted(final(self)@),
            realizes(final(self)@, final(self).memory.curr, final(self).memory.max, fn_output_spec(old(self)@, result)),
            r == (old(self)@.state matches Ok(StateView::FnExternOutput(_, _))),
            final(self).memory.max == old(self).memory.max,
    {
        let (name, vals) = match &self.state {
            Ok(State::FnExternOutput(name, vals)) => (name.clone(), crate::mem::copy_ptrs(vals)),
            _ => {
                proof { self.lemma_curr_accounted(); }
                return false;
            },
        };
        let ghost m = self@;
        match result {
            Ok(p) => {
                let item = StackItem::Value(p);
                assert(item_ptrs(item)[0] == p);
                match self.push_checked(item) {
                    Ok(()) => {
                        self.state = Ok(State::Ready);
                    },
                    Err(e) => {
                        self.state = Err(e);
                    },
                }
            },
            Err(ExecutionError::Recoverable(crate::error::RecoverableError::TimeoutError(amount))) => {
                self.replay_call(name, vals, amount);
            },
            Err(e) => {
                self.state = Err(e);
            },
        }
        proof { self.lemma_curr_accounted(); }
        true
    }

    /// Puts a host call that ran out of budget back: arguments, count and function
    /// go back on the stack and the innermost frame steps back onto the call.
    fn replay_call(&mut self, name: String, vals: Vec<usize>, amount: u64)
        requires
            old(self).wf(),
            old(self)@.state == Ok::<StateView, ExecutionError>(StateView::FnExternOutput(name@, vals@)),
        ensures
            final(self).wf(),
            realizes(final(self)@, final(self).memory.curr, final(self).memory.max, replay_spec(old(self)@, name@, vals@, amount)),
            final(self).memory.max == old(self).memory.max,
    {
        let ghost m = self@;
        let k = vals.len();
        let count = Value::Int(k as i64);
        let func = Value::FnPtrExternal(name, k);
        let cs = count.get_size();
        let fs = func.get_size();
        let need: Option<usize> = match k.checked_mul(SLOT) {
            Some(a) => match a.checked_add(cs + SLOT) {
                Some(b) => match b.checked_add(fs) {
                    Some(c) => c.checked_add(SLOT),
                    None => None,
                },
                None => None,
            },
            None => None,
        };
        let need = match need {
            Some(n) => n,
            None => {
                self.state = Err(ExecutionError::NonRecoverable(NonRecoverableError::MemoryError));
                return;
            },
        };
        proof {
            assert forall|t: int| 0 <= t < vals@.len() implies points_live(self.memory@, #[trigger] vals@[t]) by {
                assert(crate::exec::state_ptrs(self@.state)[t] == vals@[t]);
            }
        }
        if !self.reserve(need, &vals) {
            self.state = Err(ExecutionError::NonRecoverable(NonRecoverableError::MemoryError));
            return;
        }
        self.state = Err(ExecutionError::Recoverable(crate::error::RecoverableError::TimeoutError(amount)));
        let ghost m1 = self@;
        let ghost base = self.memory.curr;
        let mut j: usize = 0;
        while j < k
            invariant
                self.wf(),
                j <= k,
                k == vals@.len(),
                !halted(self@.state),
                all_live(self.memory@, vals@),
                self@ == (MachineView { stack: m1.stack + restored(vals@).take(j as int), ..m1 }),
                self.memory.curr == base + j * SLOT,
                base + need <= self.memory.max,
                need == k * SLOT + cs + SLOT + fs + SLOT,
                self.memory.max == old(self).memory.max,
            decreases k - j,
        {
            let p = vals[k - 1 - j];
            let item = StackItem::Value(p);
            proof {
                assert(item_ptrs(item)[0] == p);
                assert(points_live(self.memory@, vals@[k - 1 - j]));
                assert(j * SLOT + SLOT <= k * SLOT) by (nonlinear_arith)
                    requires j < k;
            }
            self.push_item(item);
            proof {
                assert(restored(vals@).take(j as int + 1) =~= restored(vals@).take(j as int).push(item));
                assert(self@.stack =~= m1.stack + restored(vals@).take(j as int + 1));
            }
            j = j + 1;
        }
        proof {
            assert(restored(vals@).take(k as int) =~= restored(vals@));
            assert(k * SLOT == j * SLOT);
        }
        let ghost h = self@.heap.len();
        self.alloc_push_fitting(count);
        self.alloc_push_fitting(func);
        let n = self.fn_stack_frame.len();
        let ptr = self.fn_stack_frame[n - 1].ptr;
        self.set_top_ptr(ptr - 1);
        proof {
            assert(self@.stack =~= m.stack + restored(vals@) + seq![StackItem::Value(h as usize), StackItem::Value((h + 1) as usize)]);
        }
    }

    /// Hands the host's floating-point result to the machine. An operator failure
    /// of `==` or `!=` counts as unequal. Returns whether a result was awaited.
    pub fn push_float_result(&mut self, reply: Result<crate::ops::Scalar, crate::error::TypeConversionError>) -> (r: bool)
        requires
            old(self).wf(),
        ensures
            final(self).wf(),
            final(self).memory.curr <= accounted(final(self)@),
            realizes(final(self)@, final(self).memory.curr, final(self).memory.max, float_reply_spec(old(self)@, reply)),
            r == (old(self)@.state matches Ok(StateView::FloatInput(_))),
            final(self).memory.max == old(self).memory.max,
    {
        let req = match &self.state {
            Ok(State::FloatInput(req)) => crate::exec::copy_request(req),
            _ => {
                proof { self.lemma_curr_accounted(); }
                return false;
            },
        };
        self.state = Ok(State::Ready);
        let res = match reply {
            Ok(s) => self.push_new(s.to_value()),
            Err(e) => match req {
                FloatRequest::Binary(BinOp::Eq, _, _) => self.push_new(Value::Bool(false)),
                FloatRequest::Binary(BinOp::Ne, _, _) => self.push_new(Value::Bool(true)),
                _ => Err(ExecutionError::from(e)),
            },
        };
        match res {
            Ok(()) => {},
            Err(e) => {
                self.state = Err(e);
            },
        }
        let ghost post = self@;
        let len = usize_as_u64(self.instructions.len());
        let m = self.fn_stack_frame.len();
        let done = match &self.state {
            Ok(State::Ready) => m > 0 && self.fn_stack_frame[m - 1].ptr == len,
            _ => false,
        };
        if done {
            self.state = Ok(State::Terminated);
        }
        assert(self@ == finish(post));
        proof { self.lemma_curr_accounted(); }
        true
    }

    /// Appends `code` to the program. A terminated run resumes when there is
    /// new code to run; the result tells whether it did.
    pub fn load(&mut self, code: Vec<Instruction>) -> (resumed: bool)
        requires
            old(self).wf(),
        ensures
            final(self).wf(),
            resumed <==> (old(self)@.state == Ok::<StateView, ExecutionError>(StateView::Terminated) && code@.len() > 0),
            final(self)@ == (MachineView {
                instructions: old(self)@.instructions + code@,
                state: if resumed { Ok(StateView::Ready) } else { old(self)@.state },
                ..old(self)@
            }),
            final(self).memory == old(self).memory,
    {
        let resumed = match &self.state {
            Ok(State::Terminated) => code.len() > 0,
            _ => false,
        };
        let mut code = code;
        self.instructions.append(&mut code);
        if resumed {
            self.state = Ok(State::Ready);
        }
        resumed
    }

    /// Ends the run where it stands: nothing more runs until code is loaded.
    pub fn mark_terminated(&mut self)
        requires
            old(self).wf(),
            !halted(old(self)@.state),
        ensures
            final(self).wf(),
            final(self)@ == (MachineView { state: Ok(StateView::Terminated), ..old(self)@ }),
            final(self).memory == old(self).memory,
    {
        self.state = Ok(State::Terminated);
    }

    /// Grants `additional` instructions of budget; a timeout clears so that the run can resume.
    pub fn grant_lim(&mut self, additional: u64)
        requires
            old(self).wf(),
        ensures
            final(self).wf(),
            final(self)@ == (MachineView {
                lim: old(self).lim.saturating_add(additional),
                state: crate::step::granted_state(old(self)@.state),
                ..old(self)@
            }),
            final(self).memory == old(self).memory,
    {
        self.lim = self.lim.saturating_add(additional);
        let clear = match &self.state {
            Ok(State::Timeout(_)) => true,
            Err(ExecutionError::Recoverable(crate::error::RecoverableError::TimeoutError(_))) => true,
            _ => false,
        };
        if clear {
            self.state = Ok(State::Ready);
        }
    }

    /// Whether `size` instructions of budget are left.
    pub fn check_use(&self, size: u64) -> (r: bool)
        ensures
            r == (size <= self.lim),
    {
        size <= self.lim
    }

    /// `Ok` when `size` instructions of budget are left, a timeout asking for `size` otherwise.
    pub fn check_use_err(&self, size: u64) -> (r: Result<(), crate::error::RecoverableError>)
        ensures
            r == (if size <= self.lim {
                Ok::<(), crate::error::RecoverableError>(())
            } else {
                Err(crate::error::RecoverableError::TimeoutError(size))
            }),
    {
        if self.check_use(size) {
            return Ok(());
        }
        Err(crate::error::RecoverableError::TimeoutError(size))
    }

    /// Spends `size` instructions of budget when they are left.
    pub fn reduce_lim(&mut self, size: u64) -> (r: Result<(), crate::error::RecoverableError>)
        requires
            old(self).wf(),
        ensures
            final(self).wf(),
            r == old(self).check_use_err_spec(size),
            final(self)@ == (MachineView { lim: if r is Ok { (old(self).lim - size) as u64 } else { old(self).lim }, ..old(self)@ }),
            final(self).memory == old(self).memory,
    {
        match self.check_use_err(size) {
            Ok(()) => {
                self.lim = self.lim - size;
                Ok(())
            },
            Err(e) => Err(e),
        }
    }

    /// `Ok` when `size` instructions of budget are left, a timeout asking for `size` otherwise.
    pub open spec fn check_use_err_spec(&self, size: u64) -> Result<(), crate::error::RecoverableError> {
        if size <= self.lim {
            Ok(())
        } else {
            Err(crate::error::RecoverableError::TimeoutError(size))
        }
    }
}

} // verus!
