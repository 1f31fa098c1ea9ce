//! An execution instance: the instruction machine with the host functions it
//! may call, and the basic host functions on lists and strings.
use vstd::prelude::*;
use crate::error::{ExecutionError, MemoryError, NonRecoverableError, TypeConversionError, memory_exhausted};
use crate::exec::{
    FnStackFrame, InstStateMachine, MachineView, State, StateView, halted, keeps_live, lemma_keeps_live, result_view,
    copy_result, value_ok, accounted,
};
use crate::instructions::Instruction;
use crate::mapping::{Mapping, entry_of, entries_view};
use crate::mem::{GetSize, MemoryAllocation, Value, ValueView, all_live, points_live, value_children, value_size};
use crate::ops::{FloatRequest, Scalar};
use crate::step::{
    lookup, realizes, run_once_spec, run_once_result, in_loop, loop_measure, lemma_run_once_progress, retrieve_spec,
    fn_output_spec, float_reply_spec, fn_underflow, runnable, pop_gets,
};

verus! {

/// A function the host provides to sandboxed code.
pub trait FnExtern {
    /// What one call does, as far as the implementation states it: from machine
    /// `pre` with arguments `values` it leaves machine `post`, with memory use
    /// `curr` under `max`, and returns `r`. An implementation that states
    /// nothing more than the contract of `fn_extern_sync` keeps this `true`.
    open spec fn call_spec(
        &self,
        pre: MachineView,
        values: Seq<usize>,
        post: MachineView,
        r: Result<usize, ExecutionError>,
        curr: usize,
        max: usize,
    ) -> bool {
        true
    }

    /// The number of arguments it takes.
    fn get_size(&self) -> usize;

    /// Runs the function on its arguments, the first argument first, and returns
    /// a pointer to its result. It keeps the machine well-formed, returns a live
    /// pointer, and neither changes the run state nor grants budget.
    fn fn_extern_sync(&self, machine: &mut InstStateMachine, values: Vec<usize>) -> (r: Result<usize, ExecutionError>)
        requires
            old(machine).wf(),
            !halted(old(machine)@.state),
            all_live(old(machine).memory@, values@),
        ensures
            final(machine).wf(),
            r is Ok ==> points_live(final(machine).memory@, r->Ok_0),
            final(machine)@.state == old(machine)@.state,
            final(machine).lim <= old(machine).lim,
            final(machine).memory.max == old(machine).memory.max,
            self.call_spec(old(machine)@, values@, final(machine)@, r, final(machine).memory.curr, final(machine).memory.max),
    ;
}

/// Builds a host function without arguments.
pub trait FnExternConstruct {
    fn new() -> Self where Self: Sized;
}

/// Floating-point arithmetic, done by the host.
pub trait FloatUnit {
    fn compute(&self, req: &FloatRequest) -> Result<Scalar, TypeConversionError>;
}

/// The first function named `name` in a list.
pub open spec fn first_in<F>(fs: Seq<(String, F)>, name: Seq<char>) -> Option<F>
    decreases fs.len(),
{
    if fs.len() == 0 {
        None
    } else if fs[0].0@ == name {
        Some(fs[0].1)
    } else {
        first_in(fs.drop_first(), name)
    }
}

/// The function that serves a call of `name`: the first one of that name in
/// the first resolver that has one.
pub open spec fn first_provider<F>(rs: Seq<MethodResolver<F>>, name: Seq<char>) -> Option<F>
    decreases rs.len(),
{
    if rs.len() == 0 {
        None
    } else {
        match first_in(rs[0].funcs@, name) {
            Some(f) => Some(f),
            None => first_provider(rs.drop_first(), name),
        }
    }
}

/// Host functions by name.
pub struct MethodResolver<F> {
    pub funcs: Vec<(String, F)>,
}

impl<F: FnExtern> MethodResolver<F> {
    pub fn new(funcs: Vec<(String, F)>) -> (r: Self)
        ensures
            r.funcs == funcs,
    {
        MethodResolver { funcs }
    }

    /// The first function named `name`.
    pub fn get(&self, name: &String) -> (r: Option<&F>)
        ensures
            r is None <==> forall|i: int| 0 <= i < self.funcs@.len() ==> self.funcs@[i].0@ != name@,
            r is Some ==> exists|i: int| 0 <= i < self.funcs@.len() && self.funcs@[i].0@ == name@ && *r->0 == self.funcs@[i].1
                && forall|j: int| 0 <= j < i ==> self.funcs@[j].0@ != name@,
            first_in(self.funcs@, name@) == (match r {
                Some(f) => Some(*f),
                None => None::<F>,
            }),
    {
        let mut i: usize = 0;
        proof {
            assert(self.funcs@.subrange(0, self.funcs@.len() as int) =~= self.funcs@);
        }
        while i < self.funcs.len()
            invariant
                i <= self.funcs@.len(),
                forall|j: int| 0 <= j < i ==> self.funcs@[j].0@ != name@,
                first_in(self.funcs@, name@) == first_in(self.funcs@.subrange(i as int, self.funcs@.len() as int), name@),
            decreases self.funcs@.len() - i,
        {
            proof {
                let t = self.funcs@.subrange(i as int, self.funcs@.len() as int);
                assert(t[0] == self.funcs@[i as int]);
                assert(t.drop_first() =~= self.funcs@.subrange(i as int + 1, self.funcs@.len() as int));
            }
            if self.funcs[i].0 == *name {
                return Some(&self.funcs[i].1);
            }
            i = i + 1;
        }
        None
    }

    /// The names of the functions with their argument counts.
    pub fn get_pair(&self) -> (r: Vec<(String, usize)>)
        ensures
            r@.len() == self.funcs@.len(),
            forall|i: int| 0 <= i < r@.len() ==> (#[trigger] r@[i]).0 == self.funcs@[i].0 && call_ensures(F::get_size, (&self.funcs@[i].1,), r@[i].1),
    {
        let mut r: Vec<(String, usize)> = Vec::new();
        let mut i: usize = 0;
        while i < self.funcs.len()
            invariant
                i <= self.funcs@.len(),
                r@.len() == i,
                forall|j: int| 0 <= j < i ==> (#[trigger] r@[j]).0 == self.funcs@[j].0 && call_ensures(F::get_size, (&self.funcs@[j].1,), r@[j].1),
            decreases self.funcs@.len() - i,
        {
            let n = self.funcs[i].0.clone();
            let k = self.funcs[i].1.get_size();
            r.push((n, k));
            i = i + 1;
        }
        r
    }
}

/// The basic host functions on lists and strings.
#[derive(Debug, Copy, Clone, PartialEq, Eq, Structural)]
pub enum StdFn {
    PushArray,
    PopArray,
    ArrGetFromIdx,
    CreateArray,
    ArrGetLen,
    Concat,
    CreateObj,
}

/// What a host function call does.
pub ghost enum CallEffect {
    /// It fails with this error and changes nothing.
    Fail(ExecutionError),
    /// It needs `need` more bytes; with them the heap becomes `heap` and it returns `result`.
    Returns { need: int, heap: Seq<ValueView>, result: usize },
}

/// `post` and `r` are an outcome of `e` on `m`, with memory use `curr` under `max`.
pub open spec fn realizes_call(
    m: MachineView,
    post: MachineView,
    r: Result<usize, ExecutionError>,
    curr: usize,
    max: usize,
    e: CallEffect,
) -> bool {
    match e {
        CallEffect::Fail(err) => r == Err::<usize, ExecutionError>(err) && post == m,
        CallEffect::Returns { need, heap, result } => (r == Ok::<usize, ExecutionError>(result) && post == (MachineView { heap, ..m }))
            || (r == Err::<usize, ExecutionError>(memory_exhausted()) && post == m && curr + need > max),
    }
}

pub open spec fn type_error() -> ExecutionError {
    ExecutionError::NonRecoverable(NonRecoverableError::InvalidTypeError)
}

pub open spec fn count_error() -> ExecutionError {
    ExecutionError::NonRecoverable(NonRecoverableError::IncorrectArgumentCountError)
}

pub open spec fn range_error() -> ExecutionError {
    ExecutionError::NonRecoverable(NonRecoverableError::IndexOutOfRangeError)
}

/// The argument count of a basic function.
pub open spec fn std_arity(f: StdFn) -> usize {
    match f {
        StdFn::PushArray => 2,
        StdFn::PopArray => 1,
        StdFn::ArrGetFromIdx => 2,
        StdFn::CreateArray => 0,
        StdFn::ArrGetLen => 1,
        StdFn::Concat => 2,
        StdFn::CreateObj => 0,
    }
}

/// Allocate `v` as the result.
pub open spec fn returns_new(heap: Seq<ValueView>, v: ValueView) -> CallEffect {
    CallEffect::Returns { need: value_size(v) as int, heap: heap.push(v), result: heap.len() as usize }
}

/// What basic function `f` does on arguments `args`.
pub open spec fn std_spec(f: StdFn, heap: Seq<ValueView>, args: Seq<usize>) -> CallEffect {
    if args.len() != std_arity(f) {
        CallEffect::Fail(count_error())
    } else {
        match f {
            StdFn::PushArray => match heap[args[0] as int] {
                ValueView::Collection(items) => {
                    let nv = ValueView::Collection(items.push(args[1]));
                    CallEffect::Returns {
                        need: value_size(nv) - value_size(heap[args[0] as int]) + value_size(ValueView::Nil),
                        heap: heap.update(args[0] as int, nv).push(ValueView::Nil),
                        result: heap.len() as usize,
                    }
                },
                _ => CallEffect::Fail(type_error()),
            },
            StdFn::PopArray => match heap[args[0] as int] {
                ValueView::Collection(items) => if items.len() == 0 {
                    CallEffect::Fail(range_error())
                } else {
                    let nv = ValueView::Collection(items.drop_last());
                    CallEffect::Returns {
                        need: value_size(nv) - value_size(heap[args[0] as int]),
                        heap: heap.update(args[0] as int, nv),
                        result: items.last(),
                    }
                },
                _ => CallEffect::Fail(type_error()),
            },
            StdFn::ArrGetFromIdx => match (heap[args[0] as int], heap[args[1] as int]) {
                (ValueView::Collection(items), ValueView::Int(i)) => if 0 <= i < items.len() {
                    CallEffect::Returns { need: 0, heap, result: items[i as int] }
                } else {
                    CallEffect::Fail(range_error())
                },
                _ => CallEffect::Fail(type_error()),
            },
            StdFn::CreateArray => returns_new(heap, ValueView::Collection(Seq::empty())),
            StdFn::ArrGetLen => match heap[args[0] as int] {
                ValueView::Collection(items) => returns_new(heap, ValueView::Int(items.len() as i64)),
                _ => CallEffect::Fail(type_error()),
            },
            StdFn::Concat => match (heap[args[0] as int], heap[args[1] as int]) {
                (ValueView::String(a), ValueView::String(b)) => returns_new(heap, ValueView::String(a + b)),
                _ => CallEffect::Fail(type_error()),
            },
            StdFn::CreateObj => returns_new(heap, ValueView::Object(Seq::empty())),
        }
    }
}

/// Pushing onto a list puts the value at its end and leaves the earlier
/// elements where they were: reading index `i` afterwards gives the element that
/// was `i`-th before, and reading the old length gives the pushed value.
pub proof fn law_push_then_get(heap: Seq<ValueView>, arr: usize, x: usize, ip: usize, i: i64)
    requires
        arr < heap.len(),
        heap[arr as int] is Collection,
        ip < heap.len(),
        ip != arr,
        heap[ip as int] == ValueView::Int(i),
        0 <= i <= heap[arr as int]->Collection_0.len(),
    ensures
        std_spec(StdFn::PushArray, heap, seq![arr, x]) matches CallEffect::Returns { heap: h1, .. }
            && std_spec(StdFn::ArrGetFromIdx, h1, seq![arr, ip]) == (CallEffect::Returns {
                need: 0,
                heap: h1,
                result: if i == heap[arr as int]->Collection_0.len() { x } else { heap[arr as int]->Collection_0[i as int] },
            }),
{
    let items = heap[arr as int]->Collection_0;
    let h1 = heap.update(arr as int, ValueView::Collection(items.push(x))).push(ValueView::Nil);
    assert(seq![arr, x][0] == arr && seq![arr, x][1] == x);
    assert(h1[arr as int] == ValueView::Collection(items.push(x)));
    assert(h1[ip as int] == ValueView::Int(i));
    assert(seq![arr, ip][0] == arr && seq![arr, ip][1] == ip);
}

/// Pushing onto a list and popping again gives the pushed value back and the
/// list as it was.
pub proof fn law_push_then_pop(heap: Seq<ValueView>, arr: usize, x: usize)
    requires
        arr < heap.len(),
        heap[arr as int] is Collection,
    ensures
        std_spec(StdFn::PushArray, heap, seq![arr, x]) matches CallEffect::Returns { heap: h1, .. }
            && std_spec(StdFn::PopArray, h1, seq![arr]) matches CallEffect::Returns { heap: h2, result, .. }
            && result == x && h2[arr as int] == heap[arr as int],
{
    let items = heap[arr as int]->Collection_0;
    assert(seq![arr, x][0] == arr && seq![arr, x][1] == x);
    assert(seq![arr][0] == arr);
    assert(items.push(x).drop_last() =~= items);
}

/// The length of a list counts its pushes: after a push it is one more.
pub proof fn law_push_then_len(heap: Seq<ValueView>, arr: usize, x: usize)
    requires
        arr < heap.len(),
        heap[arr as int] is Collection,
        heap[arr as int]->Collection_0.len() < i64::MAX,
        heap.len() + 1 < usize::MAX,
    ensures
        std_spec(StdFn::PushArray, heap, seq![arr, x]) matches CallEffect::Returns { heap: h1, .. }
            && std_spec(StdFn::ArrGetLen, h1, seq![arr]) matches CallEffect::Returns { heap: h2, result, .. }
            && h2[result as int] == ValueView::Int((heap[arr as int]->Collection_0.len() + 1) as i64),
{
    let items = heap[arr as int]->Collection_0;
    let h1 = heap.update(arr as int, ValueView::Collection(items.push(x))).push(ValueView::Nil);
    assert(seq![arr, x][0] == arr && seq![arr, x][1] == x);
    assert(seq![arr][0] == arr);
    assert(h1[arr as int] == ValueView::Collection(items.push(x)));
    assert(h1.push(ValueView::Int((items.len() + 1) as i64))[h1.len() as int] == ValueView::Int((items.len() + 1) as i64));
}

/// `concat(a, b)` gives a new string: the first one followed by the second.
pub proof fn law_concat(heap: Seq<ValueView>, pa: usize, pb: usize)
    requires
        pa < heap.len(),
        pb < heap.len(),
        heap[pa as int] is String,
        heap[pb as int] is String,
        heap.len() < usize::MAX,
    ensures
        std_spec(StdFn::Concat, heap, seq![pa, pb]) matches CallEffect::Returns { heap: h, result, .. }
            && h[result as int] matches ValueView::String(r)
            && r.len() == heap[pa as int]->String_0.len() + heap[pb as int]->String_0.len()
            && r.subrange(0, heap[pa as int]->String_0.len() as int) == heap[pa as int]->String_0
            && r.subrange(heap[pa as int]->String_0.len() as int, r.len() as int) == heap[pb as int]->String_0,
{
    let (a, b) = (heap[pa as int]->String_0, heap[pb as int]->String_0);
    assert(seq![pa, pb][0] == pa && seq![pa, pb][1] == pb);
    let r = a + b;
    assert(heap.push(ValueView::String(r))[heap.len() as int] == ValueView::String(r));
    assert(r.subrange(0, a.len() as int) =~= a);
    assert(r.subrange(a.len() as int, r.len() as int) =~= b);
}

/// Runs basic function `f` on the machine.
pub fn std_call(f: StdFn, machine: &mut InstStateMachine, values: Vec<usize>) -> (r: Result<usize, ExecutionError>)
    requires
        old(machine).wf(),
        !halted(old(machine)@.state),
        all_live(old(machine).memory@, values@),
    ensures
        final(machine).wf(),
        realizes_call(old(machine)@, final(machine)@, r, final(machine).memory.curr, final(machine).memory.max,
            std_spec(f, old(machine)@.heap, values@)),
        r is Ok ==> points_live(final(machine).memory@, r->Ok_0),
        final(machine).memory.max == old(machine).memory.max,
{
    if values.len() != std_arity_exec(f) {
        return Err(ExecutionError::NonRecoverable(NonRecoverableError::IncorrectArgumentCountError));
    }
    let ghost m = machine@;
    match f {
        StdFn::PushArray => {
            let arr = values[0];
            let item = values[1];
            proof {
                assert(points_live(machine.memory@, values@[0]));
                assert(points_live(machine.memory@, values@[1]));
            }
            let items = match machine.memory.get(arr) {
                Value::Collection(items) => crate::mem::copy_ptrs(items),
                _ => return Err(ExecutionError::NonRecoverable(NonRecoverableError::InvalidTypeError)),
            };
            let mut items2 = items;
            items2.push(item);
            let nv = Value::Collection(items2);
            let new_size = nv.get_size();
            let old_size = machine.memory.cells[arr].size;
            let nil_size = Value::Nil.get_size();
            assert(new_size >= old_size);
            let need = match (new_size - old_size).checked_add(nil_size) {
                Some(n) => n,
                None => return Err(ExecutionError::NonRecoverable(NonRecoverableError::MemoryError)),
            };
            let extra = vec![arr, item];
            assert(extra@[0] == arr && extra@[1] == item);
            if !machine.reserve(need, &extra) {
                return Err(ExecutionError::NonRecoverable(NonRecoverableError::MemoryError));
            }
            proof {
                assert(points_live(machine.memory@, extra@[0]));
                assert(points_live(machine.memory@, extra@[1]));
                assert forall|k: int| 0 <= k < value_children(nv@).len() implies points_live(machine.memory@, #[trigger] value_children(nv@)[k]) by {
                    if k < value_children(nv@).len() - 1 {
                        assert(value_children(nv@)[k] == value_children(machine.memory@[arr as int].value)[k]);
                    }
                }
            }
            machine.replace_value_fitting(arr, nv);
            let p = machine.alloc_value_fitting(Value::Nil);
            Ok(p)
        },
        StdFn::PopArray => {
            let arr = values[0];
            proof {
                assert(points_live(machine.memory@, values@[0]));
            }
            let items = match machine.memory.get(arr) {
                Value::Collection(items) => crate::mem::copy_ptrs(items),
                _ => return Err(ExecutionError::NonRecoverable(NonRecoverableError::InvalidTypeError)),
            };
            let mut items2 = items;
            let last = match items2.pop() {
                Some(x) => x,
                None => return Err(ExecutionError::NonRecoverable(NonRecoverableError::IndexOutOfRangeError)),
            };
            proof {
                assert(items2@ =~= m.heap[arr as int]->Collection_0.drop_last());
                let n = m.heap[arr as int]->Collection_0.len();
                assert(value_children(machine.memory@[arr as int].value)[n - 1] == last);
                assert(points_live(machine.memory@, last));
            }
            let nv = Value::Collection(items2);
            proof {
                assert forall|k: int| 0 <= k < value_children(nv@).len() implies points_live(machine.memory@, #[trigger] value_children(nv@)[k]) by {
                    assert(value_children(nv@)[k] == value_children(machine.memory@[arr as int].value)[k]);
                }
            }
            let ghost pre = machine.memory@;
            machine.replace_value_fitting(arr, nv);
            proof {
                assert(pre[last as int].live);
            }
            Ok(last)
        },
        StdFn::ArrGetFromIdx => {
            let arr = values[0];
            let idx = values[1];
            proof {
                assert(points_live(machine.memory@, values@[0]));
                assert(points_live(machine.memory@, values@[1]));
            }
            let i = match machine.memory.get(idx) {
                Value::Int(i) => *i,
                _ => {
                    return match machine.memory.get(arr) {
                        _ => Err(ExecutionError::NonRecoverable(NonRecoverableError::InvalidTypeError)),
                    };
                },
            };
            match machine.memory.get(arr) {
                Value::Collection(items) => {
                    if 0 <= i && (i as u64) < (items.len() as u64) {
                        let k = i as usize;
                        proof {
                            assert(value_children(machine.memory@[arr as int].value)[k as int] == items@[k as int]);
                        }
                        Ok(items[k])
                    } else {
                        Err(ExecutionError::NonRecoverable(NonRecoverableError::IndexOutOfRangeError))
                    }
                },
                _ => Err(ExecutionError::NonRecoverable(NonRecoverableError::InvalidTypeError)),
            }
        },
        StdFn::CreateArray => machine.new_result(Value::Collection(Vec::new())),
        StdFn::ArrGetLen => {
            let arr = values[0];
            proof {
                assert(points_live(machine.memory@, values@[0]));
            }
            let n = match machine.memory.get(arr) {
                Value::Collection(items) => items.len(),
                _ => return Err(ExecutionError::NonRecoverable(NonRecoverableError::InvalidTypeError)),
            };
            machine.new_result(Value::Int(n as i64))
        },
        StdFn::Concat => {
            let a = values[0];
            let b = values[1];
            proof {
                assert(points_live(machine.memory@, values@[0]));
                assert(points_live(machine.memory@, values@[1]));
            }
            let sa = match machine.memory.get(a) {
                Value::String(s) => s.clone(),
                _ => return Err(ExecutionError::NonRecoverable(NonRecoverableError::InvalidTypeError)),
            };
            let sb = match machine.memory.get(b) {
                Value::String(s) => s.clone(),
                _ => return Err(ExecutionError::NonRecoverable(NonRecoverableError::InvalidTypeError)),
            };
            let mut joined = sa;
            joined.append(sb.as_str());
            machine.new_result(Value::String(joined))
        },
        StdFn::CreateObj => {
            let mp = Mapping::new();
            proof {
                assert(entries_view(mp.entries@) =~= Seq::<(Seq<char>, usize)>::empty());
            }
            machine.new_result(Value::Object(mp))
        },
    }
}

/// The argument count of a basic function.
fn std_arity_exec(f: StdFn) -> (r: usize)
    ensures
        r == std_arity(f),
{
    match f {
        StdFn::PushArray => 2,
        StdFn::PopArray => 1,
        StdFn::ArrGetFromIdx => 2,
        StdFn::CreateArray => 0,
        StdFn::ArrGetLen => 1,
        StdFn::Concat => 2,
        StdFn::CreateObj => 0,
    }
}

impl InstStateMachine {
    /// Allocates the value `v`, which holds no pointers, as a call result.
    pub fn new_result(&mut self, v: Value) -> (r: Result<usize, ExecutionError>)
        requires
            old(self).wf(),
            !halted(old(self)@.state),
            value_children(v@).len() == 0,
            value_ok(v@),
        ensures
            final(self).wf(),
            realizes_call(old(self)@, final(self)@, r, final(self).memory.curr, final(self).memory.max,
                returns_new(old(self)@.heap, v@)),
            r is Ok ==> points_live(final(self).memory@, r->Ok_0),
            final(self).memory.max == old(self).memory.max,
    {
        let size = v.get_size();
        let none: Vec<usize> = Vec::new();
        if !self.reserve(size, &none) {
            return Err(ExecutionError::NonRecoverable(NonRecoverableError::MemoryError));
        }
        let p = self.alloc_value_fitting(v);
        Ok(p)
    }
}

impl FnExtern for StdFn {
    open spec fn call_spec(
        &self,
        pre: MachineView,
        values: Seq<usize>,
        post: MachineView,
        r: Result<usize, ExecutionError>,
        curr: usize,
        max: usize,
    ) -> bool {
        realizes_call(pre, post, r, curr, max, std_spec(*self, pre.heap, values))
    }

    fn get_size(&self) -> (r: usize)
        ensures
            r == std_arity(*self),
    {
        std_arity_exec(*self)
    }

    fn fn_extern_sync(&self, machine: &mut InstStateMachine, values: Vec<usize>) -> (r: Result<usize, ExecutionError>)
        ensures
            realizes_call(old(machine)@, final(machine)@, r, final(machine).memory.curr, final(machine).memory.max,
                std_spec(*self, old(machine)@.heap, values@)),
            final(machine).memory.max == old(machine).memory.max,
    {
        std_call(*self, machine, values)
    }
}

/// The basic host functions under their names.
pub fn basic() -> (r: MethodResolver<StdFn>)
    ensures
        r.funcs@.len() == 6,
        r.funcs@[0].0@ == "push_array"@ && r.funcs@[0].1 == StdFn::PushArray,
        r.funcs@[1].0@ == "pop_array"@ && r.funcs@[1].1 == StdFn::PopArray,
        r.funcs@[2].0@ == "arr_get_from_idx"@ && r.funcs@[2].1 == StdFn::ArrGetFromIdx,
        r.funcs@[3].0@ == "create_array"@ && r.funcs@[3].1 == StdFn::CreateArray,
        r.funcs@[4].0@ == "arr_get_len"@ && r.funcs@[4].1 == StdFn::ArrGetLen,
        r.funcs@[5].0@ == "concat"@ && r.funcs@[5].1 == StdFn::Concat,
{
    let mut funcs: Vec<(String, StdFn)> = Vec::new();
    funcs.push((String::from_str("push_array"), StdFn::PushArray));
    funcs.push((String::from_str("pop_array"), StdFn::PopArray));
    funcs.push((String::from_str("arr_get_from_idx"), StdFn::ArrGetFromIdx));
    funcs.push((String::from_str("create_array"), StdFn::CreateArray));
    funcs.push((String::from_str("arr_get_len"), StdFn::ArrGetLen));
    funcs.push((String::from_str("concat"), StdFn::Concat));
    MethodResolver { funcs }
}

/// `r` is what a run that left the machine as `m` reports: its run state, or
/// the frame-stack underflow of a runnable machine that has no frame left.
pub open spec fn reported(r: Result<StateView, ExecutionError>, m: MachineView) -> bool {
    r == m.state || (r == Err::<StateView, ExecutionError>(fn_underflow()) && m.frames.len() == 0 && runnable(m.state))
}

/// One step of the host protocol from `pre` to `post`, with memory limit `max`
/// and memory use within what the views account for (see `accounted`):
/// a ready machine runs its next instruction; when `serve` holds, a pending host
/// call is served by its first provider in `rs` with the arguments popped for
/// it, and a pending float computation takes some reply of the host.
pub open spec fn protocol_step<F: FnExtern>(
    rs: Seq<MethodResolver<F>>,
    serve: bool,
    pre: MachineView,
    post: MachineView,
    max: usize,
) -> bool {
    match pre.state {
        Ok(StateView::Ready) => exists|c: usize| c <= max && c <= accounted(post) && #[trigger] realizes(post, c, max, run_once_spec(pre)),
        Ok(StateView::FnExternInput(name, b)) => serve && match first_provider(rs, name) {
            None => false,
            Some(f) => match pop_gets(pre, b as nat) {
                Err(_) => post == retrieve_spec(pre),
                Ok((ps, _)) => exists|mid: MachineView, result: Result<usize, ExecutionError>, c1: usize, c2: usize|
                    #![trigger f.call_spec(retrieve_spec(pre), ps, mid, result, c1, max), realizes(post, c2, max, fn_output_spec(mid, result))]
                    c1 <= max && c2 <= max && c1 <= accounted(mid) && c2 <= accounted(post)
                    && f.call_spec(retrieve_spec(pre), ps, mid, result, c1, max)
                    && mid.state == retrieve_spec(pre).state
                    && mid.lim <= pre.lim
                    && realizes(post, c2, max, fn_output_spec(mid, result)),
            },
        },
        Ok(StateView::FloatInput(_)) => serve && exists|reply: Result<Scalar, TypeConversionError>, c: usize|
            c <= max && c <= accounted(post) && #[trigger] realizes(post, c, max, float_reply_spec(pre, reply)),
        _ => false,
    }
}

/// `trace` is a run of the host protocol: each view is reached from the one
/// before it by one step.
pub open spec fn is_run<F: FnExtern>(rs: Seq<MethodResolver<F>>, serve: bool, trace: Seq<MachineView>, max: usize) -> bool {
    &&& trace.len() > 0
    &&& forall|i: int| 0 <= i < trace.len() - 1 ==> #[trigger] protocol_step(rs, serve, trace[i], trace[i + 1], max)
}

/// `post` is reached from `pre` by steps of the host protocol.
pub open spec fn runs<F: FnExtern>(
    rs: Seq<MethodResolver<F>>,
    serve: bool,
    pre: MachineView,
    post: MachineView,
    max: usize,
) -> bool {
    exists|trace: Seq<MachineView>| #[trigger] is_run(rs, serve, trace, max) && trace[0] == pre && trace.last() == post
}

/// A run followed by one more step is a run.
pub proof fn lemma_run_extend<F: FnExtern>(rs: Seq<MethodResolver<F>>, serve: bool, trace: Seq<MachineView>, post: MachineView, max: usize)
    requires
        is_run(rs, serve, trace, max),
        protocol_step(rs, serve, trace.last(), post, max),
    ensures
        is_run(rs, serve, trace.push(post), max),
        trace.push(post)[0] == trace[0],
        trace.push(post).last() == post,
{
    let t = trace.push(post);
    assert forall|i: int| 0 <= i < t.len() - 1 implies #[trigger] protocol_step(rs, serve, t[i], t[i + 1], max) by {
        if i < trace.len() - 1 {
            assert(t[i] == trace[i] && t[i + 1] == trace[i + 1]);
        } else {
            assert(t[i] == trace.last() && t[i + 1] == post);
        }
    }
}

/// A value copied out of the machine, with its elements.
#[derive(Debug, PartialEq)]
pub enum OwnedValue {
    Int(i64),
    /// A float by its IEEE-754 binary64 bits.
    Float(u64),
    Bool(bool),
    String(String),
    Nil,
    Collection(Vec<OwnedValue>),
    Object(Vec<(String, OwnedValue)>),
    Error(ExecutionError),
    DPtr(u64, usize),
    FnPtrExternal(String, usize),
}

/// `v` is the value at `p` copied `depth` levels deep; deeper elements are `Nil`.
pub open spec fn mirrors(heap: Seq<ValueView>, p: usize, v: OwnedValue, depth: nat) -> bool
    decreases depth,
{
    match heap[p as int] {
        ValueView::Int(i) => v == OwnedValue::Int(i),
        ValueView::Float(f) => v == OwnedValue::Float(f),
        ValueView::Bool(b) => v == OwnedValue::Bool(b),
        ValueView::Nil => v == OwnedValue::Nil,
        ValueView::MemoryChunk(_) => v == OwnedValue::Nil,
        ValueView::String(s) => v matches OwnedValue::String(t) && t@ == s,
        ValueView::Error(e) => v == OwnedValue::Error(e),
        ValueView::DPtr(a, n) => v == OwnedValue::DPtr(a, n),
        ValueView::FnPtrExternal(s, n) => v matches OwnedValue::FnPtrExternal(t, k) && t@ == s && k == n,
        ValueView::Collection(items) => if depth == 0 {
            v == OwnedValue::Nil
        } else {
            &&& v matches OwnedValue::Collection(vs)
            &&& vs@.len() == items.len()
            &&& forall|k: int| 0 <= k < items.len() ==> mirrors(heap, items[k], #[trigger] vs@[k], (depth - 1) as nat)
        },
        ValueView::Object(es) => if depth == 0 {
            v == OwnedValue::Nil
        } else {
            &&& v matches OwnedValue::Object(vs)
            &&& vs@.len() == es.len()
            &&& forall|k: int| 0 <= k < es.len() ==> (#[trigger] vs@[k]).0@ == es[k].0 && mirrors(heap, es[k].1, vs@[k].1, (depth - 1) as nat)
        },
    }
}

impl InstStateMachine {
    /// The value at live cell `p`, copied `depth` levels deep.
    pub fn own(&self, p: usize, depth: usize) -> (r: OwnedValue)
        requires
            self.wf(),
            points_live(self.memory@, p),
        ensures
            mirrors(self@.heap, p, r, depth as nat),
        decreases depth,
    {
        match self.memory.get(p) {
            Value::Int(i) => OwnedValue::Int(*i),
            Value::Float(f) => OwnedValue::Float(*f),
            Value::Bool(b) => OwnedValue::Bool(*b),
            Value::Nil => OwnedValue::Nil,
            Value::MemoryChunk(_) => OwnedValue::Nil,
            Value::String(s) => OwnedValue::String(s.clone()),
            Value::Error(e) => OwnedValue::Error(e.duplicate()),
            Value::DPtr(a, n) => OwnedValue::DPtr(*a, *n),
            Value::FnPtrExternal(s, n) => OwnedValue::FnPtrExternal(s.clone(), *n),
            Value::Collection(items) => {
                if depth == 0 {
                    return OwnedValue::Nil;
                }
                let mut vs: Vec<OwnedValue> = Vec::new();
                let mut k: usize = 0;
                while k < items.len()
                    invariant
                        self.wf(),
                        points_live(self.memory@, p),
                        depth > 0,
                        self@.heap[p as int] == ValueView::Collection(items@),
                        k <= items@.len(),
                        vs@.len() == k,
                        forall|j: int| 0 <= j < k ==> mirrors(self@.heap, items@[j], #[trigger] vs@[j], (depth - 1) as nat),
                    decreases items@.len() - k,
                {
                    proof {
                        assert(value_children(self.memory@[p as int].value)[k as int] == items@[k as int]);
                    }
                    let v = self.own(items[k], depth - 1);
                    vs.push(v);
                    k = k + 1;
                }
                OwnedValue::Collection(vs)
            },
            Value::Object(m) => {
                if depth == 0 {
                    return OwnedValue::Nil;
                }
                let mut vs: Vec<(String, OwnedValue)> = Vec::new();
                let mut k: usize = 0;
                while k < m.entries.len()
                    invariant
                        self.wf(),
                        points_live(self.memory@, p),
                        depth > 0,
                        self@.heap[p as int] == ValueView::Object(entries_view(m.entries@)),
                        k <= m.entries@.len(),
                        vs@.len() == k,
                        forall|j: int| 0 <= j < k ==> (#[trigger] vs@[j]).0@ == entries_view(m.entries@)[j].0
                            && mirrors(self@.heap, entries_view(m.entries@)[j].1, vs@[j].1, (depth - 1) as nat),
                    decreases m.entries@.len() - k,
                {
                    proof {
                        assert(value_children(self.memory@[p as int].value)[k as int] == m.entries@[k as int].1);
                    }
                    let v = self.own(m.entries[k].1, depth - 1);
                    let n = m.entries[k].0.clone();
                    vs.push((n, v));
                    k = k + 1;
                }
                OwnedValue::Object(vs)
            },
        }
    }
}

/// An execution instance: the instruction machine and the host functions it may call.
pub struct Machine<F> {
    pub machine: InstStateMachine,
    pub resolvers: Vec<MethodResolver<F>>,
}

/// The names of the functions of a resolver, in order.
pub open spec fn fn_names<F>(fs: Seq<(String, F)>) -> Seq<Seq<char>> {
    fs.map_values(|p: (String, F)| p.0@)
}

/// The names of all functions of the resolvers, resolver after resolver.
pub open spec fn resolver_names<F>(rs: Seq<MethodResolver<F>>) -> Seq<Seq<char>>
    decreases rs.len(),
{
    if rs.len() == 0 {
        Seq::empty()
    } else {
        resolver_names(rs.drop_last()) + fn_names(rs.last().funcs@)
    }
}

/// The functions of a list with their names.
pub open spec fn fn_list<F>(fs: Seq<(String, F)>) -> Seq<(Seq<char>, F)> {
    fs.map_values(|p: (String, F)| (p.0@, p.1))
}

/// The functions of all resolvers with their names, resolver after resolver.
pub open spec fn resolver_fns<F>(rs: Seq<MethodResolver<F>>) -> Seq<(Seq<char>, F)>
    decreases rs.len(),
{
    if rs.len() == 0 {
        Seq::empty()
    } else {
        resolver_fns(rs.drop_last()) + fn_list(rs.last().funcs@)
    }
}

/// The last function named `name`.
pub open spec fn last_fn<F>(ps: Seq<(Seq<char>, F)>, name: Seq<char>) -> Option<F>
    decreases ps.len(),
{
    if ps.len() == 0 {
        None
    } else if ps.last().0 == name {
        Some(ps.last().1)
    } else {
        last_fn(ps.drop_last(), name)
    }
}

/// `v` is the value bound for `name` among the functions `ps`: a host function
/// of that name whose argument count is what the last function of that name
/// reports.
pub open spec fn binds_last<F: FnExtern>(ps: Seq<(Seq<char>, F)>, name: Seq<char>, v: ValueView) -> bool {
    &&& v matches ValueView::FnPtrExternal(n, k)
    &&& n == name
    &&& last_fn(ps, name) matches Some(f)
    &&& call_ensures(F::get_size, (&f,), k)
}

/// Bytes taken by one host-function value for each name.
pub open spec fn names_bytes(ns: Seq<Seq<char>>) -> int
    decreases ns.len(),
{
    if ns.len() == 0 {
        0
    } else {
        names_bytes(ns.drop_last()) + value_size(ValueView::FnPtrExternal(ns.last(), 0))
    }
}

/// The names bound among the variables of a frame.
pub open spec fn bound_names(vars: Seq<(Seq<char>, usize)>) -> Set<Seq<char>> {
    Set::new(|k: Seq<char>| exists|j: int| 0 <= j < vars.len() && vars[j].0 == k)
}

proof fn lemma_names_bytes_concat(a: Seq<Seq<char>>, b: Seq<Seq<char>>)
    ensures
        names_bytes(a + b) == names_bytes(a) + names_bytes(b),
        names_bytes(b) >= 0,
    decreases b.len(),
{
    if b.len() == 0 {
        assert(a + b =~= a);
    } else {
        lemma_names_bytes_concat(a, b.drop_last());
        assert((a + b).drop_last() =~= a + b.drop_last());
    }
}

proof fn lemma_resolver_names_split<F>(rs: Seq<MethodResolver<F>>, n: int)
    requires
        0 <= n <= rs.len(),
    ensures
        resolver_names(rs) == resolver_names(rs.subrange(0, n)) + resolver_names(rs.subrange(n, rs.len() as int)),
    decreases rs.len() - n,
{
    if n == rs.len() {
        assert(rs.subrange(0, n) =~= rs);
        assert(rs.subrange(n, rs.len() as int) =~= Seq::<MethodResolver<F>>::empty());
        assert(resolver_names(rs) + Seq::<Seq<char>>::empty() =~= resolver_names(rs));
    } else {
        lemma_resolver_names_split(rs, n + 1);
        let a = rs.subrange(0, n + 1);
        assert(a.drop_last() =~= rs.subrange(0, n));
        let b = rs.subrange(n, rs.len() as int);
        let c = rs.subrange(n + 1, rs.len() as int);
        lemma_resolver_names_prepend(b);
        assert(b.drop_first() =~= c);
        assert(resolver_names(rs.subrange(0, n)) + fn_names(rs[n].funcs@) + resolver_names(c)
            =~= resolver_names(rs.subrange(0, n)) + (fn_names(rs[n].funcs@) + resolver_names(c)));
    }
}

proof fn lemma_resolver_names_prepend<F>(rs: Seq<MethodResolver<F>>)
    requires
        rs.len() > 0,
    ensures
        resolver_names(rs) == fn_names(rs[0].funcs@) + resolver_names(rs.drop_first()),
    decreases rs.len(),
{
    if rs.len() == 1 {
        assert(rs.drop_last() =~= Seq::<MethodResolver<F>>::empty());
        assert(rs.drop_first() =~= Seq::<MethodResolver<F>>::empty());
        assert(Seq::<Seq<char>>::empty() + fn_names(rs[0].funcs@) =~= fn_names(rs[0].funcs@) + Seq::<Seq<char>>::empty());
    } else {
        lemma_resolver_names_prepend(rs.drop_last());
        assert(rs.drop_last().drop_first() =~= rs.drop_first().drop_last());
        assert(rs.drop_first().last() == rs.last());
        assert(rs.drop_last()[0] == rs[0]);
        assert(fn_names(rs[0].funcs@) + resolver_names(rs.drop_first().drop_last()) + fn_names(rs.last().funcs@)
            =~= fn_names(rs[0].funcs@) + (resolver_names(rs.drop_first().drop_last()) + fn_names(rs.last().funcs@)));
    }
}

impl<F: FnExtern> Machine<F> {
    /// A machine that runs `instructions` within `memory_lim` virtual bytes and
    /// `inst_limit` instructions; every host function of `resolvers` is bound by
    /// its name in the outermost frame (a later function of the same name wins).
    /// Fails exactly when the values of those bindings do not fit.
    pub fn new(instructions: Vec<Instruction>, memory_lim: usize, inst_limit: u64, resolvers: Vec<MethodResolver<F>>) -> (r: Result<Self, MemoryError>)
        ensures
            r is Err <==> names_bytes(resolver_names(resolvers@)) > memory_lim,
            r matches Ok(m) ==> {
                &&& m.machine.wf()
                &&& m.machine@.lim == inst_limit
                &&& m.machine@.instructions == instructions@
                &&& m.machine@.state == Ok::<StateView, ExecutionError>(StateView::Ready)
                &&& m.machine@.stack.len() == 0
                &&& m.machine@.frames.len() == 1
                &&& m.machine@.frames[0].ptr == 0
                &&& m.machine.memory.max == memory_lim
                &&& m.machine.memory.curr == names_bytes(resolver_names(resolvers@))
                &&& m.resolvers == resolvers
                &&& bound_names(m.machine@.frames[0].vars) == resolver_names(resolvers@).to_set()
                &&& forall|j: int| 0 <= j < m.machine@.frames[0].vars.len() ==>
                    binds_last(resolver_fns(resolvers@), m.machine@.frames[0].vars[j].0,
                        #[trigger] m.machine@.heap[m.machine@.frames[0].vars[j].1 as int])
            },
    {
        let mut memory = MemoryAllocation::new(memory_lim);
        let mut mapping = Mapping::new();
        let ghost total = resolver_names(resolvers@);
        let mut ri: usize = 0;
        proof {
            assert(resolvers@.subrange(0, 0) =~= Seq::<MethodResolver<F>>::empty());
            assert(mapping.view_map().dom() =~= Seq::<Seq<char>>::empty().to_set());
        }
        while ri < resolvers.len()
            invariant
                memory.wf(),
                memory.charged == 0,
                memory.max == memory_lim,
                mapping.wf(),
                ri <= resolvers@.len(),
                total == resolver_names(resolvers@),
                memory.curr == names_bytes(resolver_names(resolvers@.subrange(0, ri as int))),
                mapping.view_map().dom() == resolver_names(resolvers@.subrange(0, ri as int)).to_set(),
                forall|i: int| 0 <= i < memory@.len() && (#[trigger] memory@[i]).live ==> memory@[i].size == value_size(memory@[i].value),
                forall|i: int| 0 <= i < memory@.len() ==> (#[trigger] memory@[i].value) matches ValueView::FnPtrExternal(_, _),
                forall|j: int| 0 <= j < mapping.entries@.len() ==> points_live(memory@, #[trigger] mapping.entries@[j].1)
                    && binds_last(resolver_fns(resolvers@.subrange(0, ri as int)), mapping.entries@[j].0@,
                        memory@[mapping.entries@[j].1 as int].value),
            decreases resolvers@.len() - ri,
        {
            let pairs = resolvers[ri].get_pair();
            let ghost done = resolver_names(resolvers@.subrange(0, ri as int));
            let ghost names = fn_names(resolvers@[ri as int].funcs@);
            let ghost ars = fn_list(resolvers@[ri as int].funcs@);
            let ghost dar = resolver_fns(resolvers@.subrange(0, ri as int));
            proof {
                let next = resolvers@.subrange(0, ri as int + 1);
                assert(next.drop_last() =~= resolvers@.subrange(0, ri as int));
                assert(resolver_names(next) == done + names);
                lemma_names_bytes_concat(done, names);
                let rest = resolvers@.subrange(ri as int + 1, resolvers@.len() as int);
                lemma_resolver_names_split(resolvers@, ri as int + 1);
                lemma_names_bytes_concat(done + names, resolver_names(rest));
                assert(done + names.subrange(0, 0) =~= done);
            }
            let mut k: usize = 0;
            while k < pairs.len()
                invariant
                    memory.wf(),
                    memory.charged == 0,
                    memory.max == memory_lim,
                    mapping.wf(),
                    ri < resolvers@.len(),
                    k <= pairs@.len(),
                    pairs@.len() == names.len(),
                    forall|i: int| 0 <= i < pairs@.len() ==> (#[trigger] pairs@[i]).0@ == names[i] && call_ensures(F::get_size, (&ars[i].1,), pairs@[i].1),
                    names == fn_names(resolvers@[ri as int].funcs@),
                    ars == fn_list(resolvers@[ri as int].funcs@),
                    dar == resolver_fns(resolvers@.subrange(0, ri as int)),
                    done == resolver_names(resolvers@.subrange(0, ri as int)),
                    total == resolver_names(resolvers@),
                    names_bytes(total) >= names_bytes(done + names),
                    memory.curr == names_bytes(done + names.subrange(0, k as int)),
                    mapping.view_map().dom() == (done + names.subrange(0, k as int)).to_set(),
                    forall|i: int| 0 <= i < memory@.len() && (#[trigger] memory@[i]).live ==> memory@[i].size == value_size(memory@[i].value),
                    forall|i: int| 0 <= i < memory@.len() ==> (#[trigger] memory@[i].value) matches ValueView::FnPtrExternal(_, _),
                    forall|j: int| 0 <= j < mapping.entries@.len() ==> points_live(memory@, #[trigger] mapping.entries@[j].1)
                        && binds_last(dar + ars.subrange(0, k as int), mapping.entries@[j].0@, memory@[mapping.entries@[j].1 as int].value),
                decreases pairs@.len() - k,
            {
                let name = pairs[k].0.clone();
                let size = pairs[k].1;
                let ghost pre = memory@;
                let ghost upto = done + names.subrange(0, k as int + 1);
                proof {
                    assert(upto.drop_last() =~= done + names.subrange(0, k as int));
                    assert(upto.last() == name@);
                    lemma_names_bytes_concat(done + names.subrange(0, k as int + 1), names.subrange(k as int + 1, names.len() as int));
                    assert(done + names.subrange(0, k as int + 1) + names.subrange(k as int + 1, names.len() as int) =~= done + names);
                }
                let p = match memory.allocate(Value::FnPtrExternal(name.clone(), size)) {
                    Ok(p) => p,
                    Err(e) => {
                        return Err(e);
                    },
                };
                let ghost before = mapping.entries@;
                proof {
                    assert forall|i: int| 0 <= i < memory@.len() && (#[trigger] memory@[i]).live
                        implies memory@[i].size == value_size(memory@[i].value) by {
                        if i < pre.len() {
                            assert(memory@[i] == pre[i]);
                        }
                    }
                    assert forall|i: int| 0 <= i < memory@.len() implies (#[trigger] memory@[i].value) matches ValueView::FnPtrExternal(_, _) by {
                        if i < pre.len() {
                            assert(memory@[i] == pre[i]);
                        }
                    }
                    crate::mapping::lemma_unique_view(before);
                }
                let ghost nm = name@;
                let ghost dom_before = mapping.view_map().dom();
                mapping.insert(name, p);
                proof {
                    let aprev = dar + ars.subrange(0, k as int);
                    let anext = dar + ars.subrange(0, k as int + 1);
                    assert(anext.drop_last() =~= aprev);
                    assert(anext.last() == ars[k as int]);
                    assert(ars[k as int].0 == nm);
                    assert forall|j: int| 0 <= j < mapping.entries@.len() implies points_live(memory@, #[trigger] mapping.entries@[j].1)
                        && binds_last(anext, mapping.entries@[j].0@, memory@[mapping.entries@[j].1 as int].value) by {
                        crate::mapping::lemma_insert_entry_shape(entries_view(before), nm, p);
                        assert(entries_view(mapping.entries@)[j] == (mapping.entries@[j].0@, mapping.entries@[j].1));
                        if entries_view(mapping.entries@)[j] != (nm, p) {
                            assert(entries_view(before)[j] == (before[j].0@, before[j].1));
                            assert(points_live(pre, before[j].1));
                            assert(memory@[before[j].1 as int] == pre[before[j].1 as int]);
                            if before[j].0@ == nm {
                                crate::mapping::lemma_entry_at(entries_view(before), j);
                                assert(false);
                            }
                        }
                    }
                    assert(mapping.view_map().dom() =~= dom_before.insert(nm));
                    assert(upto.to_set() =~= (done + names.subrange(0, k as int)).to_set().insert(nm)) by {
                        assert forall|x: Seq<char>| upto.to_set().contains(x) <==> (done + names.subrange(0, k as int)).to_set().insert(nm).contains(x) by {
                            if upto.to_set().contains(x) {
                                let i = choose|i: int| 0 <= i < upto.len() && upto[i] == x;
                                if i < upto.len() - 1 {
                                    assert((done + names.subrange(0, k as int))[i] == x);
                                }
                            }
                            if (done + names.subrange(0, k as int)).to_set().contains(x) {
                                let i = choose|i: int| 0 <= i < (done + names.subrange(0, k as int)).len() && (done + names.subrange(0, k as int))[i] == x;
                                assert(upto[i] == x);
                            }
                            if x == nm {
                                assert(upto[upto.len() - 1] == x);
                            }
                        }
                    }
                }
                k = k + 1;
            }
            proof {
                assert(names.subrange(0, names.len() as int) =~= names);
                assert(ars.subrange(0, ars.len() as int) =~= ars);
                let next = resolvers@.subrange(0, ri as int + 1);
                assert(next.drop_last() =~= resolvers@.subrange(0, ri as int));
                assert(resolver_fns(next) == dar + ars);
            }
            ri = ri + 1;
        }
        proof {
            assert(resolvers@.subrange(0, resolvers@.len() as int) =~= resolvers@);
        }
        let frame = FnStackFrame { ptr: 0, mapping, acct: None };
        let mut frames: Vec<FnStackFrame> = Vec::new();
        frames.push(frame);
        let machine = InstStateMachine {
            lim: inst_limit,
            fn_stack_frame: frames,
            memory,
            instructions,
            state: Ok(State::Ready),
            stack: Vec::new(),
        };
        proof {
            let mv = machine@;
            assert(machine.stack@.len() == 0);
            assert(crate::exec::stack_charge(machine.stack@) == 0);
            assert(machine.fn_stack_frame@.drop_last() =~= Seq::<FnStackFrame>::empty());
            assert(crate::exec::frame_charge(Seq::<FnStackFrame>::empty()) == 0);
            assert(crate::exec::frame_charge(machine.fn_stack_frame@) == 0);
            assert forall|a: int, b: int| 0 <= a < mv.frames.len() && 0 <= b < mv.frames[a].vars.len()
                implies points_live(machine.memory@, #[trigger] mv.frames[a].vars[b].1) by {
                assert(a == 0);
                assert(mv.frames[0].vars[b].1 == machine.fn_stack_frame@[0].mapping.entries@[b].1);
            }
            assert forall|i: int| 0 <= i < mv.heap.len() implies value_ok(#[trigger] mv.heap[i]) by {
                assert(machine.memory@[i].value matches ValueView::FnPtrExternal(_, _));
            }
            assert forall|j: int| 0 <= j < mv.frames[0].vars.len() implies
                binds_last(resolver_fns(resolvers@), mv.frames[0].vars[j].0, #[trigger] mv.heap[mv.frames[0].vars[j].1 as int]) by {
                assert(mv.frames[0].vars[j] == (machine.fn_stack_frame@[0].mapping.entries@[j].0@, machine.fn_stack_frame@[0].mapping.entries@[j].1));
            }
            let es = machine.fn_stack_frame@[0].mapping.entries@;
            assert(mv.frames[0].vars == entries_view(es));
            assert forall|k: Seq<char>| bound_names(mv.frames[0].vars).contains(k) <==> total.to_set().contains(k) by {
                crate::mapping::lemma_map_of_dom(es, k);
                if bound_names(mv.frames[0].vars).contains(k) {
                    let j = choose|j: int| 0 <= j < mv.frames[0].vars.len() && mv.frames[0].vars[j].0 == k;
                    assert(es[j].0@ == k);
                }
                if total.to_set().contains(k) {
                    let i = choose|i: int| 0 <= i < es.len() && es[i].0@ == k;
                    assert(mv.frames[0].vars[i].0 == k);
                }
            }
            assert(bound_names(mv.frames[0].vars) =~= total.to_set());
        }
        Ok(Machine { machine, resolvers })
    }

    /// The value bound to `name`, seen from the innermost frame, copied out.
    pub fn get(&self, name: &str) -> (r: Option<OwnedValue>)
        requires
            self.machine.wf(),
        ensures
            match lookup(self.machine@.frames, name@) {
                None => r is None,
                Some(p) => r matches Some(v) && mirrors(self.machine@.heap, p, v, self.machine@.heap.len()),
            },
    {
        let n = String::from_str(name);
        match self.machine.resolve(&n) {
            None => None,
            Some(p) => Some(self.machine.own(p, self.machine.memory.cells.len())),
        }
    }

    /// Runs the next instruction.
    pub fn run_once(&mut self) -> (r: Result<State, ExecutionError>)
        requires
            old(self).machine.wf(),
        ensures
            final(self).machine.wf(),
            final(self).resolvers == old(self).resolvers,
            realizes(final(self).machine@, final(self).machine.memory.curr, final(self).machine.memory.max,
                run_once_spec(old(self).machine@)),
            result_view(r) == run_once_result(old(self).machine@, final(self).machine@),
    {
        self.machine.run_once()
    }

    /// Runs instructions while the machine is ready, without serving host
    /// functions or floating-point work; stops at the first error.
    pub fn run_all(&mut self) -> (r: Result<State, ExecutionError>)
        requires
            old(self).machine.wf(),
        ensures
            final(self).machine.wf(),
            final(self).resolvers == old(self).resolvers,
            final(self).machine.lim <= old(self).machine.lim,
            reported(result_view(r), final(self).machine@),
            r is Ok ==> final(self).machine@.state != Ok::<StateView, ExecutionError>(StateView::Ready),
            final(self).machine.memory.max == old(self).machine.memory.max,
            runs(old(self).resolvers@, false, old(self).machine@, final(self).machine@, old(self).machine.memory.max),
    {
        let ghost mut trace: Seq<MachineView> = seq![self.machine@];
        loop
            invariant
                self.machine.wf(),
                self.resolvers == old(self).resolvers,
                self.machine.lim <= old(self).machine.lim,
                self.machine.memory.max == old(self).machine.memory.max,
                is_run(old(self).resolvers@, false, trace, old(self).machine.memory.max) && trace[0] == old(self).machine@ && trace.last() == self.machine@,
            decreases self.machine.lim,
        {
            let ready = match &self.machine.state {
                Ok(State::Ready) => true,
                _ => false,
            };
            if !ready {
                return copy_result(&self.machine.state);
            }
            let ghost pre = self.machine@;
            let no_frame = self.machine.fn_stack_frame.len() == 0;
            let r = self.machine.run_once();
            proof {
                crate::laws::law_step_never_grants(pre, self.machine@, self.machine.memory.curr, self.machine.memory.max);
                if !no_frame {
                    lemma_run_once_progress(pre, self.machine@, self.machine.memory.curr, self.machine.memory.max);
                }
                assert(realizes(self.machine@, self.machine.memory.curr, self.machine.memory.max, run_once_spec(pre)));
                assert(protocol_step(old(self).resolvers@, false, pre, self.machine@, old(self).machine.memory.max));
                lemma_run_extend(old(self).resolvers@, false, trace, self.machine@, old(self).machine.memory.max);
                trace = trace.push(self.machine@);
            }
            match r {
                Err(e) => return Err(e),
                Ok(_) => {},
            }
            let still_ready = match &self.machine.state {
                Ok(State::Ready) => true,
                _ => false,
            };
            if no_frame || !still_ready {
                return copy_result(&self.machine.state);
            }
        }
    }

    /// Whether the run state keeps a host loop going.
    pub fn running(&self) -> (r: bool)
        ensures
            r == in_loop(self.machine@.state),
    {
        match &self.machine.state {
            Ok(State::Ready) => true,
            Ok(State::FnExternInput(_, _)) => true,
            Ok(State::FloatInput(_)) => true,
            _ => false,
        }
    }

    /// Takes up to `count` steps of the host protocol, stopping early when no
    /// step can be taken; returns the run state.
    pub fn sync_run_for<H: FloatUnit>(&mut self, count: u64, floats: &H) -> (r: Result<State, ExecutionError>)
        requires
            old(self).machine.wf(),
        ensures
            final(self).machine.wf(),
            final(self).resolvers == old(self).resolvers,
            final(self).machine.memory.curr <= final(self).machine.memory.max,
            final(self).machine.lim <= old(self).machine.lim,
            reported(result_view(r), final(self).machine@),
            r is Ok && in_loop(final(self).machine@.state) ==>
                loop_measure(final(self).machine@) + count <= loop_measure(old(self).machine@)
                || final(self).machine@.state matches Ok(StateView::FnExternInput(_, _)),
            final(self).machine.memory.max == old(self).machine.memory.max,
            runs(old(self).resolvers@, true, old(self).machine@, final(self).machine@, old(self).machine.memory.max),
    {
        let mut i: u64 = 0;
        let ghost mut trace: Seq<MachineView> = seq![self.machine@];
        while i < count
            invariant
                self.machine.wf(),
                self.resolvers == old(self).resolvers,
                self.machine.lim <= old(self).machine.lim,
                self.machine.memory.max == old(self).machine.memory.max,
                is_run(old(self).resolvers@, true, trace, old(self).machine.memory.max) && trace[0] == old(self).machine@ && trace.last() == self.machine@,
                i <= count,
                in_loop(self.machine@.state) ==> loop_measure(self.machine@) + i <= loop_measure(old(self).machine@),
            decreases count - i,
        {
            if self.running() {
                let ghost pre = self.machine@;
                let step = self.sync_run_once(floats);
                proof {
                    if self.machine@ != pre {
                        lemma_run_extend(old(self).resolvers@, true, trace, self.machine@, old(self).machine.memory.max);
                        trace = trace.push(self.machine@);
                    }
                }
                match step {
                    Err(e) => return Err(e),
                    Ok((s, stepped)) => {
                        if !stepped {
                            return Ok(s);
                        }
                    },
                }
            }
            i = i + 1;
        }
        copy_result(&self.machine.state)
    }

    /// Takes steps of the host protocol until the machine stops or no step can
    /// be taken; returns the run state.
    pub fn sync_run_all<H: FloatUnit>(&mut self, floats: &H) -> (r: Result<State, ExecutionError>)
        requires
            old(self).machine.wf(),
        ensures
            final(self).machine.wf(),
            final(self).resolvers == old(self).resolvers,
            final(self).machine.memory.curr <= final(self).machine.memory.max,
            final(self).machine.lim <= old(self).machine.lim,
            reported(result_view(r), final(self).machine@),
            r is Ok ==> !in_loop(final(self).machine@.state) || final(self).machine@.state matches Ok(StateView::FnExternInput(_, _)),
            r is Ok ==> (final(self).machine@.state matches Ok(StateView::FnExternInput(name, _))
                ==> first_provider(old(self).resolvers@, name) is None),
            final(self).machine.memory.max == old(self).machine.memory.max,
            runs(old(self).resolvers@, true, old(self).machine@, final(self).machine@, old(self).machine.memory.max),
    {
        let ghost mut trace: Seq<MachineView> = seq![self.machine@];
        while self.running()
            invariant
                self.machine.wf(),
                self.resolvers == old(self).resolvers,
                self.machine.lim <= old(self).machine.lim,
                self.machine.memory.max == old(self).machine.memory.max,
                is_run(old(self).resolvers@, true, trace, old(self).machine.memory.max) && trace[0] == old(self).machine@ && trace.last() == self.machine@,
            decreases if in_loop(self.machine@.state) { loop_measure(self.machine@) + 1 } else { 0 },
        {
            let ghost pre = self.machine@;
            let step = self.sync_run_once(floats);
            proof {
                if self.machine@ != pre {
                    lemma_run_extend(old(self).resolvers@, true, trace, self.machine@, old(self).machine.memory.max);
                    trace = trace.push(self.machine@);
                }
            }
            match step {
                Err(e) => return Err(e),
                Ok((s, stepped)) => {
                    if !stepped {
                        return Ok(s);
                    }
                },
            }
        }
        copy_result(&self.machine.state)
    }

    /// Runs one step of the host protocol: the next instruction, or a pending
    /// host function or float computation. Returns the run state and whether a
    /// step was taken; a pending host function that no resolver provides takes none.
    pub fn sync_run_once<H: FloatUnit>(&mut self, floats: &H) -> (r: Result<(State, bool), ExecutionError>)
        requires
            old(self).machine.wf(),
        ensures
            final(self).machine.wf(),
            final(self).resolvers == old(self).resolvers,
            final(self).machine.lim <= old(self).machine.lim,
            r matches Ok((s, _)) ==> Ok::<StateView, ExecutionError>(s@) == final(self).machine@.state,
            r matches Err(e) ==> reported(Err(e), final(self).machine@),
            old(self).machine@.state == Ok::<StateView, ExecutionError>(StateView::Ready) ==>
                realizes(final(self).machine@, final(self).machine.memory.curr, final(self).machine.memory.max,
                    run_once_spec(old(self).machine@)),
            r matches Ok((s, stepped)) ==> (stepped && in_loop(final(self).machine@.state)
                ==> loop_measure(final(self).machine@) < loop_measure(old(self).machine@)),
            r matches Ok((s, stepped)) ==> (!stepped ==> final(self).machine@ == old(self).machine@ && Ok::<StateView, ExecutionError>(s@) == old(self).machine@.state
                && (!in_loop(old(self).machine@.state) || old(self).machine@.state matches Ok(StateView::FnExternInput(_, _)))),
            final(self).machine.memory.max == old(self).machine.memory.max,
            final(self).machine@ == old(self).machine@
                || protocol_step(old(self).resolvers@, true, old(self).machine@, final(self).machine@, final(self).machine.memory.max),
            r matches Ok((_, true)) ==>
                protocol_step(old(self).resolvers@, true, old(self).machine@, final(self).machine@, final(self).machine.memory.max),
            match old(self).machine@.state {
                Ok(StateView::FnExternInput(name, b)) => first_provider(old(self).resolvers@, name) is Some ==> {
                    &&& (r is Err || r matches Ok((_, true)))
                    &&& (pop_gets(old(self).machine@, b as nat) is Err ==>
                        r == Err::<(State, bool), ExecutionError>(pop_gets(old(self).machine@, b as nat)->Err_0.0)
                        && final(self).machine@ == retrieve_spec(old(self).machine@))
                },
                _ => true,
            },
    {
        let ghost pre = self.machine@;
        let ready = match &self.machine.state {
            Ok(State::Ready) => true,
            _ => false,
        };
        if ready {
            if self.machine.fn_stack_frame.len() == 0 {
                let r = self.machine.run_once();
                proof {
                    crate::laws::law_step_never_grants(pre, self.machine@, self.machine.memory.curr, self.machine.memory.max);
                    assert(realizes(self.machine@, self.machine.memory.curr, self.machine.memory.max, run_once_spec(pre)));
                }
                return match r {
                    Ok(s) => Ok((s, true)),
                    Err(e) => Err(e),
                };
            }
            let r = self.machine.run_once();
            proof {
                lemma_run_once_progress(pre, self.machine@, self.machine.memory.curr, self.machine.memory.max);
                crate::laws::law_step_never_grants(pre, self.machine@, self.machine.memory.curr, self.machine.memory.max);
                assert(realizes(self.machine@, self.machine.memory.curr, self.machine.memory.max, run_once_spec(pre)));
            }
            return match r {
                Ok(s) => Ok((s, true)),
                Err(e) => Err(e),
            };
        }
        let pending: Option<String> = match &self.machine.state {
            Ok(State::FnExternInput(name, _)) => Some(name.clone()),
            _ => None,
        };
        match pending {
            Some(name) => {
                let mut ri: usize = 0;
                proof {
                    assert(self.resolvers@.subrange(0, self.resolvers@.len() as int) =~= self.resolvers@);
                }
                while ri < self.resolvers.len()
                    invariant
                        self.machine@ == pre,
                        pre == old(self).machine@,
                        old(self).machine@.state != Ok::<StateView, ExecutionError>(StateView::Ready),
                        old(self).machine@.state matches Ok(StateView::FnExternInput(n, _)) && n == name@,
                        self.machine.wf(),
                        self.machine.memory.max == old(self).machine.memory.max,
                        self.resolvers == old(self).resolvers,
                        ri <= self.resolvers@.len(),
                        first_provider(self.resolvers@, name@)
                            == first_provider(self.resolvers@.subrange(ri as int, self.resolvers@.len() as int), name@),
                    decreases self.resolvers@.len() - ri,
                {
                    proof {
                        let t = self.resolvers@.subrange(ri as int, self.resolvers@.len() as int);
                        assert(t[0] == self.resolvers@[ri as int]);
                        assert(t.drop_first() =~= self.resolvers@.subrange(ri as int + 1, self.resolvers@.len() as int));
                    }
                    match self.resolvers[ri].get(&name) {
                        Some(f) => {
                            proof {
                                assert(first_provider(self.resolvers@, name@) == Some(*f));
                            }
                            let taken = self.machine.retrieve_fn_input();
                            proof {
                                crate::step::lemma_retrieve_keeps(pre);
                            }
                            let inputs = match taken {
                                Ok(x) => x,
                                Err(e) => return Err(e),
                            };
                            let values = match inputs {
                                Some((_, v)) => v,
                                None => {
                                    return Err(ExecutionError::NonRecoverable(NonRecoverableError::GenericError));
                                },
                            };
                            let ghost after = self.machine@;
                            let ghost args = values@;
                            let result = f.fn_extern_sync(&mut self.machine, values);
                            let ghost mid = self.machine@;
                            let ghost res = result;
                            let ghost c1 = self.machine.memory.curr;
                            let ghost max = self.machine.memory.max;
                            proof {
                                assert(f.call_spec(after, args, mid, res, c1, max));
                                self.machine.lemma_curr_accounted();
                            }
                            let _ = self.machine.push_fn_output(result);
                            proof {
                                let c2 = self.machine.memory.curr;
                                assert(mid.state == retrieve_spec(pre).state);
                                assert(realizes(self.machine@, c2, max, fn_output_spec(mid, res)));
                                assert(after == retrieve_spec(pre));
                                assert(f.call_spec(retrieve_spec(pre), args, mid, res, c1, max));
                                assert(protocol_step(old(self).resolvers@, true, pre, self.machine@, max));
                            }
                            return match copy_result(&self.machine.state) {
                                Ok(s) => Ok((s, true)),
                                Err(e) => Err(e),
                            };
                        },
                        None => {},
                    }
                    ri = ri + 1;
                }
                match copy_result(&self.machine.state) {
                    Ok(s) => Ok((s, false)),
                    Err(e) => Err(e),
                }
            },
            None => {
                let req = match &self.machine.state {
                    Ok(State::FloatInput(req)) => Some(crate::exec::copy_request(req)),
                    _ => None,
                };
                match req {
                    Some(req) => {
                        let reply = floats.compute(&req);
                        let ghost rep = reply;
                        let _ = self.machine.push_float_result(reply);
                        proof {
                            assert(realizes(self.machine@, self.machine.memory.curr, self.machine.memory.max, float_reply_spec(pre, rep)));
                            assert(protocol_step(old(self).resolvers@, true, pre, self.machine@, self.machine.memory.max));
                        }
                        match copy_result(&self.machine.state) {
                            Ok(s) => Ok((s, true)),
                            Err(e) => Err(e),
                        }
                    },
                    None => match copy_result(&self.machine.state) {
                        Ok(s) => Ok((s, false)),
                        Err(e) => Err(e),
                    },
                }
            },
        }
    }
}

} // verus!
