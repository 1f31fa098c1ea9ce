//! The instruction state machine.
//!
//! The machine runs one instruction per call of `run_once`, counts down its
//! instruction budget `lim`, and keeps every value in its memory allocation.
//! Stack slots and call frames are charged to the same memory limit.
use vstd::prelude::*;
use crate::error::{CriticalError, ExecutionError, NonRecoverableError, RecoverableError, memory_exhausted};
use crate::instructions::Instruction;
use crate::mapping::{Mapping, entries_view, names_unique, entry_of, lemma_unique_view};
use crate::mem::{
    GetSize, MemoryAllocation, Value, ValueView, CellView, all_live, heap_frame, key_bytes,
    points_live, sat, sat_add, string_bytes, byte_len, value_children, value_size, mapping_key_bytes,
    lemma_key_bytes_nonneg, reachable,
};
use crate::ops::FloatRequest;

verus! {

/// Virtual bytes charged for one stack slot.
pub const SLOT: usize = 32;

/// Virtual bytes charged for one call frame, before its variable names.
pub const FN_FRAME_COST: usize = 128;

/// An item of the value stack.
#[derive(Debug, Clone, PartialEq)]
pub enum StackItem {
    /// A value.
    Value(usize),
    /// A name: an attribute of an object, or a variable when there is no object.
    AttrReference(Option<usize>, String),
    /// A position in a list.
    IdxReference(usize, i64),
}

/// Virtual bytes charged for a stack item.
pub open spec fn item_size(item: StackItem) -> usize {
    match item {
        StackItem::Value(_) => SLOT,
        StackItem::AttrReference(_, name) => sat(SLOT + byte_len(name@)),
        StackItem::IdxReference(_, _) => SLOT,
    }
}

/// The heap pointers a stack item holds.
pub open spec fn item_ptrs(item: StackItem) -> Seq<usize> {
    match item {
        StackItem::Value(p) => seq![p],
        StackItem::AttrReference(Some(p), _) => seq![p],
        StackItem::AttrReference(None, _) => Seq::empty(),
        StackItem::IdxReference(p, _) => seq![p],
    }
}

impl GetSize for StackItem {
    open spec fn size_spec(&self) -> usize {
        item_size(*self)
    }

    fn get_size(&self) -> (r: usize) {
        match self {
            StackItem::Value(_) => SLOT,
            StackItem::AttrReference(_, name) => sat_add(SLOT, string_bytes(name)),
            StackItem::IdxReference(_, _) => SLOT,
        }
    }
}

impl StackItem {
    /// A copy of this item.
    pub fn duplicate(&self) -> (r: Self)
        ensures
            r == *self,
    {
        match self {
            StackItem::Value(p) => StackItem::Value(*p),
            StackItem::AttrReference(o, n) => StackItem::AttrReference(*o, n.clone()),
            StackItem::IdxReference(p, i) => StackItem::IdxReference(*p, *i),
        }
    }
}

/// A stack item with the bytes charged for its slot.
#[derive(Debug, Clone)]
pub struct StackEntry {
    pub item: StackItem,
    pub acct: usize,
}

/// A call frame: where it continues, its variables, and the bytes charged for it.
/// The outermost frame is not charged.
#[derive(Debug, Clone)]
pub struct FnStackFrame {
    pub ptr: u64,
    pub mapping: Mapping,
    pub acct: Option<usize>,
}

/// What a call frame holds: its next instruction and its variables.
pub ghost struct FrameView {
    pub ptr: u64,
    pub vars: Seq<(Seq<char>, usize)>,
}

impl View for FnStackFrame {
    type V = FrameView;

    open spec fn view(&self) -> FrameView {
        FrameView { ptr: self.ptr, vars: entries_view(self.mapping.entries@) }
    }
}

/// The run state of the machine.
#[derive(Debug, Clone, PartialEq)]
pub enum State {
    /// Ready to run the next instruction.
    Ready,
    Terminated,
    Interrupt,
    /// The budget ran out; resuming needs at least this many instructions.
    Timeout(u64),
    /// A call of a host function with this name and argument count waits for its arguments to be taken.
    FnExternInput(String, usize),
    /// The arguments of a host function call were taken; its result is awaited.
    FnExternOutput(String, Vec<usize>),
    /// A floating-point computation waits for the host.
    FloatInput(FloatRequest),
}

/// What a run state holds.
pub ghost enum StateView {
    Ready,
    Terminated,
    Interrupt,
    Timeout(u64),
    FnExternInput(Seq<char>, usize),
    FnExternOutput(Seq<char>, Seq<usize>),
    FloatInput(FloatRequest),
}

impl View for State {
    type V = StateView;

    open spec fn view(&self) -> StateView {
        match self {
            State::Ready => StateView::Ready,
            State::Terminated => StateView::Terminated,
            State::Interrupt => StateView::Interrupt,
            State::Timeout(n) => StateView::Timeout(*n),
            State::FnExternInput(s, n) => StateView::FnExternInput(s@, *n),
            State::FnExternOutput(s, v) => StateView::FnExternOutput(s@, v@),
            State::FloatInput(r) => StateView::FloatInput(*r),
        }
    }
}

impl State {
    /// A copy of this state.
    pub fn duplicate(&self) -> (r: Self)
        ensures
            r@ == self@,
    {
        match self {
            State::Ready => State::Ready,
            State::Terminated => State::Terminated,
            State::Interrupt => State::Interrupt,
            State::Timeout(n) => State::Timeout(*n),
            State::FnExternInput(s, n) => State::FnExternInput(s.clone(), *n),
            State::FnExternOutput(s, v) => State::FnExternOutput(s.clone(), crate::mem::copy_ptrs(v)),
            State::FloatInput(r) => State::FloatInput(copy_request(r)),
        }
    }
}

/// A copy of a float request.
pub fn copy_request(r: &FloatRequest) -> (c: FloatRequest)
    ensures
        c == *r,
{
    match r {
        FloatRequest::Binary(op, a, b) => FloatRequest::Binary(*op, *a, *b),
        FloatRequest::Literal(s) => FloatRequest::Literal(s.clone()),
    }
}

/// The view of a run state or error.
pub open spec fn result_view(r: Result<State, ExecutionError>) -> Result<StateView, ExecutionError> {
    match r {
        Ok(s) => Ok(s@),
        Err(e) => Err(e),
    }
}

/// A copy of a run state or error.
pub fn copy_result(r: &Result<State, ExecutionError>) -> (c: Result<State, ExecutionError>)
    ensures
        result_view(c) == result_view(*r),
{
    match r {
        Ok(s) => Ok(s.duplicate()),
        Err(e) => Err(e.duplicate()),
    }
}

/// Everything observable about the machine; `heap` holds the value of every cell
/// ever allocated, indexed by pointer.
pub ghost struct MachineView {
    pub lim: u64,
    pub frames: Seq<FrameView>,
    pub heap: Seq<ValueView>,
    pub instructions: Seq<Instruction>,
    pub state: Result<StateView, ExecutionError>,
    pub stack: Seq<StackItem>,
}

/// The machine that runs a compiled program.
#[derive(Debug)]
pub struct InstStateMachine {
    pub lim: u64,
    pub fn_stack_frame: Vec<FnStackFrame>,
    pub memory: MemoryAllocation,
    pub instructions: Vec<Instruction>,
    pub state: Result<State, ExecutionError>,
    pub stack: Vec<StackEntry>,
}

/// The values of all cells.
pub open spec fn heap_values(cells: Seq<CellView>) -> Seq<ValueView> {
    cells.map_values(|c: CellView| c.value)
}

/// Sum of the bytes charged for stack slots.
pub open spec fn stack_charge(s: Seq<StackEntry>) -> int
    decreases s.len(),
{
    if s.len() == 0 {
        0
    } else {
        stack_charge(s.drop_last()) + s.last().acct
    }
}

/// Sum of the bytes charged for call frames.
pub open spec fn frame_charge(s: Seq<FnStackFrame>) -> int
    decreases s.len(),
{
    if s.len() == 0 {
        0
    } else {
        frame_charge(s.drop_last()) + match s.last().acct {
            Some(n) => n as int,
            None => 0,
        }
    }
}

/// Bytes charged for a call frame with these variables.
pub open spec fn frame_cost(vars: Seq<(Seq<char>, usize)>) -> usize {
    sat(FN_FRAME_COST + key_bytes(vars))
}

/// Every frame but the outermost is charged for its variables.
pub open spec fn costed(fs: Seq<FnStackFrame>) -> bool {
    forall|i: int| 0 <= i < fs.len() ==> (#[trigger] fs[i]).acct == (if i == 0 { None } else { Some(frame_cost(fs[i]@.vars)) })
}

/// No frame is charged more than its variables cost, and the outermost frame
/// is charged nothing.
pub open spec fn costs_within(fs: Seq<FnStackFrame>) -> bool {
    forall|i: int| 0 <= i < fs.len() ==> match (#[trigger] fs[i]).acct {
        Some(n) => i > 0 && n <= frame_cost(fs[i]@.vars),
        None => true,
    }
}

/// No live cell is accounted for more than the size of its value.
pub open spec fn sizes_within(cells: Seq<CellView>) -> bool {
    forall|i: int| 0 <= i < cells.len() && (#[trigger] cells[i]).live ==> cells[i].size <= value_size(cells[i].value)
}

/// Every live cell is accounted for exactly its size.
pub open spec fn sized(cells: Seq<CellView>) -> bool {
    forall|i: int| 0 <= i < cells.len() && (#[trigger] cells[i]).live ==> cells[i].size == value_size(cells[i].value)
}

/// The heap pointers the stack holds are live.
pub open spec fn stack_ptrs_live(cells: Seq<CellView>, s: Seq<StackItem>) -> bool {
    forall|i: int| 0 <= i < s.len() ==> all_live(cells, item_ptrs(#[trigger] s[i]))
}

/// The heap pointers the frames hold are live.
pub open spec fn frames_live(cells: Seq<CellView>, fs: Seq<FrameView>) -> bool {
    forall|i: int, j: int| 0 <= i < fs.len() && 0 <= j < fs[i].vars.len() ==> points_live(cells, #[trigger] fs[i].vars[j].1)
}

/// The heap pointers the run state holds.
pub open spec fn state_ptrs(s: Result<StateView, ExecutionError>) -> Seq<usize> {
    match s {
        Ok(StateView::FnExternOutput(_, v)) => v,
        _ => Seq::empty(),
    }
}

/// The machine stopped on an error that no host action can clear.
pub open spec fn halted(s: Result<StateView, ExecutionError>) -> bool {
    s is Err && !(s->Err_0 is Recoverable)
}

/// A host function call is under way.
pub open spec fn calling(s: Result<StateView, ExecutionError>) -> bool {
    match s {
        Ok(StateView::FnExternInput(_, _)) => true,
        Ok(StateView::FnExternOutput(_, _)) => true,
        _ => false,
    }
}

/// A copy of call frames: the same positions, variables and charges.
fn copy_frames(v: &Vec<FnStackFrame>) -> (r: Vec<FnStackFrame>)
    ensures
        r@.len() == v@.len(),
        forall|i: int| 0 <= i < v@.len() ==> (#[trigger] r@[i]).ptr == v@[i].ptr && r@[i].acct == v@[i].acct
            && r@[i].mapping.entries@ == v@[i].mapping.entries@,
{
    let mut r: Vec<FnStackFrame> = Vec::new();
    let mut i: usize = 0;
    while i < v.len()
        invariant
            i <= v@.len(),
            r@.len() == i,
            forall|j: int| 0 <= j < i ==> (#[trigger] r@[j]).ptr == v@[j].ptr && r@[j].acct == v@[j].acct
                && r@[j].mapping.entries@ == v@[j].mapping.entries@,
        decreases v@.len() - i,
    {
        let f = &v[i];
        let mapping = crate::mem::copy_mapping(&f.mapping);
        r.push(FnStackFrame { ptr: f.ptr, mapping, acct: f.acct });
        i = i + 1;
    }
    r
}

proof fn lemma_frame_charge_same(a: Seq<FnStackFrame>, b: Seq<FnStackFrame>)
    requires
        a.len() == b.len(),
        forall|i: int| 0 <= i < a.len() ==> (#[trigger] a[i]).acct == b[i].acct,
    ensures
        frame_charge(a) == frame_charge(b),
    decreases a.len(),
{
    if a.len() > 0 {
        let (x, y) = (a.drop_last(), b.drop_last());
        assert forall|i: int| 0 <= i < x.len() implies (#[trigger] x[i]).acct == y[i].acct by {
            assert(x[i] == a[i] && y[i] == b[i]);
        }
        lemma_frame_charge_same(x, y);
        assert(a.last().acct == b.last().acct) by {
            assert(a[a.len() - 1].acct == b[a.len() - 1].acct);
        }
    }
}

/// A copy of stack entries.
fn copy_stack(v: &Vec<StackEntry>) -> (r: Vec<StackEntry>)
    ensures
        r@ == v@,
{
    let mut r: Vec<StackEntry> = Vec::new();
    let mut i: usize = 0;
    while i < v.len()
        invariant
            i <= v@.len(),
            r@ == v@.subrange(0, i as int),
        decreases v@.len() - i,
    {
        r.push(StackEntry { item: v[i].item.duplicate(), acct: v[i].acct });
        i = i + 1;
        assert(r@ =~= v@.subrange(0, i as int));
    }
    assert(v@.subrange(0, v@.len() as int) =~= v@);
    r
}

/// A copy of a program.
fn copy_code(v: &Vec<Instruction>) -> (r: Vec<Instruction>)
    ensures
        r@ == v@,
{
    let mut r: Vec<Instruction> = Vec::new();
    let mut i: usize = 0;
    while i < v.len()
        invariant
            i <= v@.len(),
            r@ == v@.subrange(0, i as int),
        decreases v@.len() - i,
    {
        r.push(v[i].duplicate());
        i = i + 1;
        assert(r@ =~= v@.subrange(0, i as int));
    }
    assert(v@.subrange(0, v@.len() as int) =~= v@);
    r
}

impl Clone for InstStateMachine {
    /// An independent copy of the machine, memory included: the same view,
    /// the same cells and accounting, and well-formed when the original is.
    fn clone(&self) -> (r: Self)
        ensures
            r@ == self@,
            r.memory@ == self.memory@,
            r.memory.curr == self.memory.curr,
            r.memory.max == self.memory.max,
            r.memory.charged == self.memory.charged,
            r.stack@ == self.stack@,
            r.fn_stack_frame@.len() == self.fn_stack_frame@.len(),
            forall|i: int| 0 <= i < self.fn_stack_frame@.len() ==> (#[trigger] r.fn_stack_frame@[i]).acct == self.fn_stack_frame@[i].acct,
            self.wf() ==> r.wf(),
    {
        let r = InstStateMachine {
            lim: self.lim,
            fn_stack_frame: copy_frames(&self.fn_stack_frame),
            memory: self.memory.duplicate(),
            instructions: copy_code(&self.instructions),
            state: copy_result(&self.state),
            stack: copy_stack(&self.stack),
        };
        proof {
            assert(r.fn_stack_frame@.map_values(|f: FnStackFrame| f@) =~= self.fn_stack_frame@.map_values(|f: FnStackFrame| f@));
            assert(heap_values(r.memory@) =~= heap_values(self.memory@));
            assert(r@ == self@);
            lemma_frame_charge_same(r.fn_stack_frame@, self.fn_stack_frame@);
            assert forall|i: int| 0 <= i < r.fn_stack_frame@.len() implies (#[trigger] r.fn_stack_frame@[i]).mapping.wf()
                == self.fn_stack_frame@[i].mapping.wf() by {}
            assert forall|i: int| 0 <= i < r.fn_stack_frame@.len() implies (#[trigger] r.fn_stack_frame@[i])@
                == self.fn_stack_frame@[i]@ by {}
        }
        r
    }
}

impl View for InstStateMachine {
    type V = MachineView;

    open spec fn view(&self) -> MachineView {
        MachineView {
            lim: self.lim,
            frames: self.fn_stack_frame@.map_values(|f: FnStackFrame| f@),
            heap: heap_values(self.memory@),
            instructions: self.instructions@,
            state: result_view(self.state),
            stack: self.stack@.map_values(|e: StackEntry| e.item),
        }
    }
}

/// Bytes of every value ever allocated.
pub open spec fn heap_bytes(heap: Seq<ValueView>) -> int
    decreases heap.len(),
{
    if heap.len() == 0 {
        0
    } else {
        heap_bytes(heap.drop_last()) + value_size(heap.last())
    }
}

/// Bytes of the stack slots.
pub open spec fn stack_bytes(stack: Seq<StackItem>) -> int
    decreases stack.len(),
{
    if stack.len() == 0 {
        0
    } else {
        stack_bytes(stack.drop_last()) + item_size(stack.last())
    }
}

/// Bytes of the call frames: each frame but the outermost costs its variables.
pub open spec fn frames_bytes(frames: Seq<FrameView>) -> int
    decreases frames.len(),
{
    if frames.len() == 0 {
        0
    } else {
        frames_bytes(frames.drop_last()) + if frames.len() > 1 { frame_cost(frames.last().vars) as int } else { 0 }
    }
}

/// An upper bound on the memory a machine can be using, read off its view:
/// every value ever allocated, garbage included, plus its stack slots and frames.
pub open spec fn accounted(m: MachineView) -> int {
    heap_bytes(m.heap) + stack_bytes(m.stack) + frames_bytes(m.frames)
}

proof fn lemma_live_sum_within(cells: Seq<CellView>)
    requires
        sizes_within(cells),
    ensures
        crate::mem::live_sum(cells) <= heap_bytes(heap_values(cells)),
    decreases cells.len(),
{
    if cells.len() > 0 {
        let c = cells.drop_last();
        assert(sizes_within(c)) by {
            assert forall|i: int| 0 <= i < c.len() && (#[trigger] c[i]).live implies c[i].size <= value_size(c[i].value) by {
                assert(c[i] == cells[i]);
            }
        }
        lemma_live_sum_within(c);
        assert(heap_values(cells).drop_last() =~= heap_values(c));
        assert(heap_values(cells).last() == cells.last().value);
    }
}

proof fn lemma_stack_charge_exact(s: Seq<StackEntry>)
    requires
        forall|i: int| 0 <= i < s.len() ==> (#[trigger] s[i]).acct == item_size(s[i].item),
    ensures
        stack_charge(s) == stack_bytes(s.map_values(|e: StackEntry| e.item)),
    decreases s.len(),
{
    if s.len() > 0 {
        let t = s.drop_last();
        assert forall|i: int| 0 <= i < t.len() implies (#[trigger] t[i]).acct == item_size(t[i].item) by {
            assert(t[i] == s[i]);
        }
        lemma_stack_charge_exact(t);
        assert(s.map_values(|e: StackEntry| e.item).drop_last() =~= t.map_values(|e: StackEntry| e.item));
    }
}

proof fn lemma_frame_charge_within(fs: Seq<FnStackFrame>)
    requires
        costs_within(fs),
    ensures
        frame_charge(fs) <= frames_bytes(fs.map_values(|f: FnStackFrame| f@)),
    decreases fs.len(),
{
    if fs.len() > 0 {
        let t = fs.drop_last();
        assert(costs_within(t)) by {
            assert forall|i: int| 0 <= i < t.len() implies match (#[trigger] t[i]).acct {
                Some(n) => i > 0 && n <= frame_cost(t[i]@.vars),
                None => true,
            } by {
                assert(t[i] == fs[i]);
            }
        }
        lemma_frame_charge_within(t);
        assert(fs.map_values(|f: FnStackFrame| f@).drop_last() =~= t.map_values(|f: FnStackFrame| f@));
        assert(fs.map_values(|f: FnStackFrame| f@).last() == fs.last()@);
        let k = fs.len() - 1;
        assert(fs[k] == fs.last());
    }
}

impl InstStateMachine {
    /// A well-formed machine uses no more memory than its view accounts for.
    pub proof fn lemma_curr_accounted(&self)
        requires
            self.wf(),
        ensures
            self.memory.curr <= accounted(self@),
    {
        lemma_live_sum_within(self.memory@);
        lemma_stack_charge_exact(self.stack@);
        lemma_frame_charge_within(self.fn_stack_frame@);
    }
}

impl InstStateMachine {
    /// Well-formed: the memory accounting is exact, every pointer the machine holds
    /// is live, and a pending host call sits behind an executed instruction.
    pub open spec fn wf(&self) -> bool {
        &&& self.memory.wf()
        &&& self.memory.charged == stack_charge(self.stack@) + frame_charge(self.fn_stack_frame@)
        &&& forall|i: int| 0 <= i < self.stack@.len() ==> (#[trigger] self.stack@[i]).acct == item_size(self.stack@[i].item)
        &&& forall|i: int| 0 <= i < self.fn_stack_frame@.len() ==> (#[trigger] self.fn_stack_frame@[i]).mapping.wf()
        &&& stack_ptrs_live(self.memory@, self@.stack)
        &&& frames_live(self.memory@, self@.frames)
        &&& all_live(self.memory@, state_ptrs(self@.state))
        &&& halted(self@.state) || (costed(self.fn_stack_frame@) && sized(self.memory@))
        &&& costs_within(self.fn_stack_frame@)
        &&& sizes_within(self.memory@)
        &&& calling(self@.state) ==> self@.frames.len() > 0 && self@.frames.last().ptr >= 1
        &&& objects_ok(self@.heap)
    }
}

/// An object value binds no name twice.
pub open spec fn value_ok(v: ValueView) -> bool {
    match v {
        ValueView::Object(es) => names_unique(es),
        _ => true,
    }
}

/// Every object in the heap binds no name twice.
pub open spec fn objects_ok(heap: Seq<ValueView>) -> bool {
    forall|i: int| 0 <= i < heap.len() ==> value_ok(#[trigger] heap[i])
}

/// `b` keeps every cell of `a` that was live.
pub open spec fn keeps_live(a: Seq<CellView>, b: Seq<CellView>) -> bool {
    &&& b.len() >= a.len()
    &&& forall|i: int| 0 <= i < a.len() && (#[trigger] a[i]).live ==> b[i].live
}

pub proof fn lemma_keeps_live(a: Seq<CellView>, b: Seq<CellView>, m: MachineView)
    requires
        keeps_live(a, b),
    ensures
        stack_ptrs_live(a, m.stack) ==> stack_ptrs_live(b, m.stack),
        frames_live(a, m.frames) ==> frames_live(b, m.frames),
        all_live(a, state_ptrs(m.state)) ==> all_live(b, state_ptrs(m.state)),
        forall|ps: Seq<usize>| all_live(a, ps) ==> #[trigger] all_live(b, ps),
        forall|p: usize| points_live(a, p) ==> #[trigger] points_live(b, p),
{
    assert forall|p: usize| points_live(a, p) implies #[trigger] points_live(b, p) by {
        assert(a[p as int].live);
    }
    assert forall|ps: Seq<usize>| all_live(a, ps) implies #[trigger] all_live(b, ps) by {
        assert forall|k: int| 0 <= k < ps.len() implies points_live(b, #[trigger] ps[k]) by {
            assert(points_live(a, ps[k]));
        }
    }
    if stack_ptrs_live(a, m.stack) {
        assert forall|i: int| 0 <= i < m.stack.len() implies all_live(b, item_ptrs(#[trigger] m.stack[i])) by {
            assert(all_live(a, item_ptrs(m.stack[i])));
        }
    }
    if frames_live(a, m.frames) {
        assert forall|i: int, j: int| 0 <= i < m.frames.len() && 0 <= j < m.frames[i].vars.len()
            implies points_live(b, #[trigger] m.frames[i].vars[j].1) by {
            assert(points_live(a, m.frames[i].vars[j].1));
        }
    }
}

pub proof fn lemma_stack_charge_push(s: Seq<StackEntry>, e: StackEntry)
    ensures
        stack_charge(s.push(e)) == stack_charge(s) + e.acct,
{
    assert(s.push(e).drop_last() =~= s);
}

pub proof fn lemma_frame_charge_push(s: Seq<FnStackFrame>, f: FnStackFrame)
    ensures
        frame_charge(s.push(f)) == frame_charge(s) + match f.acct {
            Some(n) => n as int,
            None => 0,
        },
{
    assert(s.push(f).drop_last() =~= s);
}

pub proof fn lemma_charges_nonneg(s: Seq<StackEntry>, f: Seq<FnStackFrame>)
    ensures
        stack_charge(s) >= 0,
        frame_charge(f) >= 0,
    decreases s.len() + f.len(),
{
    if s.len() > 0 {
        lemma_charges_nonneg(s.drop_last(), f);
    } else if f.len() > 0 {
        lemma_charges_nonneg(s, f.drop_last());
    }
}

/// Replacing the charge of frame `i` changes the total by the difference.
pub proof fn lemma_frame_charge_update(s: Seq<FnStackFrame>, i: int, f: FnStackFrame)
    requires
        0 <= i < s.len(),
    ensures
        frame_charge(s.update(i, f)) == frame_charge(s) - (match s[i].acct {
            Some(n) => n as int,
            None => 0,
        }) + (match f.acct {
            Some(n) => n as int,
            None => 0,
        }),
    decreases s.len(),
{
    let u = s.update(i, f);
    if i == s.len() - 1 {
        assert(u.drop_last() =~= s.drop_last());
    } else {
        assert(u.drop_last() =~= s.drop_last().update(i, f));
        lemma_frame_charge_update(s.drop_last(), i, f);
    }
}

/// A frame's charge is part of the total.
pub proof fn lemma_frame_charge_parts(s: Seq<FnStackFrame>, i: int)
    requires
        0 <= i < s.len(),
    ensures
        frame_charge(s) >= match s[i].acct {
            Some(n) => n as int,
            None => 0,
        },
    decreases s.len(),
{
    lemma_charges_nonneg(Seq::empty(), s.drop_last());
    if i < s.len() - 1 {
        lemma_frame_charge_parts(s.drop_last(), i);
        assert(s.drop_last()[i] == s[i]);
    }
}

/// The pointer a stack item holds, if any.
pub fn item_ptr(item: &StackItem) -> (r: Option<usize>)
    ensures
        match r {
            Some(p) => item_ptrs(*item) == seq![p],
            None => item_ptrs(*item) == Seq::<usize>::empty(),
        },
{
    match item {
        StackItem::Value(p) => Some(*p),
        StackItem::AttrReference(Some(p), _) => Some(*p),
        StackItem::AttrReference(None, _) => None,
        StackItem::IdxReference(p, _) => Some(*p),
    }
}

/// The cells left live in `after` are exactly those of `before` reachable from `rs`.
pub open spec fn swept(before: Seq<CellView>, after: Seq<CellView>, rs: Seq<usize>) -> bool {
    forall|j: int| 0 <= j < after.len() ==> ((#[trigger] after[j]).live <==> reachable(before, rs, j))
}

/// The machine holds pointer `p`: on its stack, in a frame, or in its run state.
pub open spec fn held(m: MachineView, p: usize) -> bool {
    ||| exists|a: int, k: int| 0 <= a < m.stack.len() && 0 <= k < item_ptrs(m.stack[a]).len() && #[trigger] item_ptrs(m.stack[a])[k] == p
    ||| exists|a: int, b: int| 0 <= a < m.frames.len() && 0 <= b < m.frames[a].vars.len() && #[trigger] m.frames[a].vars[b].1 == p
    ||| exists|k: int| 0 <= k < state_ptrs(m.state).len() && #[trigger] state_ptrs(m.state)[k] == p
}

impl InstStateMachine {
    /// Every pointer the machine holds: on the stack, in the frames and in the run state.
    pub fn roots(&self) -> (r: Vec<usize>)
        requires
            self.wf(),
        ensures
            all_live(self.memory@, r@),
            forall|t: int| 0 <= t < r@.len() ==> held(self@, #[trigger] r@[t]),
            forall|i: int, k: int| 0 <= i < self@.stack.len() && 0 <= k < item_ptrs(self@.stack[i]).len()
                ==> r@.contains(#[trigger] item_ptrs(self@.stack[i])[k]),
            forall|i: int, j: int| 0 <= i < self@.frames.len() && 0 <= j < self@.frames[i].vars.len()
                ==> r@.contains(#[trigger] self@.frames[i].vars[j].1),
            forall|k: int| 0 <= k < state_ptrs(self@.state).len() ==> r@.contains(#[trigger] state_ptrs(self@.state)[k]),
            forall|t: int| 0 <= t < r@.len() ==> held(self@, #[trigger] r@[t]),
    {
        let mut r: Vec<usize> = Vec::new();
        let mut i: usize = 0;
        while i < self.stack.len()
            invariant
                i <= self.stack@.len(),
                self.wf(),
                all_live(self.memory@, r@),
                forall|t: int| 0 <= t < r@.len() ==> held(self@, #[trigger] r@[t]),
                forall|a: int, k: int| 0 <= a < i && 0 <= k < item_ptrs(self@.stack[a]).len()
                    ==> r@.contains(#[trigger] item_ptrs(self@.stack[a])[k]),
            decreases self.stack@.len() - i,
        {
            let ghost before = r@;
            match item_ptr(&self.stack[i].item) {
                Some(p) => {
                    proof {
                        assert(all_live(self.memory@, item_ptrs(self@.stack[i as int])));
                        assert(item_ptrs(self@.stack[i as int])[0] == p);
                    }
                    r.push(p);
                    assert(r@[r@.len() - 1] == p);
                    assert forall|t: int| 0 <= t < r@.len() implies held(self@, #[trigger] r@[t]) by {
                        if t < before.len() {
                            assert(r@[t] == before[t]);
                        } else {
                            assert(item_ptrs(self@.stack[i as int])[0] == r@[t]);
                        }
                    }
                    assert forall|t: int| 0 <= t < r@.len() implies points_live(self.memory@, #[trigger] r@[t]) by {
                        if t < before.len() {
                            assert(r@[t] == before[t]);
                        }
                    }
                },
                None => {},
            }
            assert forall|a: int, k: int| 0 <= a < i + 1 && 0 <= k < item_ptrs(self@.stack[a]).len()
                implies r@.contains(#[trigger] item_ptrs(self@.stack[a])[k]) by {
                if a < i {
                    let t = choose|t: int| 0 <= t < before.len() && before[t] == item_ptrs(self@.stack[a])[k];
                    assert(r@[t] == before[t]);
                }
            }
            i = i + 1;
        }
        let mut f: usize = 0;
        while f < self.fn_stack_frame.len()
            invariant
                f <= self.fn_stack_frame@.len(),
                self.wf(),
                all_live(self.memory@, r@),
                forall|t: int| 0 <= t < r@.len() ==> held(self@, #[trigger] r@[t]),
                forall|a: int, k: int| 0 <= a < self@.stack.len() && 0 <= k < item_ptrs(self@.stack[a]).len()
                    ==> r@.contains(#[trigger] item_ptrs(self@.stack[a])[k]),
                forall|a: int, j: int| 0 <= a < f && 0 <= j < self@.frames[a].vars.len()
                    ==> r@.contains(#[trigger] self@.frames[a].vars[j].1),
            decreases self.fn_stack_frame@.len() - f,
        {
            let entries = &self.fn_stack_frame[f].mapping.entries;
            let mut j: usize = 0;
            while j < entries.len()
                invariant
                    f < self.fn_stack_frame@.len(),
                    self.wf(),
                    all_live(self.memory@, r@),
                    forall|t: int| 0 <= t < r@.len() ==> held(self@, #[trigger] r@[t]),
                    *entries == self.fn_stack_frame@[f as int].mapping.entries,
                    j <= entries@.len(),
                    forall|a: int, k: int| 0 <= a < self@.stack.len() && 0 <= k < item_ptrs(self@.stack[a]).len()
                        ==> r@.contains(#[trigger] item_ptrs(self@.stack[a])[k]),
                    forall|a: int, b: int| 0 <= a < f && 0 <= b < self@.frames[a].vars.len()
                        ==> r@.contains(#[trigger] self@.frames[a].vars[b].1),
                    forall|b: int| 0 <= b < j ==> r@.contains(#[trigger] self@.frames[f as int].vars[b].1),
                decreases entries@.len() - j,
            {
                let ghost before = r@;
                r.push(entries[j].1);
                assert(r@[r@.len() - 1] == self@.frames[f as int].vars[j as int].1);
                assert forall|t: int| 0 <= t < r@.len() implies held(self@, #[trigger] r@[t]) by {
                    if t < before.len() {
                        assert(r@[t] == before[t]);
                    } else {
                        assert(self@.frames[f as int].vars[j as int].1 == r@[t]);
                    }
                }
                assert forall|t: int| 0 <= t < r@.len() implies points_live(self.memory@, #[trigger] r@[t]) by {
                    if t < before.len() {
                        assert(r@[t] == before[t]);
                    } else {
                        assert(points_live(self.memory@, self@.frames[f as int].vars[j as int].1));
                    }
                }
                assert forall|a: int, k: int| 0 <= a < self@.stack.len() && 0 <= k < item_ptrs(self@.stack[a]).len()
                    implies r@.contains(#[trigger] item_ptrs(self@.stack[a])[k]) by {
                    let t = choose|t: int| 0 <= t < before.len() && before[t] == item_ptrs(self@.stack[a])[k];
                    assert(r@[t] == before[t]);
                }
                assert forall|a: int, b: int| 0 <= a < f && 0 <= b < self@.frames[a].vars.len()
                    implies r@.contains(#[trigger] self@.frames[a].vars[b].1) by {
                    let t = choose|t: int| 0 <= t < before.len() && before[t] == self@.frames[a].vars[b].1;
                    assert(r@[t] == before[t]);
                }
                assert forall|b: int| 0 <= b < j + 1 implies r@.contains(#[trigger] self@.frames[f as int].vars[b].1) by {
                    if b < j {
                        let t = choose|t: int| 0 <= t < before.len() && before[t] == self@.frames[f as int].vars[b].1;
                        assert(r@[t] == before[t]);
                    }
                }
                j = j + 1;
            }
            f = f + 1;
        }
        match &self.state {
            Ok(State::FnExternOutput(_, vals)) => {
                let mut k: usize = 0;
                while k < vals.len()
                    invariant
                        state_ptrs(self@.state) == vals@,
                        k <= vals@.len(),
                        self.wf(),
                        all_live(self.memory@, r@),
                        forall|t: int| 0 <= t < r@.len() ==> held(self@, #[trigger] r@[t]),
                        forall|a: int, q: int| 0 <= a < self@.stack.len() && 0 <= q < item_ptrs(self@.stack[a]).len()
                            ==> r@.contains(#[trigger] item_ptrs(self@.stack[a])[q]),
                        forall|a: int, b: int| 0 <= a < self@.frames.len() && 0 <= b < self@.frames[a].vars.len()
                            ==> r@.contains(#[trigger] self@.frames[a].vars[b].1),
                        forall|q: int| 0 <= q < k ==> r@.contains(#[trigger] vals@[q]),
                    decreases vals@.len() - k,
                {
                    let ghost before = r@;
                    r.push(vals[k]);
                    assert(r@[r@.len() - 1] == vals@[k as int]);
                    assert forall|t: int| 0 <= t < r@.len() implies held(self@, #[trigger] r@[t]) by {
                        if t < before.len() {
                            assert(r@[t] == before[t]);
                        } else {
                            assert(state_ptrs(self@.state)[k as int] == r@[t]);
                        }
                    }
                    assert forall|t: int| 0 <= t < r@.len() implies points_live(self.memory@, #[trigger] r@[t]) by {
                        if t < before.len() {
                            assert(r@[t] == before[t]);
                        } else {
                            assert(points_live(self.memory@, state_ptrs(self@.state)[k as int]));
                        }
                    }
                    assert forall|a: int, q: int| 0 <= a < self@.stack.len() && 0 <= q < item_ptrs(self@.stack[a]).len()
                        implies r@.contains(#[trigger] item_ptrs(self@.stack[a])[q]) by {
                        let t = choose|t: int| 0 <= t < before.len() && before[t] == item_ptrs(self@.stack[a])[q];
                        assert(r@[t] == before[t]);
                    }
                    assert forall|a: int, b: int| 0 <= a < self@.frames.len() && 0 <= b < self@.frames[a].vars.len()
                        implies r@.contains(#[trigger] self@.frames[a].vars[b].1) by {
                        let t = choose|t: int| 0 <= t < before.len() && before[t] == self@.frames[a].vars[b].1;
                        assert(r@[t] == before[t]);
                    }
                    assert forall|q: int| 0 <= q < k + 1 implies r@.contains(#[trigger] vals@[q]) by {
                        if q < k {
                            let t = choose|t: int| 0 <= t < before.len() && before[t] == vals@[q];
                            assert(r@[t] == before[t]);
                        }
                    }
                    k = k + 1;
                }
            },
            _ => {},
        }
        r
    }
}

/// Pointers in `r` are live, so everything the machine holds is live.
pub proof fn lemma_roots_live(cells: Seq<CellView>, r: Seq<usize>, m: MachineView)
    requires
        all_live(cells, r),
        forall|i: int, k: int| 0 <= i < m.stack.len() && 0 <= k < item_ptrs(m.stack[i]).len()
            ==> r.contains(#[trigger] item_ptrs(m.stack[i])[k]),
        forall|i: int, j: int| 0 <= i < m.frames.len() && 0 <= j < m.frames[i].vars.len()
            ==> r.contains(#[trigger] m.frames[i].vars[j].1),
        forall|k: int| 0 <= k < state_ptrs(m.state).len() ==> r.contains(#[trigger] state_ptrs(m.state)[k]),
    ensures
        stack_ptrs_live(cells, m.stack),
        frames_live(cells, m.frames),
        all_live(cells, state_ptrs(m.state)),
{
    assert forall|i: int| 0 <= i < m.stack.len() implies all_live(cells, item_ptrs(#[trigger] m.stack[i])) by {
        assert forall|k: int| 0 <= k < item_ptrs(m.stack[i]).len() implies points_live(cells, #[trigger] item_ptrs(m.stack[i])[k]) by {
            assert(r.contains(item_ptrs(m.stack[i])[k]));
            let t = choose|t: int| 0 <= t < r.len() && r[t] == item_ptrs(m.stack[i])[k];
            assert(points_live(cells, r[t]));
        }
    }
    assert forall|i: int, j: int| 0 <= i < m.frames.len() && 0 <= j < m.frames[i].vars.len()
        implies points_live(cells, #[trigger] m.frames[i].vars[j].1) by {
        assert(r.contains(m.frames[i].vars[j].1));
        let t = choose|t: int| 0 <= t < r.len() && r[t] == m.frames[i].vars[j].1;
        assert(points_live(cells, r[t]));
    }
    assert forall|k: int| 0 <= k < state_ptrs(m.state).len() implies points_live(cells, #[trigger] state_ptrs(m.state)[k]) by {
        assert(r.contains(state_ptrs(m.state)[k]));
        let t = choose|t: int| 0 <= t < r.len() && r[t] == state_ptrs(m.state)[k];
        assert(points_live(cells, r[t]));
    }
}

impl InstStateMachine {
    /// Makes sure `need` more bytes fit, collecting every cell that neither the
    /// machine nor `extra` reaches when they do not fit yet. Returns whether they fit.
    ///
    /// Memory is reclaimed lazily: a cell that nothing reaches any more stays
    /// counted in `curr` until a reservation does not fit. A reservation is
    /// refused only after that collection, so only when what the machine and
    /// `extra` still reach leaves too little room.
    pub fn reserve(&mut self, need: usize, extra: &Vec<usize>) -> (r: bool)
        requires
            old(self).wf(),
            all_live(old(self).memory@, extra@),
        ensures
            final(self).wf(),
            final(self)@ == old(self)@,
            final(self).stack == old(self).stack,
            final(self).fn_stack_frame == old(self).fn_stack_frame,
            final(self).state == old(self).state,
            final(self).memory.max == old(self).memory.max,
            final(self).memory.charged == old(self).memory.charged,
            final(self).memory.curr <= old(self).memory.curr,
            heap_frame(old(self).memory@, final(self).memory@),
            all_live(final(self).memory@, extra@),
            r == final(self).memory.fits(need),
            !r ==> exists|rs: Seq<usize>|
                (forall|t: int| 0 <= t < rs.len() ==> held(old(self)@, #[trigger] rs[t]) || extra@.contains(rs[t]))
                && #[trigger] swept(old(self).memory@, final(self).memory@, rs),
    {
        if self.memory.check_alloc(need) {
            return true;
        }
        let mut roots = self.roots();
        let ghost kept = roots@;
        let mut k: usize = 0;
        while k < extra.len()
            invariant
                k <= extra@.len(),
                forall|t: int| 0 <= t < kept.len() ==> roots@.contains(#[trigger] kept[t]),
                forall|t: int| 0 <= t < k ==> roots@.contains(#[trigger] extra@[t]),
                all_live(self.memory@, roots@),
                all_live(self.memory@, extra@),
                roots@.len() == kept.len() + k,
                forall|t: int| 0 <= t < kept.len() ==> roots@[t] == kept[t],
                forall|t: int| 0 <= t < k ==> roots@[kept.len() + t] == extra@[t],
            decreases extra@.len() - k,
        {
            proof {
                assert(all_live(self.memory@, kept)) by {
                    assert forall|t: int| 0 <= t < kept.len() implies points_live(self.memory@, #[trigger] kept[t]) by {
                        assert(roots@[t] == kept[t]);
                    }
                }
            }
            roots.push(extra[k]);
            proof {
                assert forall|t: int| 0 <= t < kept.len() implies roots@.contains(#[trigger] kept[t]) by {
                    assert(roots@[t] == kept[t]);
                }
                assert forall|t: int| 0 <= t < k + 1 implies roots@.contains(#[trigger] extra@[t]) by {
                    assert(roots@[kept.len() + t] == extra@[t]);
                }
                assert forall|t: int| 0 <= t < roots@.len() implies points_live(self.memory@, #[trigger] roots@[t]) by {
                    if t < kept.len() + k {
                    } else {
                        assert(roots@[t] == extra@[k as int]);
                    }
                }
            }
            k = k + 1;
        }
        let ghost pre = self.memory@;
        proof {
            assert forall|t: int| 0 <= t < kept.len() implies roots@.contains(#[trigger] kept[t]) by {}
        }
        self.memory.collect(&roots);
        proof {
            assert forall|t: int| 0 <= t < roots@.len() implies held(old(self)@, #[trigger] roots@[t]) || extra@.contains(roots@[t]) by {
                if t < kept.len() {
                    assert(roots@[t] == kept[t]);
                } else {
                    assert(roots@[t] == extra@[t - kept.len()]);
                }
            }
            assert(swept(old(self).memory@, self.memory@, roots@));
            let m = self@;
            assert forall|i: int, q: int| 0 <= i < m.stack.len() && 0 <= q < item_ptrs(m.stack[i]).len()
                implies roots@.contains(#[trigger] item_ptrs(m.stack[i])[q]) by {
                assert(kept.contains(item_ptrs(m.stack[i])[q]));
                let t = choose|t: int| 0 <= t < kept.len() && kept[t] == item_ptrs(m.stack[i])[q];
                assert(roots@.contains(kept[t]));
            }
            assert forall|i: int, j: int| 0 <= i < m.frames.len() && 0 <= j < m.frames[i].vars.len()
                implies roots@.contains(#[trigger] m.frames[i].vars[j].1) by {
                assert(kept.contains(m.frames[i].vars[j].1));
                let t = choose|t: int| 0 <= t < kept.len() && kept[t] == m.frames[i].vars[j].1;
                assert(roots@.contains(kept[t]));
            }
            assert forall|q: int| 0 <= q < state_ptrs(m.state).len() implies roots@.contains(#[trigger] state_ptrs(m.state)[q]) by {
                assert(kept.contains(state_ptrs(m.state)[q]));
                let t = choose|t: int| 0 <= t < kept.len() && kept[t] == state_ptrs(m.state)[q];
                assert(roots@.contains(kept[t]));
            }
            lemma_roots_live(self.memory@, roots@, m);
            assert forall|t: int| 0 <= t < extra@.len() implies points_live(self.memory@, #[trigger] extra@[t]) by {
                assert(roots@.contains(extra@[t]));
                let u = choose|u: int| 0 <= u < roots@.len() && roots@[u] == extra@[t];
                assert(points_live(self.memory@, roots@[u]));
            }
            assert(heap_values(self.memory@) =~= heap_values(pre));
            assert forall|i: int| 0 <= i < self.memory@.len() && (#[trigger] self.memory@[i]).live
                implies self.memory@[i].size == value_size(self.memory@[i].value) || halted(self@.state) by {
                assert(pre[i].live);
            }
        }
        self.memory.check_alloc(need)
    }

    /// Pushes `item`, charging its slot; the slot must fit.
    pub fn push_item(&mut self, item: StackItem)
        requires
            old(self).wf(),
            all_live(old(self).memory@, item_ptrs(item)),
            old(self).memory.fits(item_size(item)),
        ensures
            final(self).wf(),
            final(self)@ == (MachineView { stack: old(self)@.stack.push(item), ..old(self)@ }),
            final(self).memory@ == old(self).memory@,
            final(self).memory.max == old(self).memory.max,
            final(self).memory.curr == old(self).memory.curr + item_size(item),
            final(self).fn_stack_frame == old(self).fn_stack_frame,
            final(self).state == old(self).state,
    {
        let size = item.get_size();
        let res = self.memory.charge(size);
        let ghost pre = self.stack@;
        let e = StackEntry { item, acct: size };
        proof {
            lemma_stack_charge_push(pre, e);
        }
        self.stack.push(e);
        proof {
            assert(self.stack@ == pre.push(e));
            assert(self@.stack =~= old(self)@.stack.push(item));
            assert forall|i: int| 0 <= i < self@.stack.len() implies all_live(self.memory@, item_ptrs(#[trigger] self@.stack[i])) by {
                if i < pre.len() {
                    assert(self@.stack[i] == old(self)@.stack[i]);
                }
            }
        }
    }

    /// Pops the top item, releasing its slot.
    pub fn pop_item(&mut self) -> (r: Option<StackItem>)
        requires
            old(self).wf(),
        ensures
            final(self).wf(),
            old(self)@.stack.len() == 0 ==> r is None && final(self)@ == old(self)@,
            old(self)@.stack.len() > 0 ==> r == Some(old(self)@.stack.last()) && final(self)@ == (MachineView { stack: old(self)@.stack.drop_last(), ..old(self)@ }),
            r is Some ==> all_live(final(self).memory@, item_ptrs(r->0)),
            final(self).memory@ == old(self).memory@,
            final(self).memory.max == old(self).memory.max,
            final(self).memory.curr <= old(self).memory.curr,
            final(self).fn_stack_frame == old(self).fn_stack_frame,
            final(self).state == old(self).state,
    {
        let ghost pre = self.stack@;
        match self.stack.pop() {
            None => None,
            Some(e) => {
                proof {
                    assert(pre == self.stack@.push(e));
                    lemma_stack_charge_push(self.stack@, e);
                    lemma_charges_nonneg(self.stack@, self.fn_stack_frame@);
                    assert(pre[pre.len() - 1] == e);
                    assert(all_live(self.memory@, item_ptrs(old(self)@.stack[pre.len() - 1])));
                }
                self.memory.release(e.acct);
                proof {
                    assert(self@.stack =~= old(self)@.stack.drop_last());
                    assert forall|i: int| 0 <= i < self@.stack.len() implies all_live(self.memory@, item_ptrs(#[trigger] self@.stack[i])) by {
                        assert(self@.stack[i] == old(self)@.stack[i]);
                    }
                    assert forall|i: int| 0 <= i < self.stack@.len() implies (#[trigger] self.stack@[i]).acct == item_size(self.stack@[i].item) by {
                        assert(self.stack@[i] == pre[i]);
                    }
                }
                Some(e.item)
            },
        }
    }

    /// The variable `name` as seen from the innermost frame.
    pub fn resolve(&self, name: &String) -> (r: Option<usize>)
        requires
            self.wf(),
        ensures
            r == crate::step::lookup(self@.frames, name@),
            r is Some ==> points_live(self.memory@, r->0),
    {
        let mut i: usize = self.fn_stack_frame.len();
        proof {
            assert(self@.frames.subrange(0, i as int) =~= self@.frames);
        }
        while i > 0
            invariant
                i <= self@.frames.len(),
                self.wf(),
                crate::step::lookup(self@.frames, name@) == crate::step::lookup(self@.frames.subrange(0, i as int), name@),
            decreases i,
        {
            i = i - 1;
            let ghost sub = self@.frames.subrange(0, i as int + 1);
            proof {
                assert(sub.drop_last() =~= self@.frames.subrange(0, i as int));
                assert(sub.last() == self@.frames[i as int]);
            }
            match self.fn_stack_frame[i].mapping.get(name) {
                Some(p) => {
                    proof {
                        let vars = self@.frames[i as int].vars;
                        let j = choose|j: int| 0 <= j < vars.len() && vars[j].0 == name@;
                        assert(points_live(self.memory@, self@.frames[i as int].vars[j].1));
                    }
                    return Some(p);
                },
                None => {},
            }
        }
        None
    }

    /// The value a stack item stands for.
    pub fn get_item(&self, item: &StackItem) -> (r: Result<usize, ExecutionError>)
        requires
            self.wf(),
            all_live(self.memory@, item_ptrs(*item)),
        ensures
            r == crate::step::get_spec(self@.heap, self@.frames, *item),
            r is Ok ==> points_live(self.memory@, r->Ok_0),
    {
        match item {
            StackItem::Value(p) => {
                assert(item_ptrs(*item)[0] == *p);
                Ok(*p)
            },
            StackItem::AttrReference(Some(obj), name) => {
                assert(item_ptrs(*item)[0] == *obj);
                let v = self.memory.get(*obj);
                proof {
                    assert(self@.heap[*obj as int] == v@);
                }
                match v {
                    Value::Object(m) => {
                        proof {
                            assert(value_ok(self@.heap[*obj as int]));
                            lemma_unique_view(m.entries@);
                        }
                        match m.get(name) {
                            Some(p) => {
                                proof {
                                    let es = entries_view(m.entries@);
                                    let j = choose|j: int| 0 <= j < es.len() && es[j].0 == name@;
                                    assert(value_children(v@)[j] == p);
                                    assert(points_live(self.memory@, value_children(self.memory@[*obj as int].value)[j]));
                                }
                                Ok(p)
                            },
                            None => Err(ExecutionError::NonRecoverable(NonRecoverableError::ReferenceNotExistError(name.clone()))),
                        }
                    },
                    _ => Err(ExecutionError::NonRecoverable(NonRecoverableError::UnexpectedAttrError)),
                }
            },
            StackItem::AttrReference(None, name) => match self.resolve(name) {
                Some(p) => Ok(p),
                None => Err(ExecutionError::NonRecoverable(NonRecoverableError::ReferenceNotExistError(name.clone()))),
            },
            StackItem::IdxReference(arr, i) => {
                assert(item_ptrs(*item)[0] == *arr);
                let v = self.memory.get(*arr);
                proof {
                    assert(self@.heap[*arr as int] == v@);
                }
                match v {
                    Value::Collection(items) => {
                        let len = items.len();
                        let idx: i128 = if *i < 0 { *i as i128 + len as i128 } else { *i as i128 };
                        if 0 <= idx && idx < len as i128 {
                            let k = idx as usize;
                            proof {
                                assert(value_children(v@)[k as int] == items@[k as int]);
                                assert(points_live(self.memory@, value_children(self.memory@[*arr as int].value)[k as int]));
                            }
                            Ok(items[k])
                        } else {
                            Err(ExecutionError::NonRecoverable(NonRecoverableError::IndexOutOfRangeError))
                        }
                    },
                    _ => Err(ExecutionError::NonRecoverable(NonRecoverableError::UnexpectedIdxError)),
                }
            },
        }
    }

    /// Pops the top item and resolves it.
    pub fn pop_get(&mut self) -> (r: Result<usize, ExecutionError>)
        requires
            old(self).wf(),
        ensures
            final(self).wf(),
            match crate::step::top_get(old(self)@) {
                Ok((p, m1)) => r == Ok::<usize, ExecutionError>(p) && final(self)@ == m1,
                Err((e, m1)) => r == Err::<usize, ExecutionError>(e) && final(self)@ == m1,
            },
            r is Ok ==> points_live(final(self).memory@, r->Ok_0),
            final(self).memory@ == old(self).memory@,
            final(self).memory.max == old(self).memory.max,
            final(self).memory.curr <= old(self).memory.curr,
            final(self).fn_stack_frame == old(self).fn_stack_frame,
            final(self).state == old(self).state,
    {
        match self.pop_item() {
            None => Err(ExecutionError::Critical(CriticalError::VStackUnderflowError)),
            Some(item) => self.get_item(&item),
        }
    }

    /// Allocates `v` and pushes its pointer; the value and its slot must fit.
    pub fn alloc_push_fitting(&mut self, v: Value)
        requires
            old(self).wf(),
            all_live(old(self).memory@, value_children(v@)),
            value_ok(v@),
            !halted(old(self)@.state),
            old(self).memory.curr + value_size(v@) + SLOT <= old(self).memory.max,
        ensures
            final(self).wf(),
            final(self)@ == crate::step::pushed(old(self)@, v@),
            final(self).memory.curr == old(self).memory.curr + value_size(v@) + SLOT,
            final(self).memory.max == old(self).memory.max,
            final(self).fn_stack_frame == old(self).fn_stack_frame,
            final(self).state == old(self).state,
    {
        let ghost pre = self.memory@;
        let ghost mv = self@;
        match self.memory.allocate(v) {
            Ok(p) => {
                proof {
                    assert(keeps_live(pre, self.memory@));
                    lemma_keeps_live(pre, self.memory@, mv);
                    assert(heap_values(self.memory@) =~= heap_values(pre).push(v@));
                    assert(points_live(self.memory@, p));
                    assert(item_ptrs(StackItem::Value(p))[0] == p);
                    assert forall|i: int| 0 <= i < self@.heap.len() implies value_ok(#[trigger] self@.heap[i]) by {
                        if i < pre.len() {
                            assert(self@.heap[i] == mv.heap[i]);
                        }
                    }
                    assert forall|i: int| 0 <= i < self.memory@.len() && (#[trigger] self.memory@[i]).live
                        implies self.memory@[i].size == value_size(self.memory@[i].value) by {
                        if i < pre.len() {
                            assert(self.memory@[i] == pre[i]);
                        }
                    }
                }
                self.push_item(StackItem::Value(p));
                proof {
                    assert(self@.heap =~= old(self)@.heap.push(v@));
                }
            },
            Err(_) => {},
        }
    }

    /// Allocates `v` and pushes its pointer.
    pub fn push_new(&mut self, v: Value) -> (r: Result<(), ExecutionError>)
        requires
            old(self).wf(),
            all_live(old(self).memory@, value_children(v@)),
            value_ok(v@),
            !halted(old(self)@.state),
        ensures
            final(self).wf(),
            r is Ok ==> final(self)@ == crate::step::pushed(old(self)@, v@),
            r is Err ==> r == Err::<(), ExecutionError>(memory_exhausted()) && final(self)@ == old(self)@
                && final(self).memory.curr + value_size(v@) + SLOT > final(self).memory.max,
            final(self).memory.max == old(self).memory.max,
            final(self).fn_stack_frame == old(self).fn_stack_frame,
            final(self).state == old(self).state,
    {
        let size = v.get_size();
        if size > usize::MAX - SLOT {
            return Err(ExecutionError::NonRecoverable(NonRecoverableError::MemoryError));
        }
        let extra = crate::mem::value_targets(&v);
        if !self.reserve(size + SLOT, &extra) {
            return Err(ExecutionError::NonRecoverable(NonRecoverableError::MemoryError));
        }
        self.alloc_push_fitting(v);
        Ok(())
    }
}

impl InstStateMachine {
    /// Allocates `v` in a new cell, which nothing holds yet; the value must fit.
    pub fn alloc_value_fitting(&mut self, v: Value) -> (p: usize)
        requires
            old(self).wf(),
            all_live(old(self).memory@, value_children(v@)),
            value_ok(v@),
            !halted(old(self)@.state),
            old(self).memory.curr + value_size(v@) <= old(self).memory.max,
        ensures
            final(self).wf(),
            final(self)@ == (MachineView { heap: old(self)@.heap.push(v@), ..old(self)@ }),
            p == old(self)@.heap.len(),
            points_live(final(self).memory@, p),
            keeps_live(old(self).memory@, final(self).memory@),
            final(self).memory.curr == old(self).memory.curr + value_size(v@),
            final(self).memory.max == old(self).memory.max,
            final(self).fn_stack_frame == old(self).fn_stack_frame,
            final(self).stack == old(self).stack,
            final(self).state == old(self).state,
    {
        let ghost pre = self.memory@;
        let ghost mv = self@;
        match self.memory.allocate(v) {
            Ok(p) => {
                proof {
                    assert(keeps_live(pre, self.memory@));
                    lemma_keeps_live(pre, self.memory@, mv);
                    assert(heap_values(self.memory@) =~= heap_values(pre).push(v@));
                    assert forall|i: int| 0 <= i < self@.heap.len() implies value_ok(#[trigger] self@.heap[i]) by {
                        if i < pre.len() {
                            assert(self@.heap[i] == mv.heap[i]);
                        }
                    }
                    assert forall|i: int| 0 <= i < self.memory@.len() && (#[trigger] self.memory@[i]).live
                        implies self.memory@[i].size == value_size(self.memory@[i].value) by {
                        if i < pre.len() {
                            assert(self.memory@[i] == pre[i]);
                        }
                    }
                }
                p
            },
            Err(_) => {
                proof {
                    assert(false);
                }
                0
            },
        }
    }

    /// Replaces the value of live cell `p` by `v`, accounting its new size; a
    /// growth must fit.
    pub fn replace_value_fitting(&mut self, p: usize, v: Value)
        requires
            old(self).wf(),
            points_live(old(self).memory@, p),
            all_live(old(self).memory@, value_children(v@)),
            value_ok(v@),
            !halted(old(self)@.state),
            old(self).memory.curr + value_size(v@) - value_size(old(self)@.heap[p as int]) <= old(self).memory.max,
        ensures
            final(self).wf(),
            final(self)@ == (MachineView { heap: old(self)@.heap.update(p as int, v@), ..old(self)@ }),
            keeps_live(old(self).memory@, final(self).memory@),
            final(self).memory.curr == old(self).memory.curr + value_size(v@) - value_size(old(self)@.heap[p as int]),
            final(self).memory.max == old(self).memory.max,
            final(self).fn_stack_frame == old(self).fn_stack_frame,
            final(self).stack == old(self).stack,
            final(self).state == old(self).state,
    {
        let ghost pre = self.memory@;
        let ghost mv = self@;
        self.memory.set_value(p, v);
        let _ = self.memory.change_alloc(p);
        proof {
            assert(keeps_live(pre, self.memory@));
            lemma_keeps_live(pre, self.memory@, mv);
            assert(heap_values(self.memory@) =~= heap_values(pre).update(p as int, v@));
            assert forall|i: int| 0 <= i < self@.heap.len() implies value_ok(#[trigger] self@.heap[i]) by {
                if i != p {
                    assert(self@.heap[i] == mv.heap[i]);
                }
            }
            assert forall|i: int| 0 <= i < self.memory@.len() && (#[trigger] self.memory@[i]).live
                implies self.memory@[i].size == value_size(self.memory@[i].value) by {
                if i != p {
                    assert(self.memory@[i] == pre[i]);
                }
            }
        }
    }
}

} // verus!
