//! Values of the sandbox and the memory allocation that holds them.
//!
//! Every value lives in a heap cell addressed by its index. A cell stays
//! addressable forever; freeing a cell marks it dead and returns its marked size
//! to the budget. The allocation keeps `curr`, the bytes in use, never above
//! `max`, and `curr` always equals the marked sizes of the live cells plus the
//! bytes charged for bookkeeping (stack slots and call frames).
use vstd::prelude::*;
use vstd::utf8::encode_utf8;
use crate::error::{ExecutionError, MemoryError};
use crate::mapping::{Mapping, targets_of, entries_view};

verus! {

/// Overhead of every heap node, in virtual bytes.
pub const NODE_OVERHEAD: usize = 32;

/// Additional overhead of a container node, in virtual bytes.
pub const CONTAINER_OVERHEAD: usize = 32;

/// A sandbox value. Pointers to other values are heap indices.
#[derive(Debug, Clone)]
pub enum Value {
    Int(i64),
    /// A float, held as its IEEE-754 binary64 bit pattern.
    Float(u64),
    Bool(bool),
    Nil,
    String(String),
    Collection(Vec<usize>),
    Object(Mapping),
    /// A block of memory that only occupies space.
    MemoryChunk(usize),
    Error(ExecutionError),
    /// A function defined in the program: entry instruction and argument count.
    DPtr(u64, usize),
    /// A host function: its name and argument count.
    FnPtrExternal(String, usize),
}

/// The mathematical content of a value: strings as characters, lists as sequences.
pub ghost enum ValueView {
    Int(i64),
    Float(u64),
    Bool(bool),
    Nil,
    String(Seq<char>),
    Collection(Seq<usize>),
    Object(Seq<(Seq<char>, usize)>),
    MemoryChunk(usize),
    Error(ExecutionError),
    DPtr(u64, usize),
    FnPtrExternal(Seq<char>, usize),
}

impl View for Value {
    type V = ValueView;

    open spec fn view(&self) -> ValueView {
        match self {
            Value::Int(i) => ValueView::Int(*i),
            Value::Float(f) => ValueView::Float(*f),
            Value::Bool(b) => ValueView::Bool(*b),
            Value::Nil => ValueView::Nil,
            Value::String(s) => ValueView::String(s@),
            Value::Collection(items) => ValueView::Collection(items@),
            Value::Object(m) => ValueView::Object(entries_view(m.entries@)),
            Value::MemoryChunk(n) => ValueView::MemoryChunk(*n),
            Value::Error(e) => ValueView::Error(*e),
            Value::DPtr(p, n) => ValueView::DPtr(*p, *n),
            Value::FnPtrExternal(s, n) => ValueView::FnPtrExternal(s@, *n),
        }
    }
}

/// The kind of a value.
#[derive(Debug, Copy, Clone, PartialEq, Eq, Structural)]
pub enum ValueKind {
    Int,
    Float,
    Bool,
    String,
    Nil,
    Collection,
    Object,
    Error,
    DPtr,
    FnPtrExternal,
}

/// Something that occupies a known number of virtual bytes.
pub trait GetSize {
    spec fn size_spec(&self) -> usize;

    fn get_size(&self) -> (r: usize)
        ensures
            r == self.size_spec(),
    ;
}

/// Number of bytes of the UTF-8 encoding of a string.
pub open spec fn byte_len(s: Seq<char>) -> usize {
    encode_utf8(s).len() as usize
}

/// `x` cut off at `usize::MAX`.
pub open spec fn sat(x: int) -> usize {
    if x > usize::MAX {
        usize::MAX
    } else if x < 0 {
        0
    } else {
        x as usize
    }
}

/// Total bytes of the names of a sequence of entries.
pub open spec fn key_bytes(s: Seq<(Seq<char>, usize)>) -> int
    decreases s.len(),
{
    if s.len() == 0 {
        0
    } else {
        key_bytes(s.drop_last()) + byte_len(s.last().0)
    }
}

pub proof fn lemma_key_bytes_nonneg(s: Seq<(Seq<char>, usize)>)
    ensures
        key_bytes(s) >= 0,
    decreases s.len(),
{
    if s.len() > 0 {
        lemma_key_bytes_nonneg(s.drop_last());
    }
}

/// The virtual size of a value.
pub open spec fn value_size(v: ValueView) -> usize {
    match v {
        ValueView::Int(_) => (8 + NODE_OVERHEAD) as usize,
        ValueView::Float(_) => (8 + NODE_OVERHEAD) as usize,
        ValueView::Bool(_) => (1 + NODE_OVERHEAD) as usize,
        ValueView::Nil => (1 + NODE_OVERHEAD) as usize,
        ValueView::String(s) => sat(byte_len(s) + NODE_OVERHEAD),
        ValueView::Collection(items) => sat(items.len() * 8 + 16 + NODE_OVERHEAD + CONTAINER_OVERHEAD),
        ValueView::Object(m) => sat(m.len() * 8 + key_bytes(m) + 16 + NODE_OVERHEAD + CONTAINER_OVERHEAD),
        ValueView::MemoryChunk(n) => n,
        ValueView::Error(_) => 1024,
        ValueView::DPtr(_, _) => (16 + NODE_OVERHEAD) as usize,
        ValueView::FnPtrExternal(s, _) => sat(byte_len(s) + NODE_OVERHEAD),
    }
}

/// The heap pointers a value holds.
pub open spec fn value_children(v: ValueView) -> Seq<usize> {
    match v {
        ValueView::Collection(items) => items,
        ValueView::Object(m) => m.map_values(|e: (Seq<char>, usize)| e.1),
        _ => Seq::empty(),
    }
}

/// The kind of a value.
pub open spec fn spec_kind(v: ValueView) -> ValueKind {
    match v {
        ValueView::Int(_) => ValueKind::Int,
        ValueView::Float(_) => ValueKind::Float,
        ValueView::Bool(_) => ValueKind::Bool,
        ValueView::String(_) => ValueKind::String,
        ValueView::Nil => ValueKind::Nil,
        ValueView::Collection(_) => ValueKind::Collection,
        ValueView::Object(_) => ValueKind::Object,
        ValueView::Error(_) => ValueKind::Error,
        ValueView::DPtr(_, _) => ValueKind::DPtr,
        ValueView::FnPtrExternal(_, _) => ValueKind::FnPtrExternal,
        ValueView::MemoryChunk(_) => ValueKind::Nil,
    }
}

/// Number of bytes of the UTF-8 encoding of `s`.
pub fn string_bytes(s: &String) -> (r: usize)
    ensures
        r == byte_len(s@),
{
    s.as_str().len()
}

/// `a + b` cut off at `usize::MAX`.
pub fn sat_add(a: usize, b: usize) -> (r: usize)
    ensures
        r == sat(a + b),
{
    if a <= usize::MAX - b {
        a + b
    } else {
        usize::MAX
    }
}

/// `a * b` cut off at `usize::MAX`.
pub fn sat_mul(a: usize, b: usize) -> (r: usize)
    ensures
        r == sat(a * b),
{
    if b == 0 {
        0
    } else if a <= usize::MAX / b {
        proof {
            assert(a * b <= (usize::MAX / b) * b) by (nonlinear_arith)
                requires
                    a <= usize::MAX / b,
                    b > 0,
            ;
            assert((usize::MAX / b) * b <= usize::MAX) by (nonlinear_arith)
                requires
                    b > 0,
            ;
        }
        a * b
    } else {
        proof {
            assert(a * b > usize::MAX) by (nonlinear_arith)
                requires
                    a > usize::MAX / b,
                    b > 0,
            ;
        }
        usize::MAX
    }
}

impl Value {
    /// A copy of this value.
    pub fn duplicate(&self) -> (r: Self)
        ensures
            r@ == self@,
    {
        match self {
            Value::Int(i) => Value::Int(*i),
            Value::Float(f) => Value::Float(*f),
            Value::Bool(b) => Value::Bool(*b),
            Value::Nil => Value::Nil,
            Value::String(s) => Value::String(s.clone()),
            Value::Collection(items) => Value::Collection(copy_ptrs(items)),
            Value::Object(m) => Value::Object(copy_mapping(m)),
            Value::MemoryChunk(n) => Value::MemoryChunk(*n),
            Value::Error(e) => Value::Error(e.duplicate()),
            Value::DPtr(p, n) => Value::DPtr(*p, *n),
            Value::FnPtrExternal(s, n) => Value::FnPtrExternal(s.clone(), *n),
        }
    }

    /// The kind of this value.
    pub fn kind(&self) -> (r: ValueKind)
        ensures
            r == spec_kind(self@),
    {
        match self {
            Value::Int(_) => ValueKind::Int,
            Value::Float(_) => ValueKind::Float,
            Value::Bool(_) => ValueKind::Bool,
            Value::String(_) => ValueKind::String,
            Value::Nil => ValueKind::Nil,
            Value::Collection(_) => ValueKind::Collection,
            Value::Object(_) => ValueKind::Object,
            Value::Error(_) => ValueKind::Error,
            Value::DPtr(_, _) => ValueKind::DPtr,
            Value::FnPtrExternal(_, _) => ValueKind::FnPtrExternal,
            Value::MemoryChunk(_) => ValueKind::Nil,
        }
    }
}

/// A copy of a list of pointers.
pub fn copy_ptrs(v: &Vec<usize>) -> (r: Vec<usize>)
    ensures
        r@ == v@,
{
    let mut r: Vec<usize> = Vec::new();
    let mut i: usize = 0;
    while i < v.len()
        invariant
            i <= v@.len(),
            r@ == v@.subrange(0, i as int),
        decreases v@.len() - i,
    {
        r.push(v[i]);
        i = i + 1;
        assert(r@ =~= v@.subrange(0, i as int));
    }
    assert(v@.subrange(0, v@.len() as int) =~= v@);
    r
}

/// A copy of a mapping.
pub fn copy_mapping(m: &Mapping) -> (r: Mapping)
    ensures
        r.entries@ == m.entries@,
{
    let mut entries: Vec<(String, usize)> = Vec::new();
    let mut i: usize = 0;
    while i < m.entries.len()
        invariant
            i <= m.entries@.len(),
            entries@ == m.entries@.subrange(0, i as int),
        decreases m.entries@.len() - i,
    {
        let (k, p) = (m.entries[i].0.clone(), m.entries[i].1);
        entries.push((k, p));
        i = i + 1;
        assert(entries@ =~= m.entries@.subrange(0, i as int));
    }
    assert(m.entries@.subrange(0, m.entries@.len() as int) =~= m.entries@);
    Mapping { entries }
}

/// Total bytes of the names of a mapping, cut off at `usize::MAX`.
pub fn mapping_key_bytes(m: &Mapping) -> (r: usize)
    ensures
        r == sat(key_bytes(entries_view(m.entries@))),
{
    let mut acc: usize = 0;
    let mut i: usize = 0;
    while i < m.entries.len()
        invariant
            i <= m.entries@.len(),
            acc == sat(key_bytes(entries_view(m.entries@.subrange(0, i as int)))),
        decreases m.entries@.len() - i,
    {
        let b = string_bytes(&m.entries[i].0);
        proof {
            let s = m.entries@.subrange(0, i as int + 1);
            assert(entries_view(s).drop_last() =~= entries_view(m.entries@.subrange(0, i as int)));
            lemma_key_bytes_nonneg(entries_view(m.entries@.subrange(0, i as int)));
        }
        acc = sat_add(acc, b);
        i = i + 1;
    }
    assert(m.entries@.subrange(0, m.entries@.len() as int) =~= m.entries@);
    acc
}

impl GetSize for Value {
    open spec fn size_spec(&self) -> usize {
        value_size(self@)
    }

    fn get_size(&self) -> (r: usize) {
        match self {
            Value::Int(_) => 8 + NODE_OVERHEAD,
            Value::Float(_) => 8 + NODE_OVERHEAD,
            Value::Bool(_) => 1 + NODE_OVERHEAD,
            Value::Nil => 1 + NODE_OVERHEAD,
            Value::String(s) => sat_add(string_bytes(s), NODE_OVERHEAD),
            Value::Collection(items) => {
                let a = sat_mul(items.len(), 8);
                sat_add(a, 16 + NODE_OVERHEAD + CONTAINER_OVERHEAD)
            },
            Value::Object(m) => {
                let a = sat_mul(m.entries.len(), 8);
                let k = mapping_key_bytes(m);
                proof {
                    lemma_key_bytes_nonneg(entries_view(m.entries@));
                }
                let b = sat_add(a, k);
                sat_add(b, 16 + NODE_OVERHEAD + CONTAINER_OVERHEAD)
            },
            Value::MemoryChunk(n) => *n,
            Value::Error(_) => 1024,
            Value::DPtr(_, _) => 16 + NODE_OVERHEAD,
            Value::FnPtrExternal(s, _) => sat_add(string_bytes(s), NODE_OVERHEAD),
        }
    }
}

/// A heap cell: a value, the size it is accounted for, and whether it is live.
#[derive(Debug, Clone)]
pub struct Cell {
    pub value: Value,
    pub size: usize,
    pub live: bool,
}

/// The content of a heap cell.
pub ghost struct CellView {
    pub value: ValueView,
    pub size: usize,
    pub live: bool,
}

impl View for Cell {
    type V = CellView;

    open spec fn view(&self) -> CellView {
        CellView { value: self.value@, size: self.size, live: self.live }
    }
}

/// Bytes accounted for one cell.
pub open spec fn cell_bytes(c: CellView) -> int {
    if c.live {
        c.size as int
    } else {
        0
    }
}

/// Sum of the marked sizes of the live cells.
pub open spec fn live_sum(cells: Seq<CellView>) -> int
    decreases cells.len(),
{
    if cells.len() == 0 {
        0
    } else {
        live_sum(cells.drop_last()) + cell_bytes(cells.last())
    }
}

/// Number of live cells.
pub open spec fn live_count(cells: Seq<CellView>) -> int
    decreases cells.len(),
{
    if cells.len() == 0 {
        0
    } else {
        live_count(cells.drop_last()) + (if cells.last().live { 1int } else { 0int })
    }
}

/// `p` addresses a live cell.
pub open spec fn points_live(cells: Seq<CellView>, p: usize) -> bool {
    p < cells.len() && cells[p as int].live
}

/// Every pointer held by a live cell addresses a live cell.
pub open spec fn closed(cells: Seq<CellView>) -> bool {
    forall|i: int, k: int|
        0 <= i < cells.len() && cells[i].live && 0 <= k < value_children(cells[i].value).len()
            ==> points_live(cells, #[trigger] value_children(cells[i].value)[k])
}

/// Every pointer of `ps` addresses a live cell.
pub open spec fn all_live(cells: Seq<CellView>, ps: Seq<usize>) -> bool {
    forall|k: int| 0 <= k < ps.len() ==> points_live(cells, #[trigger] ps[k])
}

/// `post` keeps every value and size of `pre`, and no cell was revived.
pub open spec fn heap_frame(pre: Seq<CellView>, post: Seq<CellView>) -> bool {
    &&& post.len() == pre.len()
    &&& forall|i: int| #![trigger post[i]] 0 <= i < pre.len() ==> post[i].value == pre[i].value && post[i].size == pre[i].size
        && (post[i].live ==> pre[i].live)
}

pub proof fn lemma_live_sum_nonneg(cells: Seq<CellView>)
    ensures
        live_sum(cells) >= 0,
        live_count(cells) >= 0,
    decreases cells.len(),
{
    if cells.len() > 0 {
        lemma_live_sum_nonneg(cells.drop_last());
    }
}

pub proof fn lemma_live_sum_update(cells: Seq<CellView>, i: int, c: CellView)
    requires
        0 <= i < cells.len(),
    ensures
        live_sum(cells.update(i, c)) == live_sum(cells) - cell_bytes(cells[i]) + cell_bytes(c),
        live_count(cells.update(i, c)) == live_count(cells) - (if cells[i].live { 1int } else { 0 }) + (if c.live { 1int } else { 0 }),
        cell_bytes(cells[i]) <= live_sum(cells),
    decreases cells.len(),
{
    let u = cells.update(i, c);
    lemma_live_sum_nonneg(cells.drop_last());
    if i == cells.len() - 1 {
        assert(u.drop_last() =~= cells.drop_last());
    } else {
        assert(u.drop_last() =~= cells.drop_last().update(i, c));
        lemma_live_sum_update(cells.drop_last(), i, c);
    }
}

pub proof fn lemma_live_sum_push(cells: Seq<CellView>, c: CellView)
    ensures
        live_sum(cells.push(c)) == live_sum(cells) + cell_bytes(c),
        live_count(cells.push(c)) == live_count(cells) + (if c.live { 1int } else { 0 }),
{
    assert(cells.push(c).drop_last() =~= cells);
}

/// The memory allocation of one execution instance: a heap of cells under a limit.
#[derive(Debug, Clone)]
pub struct MemoryAllocation {
    pub curr: usize,
    pub max: usize,
    pub cells: Vec<Cell>,
    pub charged: usize,
}

impl View for MemoryAllocation {
    type V = Seq<CellView>;

    open spec fn view(&self) -> Seq<CellView> {
        self.cells@.map_values(|c: Cell| c@)
    }
}

impl MemoryAllocation {
    /// An independent copy: the same cells, accounting and limit.
    pub fn duplicate(&self) -> (r: Self)
        ensures
            r@ == self@,
            r.curr == self.curr,
            r.max == self.max,
            r.charged == self.charged,
    {
        let mut cells: Vec<Cell> = Vec::new();
        let mut i: usize = 0;
        while i < self.cells.len()
            invariant
                i <= self.cells@.len(),
                cells@.map_values(|c: Cell| c@) == self.cells@.subrange(0, i as int).map_values(|c: Cell| c@),
            decreases self.cells@.len() - i,
        {
            let c = &self.cells[i];
            let copy = Cell { value: c.value.duplicate(), size: c.size, live: c.live };
            let ghost before = cells@;
            cells.push(copy);
            proof {
                assert(cells@.map_values(|c: Cell| c@) =~= before.map_values(|c: Cell| c@).push(copy@));
                assert(self.cells@.subrange(0, i as int + 1).map_values(|c: Cell| c@)
                    =~= self.cells@.subrange(0, i as int).map_values(|c: Cell| c@).push(self.cells@[i as int]@));
            }
            i = i + 1;
        }
        proof {
            assert(self.cells@.subrange(0, self.cells@.len() as int) =~= self.cells@);
        }
        MemoryAllocation { curr: self.curr, max: self.max, cells, charged: self.charged }
    }

    /// Accounting is consistent, within the limit, and live cells only point to live cells.
    pub open spec fn wf(&self) -> bool {
        &&& self.curr <= self.max
        &&& self.curr == live_sum(self@) + self.charged
        &&& closed(self@)
    }

    /// `p` addresses a live cell.
    pub open spec fn live(&self, p: usize) -> bool {
        points_live(self@, p)
    }

    /// The value in cell `p`.
    pub open spec fn value_at(&self, p: usize) -> ValueView {
        self@[p as int].value
    }

    /// Whether a request of `size` bytes fits under the limit.
    pub open spec fn fits(&self, size: usize) -> bool {
        self.curr + size <= self.max
    }

    /// An empty allocation with limit `max`.
    pub fn new(max: usize) -> (r: Self)
        ensures
            r.wf(),
            r.curr == 0,
            r.max == max,
            r.charged == 0,
            r@.len() == 0,
    {
        let r = MemoryAllocation { curr: 0, max, cells: Vec::new(), charged: 0 };
        assert(r@ =~= Seq::<CellView>::empty());
        r
    }

    /// Whether `size` more bytes can be allocated.
    pub fn check_alloc(&self, size: usize) -> (r: bool)
        requires
            self.curr <= self.max,
        ensures
            r == self.fits(size),
    {
        if size > self.max {
            return false;
        }
        let req_curr = self.max - size;
        req_curr >= self.curr
    }

    /// `Ok` when `size` more bytes can be allocated, `MemoryError` otherwise.
    pub fn check_alloc_err(&self, size: usize) -> (r: Result<(), MemoryError>)
        requires
            self.curr <= self.max,
        ensures
            r is Ok <==> self.fits(size),
    {
        if self.check_alloc(size) {
            return Ok(());
        }
        Err(MemoryError)
    }

    /// Bytes in use.
    pub fn curr(&self) -> (r: usize)
        ensures
            r == self.curr,
    {
        self.curr
    }

    /// The limit.
    pub fn max(&self) -> (r: usize)
        ensures
            r == self.max,
    {
        self.max
    }

    /// Number of live objects.
    pub fn obj_count(&self) -> (r: usize)
        ensures
            r == live_count(self@),
    {
        let mut n: usize = 0;
        let mut i: usize = 0;
        while i < self.cells.len()
            invariant
                i <= self.cells@.len(),
                n == live_count(self@.subrange(0, i as int)),
                n <= i,
            decreases self.cells@.len() - i,
        {
            proof {
                assert(self@.subrange(0, i as int + 1).drop_last() =~= self@.subrange(0, i as int));
            }
            if self.cells[i].live {
                n = n + 1;
            }
            i = i + 1;
        }
        assert(self@.subrange(0, self.cells@.len() as int) =~= self@);
        n
    }

    /// The value in live cell `p`.
    pub fn get(&self, p: usize) -> (r: &Value)
        requires
            self.live(p),
        ensures
            r@ == self.value_at(p),
    {
        &self.cells[p].value
    }

    /// Stores `value` in a new live cell, accounted for its size.
    pub fn allocate(&mut self, value: Value) -> (r: Result<usize, MemoryError>)
        requires
            old(self).wf(),
            all_live(old(self)@, value_children(value@)),
        ensures
            final(self).wf(),
            final(self).max == old(self).max,
            final(self).charged == old(self).charged,
            match r {
                Ok(p) => {
                    &&& old(self).fits(value_size(value@))
                    &&& p == old(self)@.len()
                    &&& final(self)@ == old(self)@.push(CellView { value: value@, size: value_size(value@), live: true })
                    &&& final(self).curr == old(self).curr + value_size(value@)
                },
                Err(_) => !old(self).fits(value_size(value@)) && final(self)@ == old(self)@ && final(self).curr == old(self).curr,
            },
    {
        let size = value.get_size();
        if !self.check_alloc(size) {
            return Err(MemoryError);
        }
        let ghost pre = self@;
        let p = self.cells.len();
        let ghost c = CellView { value: value@, size, live: true };
        self.cells.push(Cell { value, size, live: true });
        self.curr = self.curr + size;
        proof {
            assert(self@ =~= pre.push(c));
            lemma_live_sum_push(pre, c);
            assert forall|i: int, k: int|
                0 <= i < self@.len() && self@[i].live && 0 <= k < value_children(self@[i].value).len()
                implies points_live(self@, #[trigger] value_children(self@[i].value)[k]) by {
                if i < pre.len() {
                    assert(self@[i] == pre[i]);
                    assert(points_live(pre, value_children(pre[i].value)[k]));
                } else {
                    assert(points_live(pre, value_children(c.value)[k]));
                }
            }
        }
        Ok(p)
    }

    /// Accounts `n` bookkeeping bytes, if they fit.
    pub fn charge(&mut self, n: usize) -> (r: Result<(), MemoryError>)
        requires
            old(self).wf(),
        ensures
            final(self).wf(),
            final(self)@ == old(self)@,
            final(self).max == old(self).max,
            r is Ok <==> old(self).fits(n),
            r is Ok ==> final(self).curr == old(self).curr + n && final(self).charged == old(self).charged + n,
            r is Err ==> final(self).curr == old(self).curr && final(self).charged == old(self).charged,
    {
        if !self.check_alloc(n) {
            return Err(MemoryError);
        }
        proof {
            lemma_live_sum_nonneg(self@);
        }
        self.curr = self.curr + n;
        self.charged = self.charged + n;
        Ok(())
    }

    /// Returns `n` bookkeeping bytes, at most what is charged.
    pub fn release(&mut self, n: usize)
        requires
            old(self).wf(),
        ensures
            final(self).wf(),
            final(self)@ == old(self)@,
            final(self).max == old(self).max,
            final(self).charged == (if n <= old(self).charged { old(self).charged - n } else { 0 }),
            final(self).curr == old(self).curr - (old(self).charged - final(self).charged),
    {
        let r = if n <= self.charged { n } else { self.charged };
        proof {
            lemma_live_sum_nonneg(self@);
        }
        self.charged = self.charged - r;
        self.curr = self.curr - r;
    }

    /// Re-reads the size of live cell `p` and accounts the difference to its marked size.
    /// Growing fails with `MemoryError` when the growth does not fit.
    pub fn change_alloc(&mut self, p: usize) -> (r: Result<(), MemoryError>)
        requires
            old(self).wf(),
            old(self).live(p),
        ensures
            final(self).wf(),
            final(self).max == old(self).max,
            final(self).charged == old(self).charged,
            ({
                let old_size = old(self)@[p as int].size;
                let new_size = value_size(old(self)@[p as int].value);
                &&& r is Ok <==> (new_size <= old_size || old(self).fits((new_size - old_size) as usize))
                &&& r is Ok ==> final(self)@ == old(self)@.update(p as int, CellView { size: new_size, ..old(self)@[p as int] })
                    && final(self).curr == old(self).curr - old_size + new_size
                &&& r is Err ==> final(self)@ == old(self)@ && final(self).curr == old(self).curr
            }),
    {
        let marked = self.cells[p].size;
        let new_size = self.cells[p].value.get_size();
        let ghost pre = self@;
        if marked == new_size {
            proof {
                assert(pre.update(p as int, CellView { size: new_size, ..pre[p as int] }) =~= pre);
            }
            return Ok(());
        }
        let ghost c = CellView { size: new_size, ..pre[p as int] };
        proof {
            lemma_live_sum_update(pre, p as int, c);
            lemma_live_sum_nonneg(pre);
        }
        if marked < new_size {
            if !self.check_alloc(new_size - marked) {
                return Err(MemoryError);
            }
            self.curr = self.curr + (new_size - marked);
        } else {
            self.curr = self.curr - (marked - new_size);
        }
        let v = self.cells[p].value.duplicate();
        self.cells.set(p, Cell { value: v, size: new_size, live: true });
        proof {
            assert(self@ =~= pre.update(p as int, c));
            assert forall|i: int, k: int|
                0 <= i < self@.len() && self@[i].live && 0 <= k < value_children(self@[i].value).len()
                implies points_live(self@, #[trigger] value_children(self@[i].value)[k]) by {
                assert(points_live(pre, value_children(pre[i].value)[k]));
            }
        }
        Ok(())
    }

    /// Replaces the value of live cell `p`, keeping its marked size.
    pub fn set_value(&mut self, p: usize, value: Value)
        requires
            old(self).wf(),
            old(self).live(p),
            all_live(old(self)@, value_children(value@)),
        ensures
            final(self).wf(),
            final(self).max == old(self).max,
            final(self).charged == old(self).charged,
            final(self).curr == old(self).curr,
            final(self)@ == old(self)@.update(p as int, CellView { value: value@, ..old(self)@[p as int] }),
    {
        let ghost pre = self@;
        let ghost c = CellView { value: value@, ..pre[p as int] };
        let size = self.cells[p].size;
        self.cells.set(p, Cell { value, size, live: true });
        proof {
            assert(self@ =~= pre.update(p as int, c));
            lemma_live_sum_update(pre, p as int, c);
            assert forall|i: int, k: int|
                0 <= i < self@.len() && self@[i].live && 0 <= k < value_children(self@[i].value).len()
                implies points_live(self@, #[trigger] value_children(self@[i].value)[k]) by {
                if i != p {
                    assert(points_live(pre, value_children(pre[i].value)[k]));
                } else {
                    assert(points_live(pre, value_children(c.value)[k]));
                }
            }
        }
    }

    /// Frees live cell `p` when no live cell points to it; returns whether it did.
    pub fn free(&mut self, p: usize) -> (r: bool)
        requires
            old(self).wf(),
        ensures
            final(self).wf(),
            final(self).max == old(self).max,
            final(self).charged == old(self).charged,
            r ==> final(self)@ == old(self)@.update(p as int, CellView { live: false, ..old(self)@[p as int] })
                && final(self).curr == old(self).curr - old(self)@[p as int].size,
            !r ==> final(self)@ == old(self)@ && final(self).curr == old(self).curr,
            r <==> old(self).live(p) && !(exists|i: int, k: int|
                0 <= i < old(self)@.len() && old(self)@[i].live && 0 <= k < value_children(old(self)@[i].value).len()
                && #[trigger] value_children(old(self)@[i].value)[k] == p),
    {
        if p >= self.cells.len() || !self.cells[p].live {
            return false;
        }
        let mut i: usize = 0;
        while i < self.cells.len()
            invariant
                i <= self@.len(),
                self.wf(),
                forall|j: int, k: int|
                    0 <= j < i && self@[j].live && 0 <= k < value_children(self@[j].value).len()
                    ==> #[trigger] value_children(self@[j].value)[k] != p,
            decreases self@.len() - i,
        {
            if self.cells[i].live && refers_to(&self.cells[i].value, p) {
                proof {
                    assert(self.cells@[i as int]@ == self@[i as int]);
                    let k = choose|k: int| 0 <= k < value_children(self@[i as int].value).len() && value_children(self@[i as int].value)[k] == p;
                    assert(value_children(self@[i as int].value)[k] == p);
                }
                return false;
            }
            i = i + 1;
        }
        let ghost pre = self@;
        let ghost c = CellView { live: false, ..pre[p as int] };
        let size = self.cells[p].size;
        let v = self.cells[p].value.duplicate();
        proof {
            lemma_live_sum_update(pre, p as int, c);
            lemma_live_sum_nonneg(pre);
        }
        self.cells.set(p, Cell { value: v, size, live: false });
        self.curr = self.curr - size;
        proof {
            assert(self@ =~= pre.update(p as int, c));
            assert forall|j: int, k: int|
                0 <= j < self@.len() && self@[j].live && 0 <= k < value_children(self@[j].value).len()
                implies points_live(self@, #[trigger] value_children(self@[j].value)[k]) by {
                assert(points_live(pre, value_children(pre[j].value)[k]));
                assert(value_children(pre[j].value)[k] != p);
            }
        }
        true
    }
}

/// Whether value `v` holds pointer `p`.
pub fn refers_to(v: &Value, p: usize) -> (r: bool)
    ensures
        r <==> exists|k: int| 0 <= k < value_children(v@).len() && value_children(v@)[k] == p,
{
    match v {
        Value::Collection(items) => {
            let mut i: usize = 0;
            while i < items.len()
                invariant
                    i <= items@.len(),
                    value_children(v@) == items@,
                    forall|k: int| 0 <= k < i ==> items@[k] != p,
                decreases items@.len() - i,
            {
                if items[i] == p {
                    assert(value_children(v@)[i as int] == p);
                    return true;
                }
                i = i + 1;
            }
            false
        },
        Value::Object(m) => {
            let mut i: usize = 0;
            while i < m.entries.len()
                invariant
                    i <= m.entries@.len(),
                    forall|k: int| 0 <= k < i ==> value_children(v@)[k] != p,
                    value_children(v@).len() == m.entries@.len(),
                    forall|k: int| 0 <= k < m.entries@.len() ==> value_children(v@)[k] == m.entries@[k].1,
                decreases m.entries@.len() - i,
            {
                if m.entries[i].1 == p {
                    assert(value_children(v@)[i as int] == p);
                    return true;
                }
                i = i + 1;
            }
            false
        },
        _ => false,
    }
}


/// Number of `false` entries.
pub open spec fn count_false(s: Seq<bool>) -> nat
    decreases s.len(),
{
    if s.len() == 0 {
        0
    } else {
        count_false(s.drop_last()) + (if s.last() { 0nat } else { 1nat })
    }
}

proof fn lemma_count_false_set(s: Seq<bool>, i: int)
    requires
        0 <= i < s.len(),
        !s[i],
    ensures
        count_false(s.update(i, true)) + 1 == count_false(s),
    decreases s.len(),
{
    let u = s.update(i, true);
    if i == s.len() - 1 {
        assert(u.drop_last() =~= s.drop_last());
    } else {
        assert(u.drop_last() =~= s.drop_last().update(i, true));
        lemma_count_false_set(s.drop_last(), i);
    }
}

/// The pointers that value `v` holds.
pub fn value_targets(v: &Value) -> (r: Vec<usize>)
    ensures
        r@ == value_children(v@),
{
    match v {
        Value::Collection(items) => copy_ptrs(items),
        Value::Object(m) => {
            let mut r: Vec<usize> = Vec::new();
            let mut i: usize = 0;
            while i < m.entries.len()
                invariant
                    i <= m.entries@.len(),
                    value_children(v@).len() == m.entries@.len(),
                    forall|k: int| 0 <= k < m.entries@.len() ==> value_children(v@)[k] == m.entries@[k].1,
                    r@ == value_children(v@).subrange(0, i as int),
                decreases m.entries@.len() - i,
            {
                r.push(m.entries[i].1);
                i = i + 1;
                assert(r@ =~= value_children(v@).subrange(0, i as int));
            }
            assert(value_children(v@).subrange(0, i as int) =~= value_children(v@));
            r
        },
        _ => {
            let r: Vec<usize> = Vec::new();
            assert(r@ =~= value_children(v@));
            r
        },
    }
}

/// Cell `j` is reached from `roots` by following at most `n` pointers held by values.
pub open spec fn reaches(cells: Seq<CellView>, roots: Seq<usize>, j: int, n: nat) -> bool
    decreases n,
{
    if n == 0 {
        exists|k: int| 0 <= k < roots.len() && roots[k] == j
    } else {
        reaches(cells, roots, j, (n - 1) as nat) || exists|i: int, k: int|
            0 <= i < cells.len() && reaches(cells, roots, i, (n - 1) as nat)
            && 0 <= k < value_children(cells[i].value).len() && value_children(cells[i].value)[k] == j
    }
}

/// Cell `j` is reached from `roots` by following pointers held by values.
pub open spec fn reachable(cells: Seq<CellView>, roots: Seq<usize>, j: int) -> bool {
    exists|n: nat| reaches(cells, roots, j, n)
}

proof fn lemma_reach_child(cells: Seq<CellView>, roots: Seq<usize>, i: int, k: int)
    requires
        0 <= i < cells.len(),
        reachable(cells, roots, i),
        0 <= k < value_children(cells[i].value).len(),
    ensures
        reachable(cells, roots, value_children(cells[i].value)[k] as int),
{
    let n = choose|n: nat| reaches(cells, roots, i, n);
    let j = value_children(cells[i].value)[k] as int;
    assert(reaches(cells, roots, j, n + 1));
}

proof fn lemma_reach_root(cells: Seq<CellView>, roots: Seq<usize>, k: int)
    requires
        0 <= k < roots.len(),
    ensures
        reachable(cells, roots, roots[k] as int),
{
    assert(reaches(cells, roots, roots[k] as int, 0));
}

proof fn lemma_reaches_live(pre: Seq<CellView>, post: Seq<CellView>, roots: Seq<usize>, j: int, n: nat)
    requires
        post.len() == pre.len(),
        forall|i: int| #![trigger post[i]] 0 <= i < pre.len() ==> post[i].value == pre[i].value,
        closed(post),
        all_live(post, roots),
        reaches(pre, roots, j, n),
    ensures
        0 <= j < post.len(),
        post[j].live,
    decreases n,
{
    if n == 0 {
        let k = choose|k: int| 0 <= k < roots.len() && roots[k] == j;
        assert(points_live(post, roots[k]));
    } else if reaches(pre, roots, j, (n - 1) as nat) {
        lemma_reaches_live(pre, post, roots, j, (n - 1) as nat);
    } else {
        let (i, k) = choose|i: int, k: int|
            0 <= i < pre.len() && reaches(pre, roots, i, (n - 1) as nat)
            && 0 <= k < value_children(pre[i].value).len() && value_children(pre[i].value)[k] == j;
        lemma_reaches_live(pre, post, roots, i, (n - 1) as nat);
        assert(post[i].value == pre[i].value);
        assert(points_live(post, value_children(post[i].value)[k]));
    }
}

impl MemoryAllocation {
    /// Frees every live cell that cannot be reached from `roots`.
    ///
    /// Afterwards the live cells are exactly those reachable from the roots;
    /// values and marked sizes are untouched.
    pub fn collect(&mut self, roots: &Vec<usize>)
        requires
            old(self).wf(),
            all_live(old(self)@, roots@),
        ensures
            final(self).wf(),
            heap_frame(old(self)@, final(self)@),
            all_live(final(self)@, roots@),
            forall|j: int| 0 <= j < final(self)@.len() ==> ((#[trigger] final(self)@[j]).live <==> reachable(old(self)@, roots@, j)),
            final(self).max == old(self).max,
            final(self).charged == old(self).charged,
            final(self).curr <= old(self).curr,
    {
        let n = self.cells.len();
        let ghost pre = self@;
        let mut marked: Vec<bool> = Vec::new();
        let mut i: usize = 0;
        while i < n
            invariant
                i <= n,
                n == pre.len(),
                marked@.len() == i,
                forall|j: int| 0 <= j < i ==> !marked@[j],
            decreases n - i,
        {
            marked.push(false);
            i = i + 1;
        }
        let mut work: Vec<usize> = Vec::new();
        let mut ri: usize = 0;
        while ri < roots.len()
            invariant
                self@ == pre,
                n == pre.len(),
                closed(pre),
                all_live(pre, roots@),
                ri <= roots@.len(),
                marked@.len() == n,
                forall|j: int| 0 <= j < n && #[trigger] marked@[j] ==> pre[j].live,
                forall|k: int| 0 <= k < work@.len() ==> #[trigger] work@[k] < n && marked@[work@[k] as int],
                forall|k: int| 0 <= k < ri ==> #[trigger] marked@[roots@[k] as int],
                forall|j: int| 0 <= j < n && #[trigger] marked@[j] ==> work@.contains(j as usize),
                forall|j: int| 0 <= j < n && #[trigger] marked@[j] ==> reachable(pre, roots@, j),
            decreases roots@.len() - ri,
        {
            let r = roots[ri];
            assert(points_live(pre, roots@[ri as int]));
            if !marked[r] {
                let ghost wpre = work@;
                let ghost mpre = marked@;
                marked.set(r, true);
                work.push(r);
                assert(work@[work@.len() - 1] == r);
                assert forall|j: int| 0 <= j < n && #[trigger] marked@[j] implies work@.contains(j as usize) by {
                    if j != r {
                        assert(mpre[j]);
                        let t = choose|t: int| 0 <= t < wpre.len() && wpre[t] == j as usize;
                        assert(work@[t] == j as usize);
                    }
                }
                assert forall|k: int| 0 <= k < ri implies #[trigger] marked@[roots@[k] as int] by {
                    assert(mpre[roots@[k] as int]);
                }
                assert forall|j: int| 0 <= j < n && #[trigger] marked@[j] implies reachable(pre, roots@, j) by {
                    if j == r {
                        lemma_reach_root(pre, roots@, ri as int);
                    } else {
                        assert(mpre[j]);
                    }
                }
            }
            ri = ri + 1;
        }
        while work.len() > 0
            invariant
                self@ == pre,
                n == pre.len(),
                closed(pre),
                all_live(pre, roots@),
                marked@.len() == n,
                forall|j: int| 0 <= j < n && #[trigger] marked@[j] ==> pre[j].live,
                forall|k: int| 0 <= k < work@.len() ==> #[trigger] work@[k] < n && marked@[work@[k] as int],
                forall|k: int| 0 <= k < roots@.len() ==> #[trigger] marked@[roots@[k] as int],
                forall|j: int, k: int|
                    0 <= j < n && marked@[j] && !work@.contains(j as usize) && 0 <= k < value_children(pre[j].value).len()
                    ==> marked@[#[trigger] value_children(pre[j].value)[k] as int],
                forall|j: int| 0 <= j < n && #[trigger] marked@[j] ==> reachable(pre, roots@, j),
            decreases count_false(marked@), work@.len(),
        {
            let ghost c0 = count_false(marked@);
            let ghost w0 = work@.len();
            let ghost wold = work@;
            let cur = work.pop().unwrap();
            proof {
                assert(wold =~= work@.push(cur));
                assert forall|j: int| 0 <= j < n && j != cur && !work@.contains(j as usize) implies !#[trigger] wold.contains(j as usize) by {
                    if wold.contains(j as usize) {
                        let t = choose|t: int| 0 <= t < wold.len() && wold[t] == j as usize;
                        if t < work@.len() {
                            assert(work@[t] == j as usize);
                        }
                    }
                }
            }
            let children = value_targets(&self.cells[cur].value);
            assert(self.cells@[cur as int]@ == pre[cur as int]);
            let mut ci: usize = 0;
            while ci < children.len()
                invariant
                    self@ == pre,
                    n == pre.len(),
                    closed(pre),
                    cur < n,
                    all_live(pre, roots@),
                    marked@[cur as int],
                    pre[cur as int].live,
                    children@ == value_children(pre[cur as int].value),
                    ci <= children@.len(),
                    marked@.len() == n,
                    forall|j: int| 0 <= j < n && #[trigger] marked@[j] ==> pre[j].live,
                    forall|k: int| 0 <= k < work@.len() ==> #[trigger] work@[k] < n && marked@[work@[k] as int],
                    forall|k: int| 0 <= k < roots@.len() ==> #[trigger] marked@[roots@[k] as int],
                    forall|j: int, k: int|
                        0 <= j < n && j != cur && marked@[j] && !work@.contains(j as usize) && 0 <= k < value_children(pre[j].value).len()
                        ==> marked@[#[trigger] value_children(pre[j].value)[k] as int],
                    forall|k: int| 0 <= k < ci ==> marked@[#[trigger] children@[k] as int],
                    forall|j: int| 0 <= j < n && #[trigger] marked@[j] ==> reachable(pre, roots@, j),
                    count_false(marked@) + work@.len() == c0 + w0 - 1,
                    count_false(marked@) <= c0,
                decreases children@.len() - ci,
            {
                let c = children[ci];
                assert(points_live(pre, value_children(pre[cur as int].value)[ci as int]));
                if !marked[c] {
                    proof {
                        lemma_count_false_set(marked@, c as int);
                    }
                    let ghost wpre = work@;
                    let ghost mpre = marked@;
                    marked.set(c, true);
                    work.push(c);
                    assert(work@[work@.len() - 1] == c);
                    assert forall|k: int| 0 <= k < roots@.len() implies #[trigger] marked@[roots@[k] as int] by {
                        assert(points_live(pre, roots@[k]));
                        assert(mpre[roots@[k] as int]);
                    }
                    assert forall|k: int| 0 <= k < ci implies marked@[#[trigger] children@[k] as int] by {
                        assert(points_live(pre, value_children(pre[cur as int].value)[k]));
                        assert(mpre[children@[k] as int]);
                    }
                    assert forall|t: int| 0 <= t < work@.len() implies #[trigger] work@[t] < n && marked@[work@[t] as int] by {
                        if t < wpre.len() {
                            assert(mpre[wpre[t] as int]);
                        }
                    }
                    assert forall|j: int, k: int|
                        0 <= j < n && j != cur && marked@[j] && !work@.contains(j as usize) && 0 <= k < value_children(pre[j].value).len()
                        implies marked@[#[trigger] value_children(pre[j].value)[k] as int] by {
                        assert(j != c);
                        if wpre.contains(j as usize) {
                            let t = choose|t: int| 0 <= t < wpre.len() && wpre[t] == j as usize;
                            assert(work@[t] == j as usize);
                        }
                        assert(!wpre.contains(j as usize));
                        assert(mpre[j]);
                        assert(points_live(pre, value_children(pre[j].value)[k]));
                        assert(mpre[value_children(pre[j].value)[k] as int]);
                    }
                    assert forall|j: int| 0 <= j < n && #[trigger] marked@[j] implies pre[j].live by {
                        if j == c {
                            assert(points_live(pre, c));
                        }
                    }
                    assert forall|j: int| 0 <= j < n && #[trigger] marked@[j] implies reachable(pre, roots@, j) by {
                        if j == c {
                            assert(mpre[cur as int]);
                            lemma_reach_child(pre, roots@, cur as int, ci as int);
                        } else {
                            assert(mpre[j]);
                        }
                    }
                }
                ci = ci + 1;
            }
            assert forall|j: int, k: int|
                0 <= j < n && marked@[j] && !work@.contains(j as usize) && 0 <= k < value_children(pre[j].value).len()
                implies marked@[#[trigger] value_children(pre[j].value)[k] as int] by {
                if j == cur {
                    assert(children@[k] == value_children(pre[j].value)[k]);
                }
            }
        }
        // Sweep: every live cell that was not marked is freed.
        let mut si: usize = 0;
        while si < n
            invariant
                si <= n,
                n == pre.len(),
                self@.len() == n,
                closed(pre),
                marked@.len() == n,
                all_live(pre, roots@),
                forall|j: int| 0 <= j < n && #[trigger] marked@[j] ==> pre[j].live,
                forall|k: int| 0 <= k < roots@.len() ==> #[trigger] marked@[roots@[k] as int],
                forall|j: int, k: int|
                    0 <= j < n && marked@[j] && 0 <= k < value_children(pre[j].value).len()
                    ==> marked@[#[trigger] value_children(pre[j].value)[k] as int],
                forall|j: int| #![trigger self@[j]] 0 <= j < n ==> self@[j].value == pre[j].value && self@[j].size == pre[j].size,
                forall|j: int| #![trigger self@[j]] 0 <= j < si ==> self@[j].live == marked@[j],
                forall|j: int| 0 <= j < n && #[trigger] marked@[j] ==> reachable(pre, roots@, j),
                forall|j: int| #![trigger self@[j]] si <= j < n ==> self@[j] == pre[j],
                self.curr == live_sum(self@) + self.charged,
                self.curr <= old(self).curr,
                self.max == old(self).max,
                self.charged == old(self).charged,
                old(self).curr <= old(self).max,
            decreases n - si,
        {
            if self.cells[si].live && !marked[si] {
                let ghost before = self@;
                let ghost c = CellView { live: false, ..before[si as int] };
                proof {
                    lemma_live_sum_update(before, si as int, c);
                    lemma_live_sum_nonneg(before);
                }
                let size = self.cells[si].size;
                let v = self.cells[si].value.duplicate();
                self.cells.set(si, Cell { value: v, size, live: false });
                self.curr = self.curr - size;
                assert(self@ =~= before.update(si as int, c));
            }
            si = si + 1;
        }
        proof {
            assert forall|i: int, k: int|
                0 <= i < self@.len() && self@[i].live && 0 <= k < value_children(self@[i].value).len()
                implies points_live(self@, #[trigger] value_children(self@[i].value)[k]) by {
                let t = value_children(pre[i].value)[k];
                assert(marked@[t as int]);
                assert(points_live(pre, t));
                assert(self@[t as int].live == marked@[t as int]);
            }
            assert forall|k: int| 0 <= k < roots@.len() implies points_live(self@, #[trigger] roots@[k]) by {
                assert(points_live(pre, roots@[k]));
                assert(self@[roots@[k] as int].live == marked@[roots@[k] as int]);
            }
            assert forall|i: int| #![trigger self@[i]] 0 <= i < pre.len() implies self@[i].value == pre[i].value
                && self@[i].size == pre[i].size && (self@[i].live ==> pre[i].live) by {
            }
            assert forall|j: int| 0 <= j < self@.len() implies ((#[trigger] self@[j]).live <==> reachable(pre, roots@, j)) by {
                if self@[j].live {
                    assert(marked@[j]);
                }
                if reachable(pre, roots@, j) {
                    let m = choose|m: nat| reaches(pre, roots@, j, m);
                    lemma_reaches_live(pre, self@, roots@, j, m);
                }
            }
        }
    }
}

} // verus!
