//! Values as text, within the limits of a walk.
//!
//! Lists show as `[a, b]`, objects as `{"k": v}`, strings in double quotes,
//! integers in decimal. The text of a float, and the description of an error,
//! come from the host, which hands them in for each such cell. Every piece of text and every
//! container is charged against the walk's work and memory limits, and each
//! level of nesting against its depth limit; any limit that is hit makes the
//! whole walk fail.
use vstd::prelude::*;
use vstd::string::StringExecFns;
use crate::mem::{CellView, MemoryAllocation, Value, ValueView, byte_len, key_bytes, string_bytes};
use crate::recurse::{RecurseConfig, RecurseRestricter, RecursionError, depth_allowed};
use crate::text::{decimal, decimal_text, decimal_u64, int_text, int_to_text};

verus! {

/// Whether `amount` more units of work are granted at work count `curr`.
pub open spec fn allowed(config: RecurseConfig, curr: u64, amount: int) -> bool {
    &&& curr + amount <= u64::MAX
    &&& match config.inst_limit {
        Some(lim) => curr <= lim,
        None => true,
    }
}

/// The walk one level deeper, when the depth limit allows it.
pub open spec fn deeper(r: RecurseRestricter) -> Option<RecurseRestricter> {
    if r.curr_depth < u32::MAX && depth_allowed(r.config, r.curr_depth + 1) {
        Some(RecurseRestricter { curr_depth: (r.curr_depth + 1) as u32, ..r })
    } else {
        None
    }
}

/// `text`, once its length in bytes is charged; `room` tells whether the
/// memory still fits the walk's own use.
pub open spec fn charged(r: RecurseRestricter, room: bool, text: Seq<char>) -> Result<Seq<char>, RecursionError> {
    if allowed(r.config, r.curr_inst, byte_len(text) as int) && room {
        Ok(text)
    } else {
        Err(RecursionError)
    }
}

/// `s` in double quotes.
pub open spec fn quoted(s: Seq<char>) -> Seq<char> {
    "\""@ + s + "\""@
}

/// The parts with `sep` between each two.
pub open spec fn joined(parts: Seq<Seq<char>>, sep: Seq<char>) -> Seq<char>
    decreases parts.len(),
{
    if parts.len() == 0 {
        Seq::empty()
    } else if parts.len() == 1 {
        parts[0]
    } else {
        joined(parts.drop_last(), sep) + sep + parts.last()
    }
}

/// The host's texts by cell, as characters.
pub open spec fn texts_view(t: Seq<Option<String>>) -> Seq<Option<Seq<char>>> {
    t.map_values(|o: Option<String>| match o {
        Some(s) => Some(s@),
        None => None,
    })
}

/// The text of the value in cell `p`.
pub open spec fn render_spec(
    cells: Seq<CellView>,
    p: usize,
    r: RecurseRestricter,
    room: bool,
    texts: Seq<Option<Seq<char>>>,
) -> Result<Seq<char>, RecursionError>
    decreases 2 * (u32::MAX - r.curr_depth) + 1, 0nat,
{
    if !allowed(r.config, r.curr_inst, 1) {
        Err(RecursionError)
    } else {
        match cells[p as int].value {
            ValueView::Int(i) => charged(r, room, int_text(i as int)),
            ValueView::Float(_) => match texts[p as int] {
                Some(t) => charged(r, room, t),
                None => Err(RecursionError),
            },
            ValueView::Error(_) => match texts[p as int] {
                Some(t) => charged(r, room, "_Error("@ + t + ")"@),
                None => Err(RecursionError),
            },
            ValueView::Bool(b) => charged(r, room, if b { "true"@ } else { "false"@ }),
            ValueView::String(s) => charged(r, room, quoted(s)),
            ValueView::Collection(items) => if !(allowed(r.config, r.curr_inst, (items.len() + 1) as int * 2) && room) {
                Err(RecursionError)
            } else if items.len() == 0 {
                Ok("[]"@)
            } else {
                match deeper(r) {
                    None => Err(RecursionError),
                    Some(r2) => match render_list(cells, items, r2, room, texts) {
                        Err(e) => Err(e),
                        Ok(parts) => Ok("["@ + joined(parts, ", "@) + "]"@),
                    },
                }
            },
            ValueView::Object(es) => if !(allowed(r.config, r.curr_inst, (es.len() + 1) as int * 4) && room) {
                Err(RecursionError)
            } else if !(allowed(r.config, r.curr_inst, key_bytes(es)) && room) {
                Err(RecursionError)
            } else if es.len() == 0 {
                Ok("{}"@)
            } else {
                match deeper(r) {
                    None => Err(RecursionError),
                    Some(r2) => match render_entries(cells, es, r2, room, texts) {
                        Err(e) => Err(e),
                        Ok(parts) => Ok("{"@ + joined(parts, ", "@) + "}"@),
                    },
                }
            },
            ValueView::Nil => charged(r, room, "None"@),
            ValueView::MemoryChunk(n) => charged(r, room, "_MemChunk(size: "@ + decimal(n as nat) + ")"@),
            ValueView::DPtr(ptr, n) => charged(
                r,
                room,
                "DynFuncPtr(loc: "@ + decimal(ptr as nat) + ", arg_len: "@ + decimal(n as nat) + ")"@,
            ),
            ValueView::FnPtrExternal(name, n) => charged(
                r,
                room,
                "DynExternFuncPtr(loc: "@ + name + ", arg_len: "@ + decimal(n as nat) + ")"@,
            ),
        }
    }
}

/// The texts of the values in cells `ps`, one walk level down (`r`).
pub open spec fn render_list(
    cells: Seq<CellView>,
    ps: Seq<usize>,
    r: RecurseRestricter,
    room: bool,
    texts: Seq<Option<Seq<char>>>,
) -> Result<Seq<Seq<char>>, RecursionError>
    decreases 2 * (u32::MAX - r.curr_depth) + 2, ps.len(),
{
    if ps.len() == 0 {
        Ok(Seq::empty())
    } else {
        match render_list(cells, ps.drop_last(), r, room, texts) {
            Err(e) => Err(e),
            Ok(front) => match render_spec(cells, ps.last(), r, room, texts) {
                Err(e) => Err(e),
                Ok(t) => Ok(front.push(t)),
            },
        }
    }
}

/// The texts `"key": value` of the attributes `es`, one walk level down (`r`).
pub open spec fn render_entries(
    cells: Seq<CellView>,
    es: Seq<(Seq<char>, usize)>,
    r: RecurseRestricter,
    room: bool,
    texts: Seq<Option<Seq<char>>>,
) -> Result<Seq<Seq<char>>, RecursionError>
    decreases 2 * (u32::MAX - r.curr_depth) + 2, es.len(),
{
    if es.len() == 0 {
        Ok(Seq::empty())
    } else {
        match render_entries(cells, es.drop_last(), r, room, texts) {
            Err(e) => Err(e),
            Ok(front) => match render_spec(cells, es.last().1, r, room, texts) {
                Err(e) => Err(e),
                Ok(t) => Ok(front.push(quoted(es.last().0) + ": "@ + t)),
            },
        }
    }
}

/// What the walk makes of the value in cell `p` of `mem`.
pub open spec fn rendered(mem: &MemoryAllocation, p: usize, r: RecurseRestricter, texts: Seq<Option<String>>) -> Result<Seq<char>, RecursionError> {
    render_spec(mem@, p, r, mem.fits(r.curr_mem), texts_view(texts))
}

/// `res` is the string form of `spec_res`.
pub open spec fn text_result(res: Result<String, RecursionError>, spec_res: Result<Seq<char>, RecursionError>) -> bool {
    match res {
        Ok(t) => spec_res == Ok::<Seq<char>, RecursionError>(t@),
        Err(e) => spec_res == Err::<Seq<char>, RecursionError>(e),
    }
}

/// Charges `amount` against the walk; `false` when a limit refuses it.
fn charge(mem: &MemoryAllocation, r: &RecurseRestricter, amount: u128) -> (ok: bool)
    requires
        mem.curr <= mem.max,
    ensures
        ok == (allowed(r.config, r.curr_inst, amount as int) && mem.fits(r.curr_mem)),
{
    if amount > u64::MAX as u128 {
        return false;
    }
    r.consume_mem(amount as u64, mem).is_ok()
}

/// `text` once its length is charged.
fn counted(mem: &MemoryAllocation, r: &RecurseRestricter, text: String) -> (res: Result<String, RecursionError>)
    requires
        mem.curr <= mem.max,
    ensures
        text_result(res, charged(*r, mem.fits(r.curr_mem), text@)),
{
    if charge(mem, r, string_bytes(&text) as u128) {
        Ok(text)
    } else {
        Err(RecursionError)
    }
}

/// The walk one level deeper, when the depth limit allows it.
fn go_deeper(r: &RecurseRestricter) -> (res: Option<RecurseRestricter>)
    ensures
        res == deeper(*r),
{
    if r.curr_depth == u32::MAX {
        return None;
    }
    match r.incr() {
        Ok(next) => Some(next),
        Err(_) => None,
    }
}

/// `a` followed by `b`.
fn cat(a: String, b: &str) -> (r: String)
    ensures
        r@ == a@ + b@,
{
    a.concat(b)
}

impl MemoryAllocation {
    /// The value in cell `p` as text, within the limits of the walk `r`;
    /// `texts` holds the host's text of each float cell and description of
    /// each error cell (a cell without one cannot be shown).
    pub fn to_string_safe(&self, p: usize, r: RecurseRestricter, texts: &Vec<Option<String>>) -> (res: Result<String, RecursionError>)
        requires
            self.wf(),
            self.live(p),
            texts@.len() == self@.len(),
        ensures
            text_result(res, rendered(self, p, r, texts@)),
        decreases 2 * (u32::MAX - r.curr_depth) + 1, 0nat,
    {
        let ghost room = self.fits(r.curr_mem);
        let ghost tv = texts_view(texts@);
        if r.consume_inst(1).is_err() {
            return Err(RecursionError);
        }
        proof {
            reveal_strlit("true");
            reveal_strlit("false");
            reveal_strlit("\"");
            reveal_strlit("None");
            reveal_strlit("[]");
            reveal_strlit("{}");
            reveal_strlit("[");
            reveal_strlit("]");
            reveal_strlit("{");
            reveal_strlit("}");
            reveal_strlit(", ");
            reveal_strlit(": ");
            reveal_strlit(")");
            reveal_strlit("_MemChunk(size: ");
            reveal_strlit("_Error(");
            reveal_strlit("DynFuncPtr(loc: ");
            reveal_strlit(", arg_len: ");
            reveal_strlit("DynExternFuncPtr(loc: ");
        }
        match self.get(p) {
            Value::Int(i) => counted(self, &r, int_to_text(*i)),
            Value::Float(_) => {
                assert(tv[p as int] == match texts@[p as int] { Some(s) => Some(s@), None => None::<Seq<char>> });
                match &texts[p] {
                    Some(t) => counted(self, &r, t.clone()),
                    None => Err(RecursionError),
                }
            },
            Value::Error(_) => {
                assert(tv[p as int] == match texts@[p as int] { Some(s) => Some(s@), None => None::<Seq<char>> });
                match &texts[p] {
                    Some(t) => counted(self, &r, cat(cat(String::from_str("_Error("), t.as_str()), ")")),
                    None => Err(RecursionError),
                }
            },
            Value::Bool(b) => {
                let t = if *b { String::from_str("true") } else { String::from_str("false") };
                counted(self, &r, t)
            },
            Value::String(s) => {
                let t = cat(cat(String::from_str("\""), s.as_str()), "\"");
                counted(self, &r, t)
            },
            Value::Collection(items) => {
                let n = items.len() as u128;
                if !charge(self, &r, (n + 1) * 2) {
                    return Err(RecursionError);
                }
                if items.len() == 0 {
                    return Ok(String::from_str("[]"));
                }
                let r2 = match go_deeper(&r) {
                    Some(r2) => r2,
                    None => return Err(RecursionError),
                };
                let mut out = String::from_str("[");
                let mut i: usize = 0;
                proof {
                    assert forall|k: int| 0 <= k < items@.len() implies self.live(#[trigger] items@[k]) by {
                        assert(crate::mem::value_children(self.value_at(p))[k] == items@[k]);
                        assert(crate::mem::points_live(self@, crate::mem::value_children(self.value_at(p))[k]));
                    }
                    assert(items@.subrange(0, 0) =~= Seq::<usize>::empty());
                }
                while i < items.len()
                    invariant
                        self.wf(),
                        texts@.len() == self@.len(),
                        self.value_at(p) == ValueView::Collection(items@),
                        0 <= i <= items@.len(),
                        r2 == deeper(r)->0,
                        deeper(r) is Some,
                        room == self.fits(r.curr_mem),
                        tv == texts_view(texts@),
                        forall|k: int| 0 <= k < items@.len() ==> self.live(#[trigger] items@[k]),
                        render_list(self@, items@.subrange(0, i as int), r2, room, tv) is Ok,
                        out@ == "["@ + joined(render_list(self@, items@.subrange(0, i as int), r2, room, tv)->Ok_0, ", "@),
                    decreases items@.len() - i,
                {
                    proof {
                        let sub = items@.subrange(0, i as int + 1);
                        assert(sub.drop_last() =~= items@.subrange(0, i as int));
                        assert(sub.last() == items@[i as int]);
                    }
                    let part = match self.to_string_safe(items[i], r2, texts) {
                        Ok(t) => t,
                        Err(e) => {
                            proof {
                                lemma_list_err(self@, items@, i as int + 1, r2, room, tv);
                            }
                            return Err(e);
                        },
                    };
                    proof {
                        let front = render_list(self@, items@.subrange(0, i as int), r2, room, tv)->Ok_0;
                        let parts = front.push(part@);
                        assert(parts.drop_last() =~= front);
                    }
                    if i > 0 {
                        out = cat(out, ", ");
                    }
                    out = cat(out, part.as_str());
                    proof {
                        let front = render_list(self@, items@.subrange(0, i as int), r2, room, tv)->Ok_0;
                        let parts = front.push(part@);
                        if i == 0 {
                            assert(front.len() == 0);
                            assert(joined(front, ", "@) =~= Seq::<char>::empty());
                        }
                        assert(out@ =~= "["@ + joined(parts, ", "@));
                    }
                    i = i + 1;
                }
                proof {
                    assert(items@.subrange(0, items@.len() as int) =~= items@);
                }
                Ok(cat(out, "]"))
            },
            Value::Object(m) => {
                let n = m.entries.len() as u128;
                if !charge(self, &r, (n + 1) * 4) {
                    return Err(RecursionError);
                }
                let key_total = match key_length(&m.entries) {
                    Some(k) => k,
                    None => {
                        return Err(RecursionError);
                    },
                };
                if !charge(self, &r, key_total as u128) {
                    return Err(RecursionError);
                }
                if m.entries.len() == 0 {
                    return Ok(String::from_str("{}"));
                }
                let r2 = match go_deeper(&r) {
                    Some(r2) => r2,
                    None => return Err(RecursionError),
                };
                let ghost es = crate::mapping::entries_view(m.entries@);
                let mut out = String::from_str("{");
                let mut i: usize = 0;
                proof {
                    assert(es.subrange(0, 0) =~= Seq::<(Seq<char>, usize)>::empty());
                }
                while i < m.entries.len()
                    invariant
                        self.wf(),
                        texts@.len() == self@.len(),
                        self.value_at(p) == ValueView::Object(es),
                        es == crate::mapping::entries_view(m.entries@),
                        0 <= i <= m.entries@.len(),
                        r2 == deeper(r)->0,
                        deeper(r) is Some,
                        room == self.fits(r.curr_mem),
                        tv == texts_view(texts@),
                        self.live(p),
                        render_entries(self@, es.subrange(0, i as int), r2, room, tv) is Ok,
                        out@ == "{"@ + joined(render_entries(self@, es.subrange(0, i as int), r2, room, tv)->Ok_0, ", "@),
                    decreases m.entries@.len() - i,
                {
                    proof {
                        let sub = es.subrange(0, i as int + 1);
                        assert(sub.drop_last() =~= es.subrange(0, i as int));
                        assert(sub.last() == es[i as int]);
                        assert(es[i as int] == (m.entries@[i as int].0@, m.entries@[i as int].1));
                        assert(crate::mem::value_children(self.value_at(p))[i as int] == es[i as int].1);
                        assert(crate::mem::points_live(self@, crate::mem::value_children(self.value_at(p))[i as int]));
                    }
                    let part = match self.to_string_safe(m.entries[i].1, r2, texts) {
                        Ok(t) => t,
                        Err(e) => {
                            proof {
                                lemma_entries_err(self@, es, i as int + 1, r2, room, tv);
                            }
                            return Err(e);
                        },
                    };
                    let entry = cat(cat(cat(cat(String::from_str("\""), m.entries[i].0.as_str()), "\""), ": "), part.as_str());
                    proof {
                        let front = render_entries(self@, es.subrange(0, i as int), r2, room, tv)->Ok_0;
                        let parts = front.push(entry@);
                        assert(entry@ =~= quoted(es[i as int].0) + ": "@ + part@);
                        assert(parts.drop_last() =~= front);
                    }
                    if i > 0 {
                        out = cat(out, ", ");
                    }
                    out = cat(out, entry.as_str());
                    proof {
                        let front = render_entries(self@, es.subrange(0, i as int), r2, room, tv)->Ok_0;
                        let parts = front.push(entry@);
                        if i == 0 {
                            assert(front.len() == 0);
                            assert(joined(front, ", "@) =~= Seq::<char>::empty());
                        }
                        assert(out@ =~= "{"@ + joined(parts, ", "@));
                    }
                    i = i + 1;
                }
                proof {
                    assert(es.subrange(0, m.entries@.len() as int) =~= es);
                }
                Ok(cat(out, "}"))
            },
            Value::Nil => counted(self, &r, String::from_str("None")),
            Value::MemoryChunk(size) => {
                let t = cat(cat(String::from_str("_MemChunk(size: "), decimal_text(*size).as_str()), ")");
                counted(self, &r, t)
            },
            Value::DPtr(ptr, size) => {
                let t = cat(
                    cat(cat(cat(String::from_str("DynFuncPtr(loc: "), decimal_u64(*ptr).as_str()), ", arg_len: "), decimal_text(*size).as_str()),
                    ")",
                );
                counted(self, &r, t)
            },
            Value::FnPtrExternal(name, size) => {
                let t = cat(
                    cat(cat(cat(String::from_str("DynExternFuncPtr(loc: "), name.as_str()), ", arg_len: "), decimal_text(*size).as_str()),
                    ")",
                );
                counted(self, &r, t)
            },
        }
    }
}

proof fn lemma_list_err(cells: Seq<CellView>, ps: Seq<usize>, j: int, r: RecurseRestricter, room: bool, tv: Seq<Option<Seq<char>>>)
    requires
        0 <= j <= ps.len(),
        render_list(cells, ps.subrange(0, j), r, room, tv) is Err,
    ensures
        render_list(cells, ps, r, room, tv) is Err,
    decreases ps.len() - j,
{
    if j == ps.len() {
        assert(ps.subrange(0, j) =~= ps);
    } else {
        let sub = ps.subrange(0, j + 1);
        assert(sub.drop_last() =~= ps.subrange(0, j));
        lemma_list_err(cells, ps, j + 1, r, room, tv);
    }
}

proof fn lemma_entries_err(
    cells: Seq<CellView>,
    es: Seq<(Seq<char>, usize)>,
    j: int,
    r: RecurseRestricter,
    room: bool,
    tv: Seq<Option<Seq<char>>>,
)
    requires
        0 <= j <= es.len(),
        render_entries(cells, es.subrange(0, j), r, room, tv) is Err,
    ensures
        render_entries(cells, es, r, room, tv) is Err,
    decreases es.len() - j,
{
    if j == es.len() {
        assert(es.subrange(0, j) =~= es);
    } else {
        let sub = es.subrange(0, j + 1);
        assert(sub.drop_last() =~= es.subrange(0, j));
        lemma_entries_err(cells, es, j + 1, r, room, tv);
    }
}

/// Total bytes of the names of the entries, when it fits in a `u64`.
fn key_length(entries: &Vec<(String, usize)>) -> (r: Option<u64>)
    ensures
        match r {
            Some(k) => k == key_bytes(crate::mapping::entries_view(entries@)),
            None => key_bytes(crate::mapping::entries_view(entries@)) > u64::MAX,
        },
{
    let ghost es = crate::mapping::entries_view(entries@);
    let mut total: u64 = 0;
    let mut i: usize = 0;
    proof {
        assert(es.subrange(0, 0) =~= Seq::<(Seq<char>, usize)>::empty());
    }
    while i < entries.len()
        invariant
            i <= entries@.len(),
            es == crate::mapping::entries_view(entries@),
            total == key_bytes(es.subrange(0, i as int)),
        decreases entries@.len() - i,
    {
        let b = string_bytes(&entries[i].0);
        proof {
            let sub = es.subrange(0, i as int + 1);
            assert(sub.drop_last() =~= es.subrange(0, i as int));
            assert(sub.last() == es[i as int]);
            assert(es[i as int].0 == entries@[i as int].0@);
        }
        if total > u64::MAX - (b as u64) {
            proof {
                lemma_key_bytes_grow(es, i as int + 1);
            }
            return None;
        }
        total = total + b as u64;
        i = i + 1;
    }
    proof {
        assert(es.subrange(0, i as int) =~= es);
    }
    Some(total)
}

proof fn lemma_key_bytes_grow(es: Seq<(Seq<char>, usize)>, n: int)
    requires
        0 <= n <= es.len(),
    ensures
        key_bytes(es) >= key_bytes(es.subrange(0, n)),
    decreases es.len() - n,
{
    if n < es.len() {
        lemma_key_bytes_grow(es, n + 1);
        let sub = es.subrange(0, n + 1);
        assert(sub.drop_last() =~= es.subrange(0, n));
    } else {
        assert(es.subrange(0, n) =~= es);
    }
}

} // verus!
