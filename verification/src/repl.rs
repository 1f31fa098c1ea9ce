//! The decisions of the interactive shell: which area a click lands in, when an
//! input is submitted, what code an input runs as, how the history is walked
//! and what Ctrl+C does. The terminal loop that reads events and draws the
//! screen lives with the host.
use vstd::prelude::*;
use vstd::std_specs::convert::FromSpecImpl;
use crate::ast::Module;
use crate::compile::{compile_at, module_code, stmts_code};
use crate::instructions::{Instruction, inst_target};
use crate::lexer::ParseError;
use crate::parser::{parse, parse_spec};
use crate::ast::stmts_view;

verus! {

/// A region of the screen that reacts to the mouse.
#[derive(Debug, Copy, Clone, PartialEq, Eq, Structural)]
pub enum InteractArea {
    NoArea,
    ReplBufferArea,
    Textarea,
    Vars,
    DebugInst,
    DebugStack,
    ToggleVars,
    ToggleDebugs,
}

/// The region that holds the keyboard focus.
#[derive(Debug, Copy, Clone, PartialEq, Eq, Structural)]
pub enum FocusArea {
    TextArea,
}

impl From<FocusArea> for InteractArea {
    fn from(focus: FocusArea) -> (r: Self) {
        match focus {
            FocusArea::TextArea => InteractArea::Textarea,
        }
    }
}

impl FromSpecImpl<FocusArea> for InteractArea {
    open spec fn obeys_from_spec() -> bool {
        true
    }

    open spec fn from_spec(focus: FocusArea) -> Self {
        match focus {
            FocusArea::TextArea => InteractArea::Textarea,
        }
    }
}

/// An input being run: its text, the instructions run so far and what it printed.
#[derive(Debug, Clone)]
pub struct CodeEvalState {
    pub code: String,
    pub inst_count: usize,
    pub buffer: String,
}

/// What the shell does with the input after a key press.
#[derive(Debug, Clone)]
pub enum ExecState {
    /// Nothing.
    Nothing,
    /// Clears the input and records it in the history with the given note.
    RstInput(Option<String>),
    /// Runs the input.
    Exec,
}

/// The note shown after a first Ctrl+C on an empty input.
pub open spec fn ctrl_c_note() -> Seq<char> {
    "Press Ctrl+C again, or press Ctrl+D to exit"@
}

/// The history entry shown after Up, from entry `idx` of `len` entries.
pub open spec fn history_up_spec(idx: int, len: int) -> int {
    if idx == 0 {
        0
    } else if idx - 1 > len - 1 {
        len - 1
    } else {
        idx - 1
    }
}

/// The history entry shown after Down, from entry `idx` of `len` entries.
pub open spec fn history_down_spec(idx: int, len: int) -> int {
    if idx < len - 1 {
        idx + 1
    } else {
        len - 1
    }
}

/// Enter submits the input when it reads as a program and the cursor stands at
/// the very end of the last line; otherwise it starts a new line.
pub fn ready_to_submit(can_compile: bool, cursor_line: usize, line_count: usize, cursor_col: usize, line_len: usize) -> (r: bool)
    ensures
        r == (can_compile && cursor_line + 1 == line_count && cursor_col == line_len),
{
    can_compile && line_count > 0 && cursor_line == line_count - 1 && cursor_col == line_len
}

/// The history entry shown after Up, from entry `idx` of `len` entries.
pub fn history_up(idx: usize, len: usize) -> (r: usize)
    requires
        len > 0,
    ensures
        r == history_up_spec(idx as int, len as int),
        r < len,
{
    let mut i = idx;
    if i > 0 {
        i = i - 1;
    }
    if i > len - 1 {
        i = len - 1;
    }
    i
}

/// The history entry shown after Down, from entry `idx` of `len` entries.
pub fn history_down(idx: usize, len: usize) -> (r: usize)
    requires
        len > 0,
    ensures
        r == history_down_spec(idx as int, len as int),
        r < len,
{
    if idx < len - 1 {
        idx + 1
    } else {
        len - 1
    }
}

/// Ctrl+C: a second press in a row quits (`None`); otherwise the input is
/// cleared, with a note and the second press armed when the input was empty.
/// The result pairs the action with whether the next Ctrl+C quits.
pub fn on_ctrl_c(first_ctrl_c: bool, input_empty: bool) -> (r: Option<(ExecState, bool)>)
    ensures
        r is None <==> first_ctrl_c,
        !first_ctrl_c && input_empty ==> (r matches Some((ExecState::RstInput(Some(note)), true)) && note@ == ctrl_c_note()),
        !first_ctrl_c && !input_empty ==> (r matches Some((ExecState::RstInput(None), false))),
{
    if first_ctrl_c {
        return None;
    }
    if input_empty {
        let note = "Press Ctrl+C again, or press Ctrl+D to exit".to_owned();
        proof {
            reveal_strlit("Press Ctrl+C again, or press Ctrl+D to exit");
        }
        Some((ExecState::RstInput(Some(note)), true))
    } else {
        Some((ExecState::RstInput(None), false))
    }
}

/// `c` stores the value on top of the stack in the variable `_r`.
pub open spec fn is_store_r(c: Seq<Instruction>) -> bool {
    &&& c.len() == 3
    &&& c[0] matches Instruction::LoadName(n) && n@ == "_r"@
    &&& c[1] == Instruction::Swap
    &&& c[2] == Instruction::Assign
}

/// `c`, placed at `at`, prints `_r` unless it is `None` (the code of
/// `if _r != None {print(_r);}`).
pub open spec fn is_echo(c: Seq<Instruction>, at: int) -> bool {
    &&& c.len() == 9
    &&& c[0] matches Instruction::LoadName(n) && n@ == "_r"@
    &&& c[1] == Instruction::LoadNone
    &&& c[2] == Instruction::NotEq
    &&& c[3] == Instruction::JmpZ((at + 9) as u64)
    &&& c[4] matches Instruction::LoadName(n) && n@ == "_r"@
    &&& c[5] == Instruction::LoadLitInt(1)
    &&& c[6] matches Instruction::LoadName(n) && n@ == "print"@
    &&& c[7] == Instruction::Call
    &&& c[8] == Instruction::Pop
}

/// What an input that reads as a program only with a final `;` runs as, given
/// the code `pre` of that program compiled at position 0, when the code already
/// loaded has `loaded` instructions. When `pre` ends by discarding the value of
/// an expression, the value is kept in `_r` and printed unless it is `None`.
pub open spec fn echo_result(pre: Seq<Instruction>, loaded: int, code: Option<Vec<Instruction>>) -> bool {
    if pre.len() == 0 {
        code is None
    } else if pre.last() == Instruction::Pop {
        if loaded + pre.len() + 11 > u64::MAX {
            code is None
        } else {
            &&& code is Some
            &&& code->0@.len() == pre.len() + 11
            &&& code->0@.subrange(0, pre.len() - 1) == pre.drop_last()
            &&& is_store_r(code->0@.subrange(pre.len() - 1, pre.len() + 2int))
            &&& is_echo(code->0@.subrange(pre.len() + 2int, pre.len() + 11int), loaded + pre.len() + 2)
        }
    } else {
        code is Some && code->0@ == pre
    }
}

/// The name `_r`.
fn result_name() -> (r: String)
    ensures
        r@ == "_r"@,
{
    String::from_str("_r")
}

/// Whether an input reads as a program, as it is or with a final `;`.
pub fn can_compile(input: &str) -> (r: bool)
    ensures
        r == (parse_spec(input@) is Ok || parse_spec(input@ + ";"@) is Ok),
{
    match parse(input) {
        Ok(_) => true,
        Err(_) => {
            let text = String::from_str(input).concat(";");
            proof {
                reveal_strlit(";");
            }
            match parse(text.as_str()) {
                Ok(_) => true,
                Err(_) => false,
            }
        },
    }
}

/// The code that prints `_r` unless it is `None`, placed at `at`.
pub fn echo_code(at: u64) -> (r: Vec<Instruction>)
    requires
        at + 9 <= u64::MAX,
    ensures
        is_echo(r@, at as int),
{
    let mut r: Vec<Instruction> = Vec::new();
    r.push(Instruction::LoadName(result_name()));
    r.push(Instruction::LoadNone);
    r.push(Instruction::NotEq);
    r.push(Instruction::JmpZ(at + 9));
    r.push(Instruction::LoadName(result_name()));
    r.push(Instruction::LoadLitInt(1));
    r.push(Instruction::LoadName(String::from_str("print")));
    r.push(Instruction::Call);
    r.push(Instruction::Pop);
    r
}

/// The code an input runs as when `loaded` instructions are already loaded:
/// the program it reads as, placed after them; or, when it reads as a program
/// only with a final `;`, that program with the value of its last expression
/// kept in `_r` and printed (see `echo_result`). `Ok(None)` when there is
/// nothing to run or the code would not fit the instruction positions; the
/// error of reading the input with a final `;` when neither reading succeeds.
pub fn input_code(input: &str, loaded: u64) -> (r: Result<Option<Vec<Instruction>>, ParseError>)
    ensures
        match parse_spec(input@) {
            Ok(g) => r is Ok && exists|m: Module| #![trigger stmts_view(m.body@)]
                stmts_view(m.body@) == g && match r->Ok_0 {
                    Some(c) => c@ == stmts_code(m.body@, loaded as int),
                    None => loaded + module_code(m).len() > u64::MAX,
                },
            Err(_) => match parse_spec(input@ + ";"@) {
                Err(e) => r == Err::<Option<Vec<Instruction>>, ParseError>(e),
                Ok(g) => r is Ok && exists|m: Module| #![trigger stmts_view(m.body@)]
                    stmts_view(m.body@) == g && if module_code(m).len() > u64::MAX {
                        r->Ok_0 is None
                    } else {
                        echo_result(module_code(m), loaded as int, r->Ok_0)
                    },
            },
        },
{
    match parse(input) {
        Ok(m) => {
            let code = compile_at(&m, loaded);
            proof {
                assert(stmts_view(m.body@) == parse_spec(input@)->Ok_0);
            }
            Ok(code)
        },
        Err(_) => {
            let text = String::from_str(input).concat(";");
            proof {
                reveal_strlit(";");
            }
            let m = match parse(text.as_str()) {
                Ok(m) => m,
                Err(e) => return Err(e),
            };
            let mut pre = match compile_at(&m, 0) {
                Some(c) => c,
                None => return Ok(None),
            };
            let ghost whole = pre@;
            assert(module_code(m) == stmts_code(m.body@, 0));
            let last = match pre.pop() {
                Some(i) => i,
                None => return Ok(None),
            };
            match last {
                Instruction::Pop => {
                    let n = pre.len() as u64;
                    if loaded > u64::MAX - 12 || n > u64::MAX - 12 - loaded {
                        return Ok(None);
                    }
                    pre.push(Instruction::LoadName(result_name()));
                    pre.push(Instruction::Swap);
                    pre.push(Instruction::Assign);
                    let at = loaded + n + 3;
                    let mut echo = echo_code(at);
                    let ghost stored = pre@;
                    let ghost ev = echo@;
                    pre.append(&mut echo);
                    proof {
                        assert(pre@.subrange(0, whole.len() - 1) =~= whole.drop_last());
                        assert(pre@.subrange(whole.len() - 1, whole.len() + 2int) =~= stored.subrange(whole.len() - 1, whole.len() + 2int));
                        assert(pre@.subrange(whole.len() + 2int, whole.len() + 11int) =~= ev);
                    }
                    Ok(Some(pre))
                },
                other => {
                    pre.push(other);
                    assert(pre@ =~= whole);
                    Ok(Some(pre))
                },
            }
        },
    }
}

/// Walking the history up and then down from an entry after the first comes
/// back to it.
pub proof fn lemma_history_up_down(idx: int, len: int)
    requires
        0 < idx < len,
    ensures
        history_down_spec(history_up_spec(idx, len), len) == idx,
{
}

/// Walking the history down and then up from an entry before the last comes
/// back to it.
pub proof fn lemma_history_down_up(idx: int, len: int)
    requires
        0 <= idx < len - 1,
    ensures
        history_up_spec(history_down_spec(idx, len), len) == idx,
{
}

/// Both walks stay among the entries.
pub proof fn lemma_history_in_range(idx: int, len: int)
    requires
        len > 0,
        idx >= 0,
    ensures
        0 <= history_up_spec(idx, len) < len,
        0 <= history_down_spec(idx, len) < len,
{
}

} // verus!
