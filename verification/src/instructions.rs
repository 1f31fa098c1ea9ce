//! The linear instruction set that programs are compiled to.
use vstd::prelude::*;
use crate::ast::SubscriptLoad;
use vstd::std_specs::convert::FromSpecImpl;

verus! {

/// One instruction of the stack machine.
///
/// Binary operations take the top of the stack as `b`, the item below it as
/// `a`, and push `a op b`. Jump targets are absolute instruction positions.
#[derive(Debug, Clone, PartialEq)]
pub enum Instruction {
    Add,
    Sub,
    Mul,
    Div,
    Mod,
    BitwiseAnd,
    BitwiseOr,
    BitwiseXor,
    Shl,
    Shr,
    UnaryPlus,
    UnaryMinus,
    Not,
    BitwiseNot,
    Eq,
    NotEq,
    Lt,
    Lte,
    Gt,
    Gte,
    /// Pops a value, then a target, and binds the target to the value.
    Assign,
    /// Pops `a`; jumps when `a` is truthy.
    JmpNz(u64),
    /// Pops `a`; jumps when `a` is not truthy.
    JmpZ(u64),
    /// Jumps unconditionally.
    Jmp(u64),
    /// Pops a function and an argument count, then enters the function.
    Call,
    /// Leaves the current function.
    Ret,
    LoadNone,
    /// Pushes a float given by its literal digits.
    LoadLitFloat(String),
    LoadLitInt(i64),
    LoadLitString(String),
    LoadLitBool(bool),
    /// Pops that many values into a new list.
    ConstructArr(u64),
    /// Pops that many name/value pairs into a new object.
    ConstructObj(u64),
    /// Pushes a reference to a variable.
    LoadName(String),
    /// Pops an object and pushes a reference to one of its attributes.
    LoadObjectAttr(String),
    /// Pops a list or an object and pushes a reference to an element.
    LoadObjectIndex(SubscriptLoad),
    Terminate,
    Interrupt,
    /// Discards the top of the stack.
    Pop,
    /// Exchanges the two topmost stack items.
    Swap,
    /// Pushes a function entry point with its argument count.
    LoadDPtr(u64, usize),
}

/// The instruction with its jump target or entry point moved by `delta`.
pub open spec fn shift_inst(inst: Instruction, delta: int) -> Instruction {
    match inst {
        Instruction::JmpNz(t) => Instruction::JmpNz((t + delta) as u64),
        Instruction::JmpZ(t) => Instruction::JmpZ((t + delta) as u64),
        Instruction::Jmp(t) => Instruction::Jmp((t + delta) as u64),
        Instruction::LoadDPtr(t, n) => Instruction::LoadDPtr((t + delta) as u64, n),
        other => other,
    }
}

/// The position an instruction transfers control to, if any.
pub open spec fn inst_target(inst: Instruction) -> Option<u64> {
    match inst {
        Instruction::JmpNz(t) => Some(t),
        Instruction::JmpZ(t) => Some(t),
        Instruction::Jmp(t) => Some(t),
        Instruction::LoadDPtr(t, _) => Some(t),
        _ => None,
    }
}

/// A copy of a subscript.
pub fn copy_subscript(s: &SubscriptLoad) -> (r: SubscriptLoad)
    ensures
        r == *s,
{
    match s {
        SubscriptLoad::Idx(i) => SubscriptLoad::Idx(*i),
        SubscriptLoad::String(n) => SubscriptLoad::String(n.clone()),
    }
}

impl Instruction {
    /// A copy of this instruction.
    pub fn duplicate(&self) -> (r: Self)
        ensures
            r == *self,
    {
        match self {
            Instruction::Add => Instruction::Add,
            Instruction::Sub => Instruction::Sub,
            Instruction::Mul => Instruction::Mul,
            Instruction::Div => Instruction::Div,
            Instruction::Mod => Instruction::Mod,
            Instruction::BitwiseAnd => Instruction::BitwiseAnd,
            Instruction::BitwiseOr => Instruction::BitwiseOr,
            Instruction::BitwiseXor => Instruction::BitwiseXor,
            Instruction::Shl => Instruction::Shl,
            Instruction::Shr => Instruction::Shr,
            Instruction::UnaryPlus => Instruction::UnaryPlus,
            Instruction::UnaryMinus => Instruction::UnaryMinus,
            Instruction::Not => Instruction::Not,
            Instruction::BitwiseNot => Instruction::BitwiseNot,
            Instruction::Eq => Instruction::Eq,
            Instruction::NotEq => Instruction::NotEq,
            Instruction::Lt => Instruction::Lt,
            Instruction::Lte => Instruction::Lte,
            Instruction::Gt => Instruction::Gt,
            Instruction::Gte => Instruction::Gte,
            Instruction::Assign => Instruction::Assign,
            Instruction::JmpNz(t) => Instruction::JmpNz(*t),
            Instruction::JmpZ(t) => Instruction::JmpZ(*t),
            Instruction::Jmp(t) => Instruction::Jmp(*t),
            Instruction::Call => Instruction::Call,
            Instruction::Ret => Instruction::Ret,
            Instruction::LoadNone => Instruction::LoadNone,
            Instruction::LoadLitFloat(s) => Instruction::LoadLitFloat(s.clone()),
            Instruction::LoadLitInt(i) => Instruction::LoadLitInt(*i),
            Instruction::LoadLitString(s) => Instruction::LoadLitString(s.clone()),
            Instruction::LoadLitBool(b) => Instruction::LoadLitBool(*b),
            Instruction::ConstructArr(n) => Instruction::ConstructArr(*n),
            Instruction::ConstructObj(n) => Instruction::ConstructObj(*n),
            Instruction::LoadName(s) => Instruction::LoadName(s.clone()),
            Instruction::LoadObjectAttr(s) => Instruction::LoadObjectAttr(s.clone()),
            Instruction::LoadObjectIndex(s) => Instruction::LoadObjectIndex(copy_subscript(s)),
            Instruction::Terminate => Instruction::Terminate,
            Instruction::Interrupt => Instruction::Interrupt,
            Instruction::Pop => Instruction::Pop,
            Instruction::Swap => Instruction::Swap,
            Instruction::LoadDPtr(t, n) => Instruction::LoadDPtr(*t, *n),
        }
    }

    /// This instruction with its jump target or entry point moved forward by `delta`.
    pub fn shifted(&self, delta: u64) -> (r: Self)
        requires
            inst_target(*self) matches Some(t) ==> t + delta <= u64::MAX,
        ensures
            r == shift_inst(*self, delta as int),
    {
        match self {
            Instruction::JmpNz(t) => Instruction::JmpNz(*t + delta),
            Instruction::JmpZ(t) => Instruction::JmpZ(*t + delta),
            Instruction::Jmp(t) => Instruction::Jmp(*t + delta),
            Instruction::LoadDPtr(t, n) => Instruction::LoadDPtr(*t + delta, *n),
            other => other.duplicate(),
        }
    }
}

/// Moves every jump target and entry point of `code` forward by `delta`, so that
/// code compiled to start at position 0 can be placed at position `delta`.
pub fn offset(code: Vec<Instruction>, delta: u64) -> (r: Vec<Instruction>)
    requires
        forall|i: int| 0 <= i < code@.len() ==> (inst_target(#[trigger] code@[i]) matches Some(t) ==> t + delta <= u64::MAX),
    ensures
        r@ == code@.map_values(|inst: Instruction| shift_inst(inst, delta as int)),
{
    let mut r: Vec<Instruction> = Vec::new();
    let mut i: usize = 0;
    while i < code.len()
        invariant
            i <= code@.len(),
            forall|j: int| 0 <= j < code@.len() ==> (inst_target(#[trigger] code@[j]) matches Some(t) ==> t + delta <= u64::MAX),
            r@ == code@.subrange(0, i as int).map_values(|inst: Instruction| shift_inst(inst, delta as int)),
        decreases code@.len() - i,
    {
        let s = code[i].shifted(delta);
        r.push(s);
        i = i + 1;
        assert(r@ =~= code@.subrange(0, i as int).map_values(|inst: Instruction| shift_inst(inst, delta as int)));
    }
    assert(code@.subrange(0, code@.len() as int) =~= code@);
    r
}

/// An instruction under construction: like [`Instruction`], with jumps that
/// may also be relative to a position given when the code is placed.
#[derive(Debug, Clone, PartialEq)]
pub enum InstructionBuilder {
    Add,
    Sub,
    Mul,
    Div,
    Mod,
    BitwiseAnd,
    BitwiseOr,
    BitwiseXor,
    Shl,
    Shr,
    UnaryPlus,
    UnaryMinus,
    Not,
    BitwiseNot,
    Eq,
    NotEq,
    Lt,
    Lte,
    Gt,
    Gte,
    Assign,
    JmpNz(u64),
    JmpZ(u64),
    Jmp(u64),
    /// `JmpNz` to the placement position plus the offset.
    JmpNzR(u64),
    /// `JmpZ` to the placement position plus the offset.
    JmpZR(u64),
    /// `Jmp` to the placement position plus the offset.
    JmpR(u64),
    Call,
    Ret,
    LoadNone,
    LoadLitFloat(String),
    LoadLitInt(i64),
    LoadLitString(String),
    LoadLitBool(bool),
    ConstructArr(u64),
    ConstructObj(u64),
    LoadName(String),
    LoadObjectAttr(String),
    LoadObjectIndex(SubscriptLoad),
    Terminate,
    Interrupt,
    Pop,
    Swap,
    LoadDPtr(u64, usize),
}

/// The offset of a relative jump.
pub open spec fn relative_offset(b: InstructionBuilder) -> Option<u64> {
    match b {
        InstructionBuilder::JmpNzR(o) => Some(o),
        InstructionBuilder::JmpZR(o) => Some(o),
        InstructionBuilder::JmpR(o) => Some(o),
        _ => None,
    }
}

/// The instruction that `b` becomes when its code is placed at `relative`.
pub open spec fn placed(b: InstructionBuilder, relative: int) -> Instruction {
    match b {
        InstructionBuilder::Add => Instruction::Add,
        InstructionBuilder::Sub => Instruction::Sub,
        InstructionBuilder::Mul => Instruction::Mul,
        InstructionBuilder::Div => Instruction::Div,
        InstructionBuilder::Mod => Instruction::Mod,
        InstructionBuilder::BitwiseAnd => Instruction::BitwiseAnd,
        InstructionBuilder::BitwiseOr => Instruction::BitwiseOr,
        InstructionBuilder::BitwiseXor => Instruction::BitwiseXor,
        InstructionBuilder::Shl => Instruction::Shl,
        InstructionBuilder::Shr => Instruction::Shr,
        InstructionBuilder::UnaryPlus => Instruction::UnaryPlus,
        InstructionBuilder::UnaryMinus => Instruction::UnaryMinus,
        InstructionBuilder::Not => Instruction::Not,
        InstructionBuilder::BitwiseNot => Instruction::BitwiseNot,
        InstructionBuilder::Eq => Instruction::Eq,
        InstructionBuilder::NotEq => Instruction::NotEq,
        InstructionBuilder::Lt => Instruction::Lt,
        InstructionBuilder::Lte => Instruction::Lte,
        InstructionBuilder::Gt => Instruction::Gt,
        InstructionBuilder::Gte => Instruction::Gte,
        InstructionBuilder::Assign => Instruction::Assign,
        InstructionBuilder::JmpNz(t) => Instruction::JmpNz(t),
        InstructionBuilder::JmpZ(t) => Instruction::JmpZ(t),
        InstructionBuilder::Jmp(t) => Instruction::Jmp(t),
        InstructionBuilder::JmpNzR(o) => Instruction::JmpNz((relative + o) as u64),
        InstructionBuilder::JmpZR(o) => Instruction::JmpZ((relative + o) as u64),
        InstructionBuilder::JmpR(o) => Instruction::Jmp((relative + o) as u64),
        InstructionBuilder::Call => Instruction::Call,
        InstructionBuilder::Ret => Instruction::Ret,
        InstructionBuilder::LoadNone => Instruction::LoadNone,
        InstructionBuilder::LoadLitFloat(v) => Instruction::LoadLitFloat(v),
        InstructionBuilder::LoadLitInt(v) => Instruction::LoadLitInt(v),
        InstructionBuilder::LoadLitString(v) => Instruction::LoadLitString(v),
        InstructionBuilder::LoadLitBool(v) => Instruction::LoadLitBool(v),
        InstructionBuilder::ConstructArr(n) => Instruction::ConstructArr(n),
        InstructionBuilder::ConstructObj(n) => Instruction::ConstructObj(n),
        InstructionBuilder::LoadName(n) => Instruction::LoadName(n),
        InstructionBuilder::LoadObjectAttr(n) => Instruction::LoadObjectAttr(n),
        InstructionBuilder::LoadObjectIndex(i) => Instruction::LoadObjectIndex(i),
        InstructionBuilder::Terminate => Instruction::Terminate,
        InstructionBuilder::Interrupt => Instruction::Interrupt,
        InstructionBuilder::Pop => Instruction::Pop,
        InstructionBuilder::Swap => Instruction::Swap,
        InstructionBuilder::LoadDPtr(t, n) => Instruction::LoadDPtr(t, n),
    }
}

/// The builder form of an instruction: the same instruction, jumps absolute.
pub open spec fn builder_of(i: Instruction) -> InstructionBuilder {
    match i {
        Instruction::Add => InstructionBuilder::Add,
        Instruction::Sub => InstructionBuilder::Sub,
        Instruction::Mul => InstructionBuilder::Mul,
        Instruction::Div => InstructionBuilder::Div,
        Instruction::Mod => InstructionBuilder::Mod,
        Instruction::BitwiseAnd => InstructionBuilder::BitwiseAnd,
        Instruction::BitwiseOr => InstructionBuilder::BitwiseOr,
        Instruction::BitwiseXor => InstructionBuilder::BitwiseXor,
        Instruction::Shl => InstructionBuilder::Shl,
        Instruction::Shr => InstructionBuilder::Shr,
        Instruction::UnaryPlus => InstructionBuilder::UnaryPlus,
        Instruction::UnaryMinus => InstructionBuilder::UnaryMinus,
        Instruction::Not => InstructionBuilder::Not,
        Instruction::BitwiseNot => InstructionBuilder::BitwiseNot,
        Instruction::Eq => InstructionBuilder::Eq,
        Instruction::NotEq => InstructionBuilder::NotEq,
        Instruction::Lt => InstructionBuilder::Lt,
        Instruction::Lte => InstructionBuilder::Lte,
        Instruction::Gt => InstructionBuilder::Gt,
        Instruction::Gte => InstructionBuilder::Gte,
        Instruction::Assign => InstructionBuilder::Assign,
        Instruction::JmpNz(t) => InstructionBuilder::JmpNz(t),
        Instruction::JmpZ(t) => InstructionBuilder::JmpZ(t),
        Instruction::Jmp(t) => InstructionBuilder::Jmp(t),
        Instruction::Call => InstructionBuilder::Call,
        Instruction::Ret => InstructionBuilder::Ret,
        Instruction::LoadNone => InstructionBuilder::LoadNone,
        Instruction::LoadLitFloat(v) => InstructionBuilder::LoadLitFloat(v),
        Instruction::LoadLitInt(v) => InstructionBuilder::LoadLitInt(v),
        Instruction::LoadLitString(v) => InstructionBuilder::LoadLitString(v),
        Instruction::LoadLitBool(v) => InstructionBuilder::LoadLitBool(v),
        Instruction::ConstructArr(n) => InstructionBuilder::ConstructArr(n),
        Instruction::ConstructObj(n) => InstructionBuilder::ConstructObj(n),
        Instruction::LoadName(n) => InstructionBuilder::LoadName(n),
        Instruction::LoadObjectAttr(n) => InstructionBuilder::LoadObjectAttr(n),
        Instruction::LoadObjectIndex(i) => InstructionBuilder::LoadObjectIndex(i),
        Instruction::Terminate => InstructionBuilder::Terminate,
        Instruction::Interrupt => InstructionBuilder::Interrupt,
        Instruction::Pop => InstructionBuilder::Pop,
        Instruction::Swap => InstructionBuilder::Swap,
        Instruction::LoadDPtr(t, n) => InstructionBuilder::LoadDPtr(t, n),
    }
}

impl InstructionBuilder {
    /// The instruction this becomes when its code is placed at `relative`:
    /// relative jumps get `relative` added to their offsets.
    pub fn convert(self, relative: u64) -> (r: Instruction)
        requires
            relative_offset(self) matches Some(o) ==> relative + o <= u64::MAX,
        ensures
            r == placed(self, relative as int),
    {
        match self {
            InstructionBuilder::Add => Instruction::Add,
            InstructionBuilder::Sub => Instruction::Sub,
            InstructionBuilder::Mul => Instruction::Mul,
            InstructionBuilder::Div => Instruction::Div,
            InstructionBuilder::Mod => Instruction::Mod,
            InstructionBuilder::BitwiseAnd => Instruction::BitwiseAnd,
            InstructionBuilder::BitwiseOr => Instruction::BitwiseOr,
            InstructionBuilder::BitwiseXor => Instruction::BitwiseXor,
            InstructionBuilder::Shl => Instruction::Shl,
            InstructionBuilder::Shr => Instruction::Shr,
            InstructionBuilder::UnaryPlus => Instruction::UnaryPlus,
            InstructionBuilder::UnaryMinus => Instruction::UnaryMinus,
            InstructionBuilder::Not => Instruction::Not,
            InstructionBuilder::BitwiseNot => Instruction::BitwiseNot,
            InstructionBuilder::Eq => Instruction::Eq,
            InstructionBuilder::NotEq => Instruction::NotEq,
            InstructionBuilder::Lt => Instruction::Lt,
            InstructionBuilder::Lte => Instruction::Lte,
            InstructionBuilder::Gt => Instruction::Gt,
            InstructionBuilder::Gte => Instruction::Gte,
            InstructionBuilder::Assign => Instruction::Assign,
            InstructionBuilder::JmpNz(t) => Instruction::JmpNz(t),
            InstructionBuilder::JmpZ(t) => Instruction::JmpZ(t),
            InstructionBuilder::Jmp(t) => Instruction::Jmp(t),
            InstructionBuilder::JmpNzR(o) => Instruction::JmpNz(relative + o),
            InstructionBuilder::JmpZR(o) => Instruction::JmpZ(relative + o),
            InstructionBuilder::JmpR(o) => Instruction::Jmp(relative + o),
            InstructionBuilder::Call => Instruction::Call,
            InstructionBuilder::Ret => Instruction::Ret,
            InstructionBuilder::LoadNone => Instruction::LoadNone,
            InstructionBuilder::LoadLitFloat(v) => Instruction::LoadLitFloat(v),
            InstructionBuilder::LoadLitInt(v) => Instruction::LoadLitInt(v),
            InstructionBuilder::LoadLitString(v) => Instruction::LoadLitString(v),
            InstructionBuilder::LoadLitBool(v) => Instruction::LoadLitBool(v),
            InstructionBuilder::ConstructArr(n) => Instruction::ConstructArr(n),
            InstructionBuilder::ConstructObj(n) => Instruction::ConstructObj(n),
            InstructionBuilder::LoadName(n) => Instruction::LoadName(n),
            InstructionBuilder::LoadObjectAttr(n) => Instruction::LoadObjectAttr(n),
            InstructionBuilder::LoadObjectIndex(i) => Instruction::LoadObjectIndex(i),
            InstructionBuilder::Terminate => Instruction::Terminate,
            InstructionBuilder::Interrupt => Instruction::Interrupt,
            InstructionBuilder::Pop => Instruction::Pop,
            InstructionBuilder::Swap => Instruction::Swap,
            InstructionBuilder::LoadDPtr(t, n) => Instruction::LoadDPtr(t, n),
        }
    }
}

impl From<Instruction> for InstructionBuilder {
    fn from(i: Instruction) -> (r: Self) {
        match i {
            Instruction::Add => InstructionBuilder::Add,
            Instruction::Sub => InstructionBuilder::Sub,
            Instruction::Mul => InstructionBuilder::Mul,
            Instruction::Div => InstructionBuilder::Div,
            Instruction::Mod => InstructionBuilder::Mod,
            Instruction::BitwiseAnd => InstructionBuilder::BitwiseAnd,
            Instruction::BitwiseOr => InstructionBuilder::BitwiseOr,
            Instruction::BitwiseXor => InstructionBuilder::BitwiseXor,
            Instruction::Shl => InstructionBuilder::Shl,
            Instruction::Shr => InstructionBuilder::Shr,
            Instruction::UnaryPlus => InstructionBuilder::UnaryPlus,
            Instruction::UnaryMinus => InstructionBuilder::UnaryMinus,
            Instruction::Not => InstructionBuilder::Not,
            Instruction::BitwiseNot => InstructionBuilder::BitwiseNot,
            Instruction::Eq => InstructionBuilder::Eq,
            Instruction::NotEq => InstructionBuilder::NotEq,
            Instruction::Lt => InstructionBuilder::Lt,
            Instruction::Lte => InstructionBuilder::Lte,
            Instruction::Gt => InstructionBuilder::Gt,
            Instruction::Gte => InstructionBuilder::Gte,
            Instruction::Assign => InstructionBuilder::Assign,
            Instruction::JmpNz(t) => InstructionBuilder::JmpNz(t),
            Instruction::JmpZ(t) => InstructionBuilder::JmpZ(t),
            Instruction::Jmp(t) => InstructionBuilder::Jmp(t),
            Instruction::Call => InstructionBuilder::Call,
            Instruction::Ret => InstructionBuilder::Ret,
            Instruction::LoadNone => InstructionBuilder::LoadNone,
            Instruction::LoadLitFloat(v) => InstructionBuilder::LoadLitFloat(v),
            Instruction::LoadLitInt(v) => InstructionBuilder::LoadLitInt(v),
            Instruction::LoadLitString(v) => InstructionBuilder::LoadLitString(v),
            Instruction::LoadLitBool(v) => InstructionBuilder::LoadLitBool(v),
            Instruction::ConstructArr(n) => InstructionBuilder::ConstructArr(n),
            Instruction::ConstructObj(n) => InstructionBuilder::ConstructObj(n),
            Instruction::LoadName(n) => InstructionBuilder::LoadName(n),
            Instruction::LoadObjectAttr(n) => InstructionBuilder::LoadObjectAttr(n),
            Instruction::LoadObjectIndex(i) => InstructionBuilder::LoadObjectIndex(i),
            Instruction::Terminate => InstructionBuilder::Terminate,
            Instruction::Interrupt => InstructionBuilder::Interrupt,
            Instruction::Pop => InstructionBuilder::Pop,
            Instruction::Swap => InstructionBuilder::Swap,
            Instruction::LoadDPtr(t, n) => InstructionBuilder::LoadDPtr(t, n),
        }
    }
}

impl FromSpecImpl<Instruction> for InstructionBuilder {
    open spec fn obeys_from_spec() -> bool {
        true
    }

    open spec fn from_spec(i: Instruction) -> Self {
        builder_of(i)
    }
}

/// An instruction made into its builder form and placed anywhere is itself.
pub proof fn law_builder_round_trip(i: Instruction, relative: int)
    ensures
        placed(builder_of(i), relative) == i,
{
}

} // verus!
