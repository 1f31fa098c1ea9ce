//! The operators of the sandbox language on values.
//!
//! Integer arithmetic wraps. Operations that need floating-point arithmetic are
//! not computed here: they are handed to the host as a [`FloatRequest`].
use vstd::prelude::*;
use crate::error::{ExecutionError, NonRecoverableError, TypeConversionError};
use crate::mem::{Value, ValueView};

verus! {

/// A binary operator of the machine.
#[derive(Debug, Copy, Clone, PartialEq, Eq, Structural)]
pub enum BinOp {
    Add,
    Sub,
    Mul,
    Div,
    Mod,
    BitAnd,
    BitOr,
    BitXor,
    Shl,
    Shr,
    Eq,
    Ne,
    Lt,
    Le,
    Gt,
    Ge,
}

/// A unary operator of the machine.
#[derive(Debug, Copy, Clone, PartialEq, Eq, Structural)]
pub enum UnOp {
    Pos,
    Neg,
    Not,
    BitNot,
}

/// A numeric operand: an integer or the bit pattern of a float.
#[derive(Debug, Copy, Clone, PartialEq, Eq, Structural)]
pub enum Num {
    Int(i64),
    Float(u64),
}

/// What the host hands back for floating-point work: a float or a comparison result.
#[derive(Debug, Copy, Clone, PartialEq, Eq, Structural)]
pub enum Scalar {
    Float(u64),
    Bool(bool),
}

/// The value a host reply stands for.
pub open spec fn scalar_value(s: Scalar) -> ValueView {
    match s {
        Scalar::Float(f) => ValueView::Float(f),
        Scalar::Bool(b) => ValueView::Bool(b),
    }
}

impl Scalar {
    /// The value this reply stands for.
    pub fn to_value(&self) -> (r: Value)
        ensures
            r@ == scalar_value(*self),
    {
        match self {
            Scalar::Float(f) => Value::Float(*f),
            Scalar::Bool(b) => Value::Bool(*b),
        }
    }
}

/// Floating-point work that the host performs for the machine.
#[derive(Debug, Clone, PartialEq)]
pub enum FloatRequest {
    /// `a op b` where at least one side is a float, or an integer division.
    Binary(BinOp, Num, Num),
    /// The value of a float literal given by its digits.
    Literal(String),
}

/// The outcome of an operator.
#[derive(Debug)]
pub enum OpResult {
    Value(Value),
    Failed(TypeConversionError),
    Host(FloatRequest),
}

/// The mathematical outcome of an operator.
pub ghost enum OpOutcome {
    Value(ValueView),
    Failed(TypeConversionError),
    Host(FloatRequest),
}

impl View for OpResult {
    type V = OpOutcome;

    open spec fn view(&self) -> OpOutcome {
        match self {
            OpResult::Value(v) => OpOutcome::Value(v@),
            OpResult::Failed(e) => OpOutcome::Failed(*e),
            OpResult::Host(r) => OpOutcome::Host(*r),
        }
    }
}

/// A value that holds no pointers.
pub open spec fn scalar(v: ValueView) -> bool {
    !(v is Collection) && !(v is Object)
}

/// Remainder of `a / b` rounded toward zero: it has the sign of `a`.
pub open spec fn trunc_rem(a: int, b: int) -> int {
    let m = if b < 0 { -b } else { b };
    if a >= 0 {
        a % m
    } else {
        -((-a) % m)
    }
}

/// The bits of a float without its sign.
pub open spec fn magnitude(x: u64) -> u64 {
    x & 0x7fff_ffff_ffff_ffffu64
}

/// The float is a NaN.
pub open spec fn is_nan(x: u64) -> bool {
    magnitude(x) > 0x7ff0_0000_0000_0000u64
}

/// IEEE-754 equality of two floats given by their bits.
pub open spec fn float_eq(x: u64, y: u64) -> bool {
    if is_nan(x) || is_nan(y) {
        false
    } else if magnitude(x) == 0 && magnitude(y) == 0 {
        true
    } else {
        x == y
    }
}

/// A float is truthy when it is not zero (NaN is truthy).
pub open spec fn float_truthy(x: u64) -> bool {
    magnitude(x) != 0
}

/// The numeric operand a value stands for.
pub open spec fn num_of(v: ValueView) -> Option<Num> {
    match v {
        ValueView::Int(i) => Some(Num::Int(i)),
        ValueView::Float(f) => Some(Num::Float(f)),
        _ => None,
    }
}

/// The type class that equality compares across: none, bool, float, int, error, string.
pub open spec fn eq_class(v: ValueView) -> Option<int> {
    match v {
        ValueView::Nil => Some(0),
        ValueView::MemoryChunk(_) => Some(0),
        ValueView::Bool(_) => Some(1),
        ValueView::Float(_) => Some(2),
        ValueView::Int(_) => Some(3),
        ValueView::Error(_) => Some(4),
        ValueView::String(_) => Some(5),
        _ => None,
    }
}

/// Equality of two errors, strings compared by their characters.
pub open spec fn errors_equal(a: ExecutionError, b: ExecutionError) -> bool {
    match (a, b) {
        (
            ExecutionError::NonRecoverable(NonRecoverableError::ReferenceNotExistError(x)),
            ExecutionError::NonRecoverable(NonRecoverableError::ReferenceNotExistError(y)),
        ) => x@ == y@,
        _ => a == b,
    }
}

/// `a == b` on values, when the operator is defined for the pair.
pub open spec fn eq_spec(a: ValueView, b: ValueView) -> Option<bool> {
    match (a, b) {
        (ValueView::Int(x), ValueView::Int(y)) => Some(x == y),
        (ValueView::Float(x), ValueView::Float(y)) => Some(float_eq(x, y)),
        (ValueView::Bool(x), ValueView::Bool(y)) => Some(x == y),
        (ValueView::String(x), ValueView::String(y)) => Some(x == y),
        (ValueView::Error(x), ValueView::Error(y)) => Some(errors_equal(x, y)),
        _ => if eq_class(a) is Some && eq_class(b) is Some && eq_class(a) == eq_class(b) {
            Some(true)
        } else if eq_class(a) is Some && eq_class(b) is Some {
            Some(false)
        } else {
            None
        },
    }
}

/// The outcome of `a op b`.
pub open spec fn binop_spec(op: BinOp, a: ValueView, b: ValueView) -> OpOutcome {
    let undefined = OpOutcome::Failed(TypeConversionError::UndefinedOperatorMethodError);
    let host = OpOutcome::Host(FloatRequest::Binary(op, num_of(a).unwrap(), num_of(b).unwrap()));
    let mixed = num_of(a) is Some && num_of(b) is Some && !(a is Int && b is Int);
    match op {
        BinOp::Eq | BinOp::Ne => if (a is Int && b is Float) || (a is Float && b is Int) {
            host
        } else {
            match eq_spec(a, b) {
                Some(r) => OpOutcome::Value(ValueView::Bool(if op == BinOp::Eq { r } else { !r })),
                None => undefined,
            }
        },
        BinOp::Add | BinOp::Sub | BinOp::Mul => if mixed {
            host
        } else {
            match (a, b) {
                (ValueView::Int(x), ValueView::Int(y)) => OpOutcome::Value(ValueView::Int(
                    if op == BinOp::Add {
                        x.wrapping_add(y)
                    } else if op == BinOp::Sub {
                        x.wrapping_sub(y)
                    } else {
                        x.wrapping_mul(y)
                    },
                )),
                (ValueView::String(x), ValueView::String(y)) => if op == BinOp::Add {
                    OpOutcome::Value(ValueView::String(x + y))
                } else {
                    undefined
                },
                _ => undefined,
            }
        },
        BinOp::Div => match (a, b) {
            (ValueView::Int(_), ValueView::Int(0)) => OpOutcome::Failed(TypeConversionError::DivideByZeroError),
            _ => if num_of(a) is Some && num_of(b) is Some {
                host
            } else {
                undefined
            },
        },
        BinOp::Mod => if mixed {
            host
        } else {
            match (a, b) {
                (ValueView::Int(x), ValueView::Int(y)) => if y == 0 {
                    OpOutcome::Failed(TypeConversionError::DivideByZeroError)
                } else {
                    OpOutcome::Value(ValueView::Int(trunc_rem(x as int, y as int) as i64))
                },
                _ => undefined,
            }
        },
        BinOp::BitAnd => match (a, b) {
            (ValueView::Int(x), ValueView::Int(y)) => OpOutcome::Value(ValueView::Int(x & y)),
            _ => undefined,
        },
        BinOp::BitOr => match (a, b) {
            (ValueView::Int(x), ValueView::Int(y)) => OpOutcome::Value(ValueView::Int(x | y)),
            (ValueView::Bool(x), ValueView::Bool(y)) => OpOutcome::Value(ValueView::Bool(x != y)),
            _ => undefined,
        },
        BinOp::BitXor => undefined,
        BinOp::Shl => match (a, b) {
            (ValueView::Int(x), ValueView::Int(y)) => OpOutcome::Value(ValueView::Int(x.wrapping_shl(y as u32))),
            _ => undefined,
        },
        BinOp::Shr => match (a, b) {
            (ValueView::Int(x), ValueView::Int(y)) => OpOutcome::Value(ValueView::Int(x.wrapping_shr(y as u32))),
            _ => undefined,
        },
        BinOp::Lt | BinOp::Le | BinOp::Gt | BinOp::Ge => if mixed {
            host
        } else {
            match (a, b) {
                (ValueView::Int(x), ValueView::Int(y)) => OpOutcome::Value(ValueView::Bool(
                    match op {
                        BinOp::Lt => x < y,
                        BinOp::Le => x <= y,
                        BinOp::Gt => x > y,
                        _ => x >= y,
                    },
                )),
                (ValueView::Bool(x), ValueView::Bool(y)) => OpOutcome::Value(ValueView::Bool(
                    match op {
                        BinOp::Lt => !x && y,
                        BinOp::Le => !x || y,
                        BinOp::Gt => x && !y,
                        _ => x || !y,
                    },
                )),
                _ => undefined,
            }
        },
    }
}

/// The outcome of `op a`.
pub open spec fn unop_spec(op: UnOp, a: ValueView) -> OpOutcome {
    let undefined = OpOutcome::Failed(TypeConversionError::UndefinedOperatorMethodError);
    match (op, a) {
        (UnOp::Not, ValueView::Bool(x)) => OpOutcome::Value(ValueView::Bool(!x)),
        (UnOp::Pos, ValueView::Int(x)) => OpOutcome::Value(ValueView::Int(x)),
        (UnOp::Pos, ValueView::Float(x)) => OpOutcome::Value(ValueView::Float(x)),
        (UnOp::Neg, ValueView::Int(x)) => OpOutcome::Value(ValueView::Int(0i64.wrapping_sub(x))),
        (UnOp::Neg, ValueView::Float(x)) => OpOutcome::Value(ValueView::Float(x ^ 0x8000_0000_0000_0000u64)),
        _ => undefined,
    }
}

/// Whether a value counts as true in a condition.
pub open spec fn truthy(v: ValueView) -> bool {
    match v {
        ValueView::Int(i) => i != 0,
        ValueView::Float(f) => float_truthy(f),
        ValueView::Bool(b) => b,
        ValueView::Nil => false,
        ValueView::String(s) => s.len() > 0,
        ValueView::Collection(items) => items.len() > 0,
        ValueView::Object(entries) => entries.len() > 0,
        ValueView::MemoryChunk(_) => false,
        ValueView::Error(_) => false,
        ValueView::DPtr(_, _) => true,
        ValueView::FnPtrExternal(_, _) => true,
    }
}

/// Remainder of `a / b` rounded toward zero.
pub fn wrapping_rem(a: i64, b: i64) -> (r: i64)
    requires
        b != 0,
    ensures
        r == trunc_rem(a as int, b as int),
{
    let m: u64 = if b < 0 { (0i128 - b as i128) as u64 } else { b as u64 };
    let ua: u64 = if a < 0 { (0i128 - a as i128) as u64 } else { a as u64 };
    let r = ua % m;
    if a >= 0 {
        r as i64
    } else {
        0i64 - (r as i64)
    }
}

/// IEEE-754 equality of two floats given by their bits.
pub fn float_equal(x: u64, y: u64) -> (r: bool)
    ensures
        r == float_eq(x, y),
{
    let mx = x & 0x7fff_ffff_ffff_ffffu64;
    let my = y & 0x7fff_ffff_ffff_ffffu64;
    if mx > 0x7ff0_0000_0000_0000u64 || my > 0x7ff0_0000_0000_0000u64 {
        false
    } else if mx == 0 && my == 0 {
        true
    } else {
        x == y
    }
}

/// Whether a value counts as true in a condition.
pub fn is_truthy(v: &Value) -> (r: bool)
    ensures
        r == truthy(v@),
{
    match v {
        Value::Int(i) => *i != 0,
        Value::Float(f) => (*f & 0x7fff_ffff_ffff_ffffu64) != 0,
        Value::Bool(b) => *b,
        Value::Nil => false,
        Value::String(s) => s.as_str().unicode_len() > 0,
        Value::Collection(items) => items.len() > 0,
        Value::Object(m) => m.entries.len() > 0,
        Value::MemoryChunk(_) => false,
        Value::Error(_) => false,
        Value::DPtr(_, _) => true,
        Value::FnPtrExternal(_, _) => true,
    }
}

/// Equality of two errors, strings compared by their characters.
pub fn error_equal(a: &ExecutionError, b: &ExecutionError) -> (r: bool)
    ensures
        r == errors_equal(*a, *b),
{
    match (a, b) {
        (ExecutionError::Recoverable(x), ExecutionError::Recoverable(y)) => *x == *y,
        (ExecutionError::Critical(x), ExecutionError::Critical(y)) => *x == *y,
        (ExecutionError::NonRecoverable(x), ExecutionError::NonRecoverable(y)) => match (x, y) {
            (NonRecoverableError::ReferenceNotExistError(s), NonRecoverableError::ReferenceNotExistError(t)) => *s == *t,
            (NonRecoverableError::NonRecoveredRecoverableError(s), NonRecoverableError::NonRecoveredRecoverableError(t)) => *s == *t,
            (NonRecoverableError::ReferenceNotExistError(_), _) => false,
            (_, NonRecoverableError::ReferenceNotExistError(_)) => false,
            (NonRecoverableError::NonRecoveredRecoverableError(_), _) => false,
            (_, NonRecoverableError::NonRecoveredRecoverableError(_)) => false,
            _ => simple_error_code(x) == simple_error_code(y),
        },
        _ => false,
    }
}

/// A number identifying a non-recoverable error without payload.
fn simple_error_code(e: &NonRecoverableError) -> (r: u8)
    requires
        !(e is ReferenceNotExistError),
        !(e is NonRecoveredRecoverableError),
    ensures
        forall|f: NonRecoverableError| #![trigger simple_error_code_spec(f)]
            !(f is ReferenceNotExistError) && !(f is NonRecoveredRecoverableError)
            ==> (simple_error_code_spec(f) == r <==> f == *e),
        r == simple_error_code_spec(*e),
{
    match e {
        NonRecoverableError::DivideByZeroError => 1,
        NonRecoverableError::UndefinedOperatorMethodError => 2,
        NonRecoverableError::InvalidTypeError => 3,
        NonRecoverableError::SubscriptKeyError => 4,
        NonRecoverableError::AttributeNotFoundError => 5,
        NonRecoverableError::UndefinedOperendError => 6,
        NonRecoverableError::AttrNotStringError => 7,
        NonRecoverableError::RefNameMissingError => 8,
        NonRecoverableError::UndefinedVarError => 9,
        NonRecoverableError::AttrMisuseError => 10,
        NonRecoverableError::UnexpectedAttrError => 11,
        NonRecoverableError::UnexpectedIdxError => 12,
        NonRecoverableError::IndexOutOfRangeError => 13,
        NonRecoverableError::MemoryError => 14,
        NonRecoverableError::UnexpectedFunctionCall => 15,
        NonRecoverableError::IncorrectArgumentCountError => 16,
        NonRecoverableError::GenericError => 17,
        NonRecoverableError::RecursionError => 18,
        _ => 0,
    }
}

/// A number identifying a non-recoverable error without payload.
pub open spec fn simple_error_code_spec(e: NonRecoverableError) -> u8 {
    match e {
        NonRecoverableError::DivideByZeroError => 1,
        NonRecoverableError::UndefinedOperatorMethodError => 2,
        NonRecoverableError::InvalidTypeError => 3,
        NonRecoverableError::SubscriptKeyError => 4,
        NonRecoverableError::AttributeNotFoundError => 5,
        NonRecoverableError::UndefinedOperendError => 6,
        NonRecoverableError::AttrNotStringError => 7,
        NonRecoverableError::RefNameMissingError => 8,
        NonRecoverableError::UndefinedVarError => 9,
        NonRecoverableError::AttrMisuseError => 10,
        NonRecoverableError::UnexpectedAttrError => 11,
        NonRecoverableError::UnexpectedIdxError => 12,
        NonRecoverableError::IndexOutOfRangeError => 13,
        NonRecoverableError::MemoryError => 14,
        NonRecoverableError::UnexpectedFunctionCall => 15,
        NonRecoverableError::IncorrectArgumentCountError => 16,
        NonRecoverableError::GenericError => 17,
        NonRecoverableError::RecursionError => 18,
        _ => 0,
    }
}

/// The type class that equality compares across.
fn eq_class_of(v: &Value) -> (r: Option<u8>)
    ensures
        r is Some <==> eq_class(v@) is Some,
        r matches Some(c) ==> eq_class(v@) == Some(c as int),
{
    match v {
        Value::Nil => Some(0),
        Value::MemoryChunk(_) => Some(0),
        Value::Bool(_) => Some(1),
        Value::Float(_) => Some(2),
        Value::Int(_) => Some(3),
        Value::Error(_) => Some(4),
        Value::String(_) => Some(5),
        _ => None,
    }
}

/// `a == b` on values, when the operator is defined for the pair.
pub fn value_eq(a: &Value, b: &Value) -> (r: Option<bool>)
    ensures
        r == eq_spec(a@, b@),
{
    match (a, b) {
        (Value::Int(x), Value::Int(y)) => Some(*x == *y),
        (Value::Float(x), Value::Float(y)) => Some(float_equal(*x, *y)),
        (Value::Bool(x), Value::Bool(y)) => Some(*x == *y),
        (Value::String(x), Value::String(y)) => Some(*x == *y),
        (Value::Error(x), Value::Error(y)) => Some(error_equal(x, y)),
        _ => {
            let ca = eq_class_of(a);
            let cb = eq_class_of(b);
            match (ca, cb) {
                (Some(x), Some(y)) => Some(x == y),
                _ => None,
            }
        },
    }
}

/// The numeric operand a value stands for.
fn num_value(v: &Value) -> (r: Option<Num>)
    ensures
        r == num_of(v@),
{
    match v {
        Value::Int(i) => Some(Num::Int(*i)),
        Value::Float(f) => Some(Num::Float(*f)),
        _ => None,
    }
}

/// `a op b` on values.
pub fn binop(op: BinOp, a: &Value, b: &Value) -> (r: OpResult)
    ensures
        r@ == binop_spec(op, a@, b@),
        r is Value ==> scalar(r->Value_0@),
{
    let na = num_value(a);
    let nb = num_value(b);
    let both_num = na.is_some() && nb.is_some();
    let both_int = match (a, b) {
        (Value::Int(_), Value::Int(_)) => true,
        _ => false,
    };
    let mixed = both_num && !both_int;
    let undefined = OpResult::Failed(TypeConversionError::UndefinedOperatorMethodError);
    match op {
        BinOp::Eq | BinOp::Ne => {
            if both_num && !both_int && !(matches!(a, Value::Float(_)) && matches!(b, Value::Float(_))) {
                return OpResult::Host(FloatRequest::Binary(op, na.unwrap(), nb.unwrap()));
            }
            match value_eq(a, b) {
                Some(r) => OpResult::Value(Value::Bool(if op == BinOp::Eq { r } else { !r })),
                None => undefined,
            }
        },
        BinOp::Add | BinOp::Sub | BinOp::Mul => {
            if mixed {
                return OpResult::Host(FloatRequest::Binary(op, na.unwrap(), nb.unwrap()));
            }
            match (a, b) {
                (Value::Int(x), Value::Int(y)) => OpResult::Value(Value::Int(
                    if op == BinOp::Add {
                        x.wrapping_add(*y)
                    } else if op == BinOp::Sub {
                        x.wrapping_sub(*y)
                    } else {
                        x.wrapping_mul(*y)
                    },
                )),
                (Value::String(x), Value::String(y)) => if op == BinOp::Add {
                    let mut s = x.clone();
                    s.append(y.as_str());
                    OpResult::Value(Value::String(s))
                } else {
                    undefined
                },
                _ => undefined,
            }
        },
        BinOp::Div => match (a, b) {
            (Value::Int(_), Value::Int(0)) => OpResult::Failed(TypeConversionError::DivideByZeroError),
            _ => if both_num {
                OpResult::Host(FloatRequest::Binary(op, na.unwrap(), nb.unwrap()))
            } else {
                undefined
            },
        },
        BinOp::Mod => {
            if mixed {
                return OpResult::Host(FloatRequest::Binary(op, na.unwrap(), nb.unwrap()));
            }
            match (a, b) {
                (Value::Int(x), Value::Int(y)) => if *y == 0 {
                    OpResult::Failed(TypeConversionError::DivideByZeroError)
                } else {
                    OpResult::Value(Value::Int(wrapping_rem(*x, *y)))
                },
                _ => undefined,
            }
        },
        BinOp::BitAnd => match (a, b) {
            (Value::Int(x), Value::Int(y)) => OpResult::Value(Value::Int(*x & *y)),
            _ => undefined,
        },
        BinOp::BitOr => match (a, b) {
            (Value::Int(x), Value::Int(y)) => OpResult::Value(Value::Int(*x | *y)),
            (Value::Bool(x), Value::Bool(y)) => OpResult::Value(Value::Bool(*x != *y)),
            _ => undefined,
        },
        BinOp::BitXor => undefined,
        BinOp::Shl => match (a, b) {
            (Value::Int(x), Value::Int(y)) => OpResult::Value(Value::Int(x.wrapping_shl(*y as u32))),
            _ => undefined,
        },
        BinOp::Shr => match (a, b) {
            (Value::Int(x), Value::Int(y)) => OpResult::Value(Value::Int(x.wrapping_shr(*y as u32))),
            _ => undefined,
        },
        BinOp::Lt | BinOp::Le | BinOp::Gt | BinOp::Ge => {
            if mixed {
                return OpResult::Host(FloatRequest::Binary(op, na.unwrap(), nb.unwrap()));
            }
            match (a, b) {
                (Value::Int(x), Value::Int(y)) => OpResult::Value(Value::Bool(
                    match op {
                        BinOp::Lt => *x < *y,
                        BinOp::Le => *x <= *y,
                        BinOp::Gt => *x > *y,
                        _ => *x >= *y,
                    },
                )),
                (Value::Bool(x), Value::Bool(y)) => OpResult::Value(Value::Bool(
                    match op {
                        BinOp::Lt => !*x && *y,
                        BinOp::Le => !*x || *y,
                        BinOp::Gt => *x && !*y,
                        _ => *x || !*y,
                    },
                )),
                _ => undefined,
            }
        },
    }
}

/// `op a` on a value.
pub fn unop(op: UnOp, a: &Value) -> (r: OpResult)
    ensures
        r@ == unop_spec(op, a@),
        r is Value ==> scalar(r->Value_0@),
{
    match (op, a) {
        (UnOp::Not, Value::Bool(x)) => OpResult::Value(Value::Bool(!*x)),
        (UnOp::Pos, Value::Int(x)) => OpResult::Value(Value::Int(*x)),
        (UnOp::Pos, Value::Float(x)) => OpResult::Value(Value::Float(*x)),
        (UnOp::Neg, Value::Int(x)) => OpResult::Value(Value::Int(0i64.wrapping_sub(*x))),
        (UnOp::Neg, Value::Float(x)) => OpResult::Value(Value::Float(*x ^ 0x8000_0000_0000_0000u64)),
        _ => OpResult::Failed(TypeConversionError::UndefinedOperatorMethodError),
    }
}

/// An integer of the sandbox language.
#[derive(Debug, Copy, Clone, PartialEq, Eq, Structural)]
pub struct VirInt {
    pub value: i64,
}

impl VirInt {
    /// The integer `value`.
    pub fn new(value: i64) -> (r: Self)
        ensures
            r.value == value,
    {
        VirInt { value }
    }
}

/// Values that count as true or false in a condition.
pub trait IsTruhy {
    /// Whether the value counts as true.
    spec fn truthy_spec(&self) -> bool;

    fn is_truthy(&self) -> (r: bool)
        ensures
            r == self.truthy_spec(),
    ;
}

impl IsTruhy for Value {
    open spec fn truthy_spec(&self) -> bool {
        truthy(self@)
    }

    fn is_truthy(&self) -> (r: bool) {
        is_truthy(self)
    }
}

/// On integers the comparison operators compare the numbers: `<`, `<=`, `>`,
/// `>=`, `==` and `!=` give `true` exactly when the relation holds between them.
pub proof fn law_integer_comparisons(x: i64, y: i64)
    ensures
        binop_spec(BinOp::Lt, ValueView::Int(x), ValueView::Int(y)) == OpOutcome::Value(ValueView::Bool(x < y)),
        binop_spec(BinOp::Le, ValueView::Int(x), ValueView::Int(y)) == OpOutcome::Value(ValueView::Bool(x <= y)),
        binop_spec(BinOp::Gt, ValueView::Int(x), ValueView::Int(y)) == OpOutcome::Value(ValueView::Bool(x > y)),
        binop_spec(BinOp::Ge, ValueView::Int(x), ValueView::Int(y)) == OpOutcome::Value(ValueView::Bool(x >= y)),
        binop_spec(BinOp::Eq, ValueView::Int(x), ValueView::Int(y)) == OpOutcome::Value(ValueView::Bool(x == y)),
        binop_spec(BinOp::Ne, ValueView::Int(x), ValueView::Int(y)) == OpOutcome::Value(ValueView::Bool(x != y)),
        binop_spec(BinOp::Le, ValueView::Int(x), ValueView::Int(x)) == OpOutcome::Value(ValueView::Bool(true)),
        binop_spec(BinOp::Ge, ValueView::Int(x), ValueView::Int(x)) == OpOutcome::Value(ValueView::Bool(true)),
        binop_spec(BinOp::Lt, ValueView::Int(x), ValueView::Int(x)) == OpOutcome::Value(ValueView::Bool(false)),
        binop_spec(BinOp::Gt, ValueView::Int(x), ValueView::Int(x)) == OpOutcome::Value(ValueView::Bool(false)),
{
}

/// Integer arithmetic gives the exact sum, difference and product whenever it
/// fits in 64 bits; the remainder of non-negative numbers is the ordinary one.
pub proof fn law_integer_arithmetic(x: i64, y: i64)
    ensures
        i64::MIN <= x + y <= i64::MAX ==>
            binop_spec(BinOp::Add, ValueView::Int(x), ValueView::Int(y)) == OpOutcome::Value(ValueView::Int((x + y) as i64)),
        i64::MIN <= x - y <= i64::MAX ==>
            binop_spec(BinOp::Sub, ValueView::Int(x), ValueView::Int(y)) == OpOutcome::Value(ValueView::Int((x - y) as i64)),
        i64::MIN <= x * y <= i64::MAX ==>
            binop_spec(BinOp::Mul, ValueView::Int(x), ValueView::Int(y)) == OpOutcome::Value(ValueView::Int((x * y) as i64)),
        0 <= x && 0 < y ==> binop_spec(BinOp::Mod, ValueView::Int(x), ValueView::Int(y))
            == OpOutcome::Value(ValueView::Int((x % y) as i64)),
        y == 0 ==> binop_spec(BinOp::Mod, ValueView::Int(x), ValueView::Int(y))
            == OpOutcome::Failed(TypeConversionError::DivideByZeroError),
{
}

/// On integers, negation gives the negated number whenever it fits; on booleans,
/// `!` gives the opposite value.
pub proof fn law_unary_operators(x: i64, b: bool)
    ensures
        x > i64::MIN ==> unop_spec(UnOp::Neg, ValueView::Int(x)) == OpOutcome::Value(ValueView::Int((-x) as i64)),
        unop_spec(UnOp::Pos, ValueView::Int(x)) == OpOutcome::Value(ValueView::Int(x)),
        unop_spec(UnOp::Not, ValueView::Bool(b)) == OpOutcome::Value(ValueView::Bool(b == false)),
{
}

/// Bitwise operators on integers: `&` with zero is zero and with all ones is
/// the number, `|` with zero is the number and with all ones is all ones, both
/// are idempotent; shifting by one doubles (when it fits) or halves (rounding
/// down) a non-negative number.
pub proof fn law_integer_bits(x: i64)
    ensures
        binop_spec(BinOp::BitAnd, ValueView::Int(x), ValueView::Int(0)) == OpOutcome::Value(ValueView::Int(0)),
        binop_spec(BinOp::BitAnd, ValueView::Int(x), ValueView::Int(-1i64)) == OpOutcome::Value(ValueView::Int(x)),
        binop_spec(BinOp::BitAnd, ValueView::Int(x), ValueView::Int(x)) == OpOutcome::Value(ValueView::Int(x)),
        binop_spec(BinOp::BitOr, ValueView::Int(x), ValueView::Int(0)) == OpOutcome::Value(ValueView::Int(x)),
        binop_spec(BinOp::BitOr, ValueView::Int(x), ValueView::Int(-1i64)) == OpOutcome::Value(ValueView::Int(-1i64)),
        binop_spec(BinOp::BitOr, ValueView::Int(x), ValueView::Int(x)) == OpOutcome::Value(ValueView::Int(x)),
        0 <= x < 0x4000_0000_0000_0000 ==>
            binop_spec(BinOp::Shl, ValueView::Int(x), ValueView::Int(1)) == OpOutcome::Value(ValueView::Int((2 * x) as i64)),
        0 <= x ==> binop_spec(BinOp::Shr, ValueView::Int(x), ValueView::Int(1)) == OpOutcome::Value(ValueView::Int((x / 2) as i64)),
{
    assert(x & 0 == 0) by (bit_vector);
    assert(x & -1i64 == x) by (bit_vector);
    assert(x & x == x) by (bit_vector);
    assert(x | 0 == x) by (bit_vector);
    assert(x | -1i64 == -1i64) by (bit_vector);
    assert(x | x == x) by (bit_vector);
    assert(0 <= x < 0x4000_0000_0000_0000 ==> x.wrapping_shl(1) == 2 * x) by (bit_vector);
    assert(0 <= x ==> x.wrapping_shr(1) == x / 2) by (bit_vector);
}

/// `+` on strings joins them: the left string, then the right one.
pub proof fn law_string_concatenation(a: Seq<char>, b: Seq<char>)
    ensures
        binop_spec(BinOp::Add, ValueView::String(a), ValueView::String(b)) matches OpOutcome::Value(ValueView::String(r))
            && r.len() == a.len() + b.len() && r.subrange(0, a.len() as int) == a
            && r.subrange(a.len() as int, r.len() as int) == b,
{
    let r = a + b;
    assert(r.subrange(0, a.len() as int) =~= a);
    assert(r.subrange(a.len() as int, r.len() as int) =~= b);
}

/// Equality is symmetric on every pair of values, and every value that is not
/// a float equals itself when equality is defined for it (a float NaN does not).
pub proof fn law_equality(a: ValueView, b: ValueView)
    ensures
        eq_spec(a, b) == eq_spec(b, a),
        !(a is Float) && eq_spec(a, a) is Some ==> eq_spec(a, a) == Some(true),
        binop_spec(BinOp::Eq, a, b) == binop_spec(BinOp::Eq, b, a) || binop_spec(BinOp::Eq, a, b) is Host,
{
    match (a, b) {
        (ValueView::Error(x), ValueView::Error(y)) => {
            assert(errors_equal(x, y) == errors_equal(y, x));
        },
        _ => {},
    }
}

} // verus!
