//! Error kinds raised while running sandboxed code.
//!
//! Errors come in three severities: a recoverable error (the host may grant more
//! budget and resume), a non-recoverable error (the program is at fault) and a
//! critical error (the machine itself was driven into an impossible state).
use vstd::prelude::*;
use vstd::std_specs::convert::FromSpecImpl;

verus! {

/// The allocator refused a request: it would exceed the memory limit.
#[derive(Debug, Copy, Clone, PartialEq, Eq, Structural)]
pub struct MemoryError;

/// Failure of a value operator.
#[derive(Debug, Copy, Clone, PartialEq, Eq, Structural)]
pub enum TypeConversionError {
    DivideByZeroError,
    UndefinedOperatorMethodError,
    InvalidTypeError,
    MemoryError,
}

/// An error after which execution may resume once the host has acted.
#[derive(Debug, Copy, Clone, PartialEq, Eq, Structural)]
pub enum RecoverableError {
    /// The instruction budget does not cover the amount requested.
    TimeoutError(u64),
}

/// An error caused by the sandboxed program.
#[derive(Debug, Clone, PartialEq, Eq)]
pub enum NonRecoverableError {
    ReferenceNotExistError(String),
    DivideByZeroError,
    UndefinedOperatorMethodError,
    InvalidTypeError,
    SubscriptKeyError,
    AttributeNotFoundError,
    UndefinedOperendError,
    AttrNotStringError,
    RefNameMissingError,
    UndefinedVarError,
    AttrMisuseError,
    UnexpectedAttrError,
    UnexpectedIdxError,
    IndexOutOfRangeError,
    MemoryError,
    UnexpectedFunctionCall,
    IncorrectArgumentCountError,
    GenericError,
    /// A recoverable error was left unhandled and execution was attempted again.
    NonRecoveredRecoverableError(RecoverableError),
    /// A recursion, instruction or memory restriction of a nested walk was hit.
    RecursionError,
}

/// An error showing that the machine was driven into an impossible state.
#[derive(Debug, Copy, Clone, PartialEq, Eq, Structural)]
pub enum CriticalError {
    GenericPanicRewindError,
    InvalidSyntaxError,
    FnStackUnderflowError,
    VStackUnderflowError,
}

/// Any error of the execution machine.
#[derive(Debug, Clone, PartialEq, Eq)]
pub enum ExecutionError {
    Recoverable(RecoverableError),
    NonRecoverable(NonRecoverableError),
    Critical(CriticalError),
}

/// The execution error that a failed operator turns into.
pub open spec fn spec_conversion_error(err: TypeConversionError) -> ExecutionError {
    match err {
        TypeConversionError::DivideByZeroError => ExecutionError::NonRecoverable(
            NonRecoverableError::DivideByZeroError,
        ),
        TypeConversionError::UndefinedOperatorMethodError => ExecutionError::NonRecoverable(
            NonRecoverableError::UndefinedOperatorMethodError,
        ),
        TypeConversionError::InvalidTypeError => ExecutionError::NonRecoverable(
            NonRecoverableError::InvalidTypeError,
        ),
        TypeConversionError::MemoryError => ExecutionError::NonRecoverable(
            NonRecoverableError::MemoryError,
        ),
    }
}

/// The execution error that stands for an exhausted memory limit.
pub open spec fn memory_exhausted() -> ExecutionError {
    ExecutionError::NonRecoverable(NonRecoverableError::MemoryError)
}

impl ExecutionError {
    /// A copy of this error.
    pub fn duplicate(&self) -> (r: Self)
        ensures
            r == *self,
    {
        match self {
            ExecutionError::Recoverable(e) => ExecutionError::Recoverable(*e),
            ExecutionError::NonRecoverable(e) => ExecutionError::NonRecoverable(e.duplicate()),
            ExecutionError::Critical(e) => ExecutionError::Critical(*e),
        }
    }

    /// Whether this error lets execution resume after the host has acted.
    pub fn is_recoverable(&self) -> (r: bool)
        ensures
            r == (*self is Recoverable),
    {
        match self {
            ExecutionError::Recoverable(_) => true,
            _ => false,
        }
    }
}

impl NonRecoverableError {
    /// A copy of this error.
    pub fn duplicate(&self) -> (r: Self)
        ensures
            r == *self,
    {
        match self {
            NonRecoverableError::ReferenceNotExistError(s) => NonRecoverableError::ReferenceNotExistError(s.clone()),
            NonRecoverableError::DivideByZeroError => NonRecoverableError::DivideByZeroError,
            NonRecoverableError::UndefinedOperatorMethodError => NonRecoverableError::UndefinedOperatorMethodError,
            NonRecoverableError::InvalidTypeError => NonRecoverableError::InvalidTypeError,
            NonRecoverableError::SubscriptKeyError => NonRecoverableError::SubscriptKeyError,
            NonRecoverableError::AttributeNotFoundError => NonRecoverableError::AttributeNotFoundError,
            NonRecoverableError::UndefinedOperendError => NonRecoverableError::UndefinedOperendError,
            NonRecoverableError::AttrNotStringError => NonRecoverableError::AttrNotStringError,
            NonRecoverableError::RefNameMissingError => NonRecoverableError::RefNameMissingError,
            NonRecoverableError::UndefinedVarError => NonRecoverableError::UndefinedVarError,
            NonRecoverableError::AttrMisuseError => NonRecoverableError::AttrMisuseError,
            NonRecoverableError::UnexpectedAttrError => NonRecoverableError::UnexpectedAttrError,
            NonRecoverableError::UnexpectedIdxError => NonRecoverableError::UnexpectedIdxError,
            NonRecoverableError::IndexOutOfRangeError => NonRecoverableError::IndexOutOfRangeError,
            NonRecoverableError::MemoryError => NonRecoverableError::MemoryError,
            NonRecoverableError::UnexpectedFunctionCall => NonRecoverableError::UnexpectedFunctionCall,
            NonRecoverableError::IncorrectArgumentCountError => NonRecoverableError::IncorrectArgumentCountError,
            NonRecoverableError::GenericError => NonRecoverableError::GenericError,
            NonRecoverableError::NonRecoveredRecoverableError(r) => NonRecoverableError::NonRecoveredRecoverableError(*r),
            NonRecoverableError::RecursionError => NonRecoverableError::RecursionError,
        }
    }
}

impl From<RecoverableError> for ExecutionError {
    fn from(err: RecoverableError) -> (r: Self) {
        ExecutionError::Recoverable(err)
    }
}

impl FromSpecImpl<RecoverableError> for ExecutionError {
    open spec fn obeys_from_spec() -> bool {
        true
    }

    open spec fn from_spec(err: RecoverableError) -> Self {
        ExecutionError::Recoverable(err)
    }
}

impl From<NonRecoverableError> for ExecutionError {
    fn from(err: NonRecoverableError) -> (r: Self) {
        ExecutionError::NonRecoverable(err)
    }
}

impl FromSpecImpl<NonRecoverableError> for ExecutionError {
    open spec fn obeys_from_spec() -> bool {
        true
    }

    open spec fn from_spec(err: NonRecoverableError) -> Self {
        ExecutionError::NonRecoverable(err)
    }
}

impl From<CriticalError> for ExecutionError {
    fn from(err: CriticalError) -> (r: Self) {
        ExecutionError::Critical(err)
    }
}

impl FromSpecImpl<CriticalError> for ExecutionError {
    open spec fn obeys_from_spec() -> bool {
        true
    }

    open spec fn from_spec(err: CriticalError) -> Self {
        ExecutionError::Critical(err)
    }
}

impl From<MemoryError> for ExecutionError {
    fn from(err: MemoryError) -> (r: Self) {
        ExecutionError::NonRecoverable(NonRecoverableError::MemoryError)
    }
}

impl FromSpecImpl<MemoryError> for ExecutionError {
    open spec fn obeys_from_spec() -> bool {
        true
    }

    open spec fn from_spec(err: MemoryError) -> Self {
        memory_exhausted()
    }
}

impl From<MemoryError> for TypeConversionError {
    fn from(err: MemoryError) -> (r: Self) {
        TypeConversionError::MemoryError
    }
}

impl FromSpecImpl<MemoryError> for TypeConversionError {
    open spec fn obeys_from_spec() -> bool {
        true
    }

    open spec fn from_spec(err: MemoryError) -> Self {
        TypeConversionError::MemoryError
    }
}

impl From<TypeConversionError> for ExecutionError {
    fn from(err: TypeConversionError) -> (r: Self) {
        match err {
            TypeConversionError::DivideByZeroError => ExecutionError::NonRecoverable(
                NonRecoverableError::DivideByZeroError,
            ),
            TypeConversionError::UndefinedOperatorMethodError => ExecutionError::NonRecoverable(
                NonRecoverableError::UndefinedOperatorMethodError,
            ),
            TypeConversionError::InvalidTypeError => ExecutionError::NonRecoverable(
                NonRecoverableError::InvalidTypeError,
            ),
            TypeConversionError::MemoryError => ExecutionError::NonRecoverable(
                NonRecoverableError::MemoryError,
            ),
        }
    }
}

impl FromSpecImpl<TypeConversionError> for ExecutionError {
    open spec fn obeys_from_spec() -> bool {
        true
    }

    open spec fn from_spec(err: TypeConversionError) -> Self {
        spec_conversion_error(err)
    }
}

/// Errors of the first, stack-only executor of the sandbox language.
#[derive(Debug, Clone, PartialEq, Eq)]
pub enum SandboxExecutionError {
    ReferenceNotExistError(String),
    DivideByZeroError,
    FnStackUnderflowError,
    VStackUnderflowError,
    UndefinedOperendError,
    AttrNotStringError,
    RefNameMissingError,
    UndefinedVarError,
    AttrMisuseError,
    UnexpectedAttrError,
    UnexpectedIdxError,
    IndexOutOfRangeError,
    MemoryError,
}

impl From<MemoryError> for SandboxExecutionError {
    fn from(err: MemoryError) -> (r: Self) {
        SandboxExecutionError::MemoryError
    }
}

impl FromSpecImpl<MemoryError> for SandboxExecutionError {
    open spec fn obeys_from_spec() -> bool {
        true
    }

    open spec fn from_spec(err: MemoryError) -> Self {
        SandboxExecutionError::MemoryError
    }
}

} // verus!
