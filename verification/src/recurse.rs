//! Limits on recursion depth, work and memory for host-side walks over values
//! (such as rendering a value as text).
use vstd::prelude::*;
use vstd::std_specs::convert::FromSpecImpl;
use crate::error::{ExecutionError, NonRecoverableError};
use crate::mem::MemoryAllocation;

verus! {

/// Limits of a walk; `None` leaves a dimension unlimited.
#[derive(Copy, Clone, Debug, PartialEq, Eq)]
pub struct RecurseConfig {
    pub recurse_depth: Option<u32>,
    pub inst_limit: Option<u64>,
    pub mem_limit: Option<usize>,
}

impl Default for RecurseConfig {
    fn default() -> (r: Self)
        ensures
            r.recurse_depth == Some(256u32),
            r.inst_limit == Some(1048576u64),
            r.mem_limit == Some(1048576usize),
    {
        RecurseConfig { recurse_depth: Some(256), inst_limit: Some(1048576), mem_limit: Some(1048576) }
    }
}

/// A walk went past one of its limits.
#[derive(Debug, Clone, Copy, PartialEq, Eq, Structural)]
pub struct RecursionError;

impl From<RecursionError> for NonRecoverableError {
    fn from(err: RecursionError) -> (r: Self) {
        NonRecoverableError::RecursionError
    }
}

impl FromSpecImpl<RecursionError> for NonRecoverableError {
    open spec fn obeys_from_spec() -> bool {
        true
    }

    open spec fn from_spec(err: RecursionError) -> Self {
        NonRecoverableError::RecursionError
    }
}

impl From<RecursionError> for ExecutionError {
    fn from(err: RecursionError) -> (r: Self) {
        ExecutionError::NonRecoverable(NonRecoverableError::RecursionError)
    }
}

impl FromSpecImpl<RecursionError> for ExecutionError {
    open spec fn obeys_from_spec() -> bool {
        true
    }

    open spec fn from_spec(err: RecursionError) -> Self {
        ExecutionError::NonRecoverable(NonRecoverableError::RecursionError)
    }
}

/// The position of a walk against its limits.
///
/// The counters of work and memory are read, never advanced: a walk is refused
/// work only when the counters it started with already exceed the limits.
#[derive(Copy, Clone, Debug)]
pub struct RecurseRestricter {
    pub config: RecurseConfig,
    pub curr_depth: u32,
    pub curr_inst: u64,
    pub curr_mem: usize,
}

/// Whether a walk at depth `depth` stays within the depth limit.
pub open spec fn depth_allowed(config: RecurseConfig, depth: int) -> bool {
    match config.recurse_depth {
        Some(lim) => depth <= lim,
        None => true,
    }
}

/// Whether `amount` more units of work are granted at work count `curr`.
pub open spec fn work_allowed(config: RecurseConfig, curr: u64, amount: u64) -> bool {
    &&& curr + amount <= u64::MAX
    &&& match config.inst_limit {
        Some(lim) => curr <= lim,
        None => true,
    }
}

impl RecurseConfig {
    /// A walk at the root under these limits.
    pub fn as_lim(self) -> (r: RecurseRestricter)
        ensures
            r.config == self,
            r.curr_depth == 0,
            r.curr_inst == 0,
            r.curr_mem == 0,
    {
        RecurseRestricter { config: self, curr_depth: 0, curr_inst: 0, curr_mem: 0 }
    }
}

impl RecurseRestricter {
    /// The walk one level deeper, refused past the depth limit.
    pub fn incr(&self) -> (r: Result<Self, RecursionError>)
        requires
            self.curr_depth < u32::MAX,
        ensures
            r is Ok <==> depth_allowed(self.config, self.curr_depth + 1),
            r matches Ok(next) ==> next.curr_depth == self.curr_depth + 1 && next.config == self.config
                && next.curr_inst == self.curr_inst && next.curr_mem == self.curr_mem,
    {
        let mut other = *self;
        other.curr_depth = other.curr_depth + 1;
        match other.config.recurse_depth {
            Some(lim) => {
                if lim < other.curr_depth {
                    return Err(RecursionError);
                }
            },
            None => {},
        }
        Ok(other)
    }

    /// Asks for `amount` units of work.
    pub fn consume_inst(&self, amount: u64) -> (r: Result<(), RecursionError>)
        ensures
            r is Ok <==> work_allowed(self.config, self.curr_inst, amount),
    {
        if self.curr_inst.checked_add(amount).is_none() {
            return Err(RecursionError);
        }
        match self.config.inst_limit {
            Some(lim) => {
                if self.curr_inst > lim {
                    return Err(RecursionError);
                }
            },
            None => {},
        }
        Ok(())
    }

    /// Asks for `amount` bytes of memory, checked against the work limit and
    /// against what `alloc` still has room for.
    pub fn consume_mem(&self, amount: u64, alloc: &MemoryAllocation) -> (r: Result<(), RecursionError>)
        requires
            alloc.curr <= alloc.max,
        ensures
            r is Ok <==> work_allowed(self.config, self.curr_inst, amount) && alloc.fits(self.curr_mem),
    {
        if self.consume_inst(amount).is_err() {
            return Err(RecursionError);
        }
        if alloc.check_alloc_err(self.curr_mem).is_err() {
            return Err(RecursionError);
        }
        Ok(())
    }
}

} // verus!
