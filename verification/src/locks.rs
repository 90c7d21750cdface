use vstd::prelude::*;

use crate::err::GPUError;

verus! {

/// The cooperative priority rule: a running job must yield exactly when
/// some higher-priority job is waiting and the job itself is not high
/// priority. Jobs of equal priority never preempt each other.
pub fn should_break(my_priority: bool, higher_priority_waiting: bool) -> (r: bool)
    ensures
        r == (higher_priority_waiting && !my_priority),
{
    higher_priority_waiting && !my_priority
}

/// The recovery rule of the locked kernel wrappers: drop and rebuild the
/// kernel exactly on preemption; surface any other kernel error.
pub fn should_retry(e: &GPUError) -> (r: bool)
    ensures
        r == (*e is GPUTaken),
{
    matches!(e, GPUError::GPUTaken)
}

} // verus!
