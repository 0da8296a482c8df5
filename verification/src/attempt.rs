//! What to do after an attempt to establish a double mapping.
//!
//! The two ranges of a mapping have to be adjacent, and between finding a
//! free place for both and mapping the second one another mapping may take
//! that place. Such a collision is no failure: the attempt is made again at
//! another place, up to a number of attempts.

use crate::error::DoubleMappedBufferError;
use vstd::prelude::*;

verus! {

/// What one attempt to establish a double mapping came to.
#[derive(Clone, Copy, Debug, PartialEq, Eq, Structural)]
pub enum Attempt {
    /// Both ranges are mapped, the first one at this base.
    Mapped(usize),
    /// The place for one of the ranges was taken.
    Collision,
    /// The backing storage could not be allocated.
    OutOfMemory,
}

/// What follows an attempt.
#[derive(Clone, Copy, Debug, PartialEq, Eq, Structural)]
pub enum Step {
    /// Make another attempt.
    Retry,
    /// Stop: both ranges are mapped, the first one at this base.
    Mapped(usize),
    /// Stop: there is no mapping, for this reason.
    Failed(DoubleMappedBufferError),
}

/// What follows the attempt that was number `attempts_made`, counted from
/// one, when no more than `max_attempts` are to be made: a mapping ends the
/// attempts with its base, a failed allocation ends them with its error, and
/// a collision is followed by another attempt as long as one is left.
pub open spec fn next_step_spec(attempts_made: int, max_attempts: int, attempt: Attempt) -> Step {
    match attempt {
        Attempt::Mapped(base) => Step::Mapped(base),
        Attempt::OutOfMemory => Step::Failed(DoubleMappedBufferError::OutOfMemory),
        Attempt::Collision => if attempts_made < max_attempts {
            Step::Retry
        } else {
            Step::Failed(DoubleMappedBufferError::MappingFailed)
        },
    }
}

/// Decides what follows the attempt that was number `attempts_made`, counted
/// from one, when no more than `max_attempts` are to be made.
pub fn next_step(attempts_made: usize, max_attempts: usize, attempt: Attempt) -> (step: Step)
    ensures
        step == next_step_spec(attempts_made as int, max_attempts as int, attempt),
{
    match attempt {
        Attempt::Mapped(base) => Step::Mapped(base),
        Attempt::OutOfMemory => Step::Failed(DoubleMappedBufferError::OutOfMemory),
        Attempt::Collision => {
            if attempts_made < max_attempts {
                Step::Retry
            } else {
                Step::Failed(DoubleMappedBufferError::MappingFailed)
            }
        },
    }
}

/// No more than `max_attempts` attempts are made: the last one allowed is
/// never followed by another.
pub proof fn lemma_attempts_are_bounded(attempts_made: int, max_attempts: int, attempt: Attempt)
    requires
        attempts_made >= max_attempts,
    ensures
        next_step_spec(attempts_made, max_attempts, attempt) != Step::Retry,
{
}

} // verus!
