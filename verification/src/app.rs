//! The decisions of the host loop: what to do with what woke it, and whether
//! to go on after a pass.

use crate::ecs::StepError;
use vstd::prelude::*;

verus! {

/// What woke the host loop: the race between the input queue and the source
/// of updates has one winner.
pub enum Wake<I, U> {
    /// The input queue answered: an event, or nothing if the queue is closed.
    Input(Option<I>),
    /// The source of updates answered: an update, or nothing.
    Update(Option<U>),
    /// The source of updates failed for this one poll.
    TransientFailure,
    /// The source of updates failed for good.
    FatalFailure,
}

/// What the host loop does next.
pub enum Turn<I, U> {
    /// Run one scheduling pass on this input and this update.
    Step { input: Option<I>, update: Option<U> },
    /// Leave the loop.
    Quit,
}

/// The turn that answers `wake`: an input is stepped on alone, an update is
/// stepped on alone, a poll that failed for once counts as no update, and a
/// source that failed for good ends the loop.
pub open spec fn turn_for<I, U>(wake: Wake<I, U>) -> Turn<I, U> {
    match wake {
        Wake::Input(input) => Turn::Step { input, update: None },
        Wake::Update(update) => Turn::Step { input: None, update },
        Wake::TransientFailure => Turn::Step { input: None, update: None },
        Wake::FatalFailure => Turn::Quit,
    }
}

/// Decides what the host loop does with what woke it.
pub fn plan_turn<I, U>(wake: Wake<I, U>) -> (turn: Turn<I, U>)
    ensures
        turn == turn_for(wake),
{
    match wake {
        Wake::Input(input) => Turn::Step { input, update: None },
        Wake::Update(update) => Turn::Step { input: None, update },
        Wake::TransientFailure => Turn::Step { input: None, update: None },
        Wake::FatalFailure => Turn::Quit,
    }
}

/// Whether the host loop goes on after a pass that ended in `result`: it
/// does while a system below the root waits for the next event, and stops
/// when the pass reported completion or failed.
pub fn goes_on(result: &Result<bool, StepError>) -> (on: bool)
    ensures
        on == (*result == Ok::<bool, StepError>(true)),
{
    match result {
        Ok(running) => *running,
        Err(_) => false,
    }
}

/// No pass is given both an input and an update.
pub proof fn theorem_one_event_per_step<I, U>(wake: Wake<I, U>)
    ensures
        turn_for(wake) matches Turn::Step { input, update } ==> input is None || update is None,
{
}

} // verus!
