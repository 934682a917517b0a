//! The load derived from two consecutive samples of a cumulative counter.

use vstd::prelude::*;

verus! {

/// The ticks that passed between two samples of one counter: the difference
/// where the counter grew, and 0 where it shrank or stood still.
pub open spec fn spec_delta(current: u64, previous: u64) -> u64 {
    if current >= previous {
        (current - previous) as u64
    } else {
        0
    }
}

/// Ticks between the previous and the current sample of the same counter.
/// A counter that went backwards gives 0.
pub fn compute_delta(current: u64, previous: u64) -> (delta: u64)
    ensures
        delta == spec_delta(current, previous),
        current >= previous ==> delta == current - previous,
        current < previous ==> delta == 0,
{
    if current >= previous {
        current - previous
    } else {
        0
    }
}

/// The aggregate counter of the most recent cycle that delivered one, or
/// nothing before the first.
#[derive(Clone, Copy, Debug, PartialEq, Eq, Structural)]
pub struct LoadDeltaState {
    previous: Option<u64>,
}

impl LoadDeltaState {
    /// The counter that the next sample is held against.
    pub closed spec fn baseline(&self) -> Option<u64> {
        self.previous
    }

    /// The delta that `observe` reports for `current` in this state: 0
    /// while there is no baseline yet.
    pub open spec fn spec_delta_for(&self, current: u64) -> u64 {
        match self.baseline() {
            Some(previous) => spec_delta(current, previous),
            None => 0,
        }
    }

    /// The state at start-up: no sample seen.
    pub fn new() -> (state: LoadDeltaState)
        ensures
            state.baseline() == None::<u64>,
    {
        LoadDeltaState { previous: None }
    }

    /// The baseline, if a sample was seen.
    pub fn previous_total(&self) -> (previous: Option<u64>)
        ensures
            previous == self.baseline(),
    {
        self.previous
    }

    /// Takes the aggregate counter of a new sample: reports the ticks since
    /// the baseline and makes the new sample the baseline.
    pub fn observe(&mut self, current: u64) -> (delta: u64)
        ensures
            delta == old(self).spec_delta_for(current),
            final(self).baseline() == Some(current),
    {
        let delta: u64 = match self.previous {
            Some(previous) => compute_delta(current, previous),
            None => 0,
        };
        self.previous = Some(current);
        delta
    }
}

} // verus!
