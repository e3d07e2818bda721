//! Timing of one operation from the first time it is polled until it
//! completes.
//!
//! The time before the first poll does not count: under a concurrency limit
//! an operation may be built long before it is allowed to run. Instants are
//! readings of a monotonic clock, in nanoseconds since an origin that the
//! caller picks.

use vstd::prelude::*;

verus! {

/// The time from `start` to `now`, and zero where `now` lies before `start`.
pub open spec fn span(start: u64, now: u64) -> u64 {
    if now >= start {
        (now - start) as u64
    } else {
        0
    }
}

/// The timer of one operation.
#[derive(Clone, Copy, Debug, PartialEq, Eq, Structural)]
pub enum Timer {
    /// The operation has not been polled yet.
    Unstarted,
    /// The operation was first polled at this instant and has not completed.
    Running(u64),
    /// The operation has completed and its duration has been handed out.
    Done,
}

impl Timer {
    /// The instant from which time counts for a timer that is polled at
    /// `now`: the instant of its first poll.
    pub open spec fn started_at(self, now: u64) -> u64 {
        match self {
            Timer::Running(start) => start,
            _ => now,
        }
    }

    /// The timer after a poll at `now` that found the operation completed
    /// (`ready`) or still pending.
    pub open spec fn after_poll(self, now: u64, ready: bool) -> Timer {
        match self {
            Timer::Done => Timer::Done,
            _ => if ready {
                Timer::Done
            } else {
                Timer::Running(self.started_at(now))
            },
        }
    }

    /// What a poll at `now` hands out: the duration of the operation when the
    /// poll finds it completed, and nothing otherwise.
    pub open spec fn measured(self, now: u64, ready: bool) -> Option<u64> {
        match self {
            Timer::Done => None,
            _ => if ready {
                Some(span(self.started_at(now), now))
            } else {
                None
            },
        }
    }

    /// The timer after a poll at each of `polls`, in this order, none of
    /// which found the operation completed.
    pub open spec fn after_pending_polls(self, polls: Seq<u64>) -> Timer
        decreases polls.len(),
    {
        if polls.len() == 0 {
            self
        } else {
            self.after_pending_polls(polls.drop_last()).after_poll(polls.last(), false)
        }
    }

    /// Records a poll of the operation, made at `now`, that found it
    /// completed (`ready`) or still pending. The first poll starts the clock.
    /// The poll that finds the operation completed stops it and returns the
    /// time since the first poll. A timer that is done stays done.
    pub fn poll(&mut self, now: u64, ready: bool) -> (elapsed: Option<u64>)
        ensures
            *final(self) == old(self).after_poll(now, ready),
            elapsed == old(self).measured(now, ready),
    {
        let start: u64 = match *self {
            Timer::Unstarted => now,
            Timer::Running(start) => start,
            Timer::Done => {
                return None;
            },
        };
        if ready {
            *self = Timer::Done;
            if now >= start {
                Some(now - start)
            } else {
                Some(0)
            }
        } else {
            *self = Timer::Running(start);
            None
        }
    }
}

/// A timer that has not been started: the clock starts with the first poll.
pub fn timed() -> (timer: Timer)
    ensures
        timer == Timer::Unstarted,
{
    Timer::Unstarted
}

/// The clock is started once: after any number of polls that found the
/// operation pending, at least one, the timer runs from the instant of the
/// first of them.
pub proof fn lemma_clock_starts_once(polls: Seq<u64>)
    requires
        polls.len() > 0,
    ensures
        Timer::Unstarted.after_pending_polls(polls) == Timer::Running(polls[0]),
    decreases polls.len(),
{
    if polls.len() > 1 {
        lemma_clock_starts_once(polls.drop_last());
    } else {
        assert(Timer::Unstarted.after_pending_polls(polls.drop_last()) == Timer::Unstarted);
    }
}

/// An operation that is found pending at each of `polls` and completed at
/// `completion` is measured as the time from its first poll to `completion`,
/// however many polls lie between. One that is found completed by its first
/// poll is measured as zero.
pub proof fn lemma_measures_first_poll_to_completion(polls: Seq<u64>, completion: u64)
    requires
        forall|i: int| 0 <= i < polls.len() ==> polls[i] <= completion,
    ensures
        Timer::Unstarted.after_pending_polls(polls).measured(completion, true) == Some(
            if polls.len() == 0 {
                0u64
            } else {
                (completion - polls[0]) as u64
            },
        ),
        Timer::Unstarted.after_pending_polls(polls).after_poll(completion, true) == Timer::Done,
{
    if polls.len() > 0 {
        lemma_clock_starts_once(polls);
    }
}

/// What a running timer shows does not decrease as time goes on, and it is
/// never negative.
pub proof fn lemma_span_is_monotonic(start: u64, earlier: u64, later: u64)
    requires
        earlier <= later,
    ensures
        0 <= span(start, earlier) <= span(start, later),
{
}

} // verus!
