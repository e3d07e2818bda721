//! Admission control for a run of `request_count` requests of which at most
//! `concurrent_count` may be in flight at once.
//!
//! The dispatcher performs no request itself. It decides: asked what to do
//! next, it answers with the unit to start, with an order to wait for a
//! completion, or with the news that the run is over; told of a completion,
//! it records the outcome and frees the slot. Whoever drives it performs the
//! requests and reports back, each time with a reading of the clock: the
//! dispatcher times the whole run, from the start of the first unit to the
//! completion of the last.

use vstd::prelude::*;
use crate::outcome::{RequestOutcome, TestOutcome};
use crate::timer::{span, timed, Timer};

verus! {

/// How far a run has come.
pub struct Progress {
    /// The number of requests to make.
    pub request_count: nat,
    /// The number of requests allowed in flight at a time.
    pub concurrent_count: nat,
    /// The units `0..started` have been started, in this order.
    pub started: nat,
    /// The units that have completed, in the order of their completion.
    pub completed: Seq<usize>,
    /// The outcome of each completed unit, in the same order.
    pub outcomes: Seq<RequestOutcome>,
    /// The timer of the whole run.
    pub clock: Timer,
    /// How long the whole run took, once it has finished.
    pub total_time: Option<u64>,
}

impl Progress {
    /// The state before any unit has been started.
    pub open spec fn initial(request_count: nat, concurrent_count: nat) -> Progress {
        Progress {
            request_count,
            concurrent_count,
            started: 0,
            completed: Seq::empty(),
            outcomes: Seq::empty(),
            clock: Timer::Unstarted,
            total_time: None,
        }
    }

    /// The number of units that have been started and have not completed.
    pub open spec fn in_flight(self) -> int {
        self.started - self.completed.len()
    }

    /// Whether `unit` has been started and has not completed.
    pub open spec fn is_in_flight(self, unit: usize) -> bool {
        unit < self.started && !self.completed.contains(unit)
    }

    /// Whether a slot is free and a unit is left to fill it.
    pub open spec fn can_start(self) -> bool {
        self.started < self.request_count && self.in_flight() < self.concurrent_count
    }

    /// Whether every unit has completed.
    pub open spec fn finished(self) -> bool {
        self.completed.len() == self.request_count
    }

    /// Whether all units but one have completed.
    pub open spec fn one_left(self) -> bool {
        self.completed.len() + 1 == self.request_count
    }

    /// The state after the next unit, which is the unit `started`, has been
    /// started at `now`. The start of the first unit starts the clock.
    pub open spec fn start(self, now: u64) -> Progress {
        Progress { started: self.started + 1, clock: self.clock.after_poll(now, false), ..self }
    }

    /// The state after `unit` has completed with `outcome` at `now`. The
    /// completion of the last unit stops the clock.
    pub open spec fn complete(self, unit: usize, outcome: RequestOutcome, now: u64) -> Progress {
        Progress {
            completed: self.completed.push(unit),
            outcomes: self.outcomes.push(outcome),
            clock: self.clock.after_poll(now, self.one_left()),
            total_time: self.clock.measured(now, self.one_left()),
            ..self
        }
    }

    /// What holds of every state that a run passes through.
    pub open spec fn inv(self) -> bool {
        &&& 1 <= self.request_count <= usize::MAX
        &&& self.concurrent_count >= 1
        &&& self.started <= self.request_count
        &&& self.completed.no_duplicates()
        &&& forall|k: int| 0 <= k < self.completed.len() ==> self.completed[k] < self.started
        &&& self.outcomes.len() == self.completed.len()
        &&& 0 <= self.in_flight() <= self.concurrent_count
        &&& self.clock is Unstarted <==> self.started == 0
        &&& self.clock is Done <==> self.finished()
        &&& self.total_time is Some <==> self.finished()
    }
}

/// What can happen in the course of a run.
pub enum Event {
    /// The next unit was started at this instant.
    Started(u64),
    /// This unit completed with this outcome, at this instant.
    Completed(usize, RequestOutcome, u64),
}

impl Progress {
    /// Whether `event` can happen in this state: a unit is started only where
    /// a slot is free and a unit is left, and only a unit in flight completes.
    pub open spec fn allows(self, event: Event) -> bool {
        match event {
            Event::Started(_) => self.can_start(),
            Event::Completed(unit, _, _) => self.is_in_flight(unit),
        }
    }

    /// The state after `event`.
    pub open spec fn after(self, event: Event) -> Progress {
        match event {
            Event::Started(now) => self.start(now),
            Event::Completed(unit, outcome, now) => self.complete(unit, outcome, now),
        }
    }

    /// The state after `events`, in this order.
    pub open spec fn after_all(self, events: Seq<Event>) -> Progress
        decreases events.len(),
    {
        if events.len() == 0 {
            self
        } else {
            self.after_all(events.drop_last()).after(events.last())
        }
    }

    /// Whether `events` can happen in this order, starting from this state.
    pub open spec fn allows_all(self, events: Seq<Event>) -> bool
        decreases events.len(),
    {
        events.len() == 0 || (self.allows_all(events.drop_last()) && self.after_all(
            events.drop_last(),
        ).allows(events.last()))
    }
}

/// Distinct units below `bound` are at most `bound` many, and where they are
/// `bound` many, every unit below `bound` is among them.
pub proof fn lemma_distinct_units(units: Seq<usize>, bound: nat)
    requires
        units.no_duplicates(),
        forall|k: int| 0 <= k < units.len() ==> units[k] < bound,
    ensures
        units.len() <= bound,
        units.len() == bound ==> forall|unit: usize| unit < bound ==> units.contains(unit),
    decreases bound,
{
    if bound == 0 {
        if units.len() > 0 {
            assert(units[0] < bound);
        }
    } else if units.contains((bound - 1) as usize) {
        // Without the largest unit, the others are distinct units below `bound - 1`.
        let top = (bound - 1) as usize;
        let at = units.index_of(top);
        let rest = units.remove(at);
        assert forall|k: int| 0 <= k < rest.len() implies rest[k] < bound - 1 && units.contains(
            #[trigger] rest[k],
        ) by {
            assert(rest[k] == units[if k < at { k } else { k + 1 }]);
        }
        lemma_distinct_units(rest, (bound - 1) as nat);
        assert forall|unit: usize| unit < bound - 1 && rest.contains(unit) implies units.contains(
            unit,
        ) by {
            let k = rest.index_of(unit);
            assert(units.contains(rest[k]));
        }
    } else {
        // The largest unit is not among them: all are below `bound - 1`.
        assert forall|k: int| 0 <= k < units.len() implies units[k] < bound - 1 by {
            assert(units.contains(units[k]));
        }
        lemma_distinct_units(units, (bound - 1) as nat);
    }
}

/// The concurrency cap: at no point of a run are more units in flight than
/// the limit allows, nor more than there are requests to make.
pub proof fn lemma_in_flight_is_capped(progress: Progress)
    requires
        progress.inv(),
    ensures
        0 <= progress.in_flight() <= progress.concurrent_count,
        progress.in_flight() <= progress.request_count,
{
}

/// Completeness: when a run has finished, every unit has been started, none
/// is in flight, and each of the units `0..request_count` has completed
/// exactly once, with one outcome recorded for it.
pub proof fn lemma_every_unit_completes_once(progress: Progress)
    requires
        progress.inv(),
        progress.finished(),
    ensures
        progress.started == progress.request_count,
        progress.in_flight() == 0,
        progress.outcomes.len() == progress.request_count,
        progress.completed.no_duplicates(),
        forall|unit: usize| unit < progress.request_count ==> progress.completed.contains(unit),
{
    lemma_distinct_units(progress.completed, progress.started);
}

/// The invariant holds before anything has been started.
pub proof fn lemma_initial_invariant(request_count: nat, concurrent_count: nat)
    requires
        1 <= request_count <= usize::MAX,
        concurrent_count >= 1,
    ensures
        Progress::initial(request_count, concurrent_count).inv(),
{
}

/// Starting a unit where one can be started keeps the invariant, and the
/// unit started is then in flight.
pub proof fn lemma_start_keeps_invariant(progress: Progress, unit: usize, now: u64)
    requires
        progress.inv(),
        progress.can_start(),
        unit == progress.started,
    ensures
        progress.start(now).inv(),
        progress.start(now).is_in_flight(unit),
{
    lemma_distinct_units(progress.completed, progress.started);
    if progress.completed.contains(unit) {
        let k = choose|k: int| 0 <= k < progress.completed.len() && progress.completed[k] == unit;
        assert(progress.completed[k] < progress.started);
    }
}

/// Recording the completion of a unit in flight keeps the invariant.
pub proof fn lemma_complete_keeps_invariant(
    progress: Progress,
    unit: usize,
    outcome: RequestOutcome,
    now: u64,
)
    requires
        progress.inv(),
        progress.is_in_flight(unit),
    ensures
        progress.complete(unit, outcome, now).inv(),
{
    lemma_distinct_units(progress.completed, progress.started);
    let after = progress.complete(unit, outcome, now);
    lemma_distinct_units(after.completed, after.started);
}

/// The concurrency cap holds throughout a run: whatever has happened since
/// the dispatcher was made, the invariant holds, and with it no more units
/// are in flight than the limit allows, nor more than there are requests.
pub proof fn lemma_cap_holds_throughout(
    request_count: nat,
    concurrent_count: nat,
    events: Seq<Event>,
)
    requires
        1 <= request_count <= usize::MAX,
        concurrent_count >= 1,
        Progress::initial(request_count, concurrent_count).allows_all(events),
    ensures
        ({
            let reached = Progress::initial(request_count, concurrent_count).after_all(events);
            &&& reached.inv()
            &&& reached.request_count == request_count
            &&& reached.concurrent_count == concurrent_count
            &&& 0 <= reached.in_flight() <= concurrent_count
            &&& reached.in_flight() <= request_count
        }),
    decreases events.len(),
{
    let initial = Progress::initial(request_count, concurrent_count);
    if events.len() > 0 {
        lemma_cap_holds_throughout(request_count, concurrent_count, events.drop_last());
        let before = initial.after_all(events.drop_last());
        match events.last() {
            Event::Started(now) => {
                lemma_start_keeps_invariant(before, before.started as usize, now);
            },
            Event::Completed(unit, outcome, now) => {
                lemma_complete_keeps_invariant(before, unit, outcome, now);
            },
        }
    }
}

/// A run is over after twice as many events as there are requests, and not
/// before: every event is the start or the completion of a unit, each unit
/// is started once and completes once, and a run has finished exactly when
/// every unit has done both.
pub proof fn lemma_run_ends(request_count: nat, concurrent_count: nat, events: Seq<Event>)
    requires
        1 <= request_count <= usize::MAX,
        concurrent_count >= 1,
        Progress::initial(request_count, concurrent_count).allows_all(events),
    ensures
        ({
            let reached = Progress::initial(request_count, concurrent_count).after_all(events);
            &&& events.len() == reached.started + reached.completed.len()
            &&& events.len() <= 2 * request_count
            &&& reached.finished() <==> events.len() == 2 * request_count
        }),
    decreases events.len(),
{
    lemma_cap_holds_throughout(request_count, concurrent_count, events);
    if events.len() > 0 {
        lemma_run_ends(request_count, concurrent_count, events.drop_last());
    }
}

/// The instant at which `event` happened.
pub open spec fn instant_of(event: Event) -> u64 {
    match event {
        Event::Started(now) => now,
        Event::Completed(_, _, now) => now,
    }
}

/// The time of a finished run is the time from the start of its first unit
/// to the completion of its last: a run begins with a start and, once
/// finished, has ended with a completion, and the time recorded for it lies
/// between the two.
pub proof fn lemma_total_time_spans_the_run(
    request_count: nat,
    concurrent_count: nat,
    events: Seq<Event>,
)
    requires
        1 <= request_count <= usize::MAX,
        concurrent_count >= 1,
        Progress::initial(request_count, concurrent_count).allows_all(events),
        Progress::initial(request_count, concurrent_count).after_all(events).finished(),
    ensures
        events.len() >= 2,
        events.first() is Started,
        events.last() is Completed,
        Progress::initial(request_count, concurrent_count).after_all(events).total_time == Some(
            span(instant_of(events.first()), instant_of(events.last())),
        ),
{
    // The run was not finished before its last event, for nothing can happen
    // in a finished run: so that event is the completion that finished it.
    let earlier = events.drop_last();
    let before = Progress::initial(request_count, concurrent_count).after_all(earlier);
    lemma_cap_holds_throughout(request_count, concurrent_count, earlier);
    lemma_clock_runs_from_first_start(request_count, concurrent_count, earlier);
    lemma_distinct_units(before.completed, before.started);
}

/// Once a run has begun, its first event is a start, and until it has
/// finished its clock runs from the instant of that start.
proof fn lemma_clock_runs_from_first_start(
    request_count: nat,
    concurrent_count: nat,
    events: Seq<Event>,
)
    requires
        1 <= request_count <= usize::MAX,
        concurrent_count >= 1,
        Progress::initial(request_count, concurrent_count).allows_all(events),
    ensures
        events.len() > 0 ==> events.first() is Started,
        ({
            let reached = Progress::initial(request_count, concurrent_count).after_all(events);
            events.len() > 0 && !reached.finished() ==> reached.clock == Timer::Running(
                instant_of(events.first()),
            )
        }),
        events.len() == 0 ==> Progress::initial(request_count, concurrent_count).after_all(events)
            == Progress::initial(request_count, concurrent_count),
    decreases events.len(),
{
    if events.len() > 0 {
        let earlier = events.drop_last();
        let before = Progress::initial(request_count, concurrent_count).after_all(earlier);
        lemma_clock_runs_from_first_start(request_count, concurrent_count, earlier);
        lemma_cap_holds_throughout(request_count, concurrent_count, earlier);
        lemma_cap_holds_throughout(request_count, concurrent_count, events);
        lemma_distinct_units(before.completed, before.started);
    }
}

/// The whole run is timed from the start of its first unit: the first start
/// sets the clock running from its instant, later starts leave it alone, and
/// the completion of the last unit yields the time from the first start to
/// that completion.
pub proof fn lemma_run_is_timed(progress: Progress, unit: usize, outcome: RequestOutcome, now: u64)
    requires
        progress.inv(),
    ensures
        progress.can_start() ==> progress.start(now).clock == Timer::Running(
            if progress.started == 0 {
                now
            } else {
                progress.clock->Running_0
            },
        ),
        progress.is_in_flight(unit) ==> progress.clock is Running && progress.complete(
            unit,
            outcome,
            now,
        ).total_time == if progress.one_left() {
            Some(span(progress.clock->Running_0, now))
        } else {
            None
        },
{
    lemma_distinct_units(progress.completed, progress.started);
}

/// A free slot is refilled: once a unit has completed, another can be
/// started as long as one is left. And a run never stalls: where nothing can
/// be started and the run has not finished, a unit is in flight.
pub proof fn lemma_window_refills(
    progress: Progress,
    unit: usize,
    outcome: RequestOutcome,
    now: u64,
)
    requires
        progress.inv(),
    ensures
        progress.is_in_flight(unit) && progress.started < progress.request_count
            ==> progress.complete(unit, outcome, now).can_start(),
        !progress.can_start() && !progress.finished() ==> progress.in_flight() > 0,
{
}

/// What the driver of a run is to do next.
#[derive(Clone, Copy, Debug, PartialEq, Eq, Structural)]
pub enum Action {
    /// Start the request of this unit.
    Start(usize),
    /// Every slot is taken, or every unit has been started: wait until a
    /// request completes, and report it.
    Wait,
    /// Every unit has completed.
    Finished,
}

/// A completion was reported of a unit that is not in flight: one that was
/// never started, or one whose completion has been recorded already.
#[derive(Clone, Copy, Debug, PartialEq, Eq, Structural)]
pub struct NotInFlight {
    pub unit: usize,
}

/// The state of a run: which units have been started, which have completed,
/// and the outcomes recorded so far.
pub struct Dispatcher {
    concurrent_count: usize,
    started: usize,
    /// For each unit, whether its completion has been recorded.
    done: Vec<bool>,
    completed: Vec<usize>,
    outcomes: Vec<RequestOutcome>,
    clock: Timer,
    total_time: Option<u64>,
}

impl View for Dispatcher {
    type V = Progress;

    closed spec fn view(&self) -> Progress {
        Progress {
            request_count: self.done@.len(),
            concurrent_count: self.concurrent_count as nat,
            started: self.started as nat,
            completed: self.completed@,
            outcomes: self.outcomes@,
            clock: self.clock,
            total_time: self.total_time,
        }
    }
}

impl Dispatcher {
    /// Whether the bookkeeping agrees with the progress it stands for.
    pub closed spec fn consistent(&self) -> bool {
        forall|unit: usize|
            unit < self.done@.len() ==> (self.done@[unit as int]
                <==> #[trigger] self.completed@.contains(unit))
    }

    /// Well-formedness: the invariant of a run holds, and the bookkeeping is
    /// consistent. `new` establishes it and every method keeps it.
    pub open spec fn wf(&self) -> bool {
        self@.inv() && self.consistent()
    }

    /// A run of `request_count` requests, at most `concurrent_count` of them
    /// in flight at a time, of which none has been started yet.
    pub fn new(request_count: usize, concurrent_count: usize) -> (dispatcher: Dispatcher)
        requires
            request_count >= 1,
            concurrent_count >= 1,
        ensures
            dispatcher.wf(),
            dispatcher@ == Progress::initial(request_count as nat, concurrent_count as nat),
    {
        let mut done: Vec<bool> = Vec::new();
        let mut unit: usize = 0;
        while unit < request_count
            invariant
                unit <= request_count,
                done@.len() == unit,
                forall|u: int| 0 <= u < unit ==> !done@[u],
            decreases request_count - unit,
        {
            done.push(false);
            unit = unit + 1;
        }
        Dispatcher {
            concurrent_count,
            started: 0,
            done,
            completed: Vec::new(),
            outcomes: Vec::new(),
            clock: timed(),
            total_time: None,
        }
    }

    /// Decides what is to be done next, at the instant `now`. Where a slot is
    /// free and a unit is left, that unit counts as started from now on.
    pub fn next_action(&mut self, now: u64) -> (action: Action)
        requires
            old(self).wf(),
        ensures
            final(self).wf(),
            match action {
                Action::Start(unit) => {
                    &&& old(self)@.can_start()
                    &&& unit == old(self)@.started
                    &&& final(self)@ == old(self)@.start(now)
                    &&& final(self)@.is_in_flight(unit)
                },
                Action::Wait => {
                    &&& !old(self)@.can_start()
                    &&& !old(self)@.finished()
                    &&& old(self)@.in_flight() > 0
                    &&& final(self)@ == old(self)@
                },
                Action::Finished => {
                    &&& old(self)@.finished()
                    &&& final(self)@ == old(self)@
                },
            },
    {
        let in_flight: usize = self.started - self.completed.len();
        if self.started < self.done.len() && in_flight < self.concurrent_count {
            let unit: usize = self.started;
            proof {
                lemma_start_keeps_invariant(self@, unit, now);
            }
            self.started = unit + 1;
            let _ = self.clock.poll(now, false);
            Action::Start(unit)
        } else if self.completed.len() == self.done.len() {
            Action::Finished
        } else {
            Action::Wait
        }
    }

    /// Records that `unit` has completed with `outcome` at the instant `now`,
    /// which frees its slot. A unit that is not in flight is refused, and
    /// nothing changes.
    pub fn complete(&mut self, unit: usize, outcome: RequestOutcome, now: u64) -> (recorded: Result<
        (),
        NotInFlight,
    >)
        requires
            old(self).wf(),
        ensures
            final(self).wf(),
            match recorded {
                Ok(_) => {
                    &&& old(self)@.is_in_flight(unit)
                    &&& final(self)@ == old(self)@.complete(unit, outcome, now)
                },
                Err(refused) => {
                    &&& !old(self)@.is_in_flight(unit)
                    &&& refused.unit == unit
                    &&& final(self)@ == old(self)@
                },
            },
    {
        if unit >= self.started || self.done[unit] {
            return Err(NotInFlight { unit });
        }
        proof {
            lemma_complete_keeps_invariant(self@, unit, outcome, now);
        }
        let last: bool = self.completed.len() + 1 == self.done.len();
        self.total_time = self.clock.poll(now, last);
        self.done.set(unit, true);
        self.completed.push(unit);
        self.outcomes.push(outcome);
        proof {
            // The units recorded as done are the completed ones, as before.
            let before = old(self).completed@;
            assert(self.completed@[before.len() as int] == unit);
            assert forall|other: usize| other < self.done@.len() implies (self.done@[other as int]
                <==> #[trigger] self.completed@.contains(other)) by {
                if other != unit && before.contains(other) {
                    assert(self.completed@[before.index_of(other)] == other);
                }
            }
        }
        Ok(())
    }

    /// The number of requests of the run.
    pub fn request_count(&self) -> (count: usize)
        ensures
            count == self@.request_count,
    {
        self.done.len()
    }

    /// The number of requests allowed in flight at a time.
    pub fn concurrent_count(&self) -> (count: usize)
        ensures
            count == self@.concurrent_count,
    {
        self.concurrent_count
    }

    /// The number of units that have been started and have not completed.
    pub fn in_flight(&self) -> (count: usize)
        requires
            self.wf(),
        ensures
            count == self@.in_flight(),
            count <= self@.concurrent_count,
            count <= self@.request_count,
    {
        self.started - self.completed.len()
    }

    /// Whether `unit` has been started and has not completed.
    pub fn is_in_flight(&self, unit: usize) -> (answer: bool)
        requires
            self.wf(),
        ensures
            answer == self@.is_in_flight(unit),
    {
        unit < self.started && !self.done[unit]
    }

    /// Whether every unit has completed.
    pub fn is_finished(&self) -> (answer: bool)
        requires
            self.wf(),
        ensures
            answer == self@.finished(),
    {
        self.completed.len() == self.done.len()
    }

    /// The units that have completed, in the order of their completion.
    pub fn completion_order(&self) -> (units: &Vec<usize>)
        ensures
            units@ == self@.completed,
    {
        &self.completed
    }

    /// Closes a finished run: its outcomes, in the order of completion, with
    /// the time the run took and the limit it ran under. Of a run that has
    /// not finished there is no result.
    pub fn finish(self) -> (run: Option<TestOutcome>)
        requires
            self.wf(),
        ensures
            run is Some <==> self@.finished(),
            run matches Some(outcome) ==> {
                &&& outcome.request_outcomes@ == self@.outcomes
                &&& outcome.request_outcomes@.len() == self@.request_count
                &&& Some(outcome.total_time) == self@.total_time
                &&& outcome.concurrent_count == self@.concurrent_count
            },
    {
        match self.total_time {
            Some(total_time) => Some(
                TestOutcome::new(self.outcomes, total_time, self.concurrent_count),
            ),
            None => None,
        }
    }
}

} // verus!
