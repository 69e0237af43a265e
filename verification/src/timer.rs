//! The timer: the state machine, the scramble pipeline and the statistics
//! cache, driven together once per tick.
//!
//! The timer neither draws nor generates scrambles nor invents identifiers.
//! The host hands it the input sample together with what its collaborators
//! made, and gets back what to show and how soon to tick again.

use vstd::prelude::*;
use crate::cache::{CacheView, CachedSessionSolves};
use crate::clock::MonotonicClock;
use crate::history::{History, HistoryView, StoreError};
use crate::moves::{Move, Scramble};
use crate::pipeline::{moves_of, PipelineView, ScramblePipeline};
use crate::solve::{Penalty, Solve, SolveType, SolveView};
use crate::state::{completed_millis, next_state, DisplayColor, TimeDisplay, TimerState};

verus! {

/// The timer.
pub struct Timer {
    state: TimerState,
    scrambles: ScramblePipeline,
    session_solves: CachedSessionSolves,
    clock: MonotonicClock,
}

/// What a timer holds, as mathematical values.
pub struct TimerView {
    pub state: TimerState,
    pub scrambles: PipelineView,
    pub session_solves: CacheView,
}

/// One input sample.
#[derive(Clone, Copy, Debug)]
pub struct TickInput {
    /// Whether any trigger, key or pointer button, is held down.
    pub input_active: bool,
    /// The reading of the monotonic clock, in milliseconds.
    pub now: u64,
}

/// What the host's collaborators made for one tick.
#[derive(Debug)]
pub struct Supplies {
    /// A new identifier, for the solve that the tick may complete.
    pub solve_id: u128,
    /// The wall clock's time in milliseconds since the Unix epoch, for the
    /// same solve.
    pub created: i64,
    /// A newly generated scramble, where the timer wanted one.
    pub scramble: Option<Scramble>,
}

/// What one tick tells the host.
#[derive(Clone, Copy, Debug)]
pub struct TickOutput {
    /// The state after the tick.
    pub state: TimerState,
    /// The time to show.
    pub display: TimeDisplay,
    /// The colour role to show it in.
    pub color: DisplayColor,
    /// How often per second the timer asks to be ticked; none where the
    /// host's own pace will do.
    pub requested_tick_hz: Option<u32>,
    /// The elapsed time of the solve that the tick completed.
    pub completed: Option<u32>,
    /// Why the completed solve was not recorded, where it was not.
    pub store_error: Option<StoreError>,
}

/// Whether the sample ends a solve.
pub open spec fn completes(state: TimerState, input_active: bool) -> bool {
    state is Solving && input_active
}

/// What the solve holds that is recorded when an attempt on `scramble`
/// ends after `time` milliseconds: a standard solve without penalty, of
/// which no device reported anything.
pub open spec fn finished_record(
    id: u128,
    session: u128,
    scramble: Seq<Move>,
    created: i64,
    time: u32,
) -> SolveView {
    SolveView {
        id,
        solve_type: SolveType::Standard3x3x3,
        session,
        scramble,
        created,
        time,
        penalty: Penalty::NoPenalty,
        device: None,
        moves: None,
    }
}

/// The error in an outcome.
pub open spec fn error_of(outcome: Result<(), StoreError>) -> Option<StoreError> {
    match outcome {
        Ok(_) => None,
        Err(e) => Some(e),
    }
}

impl TimerView {
    /// Whether the host must hand over a scramble with the sample: the
    /// sample ends a solve and no spare scramble is ready.
    pub open spec fn needs_scramble(self, input_active: bool) -> bool {
        completes(self.state, input_active) && self.scrambles.next is None
    }

    /// Whether the host should make a scramble for the sample: the timer
    /// needs one, or the pipeline wants a spare.
    pub open spec fn wants_scramble(self, input_active: bool) -> bool {
        self.needs_scramble(input_active) || self.scrambles.wants_scramble()
    }

    /// Whether `after` and `history_after` are this timer and
    /// `history_before` once a solve of `time` milliseconds has been
    /// finished: the solve is handed to the history, the pipeline is
    /// rotated and the timer is idle and shows `time`, whether or not the
    /// history took the solve.
    pub open spec fn finished(
        self,
        history_before: HistoryView,
        time: u32,
        id: u128,
        created: i64,
        fresh: Option<Seq<Move>>,
        after: TimerView,
        history_after: HistoryView,
    ) -> bool {
        &&& after.state == TimerState::Inactive(time)
        &&& after.scrambles == self.scrambles.rotated(fresh)
        &&& after.session_solves == self.session_solves
        &&& history_before.recorded(
            finished_record(id, history_before.current_session, self.scrambles.current, created, time),
            history_after,
        )
    }

    /// Whether `after`, `history_after` and `out` are what one tick makes
    /// of this timer and `history_before`.
    ///
    /// A scramble that the pipeline wanted becomes the spare. Then the
    /// state machine takes the sample; where that ends a solve, the solve
    /// is finished, with the made scramble to fall back on unless it has
    /// just become the spare. Then the cache is brought up to date with
    /// the history as it now stands, and the display is read off the new
    /// state.
    pub open spec fn ticked(
        self,
        history_before: HistoryView,
        input: TickInput,
        solve_id: u128,
        created: i64,
        made: Option<Seq<Move>>,
        after: TimerView,
        history_after: HistoryView,
        out: TickOutput,
    ) -> bool {
        let observed = self.scrambles.observed(made);
        let fallback = if self.scrambles.wants_scramble() {
            None
        } else {
            made
        };
        let completed = completed_millis(self.state, input.input_active, input.now);
        &&& after.state == next_state(self.state, input.input_active, input.now)
        &&& match completed {
            Some(time) => (TimerView { scrambles: observed, ..self }).finished(
                history_before,
                time,
                solve_id,
                created,
                fallback,
                TimerView { session_solves: self.session_solves, ..after },
                history_after,
            ),
            None => after.scrambles == observed && history_after == history_before,
        }
        &&& self.session_solves.refreshed(history_after, after.session_solves)
        &&& out.state == after.state
        &&& out.display == after.state.shown(input.now)
        &&& out.color == after.state.color()
        &&& out.requested_tick_hz == after.state.tick_rate()
        &&& out.completed == completed
        &&& out.store_error == if completed is Some {
            error_of(history_before.append_outcome(solve_id))
        } else {
            None
        }
    }
}

impl View for Timer {
    type V = TimerView;

    closed spec fn view(&self) -> TimerView {
        TimerView {
            state: self.state,
            scrambles: self.scrambles@,
            session_solves: self.session_solves@,
        }
    }
}

impl Timer {
    /// A timer that is idle and has shown no result yet, with `current` as
    /// the scramble in use, `next` as the spare, and no statistics.
    pub fn new(current: Scramble, next: Scramble) -> (t: Timer)
        ensures
            t@.state == TimerState::Inactive(0),
            t@.scrambles == (PipelineView {
                current: current@,
                displayed: false,
                next: Some(next@),
            }),
            t@.session_solves == crate::cache::summary_of(None, Seq::empty()),
            t@.scrambles.current.len() > 0,
    {
        Timer {
            state: TimerState::initial(),
            scrambles: ScramblePipeline::new(current, Some(next)),
            session_solves: CachedSessionSolves::empty(),
            clock: MonotonicClock::start(),
        }
    }

    /// The state.
    pub fn state(&self) -> (s: TimerState)
        ensures
            s == self@.state,
    {
        self.state
    }

    /// The scramble pipeline.
    pub fn scrambles(&self) -> (p: &ScramblePipeline)
        ensures
            p@ == self@.scrambles,
    {
        &self.scrambles
    }

    /// The statistics of the session, as of the last tick.
    pub fn session_solves(&self) -> (c: &CachedSessionSolves)
        ensures
            c@ == self@.session_solves,
    {
        &self.session_solves
    }

    /// Whether an attempt is under way: the timer is in any state but
    /// idle. The scramble is shown only while none is.
    pub fn is_solving(&self) -> (b: bool)
        ensures
            b == self@.state.attempt_in_progress(),
    {
        self.state.is_solving()
    }

    /// What the display shows at `now`.
    pub fn current_time(&self, now: u64) -> (d: TimeDisplay)
        ensures
            d == self@.state.shown(now),
    {
        self.state.current_time(now)
    }

    /// The colour role of the display.
    pub fn current_time_color(&self) -> (c: DisplayColor)
        ensures
            c == self@.state.color(),
    {
        self.state.current_time_color()
    }

    /// Whether the next sample ends a solve, so that its identifier and
    /// its date will be used.
    pub fn ends_solve(&self, input_active: bool) -> (b: bool)
        ensures
            b == completes(self@.state, input_active),
    {
        match self.state {
            TimerState::Solving(_) => input_active,
            _ => false,
        }
    }

    /// Whether the host must hand over a scramble with the next sample.
    pub fn needs_scramble(&self, input_active: bool) -> (b: bool)
        ensures
            b == self@.needs_scramble(input_active),
    {
        self.ends_solve(input_active) && !self.scrambles.has_next()
    }

    /// Whether the host should make a scramble for the next sample.
    pub fn wants_scramble(&self, input_active: bool) -> (b: bool)
        ensures
            b == self@.wants_scramble(input_active),
    {
        self.needs_scramble(input_active) || self.scrambles.wants_scramble()
    }

    /// Records that the scramble in use has been on screen.
    pub fn mark_displayed(&mut self)
        ensures
            final(self)@ == (TimerView { scrambles: old(self)@.scrambles.shown(), ..old(self)@ }),
            final(self)@.scrambles.current.len() > 0,
    {
        self.scrambles.mark_displayed();
    }

    /// Finishes a solve of `time` milliseconds. A solve with the identifier
    /// `id`, dated `created`, is handed to `history` for the session in
    /// use, with a copy of the scramble in use. Whether or not the history
    /// takes it, the pipeline rotates, falling back on `fresh` where no
    /// spare is ready, and the timer becomes idle and shows `time`. The
    /// history's refusal, if any, is returned and changes nothing else.
    pub fn finish_solve(
        &mut self,
        time: u32,
        history: &mut History,
        id: u128,
        created: i64,
        fresh: Option<Scramble>,
    ) -> (r: Result<(), StoreError>)
        requires
            old(history)@.wf(),
            old(self)@.scrambles.next is None ==> fresh is Some,
        ensures
            final(history)@.wf(),
            final(self)@.state == TimerState::Inactive(time),
            final(self)@.scrambles.current.len() > 0,
            old(self)@.finished(
                old(history)@,
                time,
                id,
                created,
                moves_of(fresh),
                final(self)@,
                final(history)@,
            ),
            r == old(history)@.append_outcome(id),
    {
        let solve = Solve {
            id,
            solve_type: SolveType::Standard3x3x3,
            session: history.current_session(),
            scramble: self.scrambles.current_scramble().clone(),
            created,
            time,
            penalty: Penalty::NoPenalty,
            device: None,
            moves: None,
        };
        let outcome: Result<(), StoreError> = history.new_solve(solve);
        self.state = TimerState::Inactive(time);
        self.scrambles.rotate(fresh);
        outcome
    }

    /// Brings the statistics up to date with the session in use in
    /// `history`; they are left untouched where the session has not
    /// changed since they were made.
    pub fn update_solve_cache(&mut self, history: &History)
        ensures
            final(self)@.state == old(self)@.state,
            final(self)@.scrambles == old(self)@.scrambles,
            old(self)@.session_solves.refreshed(history@, final(self)@.session_solves),
    {
        self.session_solves.refresh(history);
    }

    /// Runs one tick on the sample `input`, with what the host's
    /// collaborators made. The host must hand over a scramble where the
    /// sample ends a solve and no spare is ready.
    pub fn tick(
        &mut self,
        input: TickInput,
        history: &mut History,
        supplies: Supplies,
    ) -> (out: TickOutput)
        requires
            old(history)@.wf(),
            old(self)@.needs_scramble(input.input_active) ==> supplies.scramble is Some,
        ensures
            final(history)@.wf(),
            final(self)@.scrambles.current.len() > 0,
            old(self)@.ticked(
                old(history)@,
                input,
                supplies.solve_id,
                supplies.created,
                moves_of(supplies.scramble),
                final(self)@,
                final(history)@,
                out,
            ),
    {
        let Supplies { solve_id, created, scramble } = supplies;
        let wanted: bool = self.scrambles.wants_scramble();
        let (fallback, spare): (Option<Scramble>, Option<Scramble>) = if wanted {
            (None, scramble)
        } else {
            (scramble, None)
        };
        self.scrambles.on_frame_observed(spare);
        let (state, completed): (TimerState, Option<u32>) = self.state.advance(
            input.input_active,
            input.now,
        );
        let mut store_error: Option<StoreError> = None;
        match completed {
            Some(time) => {
                match self.finish_solve(time, history, solve_id, created, fallback) {
                    Ok(_) => {},
                    Err(e) => {
                        store_error = Some(e);
                    },
                }
            },
            None => {
                self.state = state;
            },
        }
        self.session_solves.refresh(history);
        // A scramble is known to have moves only through its accessor.
        let _ = self.scrambles.current_scramble();
        TickOutput {
            state: self.state,
            display: self.state.current_time(input.now),
            color: self.state.current_time_color(),
            requested_tick_hz: self.state.requested_tick_hz(),
            completed,
            store_error,
        }
    }

    /// Runs one tick on the sample `input_active`, taken now: the
    /// monotonic clock is read for the sample. What the tick does is what
    /// `tick` does for the time that the clock gave.
    pub fn update(
        &mut self,
        input_active: bool,
        history: &mut History,
        supplies: Supplies,
    ) -> (out: TickOutput)
        requires
            old(history)@.wf(),
            old(self)@.needs_scramble(input_active) ==> supplies.scramble is Some,
        ensures
            final(history)@.wf(),
            final(self)@.scrambles.current.len() > 0,
            exists|now: u64|
                old(self)@.ticked(
                    old(history)@,
                    (TickInput { input_active, now }),
                    supplies.solve_id,
                    supplies.created,
                    moves_of(supplies.scramble),
                    final(self)@,
                    final(history)@,
                    out,
                ),
    {
        let now: u64 = self.clock.now_millis();
        let ghost solve_id = supplies.solve_id;
        let ghost created = supplies.created;
        let ghost made = moves_of(supplies.scramble);
        let out = self.tick(TickInput { input_active, now }, history, supplies);
        assert(old(self)@.ticked(
            old(history)@,
            TickInput { input_active, now },
            solve_id,
            created,
            made,
            final(self)@,
            final(history)@,
            out,
        ));
        out
    }
}

} // verus!
