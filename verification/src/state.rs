//! The timing state machine: how one input sample moves the timer between
//! idle, preparing, ready and solving.

use vstd::prelude::*;

verus! {

/// How long the input must stay active before the timer is armed: a hold
/// of strictly more than this many milliseconds.
pub const READY_DELAY_MILLIS: u64 = 500;

/// How often per second the host should tick while a solve is being timed.
pub const SOLVING_TICK_HZ: u32 = 10;

/// The state of the timer. Instants are readings of a monotonic clock in
/// milliseconds; results are elapsed milliseconds.
#[derive(Clone, Copy, Debug, PartialEq, Eq, Structural)]
pub enum TimerState {
    /// Idle, showing the previous result (0 before the first solve).
    Inactive(u32),
    /// The input went active at the given instant; the previous result is
    /// kept so that an early release can restore it.
    Preparing(u64, u32),
    /// The input was held long enough; timing starts when it is released.
    Ready,
    /// Timing since the given instant.
    Solving(u64),
}

/// The colour role that the display takes in a state.
#[derive(Clone, Copy, Debug, PartialEq, Eq, Structural)]
pub enum DisplayColor {
    /// The ordinary content colour.
    Content,
    /// The muted highlight shown while the hold delay runs.
    Muted,
    /// The colour that tells the solver to go.
    Go,
}

/// How many digits the display shows.
#[derive(Clone, Copy, Debug, PartialEq, Eq, Structural)]
pub enum Precision {
    /// Every digit of the result.
    Full,
    /// The short form used while the timer runs or is being armed.
    Short,
}

/// What the display shows: a time in milliseconds and its precision.
#[derive(Clone, Copy, Debug, PartialEq, Eq, Structural)]
pub struct TimeDisplay {
    pub millis: u32,
    pub precision: Precision,
}

/// What is held down at the moment of a sample.
#[derive(Clone, Copy, Debug, PartialEq, Eq, Structural)]
pub struct InputSnapshot {
    /// Whether the key that starts an attempt is down.
    pub start_key_down: bool,
    /// Whether any key at all is down, the start key included.
    pub any_key_down: bool,
    /// Whether a pointer button is down on the timer.
    pub pointer_down: bool,
}

/// Whether the input counts as active in `state`. While the timer is
/// idle only the start key and the pointer do; once an attempt is under
/// way any key does, so that any key holds the timer armed and any key
/// stops it.
pub open spec fn trigger_active(state: TimerState, input: InputSnapshot) -> bool {
    match state {
        TimerState::Inactive(_) => input.start_key_down || input.pointer_down,
        _ => input.any_key_down || input.pointer_down,
    }
}

/// Milliseconds from `start` to `now` on a monotonic clock; zero where
/// `now` lies before `start`.
pub open spec fn millis_between(start: u64, now: u64) -> nat {
    if now >= start {
        (now - start) as nat
    } else {
        0
    }
}

/// The elapsed time from `start` to `now` as a result: the low 32 bits of
/// the millisecond count.
pub open spec fn result_millis(start: u64, now: u64) -> u32 {
    (millis_between(start, now) % 0x1_0000_0000) as u32
}

/// The state that follows `state` when the input sample `input_active` is
/// taken at `now`.
pub open spec fn next_state(state: TimerState, input_active: bool, now: u64) -> TimerState {
    match state {
        TimerState::Inactive(last) => if input_active {
            TimerState::Preparing(now, last)
        } else {
            state
        },
        TimerState::Preparing(start, last) => if !input_active {
            TimerState::Inactive(last)
        } else if millis_between(start, now) > READY_DELAY_MILLIS {
            TimerState::Ready
        } else {
            state
        },
        TimerState::Ready => if !input_active {
            TimerState::Solving(now)
        } else {
            state
        },
        TimerState::Solving(start) => if input_active {
            TimerState::Inactive(result_millis(start, now))
        } else {
            state
        },
    }
}

/// The result of the solve that the sample completes, if it completes one.
pub open spec fn completed_millis(state: TimerState, input_active: bool, now: u64) -> Option<u32> {
    match state {
        TimerState::Solving(start) if input_active => Some(result_millis(start, now)),
        _ => None,
    }
}

/// Computes `millis_between`.
pub fn elapsed_millis(start: u64, now: u64) -> (r: u64)
    ensures
        r == millis_between(start, now),
{
    if now >= start {
        now - start
    } else {
        0
    }
}

/// Computes `result_millis`.
pub fn elapsed_result(start: u64, now: u64) -> (r: u32)
    ensures
        r == result_millis(start, now),
{
    let low: u64 = elapsed_millis(start, now) % 0x1_0000_0000;
    low as u32
}

impl TimerState {
    /// The state before the first solve.
    pub fn initial() -> (s: TimerState)
        ensures
            s == TimerState::Inactive(0),
    {
        TimerState::Inactive(0)
    }

    /// Whether the input counts as active in this state.
    pub fn input_active(&self, input: InputSnapshot) -> (b: bool)
        ensures
            b == trigger_active(*self, input),
    {
        match self {
            TimerState::Inactive(_) => input.start_key_down || input.pointer_down,
            _ => input.any_key_down || input.pointer_down,
        }
    }

    /// Takes one input sample: returns the next state and, where the sample
    /// ends a solve, its elapsed time.
    pub fn advance(self, input_active: bool, now: u64) -> (r: (TimerState, Option<u32>))
        ensures
            r.0 == next_state(self, input_active, now),
            r.1 == completed_millis(self, input_active, now),
    {
        match self {
            TimerState::Inactive(last) => {
                if input_active {
                    (TimerState::Preparing(now, last), None)
                } else {
                    (self, None)
                }
            },
            TimerState::Preparing(start, last) => {
                if !input_active {
                    (TimerState::Inactive(last), None)
                } else if elapsed_millis(start, now) > READY_DELAY_MILLIS {
                    (TimerState::Ready, None)
                } else {
                    (self, None)
                }
            },
            TimerState::Ready => {
                if !input_active {
                    (TimerState::Solving(now), None)
                } else {
                    (self, None)
                }
            },
            TimerState::Solving(start) => {
                if input_active {
                    let elapsed: u32 = elapsed_result(start, now);
                    (TimerState::Inactive(elapsed), Some(elapsed))
                } else {
                    (self, None)
                }
            },
        }
    }

    /// Whether an attempt is under way: every state but `Inactive`.
    pub open spec fn attempt_in_progress(self) -> bool {
        !(self is Inactive)
    }

    /// Whether an attempt is under way.
    pub fn is_solving(&self) -> (b: bool)
        ensures
            b == self.attempt_in_progress(),
    {
        match self {
            TimerState::Inactive(_) => false,
            _ => true,
        }
    }

    /// The tick rate that the state asks of the host.
    pub open spec fn tick_rate(self) -> Option<u32> {
        if self is Solving {
            Some(SOLVING_TICK_HZ)
        } else {
            None
        }
    }

    /// The tick rate that the state asks of the host: a fixed rate while a
    /// solve is timed, none otherwise.
    pub fn requested_tick_hz(&self) -> (hz: Option<u32>)
        ensures
            hz == self.tick_rate(),
    {
        match self {
            TimerState::Solving(_) => Some(SOLVING_TICK_HZ),
            _ => None,
        }
    }

    /// The colour role of the display in this state.
    pub open spec fn color(self) -> DisplayColor {
        match self {
            TimerState::Inactive(_) | TimerState::Solving(_) => DisplayColor::Content,
            TimerState::Preparing(_, _) => DisplayColor::Muted,
            TimerState::Ready => DisplayColor::Go,
        }
    }

    /// The colour role of the display in this state.
    pub fn current_time_color(&self) -> (c: DisplayColor)
        ensures
            c == self.color(),
    {
        match self {
            TimerState::Inactive(_) | TimerState::Solving(_) => DisplayColor::Content,
            TimerState::Preparing(_, _) => DisplayColor::Muted,
            TimerState::Ready => DisplayColor::Go,
        }
    }

    /// What the display shows at `now`.
    pub open spec fn shown(self, now: u64) -> TimeDisplay {
        match self {
            TimerState::Inactive(last) => TimeDisplay { millis: last, precision: Precision::Full },
            TimerState::Preparing(_, _) | TimerState::Ready => TimeDisplay {
                millis: 0,
                precision: Precision::Short,
            },
            TimerState::Solving(start) => TimeDisplay {
                millis: result_millis(start, now),
                precision: Precision::Short,
            },
        }
    }

    /// What the display shows at `now`: the last result in full while idle,
    /// a zeroed short timer while arming, the running time while solving.
    pub fn current_time(&self, now: u64) -> (d: TimeDisplay)
        ensures
            d == self.shown(now),
    {
        match self {
            TimerState::Inactive(last) => TimeDisplay { millis: *last, precision: Precision::Full },
            TimerState::Preparing(_, _) | TimerState::Ready => TimeDisplay {
                millis: 0,
                precision: Precision::Short,
            },
            TimerState::Solving(start) => TimeDisplay {
                millis: elapsed_result(*start, now),
                precision: Precision::Short,
            },
        }
    }
}

} // verus!
