//! The record of one attempt.

use vstd::prelude::*;
use crate::moves::{Move, Scramble};

verus! {

/// What a `+2` penalty adds to a result, in milliseconds.
pub const PLUS_TWO_MILLIS: u32 = 2000;

/// The kind of puzzle and event that a solve belongs to.
#[derive(Clone, Copy, Debug, PartialEq, Eq, Structural)]
pub enum SolveType {
    Standard3x3x3,
}

/// The penalty on a solve.
#[derive(Clone, Copy, Debug, PartialEq, Eq, Structural)]
pub enum Penalty {
    /// The result stands as timed.
    NoPenalty,
    /// Two seconds are added to the result.
    PlusTwo,
    /// Did not finish: the solve has no result.
    Dnf,
}

/// One move of a recorded solution, with the time at which it was made.
#[derive(Clone, Copy, Debug, PartialEq, Eq, Structural)]
pub struct TimedMove {
    pub turn: Move,
    pub millis: u32,
}

/// One attempt.
#[derive(Debug)]
pub struct Solve {
    /// The solve's own identifier, unique in a history.
    pub id: u128,
    pub solve_type: SolveType,
    /// The session that the solve belongs to.
    pub session: u128,
    /// The scramble that was solved.
    pub scramble: Scramble,
    /// When the solve was recorded, in milliseconds since the Unix epoch.
    pub created: i64,
    /// The elapsed time in milliseconds, before any penalty.
    pub time: u32,
    pub penalty: Penalty,
    /// The timing device, where one reported itself.
    pub device: Option<String>,
    /// The recorded solution, where a device logged it.
    pub moves: Option<Vec<TimedMove>>,
}

/// What a solve holds, as mathematical values.
pub struct SolveView {
    pub id: u128,
    pub solve_type: SolveType,
    pub session: u128,
    pub scramble: Seq<Move>,
    pub created: i64,
    pub time: u32,
    pub penalty: Penalty,
    pub device: Option<Seq<char>>,
    pub moves: Option<Seq<TimedMove>>,
}

/// The result that a time and a penalty give: the time itself, the time
/// plus two seconds (held at the largest value where the sum would pass
/// it), or none for a solve that was not finished.
pub open spec fn penalized(time: u32, penalty: Penalty) -> Option<u32> {
    match penalty {
        Penalty::NoPenalty => Some(time),
        Penalty::PlusTwo => if time + PLUS_TWO_MILLIS > u32::MAX {
            Some(u32::MAX)
        } else {
            Some((time + PLUS_TWO_MILLIS) as u32)
        },
        Penalty::Dnf => None,
    }
}

/// Whether a solve created at `created` with identifier `id` comes before
/// one created at `other_created` with identifier `other_id`: the earlier
/// one first, and of two created together the one with the lower
/// identifier.
pub open spec fn key_before(created: i64, id: u128, other_created: i64, other_id: u128) -> bool {
    created < other_created || (created == other_created && id < other_id)
}

impl View for Solve {
    type V = SolveView;

    open spec fn view(&self) -> SolveView {
        SolveView {
            id: self.id,
            solve_type: self.solve_type,
            session: self.session,
            scramble: self.scramble@,
            created: self.created,
            time: self.time,
            penalty: self.penalty,
            device: match self.device {
                Some(d) => Some(d@),
                None => None,
            },
            moves: match self.moves {
                Some(m) => Some(m@),
                None => None,
            },
        }
    }
}

impl SolveView {
    /// The result of the solve, none where it was not finished.
    pub open spec fn final_time(self) -> Option<u32> {
        penalized(self.time, self.penalty)
    }

    /// Whether this solve comes before `other` in a session's list.
    pub open spec fn before(self, other: SolveView) -> bool {
        key_before(self.created, self.id, other.created, other.id)
    }
}

impl Solve {
    /// The result of the solve, none where it was not finished.
    pub fn final_time(&self) -> (t: Option<u32>)
        ensures
            t == self@.final_time(),
    {
        match self.penalty {
            Penalty::NoPenalty => Some(self.time),
            Penalty::PlusTwo => Some(self.time.saturating_add(PLUS_TWO_MILLIS)),
            Penalty::Dnf => None,
        }
    }

    /// Whether this solve comes before `other` in a session's list.
    pub fn before(&self, other: &Solve) -> (b: bool)
        ensures
            b == self@.before(other@),
    {
        self.created < other.created || (self.created == other.created && self.id < other.id)
    }
}

impl Clone for Solve {
    /// A copy that holds the same values.
    fn clone(&self) -> (s: Solve)
        ensures
            s@ == self@,
    {
        let moves: Option<Vec<TimedMove>> = match &self.moves {
            Some(m) => {
                let mut copy: Vec<TimedMove> = Vec::new();
                let mut i: usize = 0;
                while i < m.len()
                    invariant
                        i <= m@.len(),
                        copy@ == m@.take(i as int),
                    decreases m@.len() - i,
                {
                    copy.push(m[i]);
                    i += 1;
                    assert(copy@ =~= m@.take(i as int));
                }
                assert(m@.take(i as int) =~= m@);
                Some(copy)
            },
            None => None,
        };
        let device: Option<String> = match &self.device {
            Some(d) => Some(d.clone()),
            None => None,
        };
        Solve {
            id: self.id,
            solve_type: self.solve_type,
            session: self.session,
            scramble: self.scramble.clone(),
            created: self.created,
            time: self.time,
            penalty: self.penalty,
            device,
            moves,
        }
    }
}

} // verus!
