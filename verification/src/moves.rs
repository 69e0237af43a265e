//! Turn tokens and scrambles.

use vstd::prelude::*;
use vstd::string::*;

verus! {

/// One face turn in the usual notation: the face, then nothing for a
/// clockwise quarter turn, `Prime` for the counter-clockwise one, `2` for a
/// half turn.
#[derive(Clone, Copy, Debug, PartialEq, Eq, Structural)]
pub enum Move {
    U,
    UPrime,
    U2,
    F,
    FPrime,
    F2,
    R,
    RPrime,
    R2,
    B,
    BPrime,
    B2,
    L,
    LPrime,
    L2,
    D,
    DPrime,
    D2,
}

impl Move {
    /// The move as it is written.
    pub open spec fn text(self) -> Seq<char> {
        match self {
            Move::U => "U"@,
            Move::UPrime => "U'"@,
            Move::U2 => "U2"@,
            Move::F => "F"@,
            Move::FPrime => "F'"@,
            Move::F2 => "F2"@,
            Move::R => "R"@,
            Move::RPrime => "R'"@,
            Move::R2 => "R2"@,
            Move::B => "B"@,
            Move::BPrime => "B'"@,
            Move::B2 => "B2"@,
            Move::L => "L"@,
            Move::LPrime => "L'"@,
            Move::L2 => "L2"@,
            Move::D => "D"@,
            Move::DPrime => "D'"@,
            Move::D2 => "D2"@,
        }
    }

    /// The move as it is written: the letter of the face, with `'` for a
    /// counter-clockwise turn and `2` for a half turn.
    pub fn notation(&self) -> (s: &'static str)
        ensures
            s@ == self.text(),
    {
        match self {
            Move::U => "U",
            Move::UPrime => "U'",
            Move::U2 => "U2",
            Move::F => "F",
            Move::FPrime => "F'",
            Move::F2 => "F2",
            Move::R => "R",
            Move::RPrime => "R'",
            Move::R2 => "R2",
            Move::B => "B",
            Move::BPrime => "B'",
            Move::B2 => "B2",
            Move::L => "L",
            Move::LPrime => "L'",
            Move::L2 => "L2",
            Move::D => "D",
            Move::DPrime => "D'",
            Move::D2 => "D2",
        }
    }
}

/// A scramble: a sequence of moves that is never empty and never changes
/// once built.
#[derive(Debug)]
pub struct Scramble {
    moves: Vec<Move>,
}

impl View for Scramble {
    type V = Seq<Move>;

    closed spec fn view(&self) -> Seq<Move> {
        self.moves@
    }
}

impl Scramble {
    #[verifier::type_invariant]
    spec fn nonempty(self) -> bool {
        self.moves@.len() > 0
    }

    /// Makes a scramble of `moves`; there is none of an empty sequence.
    pub fn new(moves: Vec<Move>) -> (s: Option<Scramble>)
        ensures
            moves@.len() == 0 <==> s is None,
            s is Some ==> s.unwrap()@ == moves@,
    {
        if moves.len() == 0 {
            None
        } else {
            Some(Scramble { moves })
        }
    }

    /// The moves, in order.
    pub fn moves(&self) -> (m: &Vec<Move>)
        ensures
            m@ == self@,
            m@.len() > 0,
    {
        proof {
            use_type_invariant(self);
        }
        &self.moves
    }

    /// How many moves the scramble has: at least one.
    pub fn len(&self) -> (n: usize)
        ensures
            n == self@.len(),
            n > 0,
    {
        proof {
            use_type_invariant(self);
        }
        self.moves.len()
    }
}

impl Clone for Scramble {
    /// A copy with the same moves.
    fn clone(&self) -> (s: Scramble)
        ensures
            s@ == self@,
    {
        proof {
            use_type_invariant(self);
        }
        let mut moves: Vec<Move> = Vec::new();
        let mut i: usize = 0;
        while i < self.moves.len()
            invariant
                i <= self.moves@.len(),
                moves@ == self.moves@.take(i as int),
            decreases self.moves@.len() - i,
        {
            moves.push(self.moves[i]);
            i += 1;
            assert(moves@ =~= self.moves@.take(i as int));
        }
        assert(self.moves@.take(i as int) =~= self.moves@);
        Scramble { moves }
    }
}

/// How many moves go on each line when `len` moves are laid out on
/// `line_count` lines: the quotient, rounded up.
pub open spec fn moves_per_line(len: nat, line_count: nat) -> nat
    recommends
        line_count > 0,
{
    ((len + line_count - 1) / (line_count as int)) as nat
}

/// Line `k` of `moves` when each line takes `per_line` moves: the moves
/// from `k * per_line` on, as many as the line takes or as are left.
pub open spec fn line_at(moves: Seq<Move>, per_line: nat, k: int) -> Seq<Move> {
    let end = if (k + 1) * per_line < moves.len() {
        (k + 1) * per_line
    } else {
        moves.len() as int
    };
    moves.subrange(k * per_line, end)
}

/// The moves of a line as text: each move as it is written, with two
/// spaces between one move and the next.
pub open spec fn joined(moves: Seq<Move>) -> Seq<char>
    decreases moves.len(),
{
    if moves.len() == 0 {
        Seq::empty()
    } else if moves.len() == 1 {
        moves[0].text()
    } else {
        joined(moves.drop_last()) + "  "@ + moves.last().text()
    }
}

/// Lays `scramble` out as text on at most `line_count` lines. Every line
/// but the last takes the same number of moves, the quotient of the
/// scramble's length by `line_count`, rounded up; the last takes what is
/// left, which is at least one move.
pub fn scramble_lines(scramble: &Scramble, line_count: usize) -> (lines: Vec<String>)
    requires
        line_count > 0,
    ensures
        0 < lines@.len() <= line_count,
        lines@.len() == moves_per_line(
            scramble@.len(),
            moves_per_line(scramble@.len(), line_count as nat),
        ),
        forall|k: int|
            0 <= k < lines@.len() ==> (#[trigger] lines@[k])@ == joined(
                line_at(scramble@, moves_per_line(scramble@.len(), line_count as nat), k),
            ) && line_at(
                scramble@,
                moves_per_line(scramble@.len(), line_count as nat),
                k,
            ).len() > 0,
{
    let moves: &Vec<Move> = scramble.moves();
    let len: usize = moves.len();
    let quotient: usize = len / line_count;
    let per_line: usize = if len % line_count == 0 {
        quotient
    } else {
        assert(quotient < len) by (nonlinear_arith)
            requires
                quotient == len / line_count,
                len % line_count != 0,
                line_count > 0,
        ;
        quotient + 1
    };
    assert(per_line == moves_per_line(len as nat, line_count as nat) && per_line > 0
        && per_line * line_count >= len) by (nonlinear_arith)
        requires
            len > 0,
            line_count > 0,
            len % line_count == 0 ==> per_line == len / line_count,
            len % line_count != 0 ==> per_line == len / line_count + 1,
    ;
    let mut lines: Vec<String> = Vec::new();
    let mut start: usize = 0;
    while start < len
        invariant
            moves@ == scramble@,
            len == moves@.len(),
            per_line > 0,
            start <= len,
            start < len ==> start == lines@.len() * per_line,
            start == len ==> lines@.len() * per_line >= len,
            lines@.len() > 0 ==> (lines@.len() - 1) * per_line < len,
            start == 0 <==> lines@.len() == 0,
            forall|k: int|
                0 <= k < lines@.len() ==> (#[trigger] lines@[k])@ == joined(
                    line_at(moves@, per_line as nat, k),
                ) && line_at(moves@, per_line as nat, k).len() > 0,
        decreases len - start,
    {
        let ghost n = lines@.len() as int;
        let end: usize = if len - start <= per_line {
            len
        } else {
            start + per_line
        };
        assert((n + 1) * per_line == n * per_line + per_line) by (nonlinear_arith);
        let mut line: String = String::new();
        let mut i: usize = start;
        while i < end
            invariant
                start <= i <= end <= moves@.len(),
                line@ == joined(moves@.subrange(start as int, i as int)),
            decreases end - i,
        {
            let ghost so_far = moves@.subrange(start as int, i as int);
            let ghost grown = moves@.subrange(start as int, i + 1);
            proof {
                assert(grown.drop_last() =~= so_far);
                assert(grown.last() == moves@[i as int]);
            }
            if i > start {
                line.append("  ");
            }
            line.append(moves[i].notation());
            proof {
                if i == start {
                    assert(so_far.len() == 0);
                    assert(line@ =~= grown[0].text());
                } else {
                    assert(line@ =~= joined(so_far) + "  "@ + grown.last().text());
                }
            }
            i = i + 1;
        }
        assert(moves@.subrange(start as int, end as int) == line_at(moves@, per_line as nat, n));
        lines.push(line);
        start = end;
    }
    let ghost n = lines@.len() as int;
    assert(n <= line_count) by (nonlinear_arith)
        requires
            (n - 1) * per_line < len,
            per_line * line_count >= len,
            per_line > 0,
    ;
    assert(n == moves_per_line(len as nat, per_line as nat)) by (nonlinear_arith)
        requires
            (n - 1) * per_line < len,
            n * per_line >= len,
            per_line > 0,
            n > 0,
    ;
    lines
}

} // verus!
