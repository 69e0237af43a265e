//! The cached statistics of the session in use.
//!
//! The cache remembers the update token of the session from which it was
//! made. As long as the session still carries that token the cache is
//! handed out as it is; otherwise the solves are fetched, put in order and
//! every statistic is computed anew, all at once.

use vstd::prelude::*;
use crate::history::{History, HistoryView};
use crate::solve::{Solve, SolveView};
use crate::stats::{
    average, best, best_average, best_window_mean, fastest, final_times, last_average,
    last_window_mean, trimmed_mean,
};

verus! {

/// The session's solves in order, with the statistics drawn from them.
#[derive(Debug)]
pub struct CachedSessionSolves {
    update_id: Option<u64>,
    solves: Vec<Solve>,
    last_ao5: Option<u32>,
    last_ao12: Option<u32>,
    session_avg: Option<u32>,
    best_solve: Option<u32>,
    best_ao5: Option<u32>,
    best_ao12: Option<u32>,
}

/// What a cache holds, as mathematical values.
pub struct CacheView {
    /// The token of the session from which the cache was made; none for
    /// the cache of a session without solves.
    pub update_id: Option<u64>,
    /// The solves, oldest first.
    pub solves: Seq<SolveView>,
    /// The trimmed mean of the last five solves.
    pub last_ao5: Option<u32>,
    /// The trimmed mean of the last twelve solves.
    pub last_ao12: Option<u32>,
    /// The trimmed mean of the whole session.
    pub session_avg: Option<u32>,
    /// The best single result.
    pub best_solve: Option<u32>,
    /// The best trimmed mean of five consecutive solves.
    pub best_ao5: Option<u32>,
    /// The best trimmed mean of twelve consecutive solves.
    pub best_ao12: Option<u32>,
}

/// What each of `solves` holds, in order.
pub open spec fn solve_views(solves: Seq<Solve>) -> Seq<SolveView> {
    solves.map_values(|s: Solve| s@)
}

/// The results of `solves`, in order.
pub open spec fn view_times(solves: Seq<SolveView>) -> Seq<Option<u32>> {
    solves.map_values(|s: SolveView| s.final_time())
}

/// Whether `solves` is in order: no solve stands behind one that it comes
/// before.
pub open spec fn in_order(solves: Seq<SolveView>) -> bool {
    forall|i: int, j: int| 0 <= i < j < solves.len() ==> !(#[trigger] solves[j]).before(#[trigger] solves[i])
}

/// The solves that the identifiers `ids` name in `history`, in the order
/// of `ids`. An identifier under which nothing is recorded is passed over.
pub open spec fn resolved(history: HistoryView, ids: Seq<u128>) -> Seq<SolveView> {
    ids.filter_map(
        |id: u128|
            if history.solves.contains_key(id) {
                Some(history.solves[id]@)
            } else {
                None
            },
    )
}

/// The cache made from `solves` under the token `update_id`.
pub open spec fn summary_of(update_id: Option<u64>, solves: Seq<SolveView>) -> CacheView {
    let times = view_times(solves);
    CacheView {
        update_id,
        solves,
        last_ao5: last_window_mean(times, 5),
        last_ao12: last_window_mean(times, 12),
        session_avg: trimmed_mean(times),
        best_solve: fastest(times),
        best_ao5: best_window_mean(times, 5),
        best_ao12: best_window_mean(times, 12),
    }
}

impl CacheView {
    /// Whether every statistic is the one that the cache's own solves
    /// give.
    pub open spec fn consistent(self) -> bool {
        self == summary_of(self.update_id, self.solves)
    }

    /// Whether the cache was made from a session that carried `token`.
    pub open spec fn made_from(self, token: u64) -> bool {
        self.update_id == Some(token)
    }

    /// Whether this cache is a fresh summary of the session in use in
    /// `history`: it carries the session's token and holds, in order, the
    /// solves that the session lists and the history has; for a session
    /// without solves it is the empty cache.
    pub open spec fn summarizes(self, history: HistoryView) -> bool {
        match history.live_session() {
            Some(session) => {
                &&& self.consistent()
                &&& self.update_id == Some(session.update_id)
                &&& in_order(self.solves)
                &&& self.solves.to_multiset() == resolved(history, session.solves@).to_multiset()
            },
            None => self == summary_of(None, Seq::empty()),
        }
    }
}

impl CacheView {
    /// Whether `after` is this cache brought up to date with `history`:
    /// the same cache where the session in use still carries the token
    /// from which it was made, else a fresh summary.
    pub open spec fn refreshed(self, history: HistoryView, after: CacheView) -> bool {
        &&& after.consistent()
        &&& match history.live_session() {
            Some(session) => if self.made_from(session.update_id) {
                after == self
            } else {
                after.summarizes(history)
            },
            None => after.summarizes(history),
        }
    }
}

impl View for CachedSessionSolves {
    type V = CacheView;

    closed spec fn view(&self) -> CacheView {
        CacheView {
            update_id: self.update_id,
            solves: solve_views(self.solves@),
            last_ao5: self.last_ao5,
            last_ao12: self.last_ao12,
            session_avg: self.session_avg,
            best_solve: self.best_solve,
            best_ao5: self.best_ao5,
            best_ao12: self.best_ao12,
        }
    }
}

/// The results of solves are the results of what they hold.
pub proof fn lemma_times_of_views(solves: Seq<Solve>)
    ensures
        final_times(solves) == view_times(solve_views(solves)),
{
    assert(final_times(solves) =~= view_times(solve_views(solves)));
}

/// Puts `solve` into the ordered list `sorted`, behind every solve that it
/// does not come before.
pub fn insert_in_order(sorted: &mut Vec<Solve>, solve: Solve)
    requires
        in_order(solve_views(old(sorted)@)),
    ensures
        in_order(solve_views(final(sorted)@)),
        solve_views(final(sorted)@).to_multiset() == solve_views(old(sorted)@).to_multiset().insert(
            solve@,
        ),
        final(sorted)@.len() == old(sorted)@.len() + 1,
{
    let ghost before = solve_views(sorted@);
    let mut p: usize = sorted.len();
    while p > 0 && solve.before(&sorted[p - 1])
        invariant
            p <= sorted@.len(),
            before == solve_views(sorted@),
            forall|k: int| p <= k < before.len() ==> solve@.before(#[trigger] before[k]),
        decreases p,
    {
        p = p - 1;
    }
    sorted.insert(p, solve);
    proof {
        let after = solve_views(sorted@);
        assert(after =~= before.insert(p as int, solve@));
        vstd::seq_lib::to_multiset_insert(before, p as int, solve@);
        assert forall|i: int, j: int| 0 <= i < j < after.len() implies !(#[trigger] after[j]).before(
            #[trigger] after[i],
        ) by {
            if j < p {
                assert(after[i] == before[i] && after[j] == before[j]);
            } else if j == p {
                assert(after[i] == before[i]);
                if i < p - 1 {
                    assert(!before[p - 1].before(before[i]));
                }
            } else if i < p {
                assert(after[i] == before[i] && after[j] == before[j - 1]);
            } else if i == p {
                assert(after[j] == before[j - 1]);
            } else {
                assert(after[i] == before[i - 1] && after[j] == before[j - 1]);
            }
        }
    }
}

impl CachedSessionSolves {
    #[verifier::type_invariant]
    spec fn scalars_match_solves(self) -> bool {
        self@.consistent()
    }

    /// The cache of `solves` under the token `update_id`: every statistic
    /// is computed from `solves` as they stand.
    pub fn new(update_id: Option<u64>, solves: Vec<Solve>) -> (c: CachedSessionSolves)
        ensures
            c@ == summary_of(update_id, solve_views(solves@)),
    {
        proof {
            lemma_times_of_views(solves@);
        }
        let last_ao5: Option<u32> = last_average(&solves, 5);
        let last_ao12: Option<u32> = last_average(&solves, 12);
        let session_avg: Option<u32> = average(&solves);
        let best_solve: Option<u32> = best(&solves);
        let best_ao5: Option<u32> = best_average(&solves, 5);
        let best_ao12: Option<u32> = best_average(&solves, 12);
        CachedSessionSolves {
            update_id,
            solves,
            last_ao5,
            last_ao12,
            session_avg,
            best_solve,
            best_ao5,
            best_ao12,
        }
    }

    /// The cache of a session without solves.
    pub fn empty() -> (c: CachedSessionSolves)
        ensures
            c@ == summary_of(None, Seq::empty()),
    {
        let c = CachedSessionSolves::new(None, Vec::new());
        assert(c@.solves =~= Seq::<SolveView>::empty());
        c
    }

    /// Brings the cache up to date with the session in use in `history`.
    /// Where that session still carries the token from which the cache was
    /// made, the cache is left untouched. Otherwise it becomes a fresh
    /// summary of the session; for a session without solves, the empty
    /// cache.
    pub fn refresh(&mut self, history: &History)
        ensures
            old(self)@.refreshed(history@, final(self)@),
            history@.live_session() matches Some(session) && old(self)@.made_from(session.update_id)
                ==> *final(self) == *old(self),
    {
        proof {
            use_type_invariant(&*self);
        }
        match history.session(history.current_session()) {
            Some(session) => {
                if let Some(update_id) = self.update_id {
                    if update_id == session.update_id {
                        return ;
                    }
                }
                let ghost ids = session.solves@;
                let mut solves: Vec<Solve> = Vec::new();
                let mut i: usize = 0;
                assert(solve_views(solves@) =~= resolved(history@, ids.take(0)));
                while i < session.solves.len()
                    invariant
                        i <= ids.len(),
                        ids == session.solves@,
                        in_order(solve_views(solves@)),
                        solve_views(solves@).to_multiset() == resolved(
                            history@,
                            ids.take(i as int),
                        ).to_multiset(),
                    decreases ids.len() - i,
                {
                    let ghost so_far = resolved(history@, ids.take(i as int));
                    proof {
                        ids.lemma_filter_map_take_succ(
                            |id: u128|
                                if history@.solves.contains_key(id) {
                                    Some(history@.solves[id]@)
                                } else {
                                    None
                                },
                            i as int,
                        );
                    }
                    if let Some(solve) = history.solve(session.solves[i]) {
                        let copy: Solve = solve.clone();
                        proof {
                            assert(so_far + seq![copy@] =~= so_far.push(copy@));
                            vstd::seq_lib::to_multiset_build(so_far, copy@);
                        }
                        insert_in_order(&mut solves, copy);
                    }
                    i = i + 1;
                }
                assert(ids.take(i as int) =~= ids);
                *self = CachedSessionSolves::new(Some(session.update_id), solves);
            },
            None => {
                *self = CachedSessionSolves::empty();
            },
        }
    }

    /// The token of the session from which the cache was made.
    pub fn update_id(&self) -> (t: Option<u64>)
        ensures
            t == self@.update_id,
    {
        self.update_id
    }

    /// The solves, oldest first.
    pub fn solves(&self) -> (s: &Vec<Solve>)
        ensures
            solve_views(s@) == self@.solves,
            self@.consistent(),
    {
        proof {
            use_type_invariant(self);
        }
        &self.solves
    }

    /// The trimmed mean of the last five solves.
    pub fn last_ao5(&self) -> (t: Option<u32>)
        ensures
            t == self@.last_ao5,
            t == last_window_mean(view_times(self@.solves), 5),
    {
        proof {
            use_type_invariant(self);
        }
        self.last_ao5
    }

    /// The trimmed mean of the last twelve solves.
    pub fn last_ao12(&self) -> (t: Option<u32>)
        ensures
            t == self@.last_ao12,
            t == last_window_mean(view_times(self@.solves), 12),
    {
        proof {
            use_type_invariant(self);
        }
        self.last_ao12
    }

    /// The trimmed mean of the whole session.
    pub fn session_avg(&self) -> (t: Option<u32>)
        ensures
            t == self@.session_avg,
            t == trimmed_mean(view_times(self@.solves)),
    {
        proof {
            use_type_invariant(self);
        }
        self.session_avg
    }

    /// The best single result.
    pub fn best_solve(&self) -> (t: Option<u32>)
        ensures
            t == self@.best_solve,
            t == fastest(view_times(self@.solves)),
    {
        proof {
            use_type_invariant(self);
        }
        self.best_solve
    }

    /// The best trimmed mean of five consecutive solves.
    pub fn best_ao5(&self) -> (t: Option<u32>)
        ensures
            t == self@.best_ao5,
            t == best_window_mean(view_times(self@.solves), 5),
    {
        proof {
            use_type_invariant(self);
        }
        self.best_ao5
    }

    /// The best trimmed mean of twelve consecutive solves.
    pub fn best_ao12(&self) -> (t: Option<u32>)
        ensures
            t == self@.best_ao12,
            t == best_window_mean(view_times(self@.solves), 12),
    {
        proof {
            use_type_invariant(self);
        }
        self.best_ao12
    }
}

} // verus!
