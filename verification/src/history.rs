//! The history of solves, grouped into sessions, as the timer keeps it in
//! memory.
//!
//! Every change to a session's list of solves gives the session a new
//! update token, taken from a counter that only grows, so that a reader can
//! tell from the token alone whether what it derived from the session is
//! still current.

use std::collections::HashMap;
use vstd::prelude::*;
use crate::solve::{Solve, SolveView};

verus! {

broadcast use vstd::std_specs::hash::group_hash_axioms;

/// A session: a list of solves, in the order in which they were added.
#[derive(Debug)]
pub struct Session {
    pub id: u128,
    /// Changes whenever the list of solves changes.
    pub update_id: u64,
    /// The identifiers of the session's solves, oldest first.
    pub solves: Vec<u128>,
}

/// Why the history refused a change.
#[derive(Clone, Copy, Debug, PartialEq, Eq, Structural)]
pub enum StoreError {
    /// A solve with that identifier is already recorded.
    DuplicateSolve,
    /// A session with that identifier already exists.
    DuplicateSession,
    /// The counter of update tokens has reached its last value.
    TokensExhausted,
}

/// The history: every recorded solve, every session that has solves, and
/// the session that new solves go to.
pub struct History {
    solves: HashMap<u128, Solve>,
    sessions: HashMap<u128, Session>,
    current_session: u128,
    next_update_id: u64,
}

/// What a history holds, as mathematical values.
pub struct HistoryView {
    /// The recorded solves by identifier.
    pub solves: Map<u128, Solve>,
    /// The sessions that have solves, by identifier.
    pub sessions: Map<u128, Session>,
    /// The session that new solves go to. It has no entry in `sessions`
    /// until its first solve is recorded.
    pub current_session: u128,
    /// The token that the next change will hand out.
    pub next_update_id: u64,
}

impl View for History {
    type V = HistoryView;

    closed spec fn view(&self) -> HistoryView {
        HistoryView {
            solves: self.solves@,
            sessions: self.sessions@,
            current_session: self.current_session,
            next_update_id: self.next_update_id,
        }
    }
}

impl HistoryView {
    /// The history is well formed: solves and sessions are filed under
    /// their own identifiers, and every token in use was handed out by the
    /// counter.
    pub open spec fn wf(self) -> bool {
        &&& forall|id: u128| #[trigger]
            self.solves.contains_key(id) ==> self.solves[id].id == id
        &&& forall|id: u128| #[trigger]
            self.sessions.contains_key(id) ==> self.sessions[id].id == id
                && self.sessions[id].update_id < self.next_update_id
    }

    /// The session that new solves go to, where it has any solve yet.
    pub open spec fn live_session(self) -> Option<Session> {
        if self.sessions.contains_key(self.current_session) {
            Some(self.sessions[self.current_session])
        } else {
            None
        }
    }

    /// The identifiers listed in session `id`, oldest first; none for a
    /// session without solves.
    pub open spec fn session_ids(self, id: u128) -> Seq<u128> {
        if self.sessions.contains_key(id) {
            self.sessions[id].solves@
        } else {
            Seq::empty()
        }
    }

    /// Whether recording a solve with identifier `id` succeeds, and if not,
    /// why not.
    pub open spec fn append_outcome(self, id: u128) -> Result<(), StoreError> {
        if self.solves.contains_key(id) {
            Err(StoreError::DuplicateSolve)
        } else if self.next_update_id == u64::MAX {
            Err(StoreError::TokensExhausted)
        } else {
            Ok(())
        }
    }

    /// Whether `after` is this history with `solve` recorded: the solve is
    /// filed under its identifier, its session lists it last and carries
    /// the token that was next, and nothing else has changed.
    pub open spec fn appended(self, solve: Solve, after: HistoryView) -> bool {
        let sid = solve.session;
        &&& after.solves == self.solves.insert(solve.id, solve)
        &&& after.current_session == self.current_session
        &&& after.next_update_id == self.next_update_id + 1
        &&& after.sessions.dom() == self.sessions.dom().insert(sid)
        &&& forall|other: u128|
            other != sid && #[trigger] self.sessions.contains_key(other) ==> after.sessions[other]
                == self.sessions[other]
        &&& after.sessions[sid].id == sid
        &&& after.sessions[sid].update_id == self.next_update_id
        &&& after.sessions[sid].solves@ == self.session_ids(sid).push(solve.id)
    }

    /// Whether `after` is this history once a solve holding `record` was
    /// handed to it: recorded where that succeeds, else nothing changed.
    pub open spec fn recorded(self, record: SolveView, after: HistoryView) -> bool {
        match self.append_outcome(record.id) {
            Ok(_) => {
                &&& after.solves.contains_key(record.id)
                &&& after.solves[record.id]@ == record
                &&& self.appended(after.solves[record.id], after)
            },
            Err(_) => after == self,
        }
    }

    /// Whether starting a session with identifier `id` succeeds, and if
    /// not, why not.
    pub open spec fn switch_outcome(self, id: u128) -> Result<(), StoreError> {
        if self.sessions.contains_key(id) {
            Err(StoreError::DuplicateSession)
        } else {
            Ok(())
        }
    }
}

/// The identifiers of `solves`, in order.
pub open spec fn solve_ids(solves: Seq<Solve>) -> Seq<u128> {
    solves.map_values(|s: Solve| s.id)
}

/// The identifiers of `sessions`, in order.
pub open spec fn session_ids(sessions: Seq<Session>) -> Seq<u128> {
    sessions.map_values(|s: Session| s.id)
}

/// Why no history can be made of `sessions` and `solves`, if none can: two
/// solves share an identifier, or two sessions do, or a session carries
/// the last token, so that none would be left to hand out.
pub open spec fn restore_error(sessions: Seq<Session>, solves: Seq<Solve>) -> Option<StoreError> {
    if !solve_ids(solves).no_duplicates() {
        Some(StoreError::DuplicateSolve)
    } else if !session_ids(sessions).no_duplicates() {
        Some(StoreError::DuplicateSession)
    } else if exists|j: int| 0 <= j < sessions.len() && (#[trigger] sessions[j]).update_id == u64::MAX {
        Some(StoreError::TokensExhausted)
    } else {
        None
    }
}

/// Whether `history` holds what `sessions` and `solves` hold, each filed
/// under its identifier, and will hand out next the least token above
/// those that the sessions carry.
pub open spec fn restored(
    history: HistoryView,
    current_session: u128,
    sessions: Seq<Session>,
    solves: Seq<Solve>,
) -> bool {
    &&& history.current_session == current_session
    &&& history.solves.dom() == solve_ids(solves).to_set()
    &&& forall|i: int|
        0 <= i < solves.len() ==> history.solves[(#[trigger] solves[i]).id]@ == solves[i]@
    &&& history.sessions.dom() == session_ids(sessions).to_set()
    &&& forall|j: int|
        0 <= j < sessions.len() ==> {
            let kept = history.sessions[(#[trigger] sessions[j]).id];
            &&& kept.update_id == sessions[j].update_id
            &&& kept.solves@ == sessions[j].solves@
            &&& kept.update_id < history.next_update_id
        }
    &&& history.next_update_id == 0 || exists|j: int|
        0 <= j < sessions.len() && (#[trigger] sessions[j]).update_id + 1
            == history.next_update_id
}

impl Clone for Session {
    /// A copy that lists the same solves under the same token.
    fn clone(&self) -> (s: Session)
        ensures
            s.id == self.id,
            s.update_id == self.update_id,
            s.solves@ == self.solves@,
    {
        let mut solves: Vec<u128> = Vec::new();
        let mut i: usize = 0;
        while i < self.solves.len()
            invariant
                i <= self.solves@.len(),
                solves@ == self.solves@.take(i as int),
            decreases self.solves@.len() - i,
        {
            solves.push(self.solves[i]);
            i += 1;
            assert(solves@ =~= self.solves@.take(i as int));
        }
        assert(self.solves@.take(i as int) =~= self.solves@);
        Session { id: self.id, update_id: self.update_id, solves }
    }
}

impl History {
    /// A history of what was kept elsewhere: `solves` and `sessions`, each
    /// filed under its identifier, with `current_session` as the session
    /// in use. A session may list identifiers under which no solve is
    /// kept. There is no such history where two solves or two sessions
    /// share an identifier, or where a session carries the last token.
    #[verifier::loop_isolation(false)]
    pub fn restore(
        current_session: u128,
        sessions: &Vec<Session>,
        solves: &Vec<Solve>,
    ) -> (r: Result<History, StoreError>)
        ensures
            match r {
                Ok(h) => restore_error(sessions@, solves@) is None && h@.wf() && restored(
                    h@,
                    current_session,
                    sessions@,
                    solves@,
                ),
                Err(e) => restore_error(sessions@, solves@) == Some(e),
            },
    {
        let ghost ids = solve_ids(solves@);
        let mut solve_map: HashMap<u128, Solve> = HashMap::new();
        let mut i: usize = 0;
        while i < solves.len()
            invariant
                i <= solves@.len(),
                ids == solve_ids(solves@),
                ids.take(i as int).no_duplicates(),
                solve_map@.dom() =~= ids.take(i as int).to_set(),
                forall|k: int|
                    0 <= k < i ==> solve_map@.contains_key(#[trigger] ids[k]) && solve_map@[ids[k]]@
                        == solves@[k]@,
                forall|id: u128| #[trigger]
                    solve_map@.contains_key(id) ==> solve_map@[id].id == id,
            decreases solves@.len() - i,
        {
            let id: u128 = solves[i].id;
            assert(ids[i as int] == id);
            if solve_map.contains_key(&id) {
                proof {
                    assert(ids.take(i as int).to_set().contains(id));
                    let k = choose|k: int| 0 <= k < i && ids.take(i as int)[k] == id;
                    assert(ids[k] == ids[i as int] && k != i);
                }
                return Err(StoreError::DuplicateSolve);
            }
            let copy: Solve = solves[i].clone();
            solve_map.insert(id, copy);
            proof {
                let grown = ids.take(i + 1);
                assert(grown =~= ids.take(i as int).push(id));
                assert forall|a: int, b: int| 0 <= a < b < grown.len() implies grown[a]
                    != grown[b] by {
                    if b == i {
                        assert(ids.take(i as int)[a] == grown[a]);
                        assert(ids.take(i as int).to_set().contains(grown[a]));
                    } else {
                        assert(ids.take(i as int)[a] == grown[a]);
                        assert(ids.take(i as int)[b] == grown[b]);
                    }
                }
                assert(grown.no_duplicates());
                assert(solve_map@.dom() =~= grown.to_set()) by {
                    assert forall|x: u128| grown.to_set().contains(x) <==> (ids.take(
                        i as int,
                    ).to_set().contains(x) || x == id) by {
                        if grown.to_set().contains(x) {
                            let k = choose|k: int| 0 <= k < grown.len() && grown[k] == x;
                            if k < i {
                                assert(ids.take(i as int)[k] == x);
                            }
                        }
                        if ids.take(i as int).to_set().contains(x) {
                            let k = choose|k: int| 0 <= k < i && ids.take(i as int)[k] == x;
                            assert(grown[k] == x);
                        }
                        if x == id {
                            assert(grown[i as int] == x);
                        }
                    }
                }
            }
            i = i + 1;
        }
        assert(ids.take(i as int) =~= ids);
        let ghost sids = session_ids(sessions@);
        let mut session_map: HashMap<u128, Session> = HashMap::new();
        let mut next: u64 = 0;
        let mut exhausted: bool = false;
        let mut j: usize = 0;
        while j < sessions.len()
            invariant
                j <= sessions@.len(),
                sids == session_ids(sessions@),
                sids.take(j as int).no_duplicates(),
                session_map@.dom() =~= sids.take(j as int).to_set(),
                forall|k: int|
                    0 <= k < j ==> {
                        let kept = session_map@[#[trigger] sids[k]];
                        &&& session_map@.contains_key(sids[k])
                        &&& kept.update_id == sessions@[k].update_id
                        &&& kept.solves@ == sessions@[k].solves@
                    },
                forall|id: u128| #[trigger]
                    session_map@.contains_key(id) ==> session_map@[id].id == id,
                exhausted <==> exists|k: int|
                    0 <= k < j && (#[trigger] sessions@[k]).update_id == u64::MAX,
                !exhausted ==> forall|k: int|
                    0 <= k < j ==> (#[trigger] sessions@[k]).update_id < next,
                next == 0 || exists|k: int|
                    0 <= k < j && (#[trigger] sessions@[k]).update_id + 1 == next,
            decreases sessions@.len() - j,
        {
            let id: u128 = sessions[j].id;
            let token: u64 = sessions[j].update_id;
            assert(sids[j as int] == id);
            if session_map.contains_key(&id) {
                proof {
                    assert(sids.take(j as int).to_set().contains(id));
                    let k = choose|k: int| 0 <= k < j && sids.take(j as int)[k] == id;
                    assert(sids[k] == sids[j as int] && k != j);
                }
                return Err(StoreError::DuplicateSession);
            }
            let copy: Session = sessions[j].clone();
            session_map.insert(id, copy);
            if token == u64::MAX {
                exhausted = true;
            } else if token >= next {
                next = token + 1;
            }
            proof {
                let grown = sids.take(j + 1);
                assert(grown =~= sids.take(j as int).push(id));
                assert forall|a: int, b: int| 0 <= a < b < grown.len() implies grown[a]
                    != grown[b] by {
                    if b == j {
                        assert(sids.take(j as int)[a] == grown[a]);
                        assert(sids.take(j as int).to_set().contains(grown[a]));
                    } else {
                        assert(sids.take(j as int)[a] == grown[a]);
                        assert(sids.take(j as int)[b] == grown[b]);
                    }
                }
                assert(grown.no_duplicates());
                assert(session_map@.dom() =~= grown.to_set()) by {
                    assert forall|x: u128| grown.to_set().contains(x) <==> (sids.take(
                        j as int,
                    ).to_set().contains(x) || x == id) by {
                        if grown.to_set().contains(x) {
                            let k = choose|k: int| 0 <= k < grown.len() && grown[k] == x;
                            if k < j {
                                assert(sids.take(j as int)[k] == x);
                            }
                        }
                        if sids.take(j as int).to_set().contains(x) {
                            let k = choose|k: int| 0 <= k < j && sids.take(j as int)[k] == x;
                            assert(grown[k] == x);
                        }
                        if x == id {
                            assert(grown[j as int] == x);
                        }
                    }
                }
                assert forall|k: int| 0 <= k < j + 1 implies {
                    let kept = session_map@[#[trigger] sids[k]];
                    &&& session_map@.contains_key(sids[k])
                    &&& kept.update_id == sessions@[k].update_id
                    &&& kept.solves@ == sessions@[k].solves@
                } by {
                    if k < j {
                        assert(sids.take(j as int)[k] == sids[k]);
                        assert(sids.take(j as int).to_set().contains(sids[k]));
                        assert(sids[k] != id);
                    }
                }
            }
            j = j + 1;
        }
        assert(sids.take(j as int) =~= sids);
        if exhausted {
            return Err(StoreError::TokensExhausted);
        }
        let h = History {
            solves: solve_map,
            sessions: session_map,
            current_session,
            next_update_id: next,
        };
        proof {
            assert forall|id: u128| #[trigger] h@.sessions.contains_key(id) implies h@.sessions[id].id
                == id && h@.sessions[id].update_id < h@.next_update_id by {
                assert(sids.to_set().contains(id));
                let k = choose|k: int| 0 <= k < sids.len() && sids[k] == id;
                assert(sessions@[k].update_id < next);
            }
            assert forall|i: int| 0 <= i < solves@.len() implies h@.solves[(
            #[trigger] solves@[i]).id]@ == solves@[i]@ by {
                assert(ids[i] == solves@[i].id);
            }
            assert forall|j: int| 0 <= j < sessions@.len() implies {
                let kept = h@.sessions[(#[trigger] sessions@[j]).id];
                &&& kept.update_id == sessions@[j].update_id
                &&& kept.solves@ == sessions@[j].solves@
                &&& kept.update_id < h@.next_update_id
            } by {
                assert(sids[j] == sessions@[j].id);
            }
        }
        Ok(h)
    }

    /// An empty history whose solves will go to session `current_session`.
    pub fn new(current_session: u128) -> (h: History)
        ensures
            h@.wf(),
            h@.solves == Map::<u128, Solve>::empty(),
            h@.sessions == Map::<u128, Session>::empty(),
            h@.current_session == current_session,
            h@.next_update_id == 0,
    {
        History {
            solves: HashMap::new(),
            sessions: HashMap::new(),
            current_session,
            next_update_id: 0,
        }
    }

    /// The session that new solves go to.
    pub fn current_session(&self) -> (id: u128)
        ensures
            id == self@.current_session,
    {
        self.current_session
    }

    /// The session with identifier `id`, where it has any solve.
    pub fn session(&self, id: u128) -> (s: Option<&Session>)
        ensures
            s is Some <==> self@.sessions.contains_key(id),
            s is Some ==> *s.unwrap() == self@.sessions[id],
    {
        self.sessions.get(&id)
    }

    /// The solve with identifier `id`, where one is recorded.
    pub fn solve(&self, id: u128) -> (s: Option<&Solve>)
        ensures
            s is Some <==> self@.solves.contains_key(id),
            s is Some ==> *s.unwrap() == self@.solves[id],
    {
        self.solves.get(&id)
    }

    /// How many solves are recorded.
    pub fn solve_count(&self) -> (n: usize)
        ensures
            n == self@.solves.len(),
    {
        self.solves.len()
    }

    /// Records `solve` in the session that it names, which gets a new
    /// update token. A solve whose identifier is already recorded is
    /// refused, and so is any solve once the tokens have run out; the
    /// history is then left as it was.
    pub fn new_solve(&mut self, solve: Solve) -> (r: Result<(), StoreError>)
        requires
            old(self)@.wf(),
        ensures
            final(self)@.wf(),
            r == old(self)@.append_outcome(solve.id),
            r is Err ==> final(self)@ == old(self)@,
            r is Ok ==> old(self)@.appended(solve, final(self)@),
    {
        let id: u128 = solve.id;
        let sid: u128 = solve.session;
        if self.solves.contains_key(&id) {
            return Err(StoreError::DuplicateSolve);
        }
        if self.next_update_id == u64::MAX {
            return Err(StoreError::TokensExhausted);
        }
        let token: u64 = self.next_update_id;
        let session: Session = match self.sessions.remove(&sid) {
            Some(mut found) => {
                found.solves.push(id);
                found.update_id = token;
                found
            },
            None => Session { id: sid, update_id: token, solves: vec![id] },
        };
        proof {
            assert(session.solves@ =~= old(self)@.session_ids(sid).push(id));
        }
        self.sessions.insert(sid, session);
        self.solves.insert(id, solve);
        self.next_update_id = token + 1;
        proof {
            assert(final(self)@.sessions.dom() =~= old(self)@.sessions.dom().insert(sid));
        }
        Ok(())
    }

    /// Starts a new session with identifier `id`: solves recorded from now
    /// on go to it. The identifier of a session that already has solves is
    /// refused, and the history is then left as it was.
    pub fn new_session(&mut self, id: u128) -> (r: Result<(), StoreError>)
        requires
            old(self)@.wf(),
        ensures
            final(self)@.wf(),
            r == old(self)@.switch_outcome(id),
            r is Err ==> final(self)@ == old(self)@,
            r is Ok ==> final(self)@ == (HistoryView { current_session: id, ..old(self)@ }),
    {
        if self.sessions.contains_key(&id) {
            return Err(StoreError::DuplicateSession);
        }
        self.current_session = id;
        Ok(())
    }
}

} // verus!
