use cube_timer::cache::{insert_in_order, CachedSessionSolves};
use cube_timer::history::{History, Session};
use cube_timer::moves::{Move, Scramble};
use cube_timer::solve::{Penalty, Solve, SolveType};

fn record(id: u128, session: u128, created: i64, time: u32) -> Solve {
    Solve {
        id,
        solve_type: SolveType::Standard3x3x3,
        session,
        scramble: Scramble::new(vec![Move::B2, Move::R]).unwrap(),
        created,
        time,
        penalty: Penalty::NoPenalty,
        device: None,
        moves: None,
    }
}

fn ids(cache: &CachedSessionSolves) -> Vec<u128> {
    cache.solves().iter().map(|s| s.id).collect()
}

fn scalars(cache: &CachedSessionSolves) -> [Option<u32>; 6] {
    [
        cache.last_ao5(),
        cache.last_ao12(),
        cache.session_avg(),
        cache.best_solve(),
        cache.best_ao5(),
        cache.best_ao12(),
    ]
}

#[test]
fn empty_cache_has_no_values() {
    let c = CachedSessionSolves::empty();
    assert_eq!(c.update_id(), None);
    assert!(c.solves().is_empty());
    assert_eq!(scalars(&c), [None; 6]);
}

#[test]
fn new_cache_computes_every_scalar() {
    let solves: Vec<Solve> = [3000u32, 1000, 5000, 2000, 4000, 6000]
        .iter()
        .enumerate()
        .map(|(i, t)| record(i as u128, 1, i as i64, *t))
        .collect();
    let c = CachedSessionSolves::new(Some(9), solves);
    assert_eq!(c.update_id(), Some(9));
    assert_eq!(c.solves().len(), 6);
    // Last five: 1000, 5000, 2000, 4000, 6000 -> 5000 + 2000 + 4000 over 3.
    assert_eq!(c.last_ao5(), Some(3667));
    assert_eq!(c.last_ao12(), None);
    // All six: drop 1000 and 6000 -> 14000 over 4.
    assert_eq!(c.session_avg(), Some(3500));
    assert_eq!(c.best_solve(), Some(1000));
    // First five: 3000, 1000, 5000, 2000, 4000 -> 3000.
    assert_eq!(c.best_ao5(), Some(3000));
    assert_eq!(c.best_ao12(), None);
}

#[test]
fn refresh_without_a_session_gives_the_empty_cache() {
    let h = History::new(1);
    let mut c = CachedSessionSolves::new(Some(3), vec![record(1, 1, 1, 1000)]);
    c.refresh(&h);
    assert_eq!(c.update_id(), None);
    assert!(c.solves().is_empty());
    assert_eq!(scalars(&c), [None; 6]);
}

#[test]
fn refresh_puts_the_solves_in_order() {
    let mut h = History::new(1);
    h.new_solve(record(30, 1, 3000, 3)).unwrap();
    h.new_solve(record(10, 1, 1000, 1)).unwrap();
    h.new_solve(record(20, 1, 2000, 2)).unwrap();
    h.new_solve(record(15, 1, 2000, 4)).unwrap();
    h.new_solve(record(99, 2, 500, 5)).unwrap();
    let mut c = CachedSessionSolves::empty();
    c.refresh(&h);
    // By time of creation, then by identifier; the other session's solve is not listed.
    assert_eq!(ids(&c), vec![10, 15, 20, 30]);
    assert_eq!(c.update_id(), Some(h.session(1).unwrap().update_id));
    assert_eq!(c.best_solve(), Some(1));
    assert_eq!(c.session_avg(), Some(3));
}

#[test]
fn refresh_twice_changes_nothing() {
    let mut h = History::new(1);
    for i in 0..6u32 {
        h.new_solve(record(i as u128, 1, i as i64, 1000 * (i + 1))).unwrap();
    }
    let mut c = CachedSessionSolves::empty();
    c.refresh(&h);
    let first_ids = ids(&c);
    let first_scalars = scalars(&c);
    let first_token = c.update_id();
    c.refresh(&h);
    assert_eq!(ids(&c), first_ids);
    assert_eq!(scalars(&c), first_scalars);
    assert_eq!(c.update_id(), first_token);
    assert_eq!(first_scalars[0], Some(4000));
}

#[test]
fn matching_token_means_no_recomputation() {
    let mut h = History::new(1);
    h.new_solve(record(1, 1, 1, 1000)).unwrap();
    let token = h.session(1).unwrap().update_id;
    // A cache that carries the session's token is trusted as it stands.
    let mut c = CachedSessionSolves::new(Some(token), Vec::new());
    c.refresh(&h);
    assert!(c.solves().is_empty());
    assert_eq!(c.update_id(), Some(token));
}

#[test]
fn append_invalidates_the_cache() {
    let mut h = History::new(1);
    for i in 0..4u32 {
        h.new_solve(record(i as u128, 1, i as i64, 1000 * (i + 1))).unwrap();
    }
    let mut c = CachedSessionSolves::empty();
    c.refresh(&h);
    assert_eq!(c.last_ao5(), None);
    assert_eq!(c.solves().len(), 4);
    let before = c.update_id();
    h.new_solve(record(4, 1, 4, 5000)).unwrap();
    assert_ne!(Some(h.session(1).unwrap().update_id), before);
    c.refresh(&h);
    assert_eq!(c.solves().len(), 5);
    assert_eq!(c.last_ao5(), Some(3000));
    assert_eq!(c.update_id(), Some(h.session(1).unwrap().update_id));
    assert!(ids(&c).contains(&4));
}

#[test]
fn new_session_resets_the_cache() {
    let mut h = History::new(1);
    for i in 0..5u32 {
        h.new_solve(record(i as u128, 1, i as i64, 1000)).unwrap();
    }
    let mut c = CachedSessionSolves::empty();
    c.refresh(&h);
    assert_eq!(c.solves().len(), 5);
    h.new_session(2).unwrap();
    c.refresh(&h);
    assert_eq!(c.update_id(), None);
    assert!(c.solves().is_empty());
    assert_eq!(scalars(&c), [None; 6]);
    h.new_solve(record(50, 2, 50, 777)).unwrap();
    c.refresh(&h);
    assert_eq!(ids(&c), vec![50]);
    assert_eq!(c.best_solve(), Some(777));
}

#[test]
fn unresolved_identifiers_are_passed_over() {
    let sessions = vec![Session { id: 1, update_id: 3, solves: vec![7, 404, 5, 405] }];
    let solves = vec![record(5, 1, 100, 1500), record(7, 1, 200, 2500)];
    let h = History::restore(1, &sessions, &solves).unwrap();
    let mut c = CachedSessionSolves::empty();
    c.refresh(&h);
    assert_eq!(ids(&c), vec![5, 7]);
    assert_eq!(c.update_id(), Some(3));
    assert_eq!(c.best_solve(), Some(1500));
}

#[test]
fn cached_solves_are_copies_of_the_records() {
    let mut h = History::new(1);
    let mut s = record(1, 1, 10, 1234);
    s.penalty = Penalty::PlusTwo;
    s.device = Some(String::from("stackmat"));
    h.new_solve(s).unwrap();
    let mut c = CachedSessionSolves::empty();
    c.refresh(&h);
    let kept = &c.solves()[0];
    assert_eq!(kept.id, 1);
    assert_eq!(kept.session, 1);
    assert_eq!(kept.created, 10);
    assert_eq!(kept.time, 1234);
    assert_eq!(kept.penalty, Penalty::PlusTwo);
    assert_eq!(kept.device, Some(String::from("stackmat")));
    assert!(kept.moves.is_none());
    assert_eq!(kept.scramble.moves(), &vec![Move::B2, Move::R]);
    assert_eq!(c.best_solve(), Some(3234));
}

#[test]
fn insert_in_order_goes_behind_equal_keys() {
    let mut sorted = vec![record(1, 1, 10, 100), record(3, 1, 20, 300)];
    insert_in_order(&mut sorted, record(2, 1, 20, 200));
    insert_in_order(&mut sorted, record(0, 1, 5, 50));
    insert_in_order(&mut sorted, record(9, 1, 30, 900));
    insert_in_order(&mut sorted, record(3, 1, 20, 333));
    let order: Vec<(u128, u32)> = sorted.iter().map(|s| (s.id, s.time)).collect();
    assert_eq!(order, vec![(0, 50), (1, 100), (2, 200), (3, 300), (3, 333), (9, 900)]);
}
