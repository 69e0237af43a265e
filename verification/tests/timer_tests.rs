use cube_timer::history::{History, StoreError};
use cube_timer::moves::{Move, Scramble};
use cube_timer::solve::{Penalty, SolveType};
use cube_timer::state::{DisplayColor, Precision, TimeDisplay, TimerState};
use cube_timer::timer::{Supplies, TickInput, Timer};

fn scramble(moves: &[Move]) -> Scramble {
    Scramble::new(moves.to_vec()).unwrap()
}

fn timer() -> Timer {
    Timer::new(scramble(&[Move::R, Move::U]), scramble(&[Move::L, Move::D]))
}

fn tick(
    t: &mut Timer,
    h: &mut History,
    input_active: bool,
    now: u64,
    solve_id: u128,
    made: Option<Scramble>,
) -> cube_timer::timer::TickOutput {
    assert!(!t.needs_scramble(input_active) || made.is_some());
    t.tick(
        TickInput { input_active, now },
        h,
        Supplies { solve_id, created: 1_700_000_000_000 + now as i64, scramble: made },
    )
}

#[test]
fn new_timer_is_idle_with_both_scrambles() {
    let t = timer();
    assert_eq!(t.state(), TimerState::Inactive(0));
    assert!(!t.is_solving());
    assert_eq!(t.scrambles().current_scramble().moves(), &vec![Move::R, Move::U]);
    assert!(t.scrambles().has_next());
    assert!(!t.scrambles().is_displayed());
    assert_eq!(t.session_solves().update_id(), None);
    assert!(t.session_solves().solves().is_empty());
    assert_eq!(t.current_time(5), TimeDisplay { millis: 0, precision: Precision::Full });
    assert_eq!(t.current_time_color(), DisplayColor::Content);
}

#[test]
fn one_attempt_records_exactly_one_solve() {
    let mut t = timer();
    let mut h = History::new(1);

    let out = tick(&mut t, &mut h, true, 0, 10, None);
    assert_eq!(out.state, TimerState::Preparing(0, 0));
    assert_eq!(out.completed, None);
    assert_eq!(out.color, DisplayColor::Muted);
    assert_eq!(out.display, TimeDisplay { millis: 0, precision: Precision::Short });
    assert_eq!(out.requested_tick_hz, None);

    let out = tick(&mut t, &mut h, true, 600, 11, None);
    assert_eq!(out.state, TimerState::Ready);
    assert_eq!(out.color, DisplayColor::Go);
    assert_eq!(out.completed, None);

    let out = tick(&mut t, &mut h, false, 600, 12, None);
    assert_eq!(out.state, TimerState::Solving(600));
    assert_eq!(out.requested_tick_hz, Some(10));
    assert_eq!(out.color, DisplayColor::Content);
    assert_eq!(h.solve_count(), 0);

    let out = tick(&mut t, &mut h, false, 1600, 13, None);
    assert_eq!(out.state, TimerState::Solving(600));
    assert_eq!(out.display, TimeDisplay { millis: 1000, precision: Precision::Short });
    assert_eq!(h.solve_count(), 0);

    let out = tick(&mut t, &mut h, true, 2100, 14, None);
    assert_eq!(out.state, TimerState::Inactive(1500));
    assert_eq!(out.completed, Some(1500));
    assert_eq!(out.store_error, None);
    assert_eq!(out.display, TimeDisplay { millis: 1500, precision: Precision::Full });
    assert_eq!(out.requested_tick_hz, None);
    assert_eq!(t.state(), TimerState::Inactive(1500));

    assert_eq!(h.solve_count(), 1);
    let solve = h.solve(14).unwrap();
    assert_eq!(solve.time, 1500);
    assert_eq!(solve.id, 14);
    assert_eq!(solve.session, 1);
    assert_eq!(solve.solve_type, SolveType::Standard3x3x3);
    assert_eq!(solve.penalty, Penalty::NoPenalty);
    assert_eq!(solve.created, 1_700_000_002_100);
    assert!(solve.device.is_none());
    assert!(solve.moves.is_none());
    assert_eq!(solve.scramble.moves(), &vec![Move::R, Move::U]);
    assert_eq!(h.session(1).unwrap().solves, vec![14]);

    // The spare scramble is now in use, and the statistics know the solve.
    assert_eq!(t.scrambles().current_scramble().moves(), &vec![Move::L, Move::D]);
    assert!(!t.scrambles().has_next());
    assert!(!t.scrambles().is_displayed());
    assert_eq!(t.session_solves().solves().len(), 1);
    assert_eq!(t.session_solves().best_solve(), Some(1500));
}

#[test]
fn aborted_hold_records_nothing() {
    let mut t = timer();
    let mut h = History::new(1);
    t.finish_solve(4321, &mut h, 1, 50, None).unwrap();
    assert_eq!(t.state(), TimerState::Inactive(4321));
    let current: Vec<Move> = t.scrambles().current_scramble().moves().clone();

    let out = tick(&mut t, &mut h, true, 10_000, 2, None);
    assert_eq!(out.state, TimerState::Preparing(10_000, 4321));
    let out = tick(&mut t, &mut h, false, 10_200, 3, None);
    assert_eq!(out.state, TimerState::Inactive(4321));
    assert_eq!(out.completed, None);
    assert_eq!(out.store_error, None);
    assert_eq!(h.solve_count(), 1);
    assert_eq!(t.scrambles().current_scramble().moves(), &current);
    assert_eq!(out.display, TimeDisplay { millis: 4321, precision: Precision::Full });
}

#[test]
fn finish_idles_even_when_the_history_refuses() {
    let mut t = timer();
    let mut h = History::new(1);
    assert_eq!(t.finish_solve(1000, &mut h, 77, 5, None), Ok(()));
    assert_eq!(t.state(), TimerState::Inactive(1000));
    // The same identifier again: the history refuses, the timer goes on.
    let fresh = scramble(&[Move::F2]);
    assert!(!t.scrambles().has_next());
    assert_eq!(t.finish_solve(2000, &mut h, 77, 6, Some(fresh)), Err(StoreError::DuplicateSolve));
    assert_eq!(t.state(), TimerState::Inactive(2000));
    assert_eq!(h.solve_count(), 1);
    assert_eq!(h.solve(77).unwrap().time, 1000);
    assert_eq!(t.scrambles().current_scramble().moves(), &vec![Move::F2]);
    assert!(!t.scrambles().is_displayed());
    assert!(!t.scrambles().has_next());
}

#[test]
fn finish_idles_for_every_elapsed_time() {
    for e in [0u32, 1, 499, 500, 1500, 59_999, 3_600_000, u32::MAX] {
        let mut t = timer();
        let mut h = History::new(1);
        assert_eq!(t.finish_solve(e, &mut h, 1, 0, None), Ok(()));
        assert_eq!(t.state(), TimerState::Inactive(e));
        assert_eq!(h.solve(1).unwrap().time, e);
    }
}

#[test]
fn tick_reports_a_refused_solve() {
    let mut t = timer();
    let mut h = History::new(1);
    t.finish_solve(1000, &mut h, 5, 0, None).unwrap();
    tick(&mut t, &mut h, true, 0, 0, None);
    tick(&mut t, &mut h, true, 501, 0, None);
    tick(&mut t, &mut h, false, 501, 0, None);
    assert!(t.needs_scramble(true));
    assert!(!t.needs_scramble(false));
    let out = tick(&mut t, &mut h, true, 900, 5, Some(scramble(&[Move::B])));
    assert_eq!(out.state, TimerState::Inactive(399));
    assert_eq!(out.completed, Some(399));
    assert_eq!(out.store_error, Some(StoreError::DuplicateSolve));
    assert_eq!(h.solve_count(), 1);
    assert_eq!(t.scrambles().current_scramble().moves(), &vec![Move::B]);
}

#[test]
fn spare_scramble_is_made_while_the_current_one_is_shown() {
    let mut t = timer();
    let mut h = History::new(1);
    t.finish_solve(1000, &mut h, 1, 0, None).unwrap();
    assert!(!t.scrambles().has_next());
    // Not shown yet: nothing is wanted, and what is offered is dropped.
    assert!(!t.wants_scramble(false));
    tick(&mut t, &mut h, false, 10, 0, Some(scramble(&[Move::B])));
    assert!(!t.scrambles().has_next());
    t.mark_displayed();
    assert!(t.wants_scramble(false));
    tick(&mut t, &mut h, false, 20, 0, Some(scramble(&[Move::D2, Move::F])));
    assert!(t.scrambles().has_next());
    assert!(!t.wants_scramble(false));
    t.finish_solve(2000, &mut h, 2, 0, None).unwrap();
    assert_eq!(t.scrambles().current_scramble().moves(), &vec![Move::D2, Move::F]);
}

#[test]
fn scramble_made_in_the_finishing_tick_is_used_at_once() {
    let mut t = timer();
    let mut h = History::new(1);
    t.finish_solve(1000, &mut h, 1, 0, None).unwrap();
    t.mark_displayed();
    tick(&mut t, &mut h, true, 0, 0, None);
    tick(&mut t, &mut h, true, 501, 0, None);
    tick(&mut t, &mut h, false, 501, 0, None);
    assert_eq!(t.state(), TimerState::Solving(501));
    assert!(t.needs_scramble(true));
    assert!(t.wants_scramble(true));
    let out = tick(&mut t, &mut h, true, 1501, 2, Some(scramble(&[Move::UPrime])));
    assert_eq!(out.completed, Some(1000));
    assert_eq!(t.scrambles().current_scramble().moves(), &vec![Move::UPrime]);
    assert!(!t.scrambles().has_next());
    assert!(!t.scrambles().is_displayed());
}

#[test]
fn statistics_follow_the_history_tick_by_tick() {
    let mut t = timer();
    let mut h = History::new(1);
    let times = [1000u64, 5000, 2000, 4000, 3000];
    let mut now = 0u64;
    for (i, e) in times.iter().enumerate() {
        t.mark_displayed();
        tick(&mut t, &mut h, true, now, 0, Some(scramble(&[Move::R2])));
        now += 501;
        tick(&mut t, &mut h, true, now, 0, None);
        tick(&mut t, &mut h, false, now, 0, None);
        now += e;
        let out = tick(&mut t, &mut h, true, now, 100 + i as u128, None);
        assert_eq!(out.completed, Some(*e as u32));
        assert_eq!(t.session_solves().solves().len(), i + 1);
        if i < 4 {
            assert_eq!(t.session_solves().last_ao5(), None);
        }
        now += 10;
        tick(&mut t, &mut h, false, now, 0, None);
    }
    assert_eq!(t.session_solves().last_ao5(), Some(3000));
    assert_eq!(t.session_solves().best_ao5(), Some(3000));
    assert_eq!(t.session_solves().best_solve(), Some(1000));
    assert_eq!(t.session_solves().session_avg(), Some(3000));
    assert_eq!(t.session_solves().last_ao12(), None);
    assert_eq!(h.solve_count(), 5);
}

#[test]
fn new_session_empties_the_statistics_at_the_next_tick() {
    let mut t = timer();
    let mut h = History::new(1);
    t.finish_solve(1000, &mut h, 1, 0, None).unwrap();
    t.update_solve_cache(&h);
    assert_eq!(t.session_solves().solves().len(), 1);
    h.new_session(2).unwrap();
    tick(&mut t, &mut h, false, 0, 0, None);
    assert!(t.session_solves().solves().is_empty());
    assert_eq!(t.session_solves().update_id(), None);
    assert_eq!(t.state(), TimerState::Inactive(1000));
}

#[test]
fn mark_displayed_touches_only_the_flag() {
    let mut t = timer();
    t.mark_displayed();
    assert!(t.scrambles().is_displayed());
    assert!(t.scrambles().has_next());
    assert_eq!(t.state(), TimerState::Inactive(0));
    assert_eq!(t.scrambles().current_scramble().moves(), &vec![Move::R, Move::U]);
}

fn wait_millis(millis: u128) {
    let start = std::time::Instant::now();
    while start.elapsed().as_millis() < millis {
        std::hint::spin_loop();
    }
}

fn supplies(solve_id: u128, created: i64) -> Supplies {
    Supplies { solve_id, created, scramble: None }
}

#[test]
fn update_times_a_solve_by_the_clock() {
    let mut t = timer();
    let mut h = History::new(1);
    let out = t.update(false, &mut h, supplies(1, 11));
    assert_eq!(out.state, TimerState::Inactive(0));
    let out = t.update(true, &mut h, supplies(2, 12));
    assert!(matches!(out.state, TimerState::Preparing(_, 0)));
    let out = t.update(true, &mut h, supplies(3, 13));
    assert!(matches!(out.state, TimerState::Preparing(_, 0)));
    wait_millis(520);
    let out = t.update(true, &mut h, supplies(4, 14));
    assert_eq!(out.state, TimerState::Ready);
    let out = t.update(false, &mut h, supplies(5, 15));
    assert!(matches!(out.state, TimerState::Solving(_)));
    assert!(t.ends_solve(true));
    assert!(!t.ends_solve(false));
    wait_millis(40);
    let out = t.update(true, &mut h, supplies(6, 1_700_000_000_000));
    let elapsed = out.completed.unwrap();
    assert!(elapsed >= 40);
    assert_eq!(out.state, TimerState::Inactive(elapsed));
    assert_eq!(out.store_error, None);
    let solve = h.solve(6).unwrap();
    assert_eq!(solve.time, elapsed);
    assert_eq!(solve.created, 1_700_000_000_000);
    assert_eq!(h.solve_count(), 1);
    assert!(!t.ends_solve(true));
}

#[test]
fn update_needs_a_scramble_where_tick_does() {
    let mut t = timer();
    let mut h = History::new(1);
    t.finish_solve(1000, &mut h, 1, 0, None).unwrap();
    t.update(true, &mut h, supplies(2, 0));
    wait_millis(520);
    t.update(true, &mut h, supplies(3, 0));
    t.update(false, &mut h, supplies(4, 0));
    assert!(t.needs_scramble(true));
    let out = t.update(
        true,
        &mut h,
        Supplies { solve_id: 5, created: 9, scramble: Some(scramble(&[Move::L2])) },
    );
    assert!(out.completed.is_some());
    assert_eq!(t.scrambles().current_scramble().moves(), &vec![Move::L2]);
    assert_eq!(h.solve(5).unwrap().created, 9);
}

#[test]
fn finish_renews_the_session_token() {
    let mut t = timer();
    let mut h = History::new(1);
    assert!(h.session(1).is_none());
    t.finish_solve(1000, &mut h, 10, 0, None).unwrap();
    let first = h.session(1).unwrap().update_id;
    assert_eq!(h.session(1).unwrap().solves, vec![10]);
    t.finish_solve(2000, &mut h, 11, 0, Some(scramble(&[Move::B]))).unwrap();
    let second = h.session(1).unwrap().update_id;
    assert_ne!(first, second);
    assert_eq!(h.session(1).unwrap().solves, vec![10, 11]);
    assert_eq!(h.current_session(), 1);
    assert_eq!(h.solve(11).unwrap().time, 2000);
    // A refused solve leaves token and list as they were.
    assert!(t.finish_solve(3000, &mut h, 11, 0, Some(scramble(&[Move::D]))).is_err());
    assert_eq!(h.session(1).unwrap().update_id, second);
    assert_eq!(h.session(1).unwrap().solves, vec![10, 11]);
}
