use cube_timer::state::{
    elapsed_millis, elapsed_result, DisplayColor, InputSnapshot, Precision, TimeDisplay,
    TimerState,
    READY_DELAY_MILLIS, SOLVING_TICK_HZ,
};

#[test]
fn initial_state_is_idle_at_zero() {
    assert_eq!(TimerState::initial(), TimerState::Inactive(0));
}

#[test]
fn full_sequence_reproduces_the_table() {
    let s0 = TimerState::Inactive(0);
    let (s1, c1) = s0.advance(true, 0);
    assert_eq!(s1, TimerState::Preparing(0, 0));
    assert_eq!(c1, None);
    let (s2, c2) = s1.advance(true, 600);
    assert_eq!(s2, TimerState::Ready);
    assert_eq!(c2, None);
    let (s3, c3) = s2.advance(false, 600);
    assert_eq!(s3, TimerState::Solving(600));
    assert_eq!(c3, None);
    let (s4, c4) = s3.advance(true, 2100);
    assert_eq!(s4, TimerState::Inactive(1500));
    assert_eq!(c4, Some(1500));
}

#[test]
fn early_release_restores_previous_result() {
    let s = TimerState::Preparing(1000, 777);
    let (next, completed) = s.advance(false, 1200);
    assert_eq!(next, TimerState::Inactive(777));
    assert_eq!(completed, None);
}

#[test]
fn late_release_from_preparing_also_restores() {
    let s = TimerState::Preparing(1000, 42);
    let (next, completed) = s.advance(false, 5000);
    assert_eq!(next, TimerState::Inactive(42));
    assert_eq!(completed, None);
}

#[test]
fn hold_must_exceed_the_delay() {
    assert_eq!(READY_DELAY_MILLIS, 500);
    let s = TimerState::Preparing(100, 9);
    assert_eq!(s.advance(true, 100).0, s);
    assert_eq!(s.advance(true, 599).0, s);
    assert_eq!(s.advance(true, 600).0, s);
    assert_eq!(s.advance(true, 601).0, TimerState::Ready);
}

#[test]
fn other_samples_are_self_loops() {
    let idle = TimerState::Inactive(5);
    assert_eq!(idle.advance(false, 10), (idle, None));
    let ready = TimerState::Ready;
    assert_eq!(ready.advance(true, 10), (ready, None));
    let solving = TimerState::Solving(3);
    assert_eq!(solving.advance(false, 10_000), (solving, None));
}

#[test]
fn idle_to_preparing_keeps_last_result() {
    let (next, completed) = TimerState::Inactive(1234).advance(true, 77);
    assert_eq!(next, TimerState::Preparing(77, 1234));
    assert_eq!(completed, None);
}

#[test]
fn clock_running_backwards_counts_as_zero() {
    assert_eq!(elapsed_millis(1000, 900), 0);
    assert_eq!(elapsed_result(1000, 900), 0);
    let (next, completed) = TimerState::Solving(1000).advance(true, 900);
    assert_eq!(next, TimerState::Inactive(0));
    assert_eq!(completed, Some(0));
    assert_eq!(TimerState::Preparing(1000, 1).advance(true, 0).0, TimerState::Preparing(1000, 1));
}

#[test]
fn result_keeps_the_low_32_bits() {
    let big: u64 = (1u64 << 32) + 5;
    assert_eq!(elapsed_millis(0, big), big);
    assert_eq!(elapsed_result(0, big), 5);
    assert_eq!(elapsed_result(10, 10 + u32::MAX as u64), u32::MAX);
    let (next, completed) = TimerState::Solving(0).advance(true, big);
    assert_eq!(next, TimerState::Inactive(5));
    assert_eq!(completed, Some(5));
}

#[test]
fn is_solving_in_every_state_but_idle() {
    assert!(!TimerState::Inactive(0).is_solving());
    assert!(TimerState::Preparing(0, 0).is_solving());
    assert!(TimerState::Ready.is_solving());
    assert!(TimerState::Solving(0).is_solving());
}

#[test]
fn fast_ticks_only_while_solving() {
    assert_eq!(SOLVING_TICK_HZ, 10);
    assert_eq!(TimerState::Inactive(0).requested_tick_hz(), None);
    assert_eq!(TimerState::Preparing(0, 0).requested_tick_hz(), None);
    assert_eq!(TimerState::Ready.requested_tick_hz(), None);
    assert_eq!(TimerState::Solving(0).requested_tick_hz(), Some(10));
}

#[test]
fn colour_follows_the_state() {
    assert_eq!(TimerState::Inactive(0).current_time_color(), DisplayColor::Content);
    assert_eq!(TimerState::Solving(0).current_time_color(), DisplayColor::Content);
    assert_eq!(TimerState::Preparing(0, 0).current_time_color(), DisplayColor::Muted);
    assert_eq!(TimerState::Ready.current_time_color(), DisplayColor::Go);
}

#[test]
fn display_follows_the_state() {
    assert_eq!(
        TimerState::Inactive(12_345).current_time(99),
        TimeDisplay { millis: 12_345, precision: Precision::Full }
    );
    assert_eq!(
        TimerState::Preparing(50, 12_345).current_time(99),
        TimeDisplay { millis: 0, precision: Precision::Short }
    );
    assert_eq!(
        TimerState::Ready.current_time(99),
        TimeDisplay { millis: 0, precision: Precision::Short }
    );
    assert_eq!(
        TimerState::Solving(1000).current_time(4321),
        TimeDisplay { millis: 3321, precision: Precision::Short }
    );
}

#[test]
fn only_start_key_and_pointer_start_an_attempt() {
    let idle = TimerState::Inactive(0);
    let other_key = InputSnapshot { start_key_down: false, any_key_down: true, pointer_down: false };
    let start_key = InputSnapshot { start_key_down: true, any_key_down: true, pointer_down: false };
    let pointer = InputSnapshot { start_key_down: false, any_key_down: false, pointer_down: true };
    let nothing = InputSnapshot { start_key_down: false, any_key_down: false, pointer_down: false };
    assert!(!idle.input_active(other_key));
    assert!(idle.input_active(start_key));
    assert!(idle.input_active(pointer));
    assert!(!idle.input_active(nothing));
    for state in [TimerState::Preparing(0, 0), TimerState::Ready, TimerState::Solving(0)] {
        assert!(state.input_active(other_key));
        assert!(state.input_active(start_key));
        assert!(state.input_active(pointer));
        assert!(!state.input_active(nothing));
    }
}
