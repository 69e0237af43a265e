use cube_timer::moves::{Move, Scramble};
use cube_timer::solve::{Penalty, Solve, SolveType, PLUS_TWO_MILLIS};
use cube_timer::stats::{average, average_of_range, best, best_average, last_average};

fn solve(id: u128, time: u32, penalty: Penalty) -> Solve {
    Solve {
        id,
        solve_type: SolveType::Standard3x3x3,
        session: 1,
        scramble: Scramble::new(vec![Move::R, Move::U, Move::RPrime]).unwrap(),
        created: 1_000 + id as i64,
        time,
        penalty,
        device: None,
        moves: None,
    }
}

fn timed(times: &[u32]) -> Vec<Solve> {
    let mut out = Vec::new();
    for (i, t) in times.iter().enumerate() {
        out.push(solve(i as u128, *t, Penalty::NoPenalty));
    }
    out
}

#[test]
fn final_time_applies_the_penalty() {
    assert_eq!(PLUS_TWO_MILLIS, 2000);
    assert_eq!(solve(1, 10_000, Penalty::NoPenalty).final_time(), Some(10_000));
    assert_eq!(solve(1, 10_000, Penalty::PlusTwo).final_time(), Some(12_000));
    assert_eq!(solve(1, 10_000, Penalty::Dnf).final_time(), None);
}

#[test]
fn plus_two_is_held_at_the_largest_result() {
    assert_eq!(solve(1, u32::MAX, Penalty::PlusTwo).final_time(), Some(u32::MAX));
    assert_eq!(solve(1, u32::MAX - 1999, Penalty::PlusTwo).final_time(), Some(u32::MAX));
    assert_eq!(solve(1, u32::MAX - 2000, Penalty::PlusTwo).final_time(), Some(u32::MAX));
    assert_eq!(solve(1, u32::MAX - 2001, Penalty::PlusTwo).final_time(), Some(u32::MAX - 1));
}

#[test]
fn four_solves_have_no_average_of_five() {
    let solves = timed(&[1000, 5000, 2000, 4000]);
    assert_eq!(last_average(&solves, 5), None);
    assert_eq!(best_average(&solves, 5), None);
}

#[test]
fn fifth_solve_defines_the_average_of_five() {
    let solves = timed(&[1000, 5000, 2000, 4000, 3000]);
    assert_eq!(last_average(&solves, 5), Some(3000));
    assert_eq!(best_average(&solves, 5), Some(3000));
}

#[test]
fn average_of_five_drops_best_and_worst() {
    let solves = timed(&[9000, 100, 1000, 1001, 1002]);
    assert_eq!(last_average(&solves, 5), Some(1001));
}

#[test]
fn mean_is_rounded_to_nearest() {
    // 1001 + 1002 over two solves is 1001.5, which goes up.
    assert_eq!(average(&timed(&[1000, 1001, 1002, 9000])), Some(1002));
    // 1000 + 1000 + 1001 over three is 1000.33.
    assert_eq!(average(&timed(&[10, 1000, 1000, 1001, 9000])), Some(1000));
    // 1000 + 1001 + 1001 over three is 1000.67.
    assert_eq!(average(&timed(&[10, 1000, 1001, 1001, 9000])), Some(1001));
}

#[test]
fn session_average_needs_three_solves() {
    assert_eq!(average(&timed(&[])), None);
    assert_eq!(average(&timed(&[1000])), None);
    assert_eq!(average(&timed(&[1000, 2000])), None);
    assert_eq!(average(&timed(&[1000, 2000, 4000])), Some(2000));
}

#[test]
fn session_average_covers_the_whole_list() {
    let solves = timed(&[7000, 1000, 2000, 3000, 4000, 5000, 6000]);
    assert_eq!(average(&solves), Some(4000));
}

#[test]
fn one_dnf_is_the_worst_result() {
    let mut solves = timed(&[1000, 2000, 3000, 4000]);
    solves.push(solve(9, 500, Penalty::Dnf));
    // The unfinished solve and the 1000 are set aside.
    assert_eq!(last_average(&solves, 5), Some(3000));
    assert_eq!(average(&solves), Some(3000));
}

#[test]
fn two_dnfs_leave_no_average() {
    let mut solves = timed(&[1000, 2000, 3000]);
    solves.push(solve(8, 500, Penalty::Dnf));
    solves.push(solve(9, 500, Penalty::Dnf));
    assert_eq!(last_average(&solves, 5), None);
    assert_eq!(average(&solves), None);
    assert_eq!(best_average(&solves, 5), None);
}

#[test]
fn plus_two_counts_in_averages() {
    let mut solves = timed(&[1000, 2000, 9000]);
    solves.push(solve(7, 2000, Penalty::PlusTwo));
    solves.push(solve(8, 3000, Penalty::NoPenalty));
    // Results 1000, 2000, 9000, 4000, 3000: the middle three are 2000, 3000, 4000.
    assert_eq!(last_average(&solves, 5), Some(3000));
}

#[test]
fn best_single_is_the_lowest_finished_result() {
    assert_eq!(best(&timed(&[])), None);
    assert_eq!(best(&timed(&[3000, 1500, 2000])), Some(1500));
    let mut solves = vec![solve(1, 100, Penalty::Dnf), solve(2, 900, Penalty::PlusTwo)];
    assert_eq!(best(&solves), Some(2900));
    solves.push(solve(3, 2899, Penalty::NoPenalty));
    assert_eq!(best(&solves), Some(2899));
    assert_eq!(best(&vec![solve(1, 100, Penalty::Dnf)]), None);
}

#[test]
fn last_average_looks_at_the_tail_only() {
    let solves = timed(&[100, 100, 100, 1000, 5000, 2000, 4000, 3000]);
    assert_eq!(last_average(&solves, 5), Some(3000));
    assert_eq!(last_average(&solves, 12), None);
    assert_eq!(last_average(&solves, 8), Some(1700));
}

#[test]
fn best_average_is_the_lowest_window() {
    // Windows of five: [5000,5000,5000,1000,1000] -> 3667, then 2333, then 1000, then 1000, then 2333.
    let solves = timed(&[5000, 5000, 5000, 1000, 1000, 1000, 1000, 1000, 5000, 5000]);
    assert_eq!(best_average(&solves, 5), Some(1000));
    assert_eq!(last_average(&solves, 5), Some(2333));
    let rising = timed(&[1000, 2000, 3000, 4000, 5000, 6000]);
    assert_eq!(best_average(&rising, 5), Some(3000));
    assert_eq!(last_average(&rising, 5), Some(4000));
}

#[test]
fn best_average_skips_windows_without_a_mean() {
    let mut solves = vec![solve(0, 1, Penalty::Dnf), solve(1, 1, Penalty::Dnf)];
    solves.extend(timed(&[3000, 3000, 3000, 3000]).into_iter().map(|mut s| {
        s.id += 10;
        s
    }));
    // The first window holds two unfinished solves; the second holds one.
    assert_eq!(best_average(&solves, 5), Some(3000));
    assert_eq!(last_average(&solves, 5), Some(3000));
}

#[test]
fn average_of_twelve() {
    let solves = timed(&[
        12_000, 1000, 2000, 3000, 4000, 5000, 6000, 7000, 8000, 9000, 10_000, 11_000,
    ]);
    assert_eq!(last_average(&solves, 12), Some(6500));
    assert_eq!(best_average(&solves, 12), Some(6500));
    assert_eq!(last_average(&solves[..11].to_vec(), 12), None);
}

#[test]
fn windows_shorter_than_three_have_no_mean() {
    let solves = timed(&[1000, 2000, 3000]);
    assert_eq!(last_average(&solves, 0), None);
    assert_eq!(last_average(&solves, 2), None);
    assert_eq!(best_average(&solves, 2), None);
    assert_eq!(average_of_range(&solves, 1, 1), None);
    assert_eq!(average_of_range(&solves, 0, 3), Some(2000));
}

#[test]
fn large_results_do_not_overflow() {
    let solves = timed(&[u32::MAX, u32::MAX, u32::MAX, u32::MAX, u32::MAX]);
    assert_eq!(average(&solves), Some(u32::MAX));
    assert_eq!(last_average(&solves, 5), Some(u32::MAX));
    assert_eq!(best(&solves), Some(u32::MAX));
}
