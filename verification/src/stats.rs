//! Session statistics: the best single result and the trimmed means that
//! competitions call averages.
//!
//! Everything here is stated over a sequence of results, one per solve in
//! the order of the session, where a solve that was not finished has no
//! result.

use vstd::prelude::*;
use crate::solve::Solve;

verus! {

/// The fewest solves of which a trimmed mean is taken: one to drop at each
/// end and one to keep.
pub const MIN_AVERAGE_LEN: usize = 3;

/// The results of `solves`, in order.
pub open spec fn final_times(solves: Seq<Solve>) -> Seq<Option<u32>> {
    solves.map_values(|s: Solve| s@.final_time())
}

/// How many of `times` are unfinished.
pub open spec fn dnf_count(times: Seq<Option<u32>>) -> nat
    decreases times.len(),
{
    if times.len() == 0 {
        0
    } else {
        dnf_count(times.drop_last()) + if times.last() is None {
            1nat
        } else {
            0nat
        }
    }
}

/// The sum of the finished results of `times`.
pub open spec fn total(times: Seq<Option<u32>>) -> nat
    decreases times.len(),
{
    if times.len() == 0 {
        0
    } else {
        total(times.drop_last()) + match times.last() {
            Some(t) => t as nat,
            None => 0,
        }
    }
}

/// The lower of two results, where an absent one never wins.
pub open spec fn lower(a: Option<u32>, b: Option<u32>) -> Option<u32> {
    match (a, b) {
        (Some(x), Some(y)) => if y < x {
            b
        } else {
            a
        },
        (None, _) => b,
        (_, None) => a,
    }
}

/// The higher of two results, where an absent one never wins.
pub open spec fn higher(a: Option<u32>, b: Option<u32>) -> Option<u32> {
    match (a, b) {
        (Some(x), Some(y)) => if y > x {
            b
        } else {
            a
        },
        (None, _) => b,
        (_, None) => a,
    }
}

/// The lowest finished result of `times`, none where nothing was finished.
pub open spec fn fastest(times: Seq<Option<u32>>) -> Option<u32>
    decreases times.len(),
{
    if times.len() == 0 {
        None
    } else {
        lower(fastest(times.drop_last()), times.last())
    }
}

/// The highest finished result of `times`, none where nothing was finished.
pub open spec fn slowest(times: Seq<Option<u32>>) -> Option<u32>
    decreases times.len(),
{
    if times.len() == 0 {
        None
    } else {
        higher(slowest(times.drop_last()), times.last())
    }
}

/// The quotient of `sum` by `count`, rounded to the nearest integer, a half
/// going up.
pub open spec fn rounded_mean(sum: nat, count: nat) -> nat
    recommends
        count > 0,
{
    (sum + count / 2) / count
}

/// The sum that is left of `times` once the best and the worst result are
/// set aside. An unfinished solve is the worst there is; among finished
/// ones the highest is.
pub open spec fn kept_total(times: Seq<Option<u32>>) -> int {
    if dnf_count(times) == 0 {
        total(times) - fastest(times).unwrap() - slowest(times).unwrap()
    } else {
        total(times) - fastest(times).unwrap()
    }
}

/// The trimmed mean of `times`: the best and the worst result are set
/// aside and the rest is averaged, rounded to the nearest millisecond.
/// There is none of fewer than three results, nor where more than one
/// solve was not finished.
pub open spec fn trimmed_mean(times: Seq<Option<u32>>) -> Option<u32> {
    if times.len() < MIN_AVERAGE_LEN || dnf_count(times) > 1 {
        None
    } else {
        Some(rounded_mean(kept_total(times) as nat, (times.len() - 2) as nat) as u32)
    }
}

/// The trimmed mean of the `n` results that start at `start`.
pub open spec fn window_mean(times: Seq<Option<u32>>, start: int, n: nat) -> Option<u32>
    recommends
        0 <= start,
        start + n <= times.len(),
{
    trimmed_mean(times.subrange(start, start + n))
}

/// The trimmed mean of the last `n` results; none where there are fewer
/// than `n`.
pub open spec fn last_window_mean(times: Seq<Option<u32>>, n: nat) -> Option<u32> {
    if times.len() < n {
        None
    } else {
        window_mean(times, times.len() - n, n)
    }
}

/// The lowest trimmed mean among the first `k` windows of `n` results.
pub open spec fn best_mean_of_first(times: Seq<Option<u32>>, n: nat, k: nat) -> Option<u32>
    decreases k,
{
    if k == 0 {
        None
    } else {
        lower(best_mean_of_first(times, n, (k - 1) as nat), window_mean(times, k - 1, n))
    }
}

/// The lowest trimmed mean among all windows of `n` consecutive results;
/// none where no window has one.
pub open spec fn best_window_mean(times: Seq<Option<u32>>, n: nat) -> Option<u32> {
    if times.len() < n {
        None
    } else {
        best_mean_of_first(times, n, (times.len() - n + 1) as nat)
    }
}

/// What appending one result does to the count, the sum and the extremes.
pub proof fn lemma_push(times: Seq<Option<u32>>, t: Option<u32>)
    ensures
        dnf_count(times.push(t)) == dnf_count(times) + if t is None {
            1nat
        } else {
            0nat
        },
        total(times.push(t)) == total(times) + match t {
            Some(v) => v as nat,
            None => 0,
        },
        fastest(times.push(t)) == lower(fastest(times), t),
        slowest(times.push(t)) == higher(slowest(times), t),
{
    assert(times.push(t).drop_last() =~= times);
}

/// Where every solve was finished, none counts as unfinished.
pub proof fn lemma_all_finished(times: Seq<Option<u32>>)
    requires
        forall|i: int| 0 <= i < times.len() ==> #[trigger] times[i] is Some,
    ensures
        dnf_count(times) == 0,
    decreases times.len(),
{
    if times.len() > 0 {
        let init = times.drop_last();
        assert forall|i: int| 0 <= i < init.len() implies #[trigger] init[i] is Some by {
            assert(init[i] == times[i]);
        }
        lemma_all_finished(init);
    }
}

/// Taking one result out lowers the count of unfinished solves by one
/// where that solve was not finished, and leaves it otherwise.
pub proof fn lemma_dnf_count_remove(times: Seq<Option<u32>>, j: int)
    requires
        0 <= j < times.len(),
    ensures
        dnf_count(times) == dnf_count(times.remove(j)) + if times[j] is None {
            1nat
        } else {
            0nat
        },
    decreases times.len(),
{
    if j == times.len() - 1 {
        assert(times.remove(j) =~= times.drop_last());
    } else {
        let init = times.drop_last();
        lemma_dnf_count_remove(init, j);
        assert(times.remove(j).drop_last() =~= init.remove(j));
        assert(times.remove(j).last() == times.last());
    }
}

/// How many solves were not finished does not depend on the order of the
/// results.
pub proof fn lemma_dnf_count_by_multiset(a: Seq<Option<u32>>, b: Seq<Option<u32>>)
    requires
        a.to_multiset() == b.to_multiset(),
    ensures
        dnf_count(a) == dnf_count(b),
    decreases a.len(),
{
    a.to_multiset_ensures();
    b.to_multiset_ensures();
    if a.len() > 0 {
        let x = a.last();
        assert(a.contains(x));
        assert(b.to_multiset().count(x) > 0);
        let j = choose|j: int| 0 <= j < b.len() && b[j] == x;
        let a0 = a.drop_last();
        let b0 = b.remove(j);
        assert(a.remove(a.len() - 1) =~= a0);
        vstd::seq_lib::to_multiset_remove(a, a.len() - 1);
        vstd::seq_lib::to_multiset_remove(b, j);
        lemma_dnf_count_by_multiset(a0, b0);
        lemma_dnf_count_remove(b, j);
    } else {
        assert(b.len() == 0);
    }
}

/// How the sum of the finished results lies between the extremes. With
/// `f` finished results: there is a fastest and a slowest one exactly when
/// `f > 0`; the sum is at least each of them and at most the fastest plus
/// `f - 1` times the slowest; and with two or more it is at least the
/// fastest plus the slowest.
pub proof fn lemma_total_bounds(times: Seq<Option<u32>>)
    ensures
        dnf_count(times) <= times.len(),
        fastest(times) is Some <==> dnf_count(times) < times.len(),
        slowest(times) is Some <==> dnf_count(times) < times.len(),
        dnf_count(times) == times.len() ==> total(times) == 0,
        fastest(times) is Some ==> {
            let f = times.len() - dnf_count(times);
            let lo = fastest(times).unwrap();
            let hi = slowest(times).unwrap();
            &&& lo <= hi
            &&& hi <= total(times)
            &&& lo <= total(times) <= lo + (f - 1) * hi
            &&& f >= 2 ==> lo + hi <= total(times)
        },
    decreases times.len(),
{
    if times.len() > 0 {
        let init = times.drop_last();
        lemma_total_bounds(init);
        if times.last() is Some {
            let f = init.len() - dnf_count(init);
            let hi = slowest(times).unwrap() as int;
            if fastest(init) is Some {
                let hi0 = slowest(init).unwrap() as int;
                assert((f - 1) * hi0 <= (f - 1) * hi) by (nonlinear_arith)
                    requires
                        f >= 1,
                        0 <= hi0 <= hi,
                ;
                assert(f * hi == (f - 1) * hi + hi) by (nonlinear_arith);
                assert(f == 1 ==> (f - 1) * hi0 == 0) by (nonlinear_arith);
            } else {
                assert(f == 0);
                assert((f + 1 - 1) * hi == 0) by (nonlinear_arith)
                    requires
                        f == 0,
                ;
            }
        }
    }
}

/// The trimmed mean is a result: where it exists it lies between the
/// fastest and the slowest finished result, so it fits the type of one.
pub proof fn lemma_mean_in_range(times: Seq<Option<u32>>)
    requires
        times.len() >= MIN_AVERAGE_LEN,
        dnf_count(times) <= 1,
    ensures
        fastest(times) is Some,
        slowest(times) is Some,
        0 <= kept_total(times),
        rounded_mean(kept_total(times) as nat, (times.len() - 2) as nat) <= slowest(times).unwrap(),
        trimmed_mean(times) == Some(
            rounded_mean(kept_total(times) as nat, (times.len() - 2) as nat) as u32,
        ),
{
    lemma_total_bounds(times);
    let count = times.len() - 2;
    let kept = kept_total(times);
    let hi = slowest(times).unwrap() as int;
    let f = times.len() - dnf_count(times);
    assert(kept <= count * hi) by {
        if dnf_count(times) == 0 {
            assert((f - 1) * hi == count * hi + hi) by (nonlinear_arith)
                requires
                    f - 1 == count + 1,
            ;
        }
    }
    assert((kept + count / 2) / count <= hi) by (nonlinear_arith)
        requires
            0 <= kept <= count * hi,
            count > 0,
    ;
}

/// The fastest result is one of the results, and no finished result is
/// lower.
pub proof fn lemma_fastest_is_least(times: Seq<Option<u32>>)
    ensures
        match fastest(times) {
            Some(m) => times.contains(Some(m)) && forall|i: int|
                0 <= i < times.len() && times[i] is Some ==> m <= (#[trigger] times[i]).unwrap(),
            None => forall|i: int| 0 <= i < times.len() ==> #[trigger] times[i] is None,
        },
    decreases times.len(),
{
    if times.len() > 0 {
        let init = times.drop_last();
        lemma_fastest_is_least(init);
        let last = times.len() - 1;
        assert(forall|i: int| 0 <= i < init.len() ==> init[i] == times[i]);
        match fastest(times) {
            Some(m) => {
                if fastest(init) == Some(m) {
                    let j = choose|j: int| 0 <= j < init.len() && init[j] == Some(m);
                    assert(times[j] == Some(m));
                } else {
                    assert(times[last] == Some(m));
                }
                assert forall|i: int| 0 <= i < times.len() && times[i] is Some implies m <= (
                #[trigger] times[i]).unwrap() by {
                    if i < last {
                        assert(init[i] == times[i]);
                    }
                }
            },
            None => {
                assert forall|i: int| 0 <= i < times.len() implies #[trigger] times[i] is None by {
                    if i < last {
                        assert(init[i] == times[i]);
                    }
                }
            },
        }
    }
}

/// The best window mean is the mean of one of the windows, and no window
/// has a lower one; there is none exactly where no window has a mean.
pub proof fn lemma_best_mean_is_least(times: Seq<Option<u32>>, n: nat, k: nat)
    ensures
        match best_mean_of_first(times, n, k) {
            Some(m) => (exists|i: int| 0 <= i < k && #[trigger] window_mean(times, i, n) == Some(m))
                && forall|i: int|
                0 <= i < k && window_mean(times, i, n) is Some ==> m <= (#[trigger] window_mean(
                    times,
                    i,
                    n,
                )).unwrap(),
            None => forall|i: int| 0 <= i < k ==> #[trigger] window_mean(times, i, n) is None,
        },
    decreases k,
{
    if k > 0 {
        lemma_best_mean_is_least(times, n, (k - 1) as nat);
        match best_mean_of_first(times, n, k) {
            Some(m) => {
                if best_mean_of_first(times, n, (k - 1) as nat) == Some(m) {
                    let j = choose|j: int|
                        0 <= j < k - 1 && #[trigger] window_mean(times, j, n) == Some(m);
                    assert(0 <= j < k && window_mean(times, j, n) == Some(m));
                } else {
                    assert(window_mean(times, k - 1, n) == Some(m));
                }
            },
            None => {},
        }
    }
}

/// The trimmed mean of the solves of `solves` from `start` up to `end`.
pub fn average_of_range(solves: &Vec<Solve>, start: usize, end: usize) -> (r: Option<u32>)
    requires
        start <= end <= solves@.len(),
    ensures
        r == trimmed_mean(final_times(solves@).subrange(start as int, end as int)),
{
    let ghost window = final_times(solves@).subrange(start as int, end as int);
    let mut sum: u128 = 0;
    let mut dnfs: usize = 0;
    let mut lo: Option<u32> = None;
    let mut hi: Option<u32> = None;
    let mut i: usize = start;
    while i < end
        invariant
            start <= i <= end <= solves@.len(),
            window == final_times(solves@).subrange(start as int, end as int),
            sum == total(window.take(i - start)),
            dnfs == dnf_count(window.take(i - start)),
            lo == fastest(window.take(i - start)),
            hi == slowest(window.take(i - start)),
            dnfs <= i - start,
            sum <= (i - start) * 0xFFFF_FFFF,
        decreases end - i,
    {
        let t: Option<u32> = solves[i].final_time();
        proof {
            lemma_push(window.take(i - start), t);
            assert(window.take(i - start).push(t) =~= window.take(i - start + 1));
        }
        match t {
            Some(v) => {
                sum = sum + v as u128;
                lo = match lo {
                    Some(x) => if v < x {
                        Some(v)
                    } else {
                        Some(x)
                    },
                    None => Some(v),
                };
                hi = match hi {
                    Some(x) => if v > x {
                        Some(v)
                    } else {
                        Some(x)
                    },
                    None => Some(v),
                };
            },
            None => {
                dnfs = dnfs + 1;
            },
        }
        i = i + 1;
    }
    proof {
        assert(window.take(end - start) =~= window);
    }
    let len: usize = end - start;
    if len < MIN_AVERAGE_LEN || dnfs > 1 {
        None
    } else {
        proof {
            lemma_mean_in_range(window);
        }
        let count: u128 = (len - 2) as u128;
        let fast: u128 = lo.unwrap() as u128;
        let slow: u128 = hi.unwrap() as u128;
        let kept: u128 = if dnfs == 0 {
            sum - fast - slow
        } else {
            sum - fast
        };
        let mean: u128 = (kept + count / 2) / count;
        Some(mean as u32)
    }
}

/// The trimmed mean of the whole session; none of fewer than three solves,
/// nor where more than one was not finished.
pub fn average(solves: &Vec<Solve>) -> (r: Option<u32>)
    ensures
        r == trimmed_mean(final_times(solves@)),
{
    proof {
        let times = final_times(solves@);
        assert(times.subrange(0, solves@.len() as int) =~= times);
    }
    average_of_range(solves, 0, solves.len())
}

/// The trimmed mean of the last `n` solves; none where the session has
/// fewer than `n`.
pub fn last_average(solves: &Vec<Solve>, n: usize) -> (r: Option<u32>)
    ensures
        r == last_window_mean(final_times(solves@), n as nat),
{
    if solves.len() < n {
        None
    } else {
        average_of_range(solves, solves.len() - n, solves.len())
    }
}

/// The lowest finished result of the session; none where nothing was
/// finished.
pub fn best(solves: &Vec<Solve>) -> (r: Option<u32>)
    ensures
        r == fastest(final_times(solves@)),
{
    let ghost times = final_times(solves@);
    let mut lo: Option<u32> = None;
    let mut i: usize = 0;
    while i < solves.len()
        invariant
            i <= solves@.len(),
            times == final_times(solves@),
            lo == fastest(times.take(i as int)),
        decreases solves@.len() - i,
    {
        let t: Option<u32> = solves[i].final_time();
        proof {
            lemma_push(times.take(i as int), t);
            assert(times.take(i as int).push(t) =~= times.take(i + 1));
        }
        lo = match (lo, t) {
            (Some(x), Some(v)) => if v < x {
                Some(v)
            } else {
                Some(x)
            },
            (None, _) => t,
            (_, None) => lo,
        };
        i = i + 1;
    }
    proof {
        assert(times.take(solves@.len() as int) =~= times);
    }
    lo
}

/// The lowest trimmed mean among all runs of `n` consecutive solves; none
/// where no run has one.
pub fn best_average(solves: &Vec<Solve>, n: usize) -> (r: Option<u32>)
    ensures
        r == best_window_mean(final_times(solves@), n as nat),
{
    if solves.len() < n {
        return None;
    }
    let ghost times = final_times(solves@);
    let windows: usize = solves.len() - n;
    let mut lo: Option<u32> = None;
    let mut k: usize = 0;
    while k <= windows
        invariant
            k <= windows + 1,
            windows + n == solves.len(),
            times == final_times(solves@),
            lo == best_mean_of_first(times, n as nat, k as nat),
        decreases windows + 1 - k,
    {
        let mean: Option<u32> = average_of_range(solves, k, k + n);
        lo = match (lo, mean) {
            (Some(x), Some(v)) => if v < x {
                Some(v)
            } else {
                Some(x)
            },
            (None, _) => mean,
            (_, None) => lo,
        };
        if k == windows {
            return lo;
        }
        k = k + 1;
    }
    lo
}

} // verus!
