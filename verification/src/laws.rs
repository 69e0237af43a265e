//! What holds of the timer as a whole, proved from the contracts of its
//! parts.

use vstd::prelude::*;
use crate::cache::{in_order, resolved, summary_of, view_times, CacheView};
use crate::history::HistoryView;
use crate::moves::Move;
use crate::pipeline::PipelineView;
use crate::solve::{Solve, SolveView};
use crate::state::{
    completed_millis, next_state, result_millis, TimerState, READY_DELAY_MILLIS,
};
use crate::stats::{
    last_window_mean, lemma_all_finished, lemma_dnf_count_by_multiset, lemma_mean_in_range,
    lemma_push, rounded_mean,
};
use crate::timer::{finished_record, TickInput, TickOutput, TimerView};

verus! {

/// The table of transitions. From idle, an active input starts the hold.
/// From the hold, a release goes back to idle and a hold of more than the
/// delay arms the timer. Armed, a release starts the solve. Solving, an
/// active input ends it, and only that completes a solve. Every other
/// sample leaves the state as it is.
pub proof fn lemma_transition_table(state: TimerState, input_active: bool, now: u64)
    ensures
        match state {
            TimerState::Inactive(last) => next_state(state, input_active, now) == if input_active {
                TimerState::Preparing(now, last)
            } else {
                state
            },
            TimerState::Preparing(start, last) => next_state(state, input_active, now)
                == if !input_active {
                TimerState::Inactive(last)
            } else if now - start > READY_DELAY_MILLIS {
                TimerState::Ready
            } else {
                state
            },
            TimerState::Ready => next_state(state, input_active, now) == if !input_active {
                TimerState::Solving(now)
            } else {
                state
            },
            TimerState::Solving(start) => next_state(state, input_active, now) == if input_active {
                TimerState::Inactive(result_millis(start, now))
            } else {
                state
            },
        },
        completed_millis(state, input_active, now) is Some <==> state is Solving && input_active,
        state is Solving && input_active ==> next_state(state, input_active, now)
            == TimerState::Inactive(completed_millis(state, input_active, now).unwrap()),
{
}

/// The result of a solve is the time between its start and its end, as
/// long as the clock did not run backwards and the solve took no more
/// milliseconds than a result can hold.
pub proof fn lemma_result_is_elapsed(start: u64, now: u64)
    requires
        start <= now,
        now - start <= u32::MAX,
    ensures
        result_millis(start, now) == now - start,
        next_state(TimerState::Solving(start), true, now) == TimerState::Inactive(
            (now - start) as u32,
        ),
        completed_millis(TimerState::Solving(start), true, now) == Some((now - start) as u32),
{
}

/// A release during the hold, however early or late, restores the result
/// that was shown before, and completes no solve.
pub proof fn lemma_early_release_restores(start: u64, previous: u32, now: u64)
    ensures
        next_state(TimerState::Preparing(start, previous), false, now) == TimerState::Inactive(
            previous,
        ),
        completed_millis(TimerState::Preparing(start, previous), false, now) is None,
{
}

/// A tick that aborts the hold writes nothing: the history is as it was
/// and the scramble pipeline was not rotated.
pub proof fn lemma_abort_records_nothing(
    before: TimerView,
    history_before: HistoryView,
    input: TickInput,
    solve_id: u128,
    created: i64,
    made: Option<Seq<Move>>,
    after: TimerView,
    history_after: HistoryView,
    out: TickOutput,
)
    requires
        before.state is Preparing,
        !input.input_active,
        before.ticked(history_before, input, solve_id, created, made, after, history_after, out),
    ensures
        before.state matches TimerState::Preparing(_, previous) && after.state
            == TimerState::Inactive(previous),
        history_after == history_before,
        after.scrambles == before.scrambles.observed(made),
        out.completed is None,
        out.store_error is None,
{
}

/// Only a tick that ends a solve changes the history, and it hands the
/// history exactly one solve, with the elapsed time that the tick reports.
pub proof fn lemma_tick_records_at_most_one(
    before: TimerView,
    history_before: HistoryView,
    input: TickInput,
    solve_id: u128,
    created: i64,
    made: Option<Seq<Move>>,
    after: TimerView,
    history_after: HistoryView,
    out: TickOutput,
)
    requires
        before.ticked(history_before, input, solve_id, created, made, after, history_after, out),
    ensures
        out.completed is None ==> history_after == history_before,
        out.completed is Some && out.store_error is None ==> {
            &&& history_after.solves.dom() == history_before.solves.dom().insert(solve_id)
            &&& !history_before.solves.contains_key(solve_id)
            &&& history_after.solves[solve_id]@.time == out.completed.unwrap()
            &&& after.state == TimerState::Inactive(out.completed.unwrap())
        },
        out.completed is Some && out.store_error is Some ==> history_after == history_before,
{
    if out.completed is Some && out.store_error is None {
        assert(history_after.solves.dom() =~= history_before.solves.dom().insert(solve_id));
    }
}

/// Finishing a solve always leaves the timer idle and showing the elapsed
/// time, whether the history took the solve or refused it.
pub proof fn lemma_finish_always_idles(
    before: TimerView,
    history_before: HistoryView,
    time: u32,
    id: u128,
    created: i64,
    fresh: Option<Seq<Move>>,
    after: TimerView,
    history_after: HistoryView,
)
    requires
        before.finished(history_before, time, id, created, fresh, after, history_after),
    ensures
        after.state == TimerState::Inactive(time),
        !after.scrambles.displayed,
        after.scrambles.next is None,
{
}

/// Solves that share the time of creation and the identifier are the
/// same solve.
pub open spec fn keys_identify(solves: Seq<SolveView>) -> bool {
    forall|i: int, j: int|
        0 <= i < solves.len() && 0 <= j < solves.len() && (#[trigger] solves[i]).created == (
        #[trigger] solves[j]).created && solves[i].id == solves[j].id ==> solves[i] == solves[j]
}

/// There is one way only to put solves in order: two lists in order that
/// hold the same solves, each as often as the other, are the same list.
pub proof fn lemma_order_is_unique(a: Seq<SolveView>, b: Seq<SolveView>)
    requires
        in_order(a),
        in_order(b),
        a.to_multiset() == b.to_multiset(),
        keys_identify(a),
    ensures
        a == b,
    decreases a.len(),
{
    a.to_multiset_ensures();
    b.to_multiset_ensures();
    assert(a.len() == b.len());
    if a.len() == 0 {
        assert(a =~= b);
    } else {
        let last = a.len() - 1;
        let x = a[last];
        let y = b[last];
        assert(a.contains(x));
        assert(b.to_multiset().count(x) > 0);
        assert(b.contains(x));
        let j = choose|j: int| 0 <= j < b.len() && b[j] == x;
        assert(b.contains(y));
        assert(a.to_multiset().count(y) > 0);
        assert(a.contains(y));
        let i = choose|i: int| 0 <= i < a.len() && a[i] == y;
        if j < last {
            assert(!b[last].before(b[j]));
        }
        if i < last {
            assert(!a[last].before(a[i]));
        }
        assert(x.created == y.created && x.id == y.id);
        assert(x == y);
        let a0 = a.drop_last();
        let b0 = b.drop_last();
        assert(a =~= a0.push(x));
        assert(b =~= b0.push(x));
        vstd::seq_lib::to_multiset_build(a0, x);
        vstd::seq_lib::to_multiset_build(b0, x);
        assert(a0.to_multiset() =~= b0.to_multiset()) by {
            assert forall|v: SolveView| a0.to_multiset().count(v) == b0.to_multiset().count(v) by {
                assert(a0.to_multiset().insert(x).count(v) == b0.to_multiset().insert(x).count(v));
            }
        }
        assert(in_order(a0)) by {
            assert forall|i: int, j: int| 0 <= i < j < a0.len() implies !(#[trigger] a0[j]).before(
                #[trigger] a0[i],
            ) by {
                assert(a0[i] == a[i] && a0[j] == a[j]);
            }
        }
        assert(in_order(b0)) by {
            assert forall|i: int, j: int| 0 <= i < j < b0.len() implies !(#[trigger] b0[j]).before(
                #[trigger] b0[i],
            ) by {
                assert(b0[i] == b[i] && b0[j] == b[j]);
            }
        }
        assert(keys_identify(a0)) by {
            assert forall|i: int, j: int|
                0 <= i < a0.len() && 0 <= j < a0.len() && (#[trigger] a0[i]).created == (
                #[trigger] a0[j]).created && a0[i].id == a0[j].id implies a0[i] == a0[j] by {
                assert(a0[i] == a[i] && a0[j] == a[j]);
            }
        }
        lemma_order_is_unique(a0, b0);
    }
}

/// In a well-formed history the solves that a list of identifiers names
/// are told apart by their identifiers.
pub proof fn lemma_resolved_keys_identify(history: HistoryView, ids: Seq<u128>, listed: Seq<SolveView>)
    requires
        history.wf(),
        listed.to_multiset() == resolved(history, ids).to_multiset(),
    ensures
        keys_identify(listed),
        forall|i: int|
            0 <= i < listed.len() ==> history.solves.contains_key((#[trigger] listed[i]).id)
                && history.solves[listed[i].id]@ == listed[i],
{
    let pick = |id: u128|
        if history.solves.contains_key(id) {
            Some(history.solves[id]@)
        } else {
            None
        };
    let all = resolved(history, ids);
    listed.to_multiset_ensures();
    all.to_multiset_ensures();
    assert forall|i: int| 0 <= i < listed.len() implies history.solves.contains_key(
        (#[trigger] listed[i]).id,
    ) && history.solves[listed[i].id]@ == listed[i] by {
        let v = listed[i];
        assert(listed.contains(v));
        assert(all.to_multiset().count(v) > 0);
        assert(all.contains(v));
        ids.lemma_filter_map_contains(pick, v);
        let t = choose|t: u128| #[trigger] ids.contains(t) && pick(t) == Some(v);
        assert(history.solves.contains_key(t));
        assert(history.solves[t].id == t);
    }
}

/// A well-formed history has one fresh summary only.
pub proof fn lemma_summary_is_unique(history: HistoryView, a: CacheView, b: CacheView)
    requires
        history.wf(),
        a.summarizes(history),
        b.summarizes(history),
    ensures
        a == b,
{
    match history.live_session() {
        Some(session) => {
            lemma_resolved_keys_identify(history, session.solves@, a.solves);
            lemma_order_is_unique(a.solves, b.solves);
        },
        None => {},
    }
}

/// What a refresh against a well-formed history gives depends on the
/// cache and the history alone.
pub proof fn lemma_refresh_is_determined(
    cache: CacheView,
    history: HistoryView,
    a: CacheView,
    b: CacheView,
)
    requires
        history.wf(),
        cache.refreshed(history, a),
        cache.refreshed(history, b),
    ensures
        a == b,
{
    if history.live_session() is Some && cache.made_from(
        history.live_session().unwrap().update_id,
    ) {
    } else {
        lemma_summary_is_unique(history, a, b);
    }
}

/// Refreshing twice against the same history changes nothing the second
/// time.
pub proof fn lemma_refresh_is_idempotent(
    cache: CacheView,
    history: HistoryView,
    once: CacheView,
    twice: CacheView,
)
    requires
        cache.refreshed(history, once),
        once.refreshed(history, twice),
    ensures
        twice == once,
{
}

/// Recording a solve in the session in use gives that session a token
/// that no session carried before, so a cache that was up to date before
/// is rebuilt by the next refresh, and then holds the new solve.
pub proof fn lemma_append_invalidates(
    before: HistoryView,
    solve: Solve,
    after: HistoryView,
    stale: CacheView,
    cache: CacheView,
    rebuilt: CacheView,
)
    requires
        before.wf(),
        stale.refreshed(before, cache),
        before.appended(solve, after),
        solve.session == before.current_session,
        cache.refreshed(after, rebuilt),
    ensures
        after.live_session() is Some,
        forall|id: u128| #[trigger]
            before.sessions.contains_key(id) ==> before.sessions[id].update_id
                != after.live_session().unwrap().update_id,
        !cache.made_from(after.live_session().unwrap().update_id),
        rebuilt.summarizes(after),
        rebuilt.solves.contains(solve@),
{
    let sid = solve.session;
    assert(after.sessions.dom().contains(sid));
    assert(after.sessions.contains_key(sid));
    let session = after.live_session().unwrap();
    let ids = before.session_ids(sid);
    let pick = |id: u128|
        if after.solves.contains_key(id) {
            Some(after.solves[id]@)
        } else {
            None
        };
    assert(session.solves@.drop_last() =~= ids);
    assert(session.solves@.last() == solve.id);
    assert(pick(solve.id) == Some(solve@));
    let listed = resolved(after, session.solves@);
    assert(listed == ids.filter_map(pick) + seq![solve@]);
    assert(listed[listed.len() - 1] == solve@);
    assert(listed.contains(solve@));
    listed.to_multiset_ensures();
    rebuilt.solves.to_multiset_ensures();
    assert(listed.to_multiset().count(solve@) > 0);
    assert(rebuilt.solves.to_multiset().count(solve@) > 0);
}

/// A tick that ends a solve whose identifier is new, while tokens are
/// left, records exactly that solve: the timer is idle and shows the time
/// between the start and the sample, and the history holds one solve more,
/// with that time, without penalty, in the session in use, on the scramble
/// that was in use.
pub proof fn lemma_tick_records_the_solve(
    before: TimerView,
    history_before: HistoryView,
    input: TickInput,
    solve_id: u128,
    created: i64,
    made: Option<Seq<Move>>,
    after: TimerView,
    history_after: HistoryView,
    out: TickOutput,
    start: u64,
)
    requires
        before.state == TimerState::Solving(start),
        input.input_active,
        start <= input.now,
        input.now - start <= u32::MAX,
        !history_before.solves.contains_key(solve_id),
        history_before.next_update_id < u64::MAX,
        before.ticked(history_before, input, solve_id, created, made, after, history_after, out),
    ensures
        after.state == TimerState::Inactive((input.now - start) as u32),
        out.completed == Some((input.now - start) as u32),
        out.store_error is None,
        history_after.solves.dom() == history_before.solves.dom().insert(solve_id),
        forall|id: u128| #[trigger]
            history_before.solves.contains_key(id) ==> history_after.solves[id]
                == history_before.solves[id],
        history_after.solves[solve_id]@ == finished_record(
            solve_id,
            history_before.current_session,
            before.scrambles.current,
            created,
            (input.now - start) as u32,
        ),
        history_after.current_session == history_before.current_session,
        history_after.session_ids(history_before.current_session) == history_before.session_ids(
            history_before.current_session,
        ).push(solve_id),
{
    assert(history_after.solves.dom() =~= history_before.solves.dom().insert(solve_id));
    assert(history_after.sessions.contains_key(history_before.current_session)) by {
        assert(history_after.sessions.dom().contains(history_before.current_session));
    }
}

/// Finishing a solve whose identifier is new, while tokens are left, gives
/// the session in use a token that it did not carry before, and adds the
/// solve at the end of its list: afterwards the session has an entry, with
/// the identifiers it listed before followed by the new one.
pub proof fn lemma_finish_renews_the_token(
    before: TimerView,
    history_before: HistoryView,
    time: u32,
    id: u128,
    created: i64,
    fresh: Option<Seq<Move>>,
    after: TimerView,
    history_after: HistoryView,
)
    requires
        history_before.wf(),
        !history_before.solves.contains_key(id),
        history_before.next_update_id < u64::MAX,
        before.finished(history_before, time, id, created, fresh, after, history_after),
    ensures
        history_after.current_session == history_before.current_session,
        history_after.live_session() is Some,
        history_before.live_session() matches Some(session) ==> session.update_id
            != history_after.live_session().unwrap().update_id,
        history_after.live_session().unwrap().solves@ == history_before.session_ids(
            history_before.current_session,
        ).push(id),
        history_after.solves[id]@.time == time,
{
    assert(history_after.sessions.contains_key(history_before.current_session)) by {
        assert(history_after.sessions.dom().contains(history_before.current_session));
    }
}

/// Lists of identifiers name the same solves in two histories that keep
/// the same solve, or none, under each identifier listed.
pub proof fn lemma_resolved_alike(first: HistoryView, second: HistoryView, ids: Seq<u128>)
    requires
        forall|i: int|
            0 <= i < ids.len() ==> (first.solves.contains_key(#[trigger] ids[i])
                <==> second.solves.contains_key(ids[i])) && (first.solves.contains_key(ids[i])
                ==> first.solves[ids[i]] == second.solves[ids[i]]),
    ensures
        resolved(first, ids) == resolved(second, ids),
    decreases ids.len(),
{
    if ids.len() > 0 {
        let init = ids.drop_last();
        assert forall|i: int| 0 <= i < init.len() implies (first.solves.contains_key(
            #[trigger] init[i],
        ) <==> second.solves.contains_key(init[i])) && (first.solves.contains_key(init[i])
            ==> first.solves[init[i]] == second.solves[init[i]]) by {
            assert(init[i] == ids[i]);
        }
        lemma_resolved_alike(first, second, init);
        assert(ids.last() == ids[ids.len() - 1]);
    }
}

/// A cache that is a fresh summary of the session in use grows by exactly
/// the new solve when a solve with a new identifier is recorded in that
/// session and the cache is refreshed.
pub proof fn lemma_append_grows_the_cache(
    before: HistoryView,
    solve: Solve,
    after: HistoryView,
    cache: CacheView,
    rebuilt: CacheView,
)
    requires
        before.wf(),
        cache.summarizes(before),
        !before.solves.contains_key(solve.id),
        !before.session_ids(solve.session).contains(solve.id),
        before.appended(solve, after),
        solve.session == before.current_session,
        cache.refreshed(after, rebuilt),
    ensures
        rebuilt.summarizes(after),
        rebuilt.solves.to_multiset() == cache.solves.to_multiset().insert(solve@),
        rebuilt.solves.len() == cache.solves.len() + 1,
        rebuilt.solves.contains(solve@),
{
    let sid = solve.session;
    let ids = before.session_ids(sid);
    assert(after.sessions.contains_key(sid)) by {
        assert(after.sessions.dom().contains(sid));
    }
    let session = after.live_session().unwrap();
    let pick = |id: u128|
        if after.solves.contains_key(id) {
            Some(after.solves[id]@)
        } else {
            None
        };
    assert(session.solves@.drop_last() =~= ids);
    assert(session.solves@.last() == solve.id);
    assert(pick(solve.id) == Some(solve@));
    let listed = resolved(after, session.solves@);
    assert(listed == ids.filter_map(pick) + seq![solve@]);
    assert forall|i: int| 0 <= i < ids.len() implies (before.solves.contains_key(#[trigger] ids[i])
        <==> after.solves.contains_key(ids[i])) && (before.solves.contains_key(ids[i])
        ==> before.solves[ids[i]] == after.solves[ids[i]]) by {
        assert(ids.contains(ids[i]));
    }
    lemma_resolved_alike(before, after, ids);
    let kept = resolved(before, ids);
    assert(listed =~= kept.push(solve@));
    vstd::seq_lib::to_multiset_build(kept, solve@);
    assert(cache.solves.to_multiset() == kept.to_multiset()) by {
        if before.live_session() is None {
            assert(ids =~= Seq::<u128>::empty());
            assert(cache.solves =~= kept);
        }
    }
    rebuilt.solves.to_multiset_ensures();
    cache.solves.to_multiset_ensures();
    assert(cache.solves.to_multiset().insert(solve@).len() == cache.solves.len() + 1) by {
        broadcast use vstd::multiset::group_multiset_axioms;

    }
    assert(rebuilt.solves.to_multiset().count(solve@) > 0) by {
        broadcast use vstd::multiset::group_multiset_axioms;

    }
}

/// A session of four finished solves has no average of five. Once a
/// fifth solve with a new identifier is recorded in it and the cache is
/// refreshed, the cache holds five solves, the new one among them, and has
/// an average of five.
pub proof fn lemma_fifth_solve_gives_an_average(
    before: HistoryView,
    solve: Solve,
    after: HistoryView,
    cache: CacheView,
    rebuilt: CacheView,
)
    requires
        before.wf(),
        cache.summarizes(before),
        cache.solves.len() == 4,
        forall|i: int| 0 <= i < 4 ==> (#[trigger] cache.solves[i]).final_time() is Some,
        !before.solves.contains_key(solve.id),
        !before.session_ids(solve.session).contains(solve.id),
        before.appended(solve, after),
        solve.session == before.current_session,
        cache.refreshed(after, rebuilt),
    ensures
        cache.last_ao5 is None,
        rebuilt.solves.len() == 5,
        rebuilt.solves.contains(solve@),
        rebuilt.last_ao5 is Some,
{
    lemma_append_grows_the_cache(before, solve, after, cache, rebuilt);
    let old_times = view_times(cache.solves);
    let new_times = view_times(rebuilt.solves);
    let grown = cache.solves.push(solve@);
    vstd::seq_lib::to_multiset_build(cache.solves, solve@);
    lemma_views_by_multiset(rebuilt.solves, grown);
    lemma_dnf_count_by_multiset(new_times, view_times(grown));
    assert(view_times(grown) =~= old_times.push(solve@.final_time()));
    lemma_push(old_times, solve@.final_time());
    lemma_all_finished(old_times);
    assert(new_times.subrange(0, 5) =~= new_times);
    lemma_mean_in_range(new_times);
}

/// Lists that hold the same solves, each as often as the other, hold the
/// same results, each as often as the other.
pub proof fn lemma_views_by_multiset(a: Seq<SolveView>, b: Seq<SolveView>)
    requires
        a.to_multiset() == b.to_multiset(),
    ensures
        view_times(a).to_multiset() == view_times(b).to_multiset(),
    decreases a.len(),
{
    a.to_multiset_ensures();
    b.to_multiset_ensures();
    if a.len() > 0 {
        let x = a.last();
        assert(a.contains(x));
        assert(b.to_multiset().count(x) > 0);
        let j = choose|j: int| 0 <= j < b.len() && b[j] == x;
        let a0 = a.drop_last();
        let b0 = b.remove(j);
        assert(a.remove(a.len() - 1) =~= a0);
        vstd::seq_lib::to_multiset_remove(a, a.len() - 1);
        vstd::seq_lib::to_multiset_remove(b, j);
        lemma_views_by_multiset(a0, b0);
        assert(view_times(a) =~= view_times(a0).push(x.final_time()));
        vstd::seq_lib::to_multiset_build(view_times(a0), x.final_time());
        assert(view_times(b0) =~= view_times(b).remove(j));
        vstd::seq_lib::to_multiset_remove(view_times(b), j);
        assert(view_times(b).to_multiset() =~= view_times(b0).to_multiset().insert(
            x.final_time(),
        )) by {
            broadcast use vstd::multiset::group_multiset_axioms;

            view_times(b).to_multiset_ensures();
            assert(view_times(b).contains(view_times(b)[j]));
        }
    } else {
        assert(b.len() == 0);
        assert(view_times(a) =~= view_times(b));
    }
}

/// Starting a new session leaves the session in use without solves, so the
/// next refresh resets the cache to the empty one.
pub proof fn lemma_new_session_invalidates(
    before: HistoryView,
    id: u128,
    cache: CacheView,
    rebuilt: CacheView,
)
    requires
        before.switch_outcome(id) is Ok,
        cache.refreshed(HistoryView { current_session: id, ..before }, rebuilt),
    ensures
        (HistoryView { current_session: id, ..before }).live_session() is None,
        rebuilt == summary_of(None, Seq::empty()),
{
}

/// Once the scramble in use has been shown and no spare is ready, the
/// scramble handed over with the next frame becomes the spare, and the
/// rotation after that puts it in use, leaves no spare and marks it as not
/// yet shown.
pub proof fn lemma_prefetched_scramble_is_next(pipeline: PipelineView, made: Seq<Move>)
    requires
        pipeline.next is None,
    ensures
        pipeline.shown().observed(Some(made)).next == Some(made),
        pipeline.shown().observed(Some(made)).rotated(None) == (PipelineView {
            current: made,
            displayed: false,
            next: None,
        }),
{
}

/// The lowest of five results.
pub open spec fn least_of_five(a: u32, b: u32, c: u32, d: u32, e: u32) -> u32 {
    if a <= b && a <= c && a <= d && a <= e {
        a
    } else if b <= c && b <= d && b <= e {
        b
    } else if c <= d && c <= e {
        c
    } else if d <= e {
        d
    } else {
        e
    }
}

/// The highest of five results.
pub open spec fn greatest_of_five(a: u32, b: u32, c: u32, d: u32, e: u32) -> u32 {
    if a >= b && a >= c && a >= d && a >= e {
        a
    } else if b >= c && b >= d && b >= e {
        b
    } else if c >= d && c >= e {
        c
    } else if d >= e {
        d
    } else {
        e
    }
}

/// Four solves have no average of five. Five finished solves have one: the
/// mean of the three results that are left when the lowest and the highest
/// are set aside.
pub proof fn lemma_average_of_five_boundary(
    four: Seq<Option<u32>>,
    a: u32,
    b: u32,
    c: u32,
    d: u32,
    e: u32,
)
    requires
        four.len() == 4,
    ensures
        last_window_mean(four, 5) is None,
        last_window_mean(seq![Some(a), Some(b), Some(c), Some(d), Some(e)], 5) == Some(
            rounded_mean(
                (a + b + c + d + e - least_of_five(a, b, c, d, e) - greatest_of_five(
                    a,
                    b,
                    c,
                    d,
                    e,
                )) as nat,
                3,
            ) as u32,
        ),
{
    let s0 = Seq::<Option<u32>>::empty();
    let s1 = s0.push(Some(a));
    let s2 = s1.push(Some(b));
    let s3 = s2.push(Some(c));
    let s4 = s3.push(Some(d));
    let s5 = s4.push(Some(e));
    lemma_push(s0, Some(a));
    lemma_push(s1, Some(b));
    lemma_push(s2, Some(c));
    lemma_push(s3, Some(d));
    lemma_push(s4, Some(e));
    assert(s5 =~= seq![Some(a), Some(b), Some(c), Some(d), Some(e)]);
    assert(s5.subrange(0, 5) =~= s5);
    lemma_mean_in_range(s5);
}

} // verus!
