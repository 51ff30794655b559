//! What always happens in a run: somebody can move, and every move brings
//! the end of a bounded run nearer.
//!
//! The statements on deadlock need a table of at least two: a philosopher
//! that sits alone has one fork, takes it, and waits for a second one that
//! does not exist until it starves.
use vstd::prelude::*;
use crate::event::Outcome;
use crate::philo::{Phase, Philo};
use crate::preservation::{lemma_count_full_zero, lemma_table_order};
use crate::safety::lemma_completed_means_all_full;
use crate::simulation::{count_full, Action, State};
use crate::table::Table;

verus! {

/// Transitions that separate a philosopher in `phase` from the end of its
/// current meal.
pub open spec fn phase_rank(phase: Phase) -> nat {
    match phase {
        Phase::Thinking => 5,
        Phase::Sleeping => 4,
        Phase::WaitingFirst => 3,
        Phase::WaitingSecond => 2,
        Phase::Eating => 1,
        Phase::Done => 0,
    }
}

/// Transitions that separate philosopher `p` from its last meal of `quota`,
/// at most.
pub open spec fn work_of(p: Philo, quota: u32) -> nat {
    if p.phase == Phase::Done || p.times >= quota {
        0
    } else {
        (5 * (quota - p.times - 1) + phase_rank(p.phase)) as nat
    }
}

/// The sum of [`work_of`] over `philos`.
pub open spec fn total_work(philos: Seq<Philo>, quota: u32) -> nat
    decreases philos.len(),
{
    if philos.len() == 0 {
        0
    } else {
        total_work(philos.drop_last(), quota) + work_of(philos.last(), quota)
    }
}

/// Where every philosopher has eaten the quota, the count of full
/// philosophers is their number.
proof fn lemma_count_full_every(philos: Seq<Philo>, quota: Option<u32>)
    requires
        forall|i: int| 0 <= i < philos.len() ==> quota == Some(#[trigger] philos[i].times),
    ensures
        count_full(philos, quota) == philos.len(),
    decreases philos.len(),
{
    if philos.len() > 0 {
        lemma_count_full_every(philos.drop_last(), quota);
    }
}

/// Replacing one philosopher changes the sum by the difference of its
/// work.
proof fn lemma_total_work_update(philos: Seq<Philo>, quota: u32, i: int, p: Philo)
    requires
        0 <= i < philos.len(),
    ensures
        total_work(philos.update(i, p), quota) + work_of(philos[i], quota) == total_work(
            philos,
            quota,
        ) + work_of(p, quota),
    decreases philos.len(),
{
    let updated = philos.update(i, p);
    if i == philos.len() - 1 {
        assert(updated.drop_last() =~= philos.drop_last());
    } else {
        assert(updated.drop_last() =~= philos.drop_last().update(i, p));
        lemma_total_work_update(philos.drop_last(), quota, i, p);
    }
}

/// From a blocked philosopher, following who holds the fork it waits for
/// leads to a philosopher that is not blocked: each fork on the way has a
/// higher index than the one before, because every holder that waits took
/// its lower fork first.
proof fn lemma_follow_holders(s: State, i: int) -> (j: int)
    requires
        s.wf(),
        s.n() >= 2,
        0 <= i < s.n(),
        s.blocked(i),
    ensures
        0 <= j < s.n(),
        s.outcome == Outcome::Running ==> s.moves(j),
    decreases s.n() - s.waits_for(i)->0,
{
    lemma_table_order(s.n());
    let f = s.waits_for(i)->0;
    let h = s.forks[f].holder->0 as int;
    assert(s.philo_wf(i));
    assert(s.fork_wf(f));
    assert(s.philo_wf(h));
    if s.blocked(h) {
        lemma_follow_holders(s, h)
    } else {
        h
    }
}

/// Deadlock freedom: while a run of two or more philosophers is on, there
/// is a philosopher that is not done and not blocked. It sleeps, eats or
/// thinks, or the fork it waits for is free.
pub proof fn lemma_no_deadlock(s: State) -> (i: int)
    requires
        s.wf(),
        s.n() >= 2,
        s.outcome == Outcome::Running,
    ensures
        0 <= i < s.n(),
        s.moves(i),
{
    if forall|k: int| 0 <= k < s.n() ==> s.table.n_times == Some(#[trigger] s.philos[k].times) {
        lemma_count_full_every(s.philos, s.table.n_times);
    }
    let k = choose|k: int| 0 <= k < s.n() && s.table.n_times != Some(#[trigger] s.philos[k].times);
    assert(s.philo_wf(k));
    if s.blocked(k) {
        lemma_follow_holders(s, k)
    } else {
        k
    }
}

/// While the run is on, a step of a philosopher that is neither done nor
/// blocked changes its phase; a step of any other philosopher leaves the
/// whole state as it was, and tells the agent to wait or to stop.
pub proof fn lemma_step_moves(s: State, i: int, now: u64)
    requires
        s.wf(),
        0 <= i < s.n(),
        s.outcome == Outcome::Running,
    ensures
        s.moves(i) ==> s.step(i, now).0.philos[i].phase != s.philos[i].phase,
        !s.moves(i) ==> s.step(i, now).0 == s,
        s.blocked(i) ==> s.step(i, now).1 == State::quiet(Action::Wait),
        s.philos[i].phase == Phase::Done ==> s.step(i, now).1 == State::quiet(Action::Stop),
{
    lemma_table_order(s.n());
    assert(s.philo_wf(i));
    assert(s.fork_wf(s.first(i)));
    assert(s.fork_wf(s.second(i)));
    if !s.moves(i) {
        assert(s.step(i, now).0 =~~= s);
    }
}

/// A run starts with five transitions to go for each meal of each
/// philosopher.
pub proof fn lemma_initial_work(table: Table, now: u64, quota: u32)
    requires
        table.valid(),
        table.n_times == Some(quota),
    ensures
        total_work(State::init(table, now).philos, quota) == 5 * quota * table.n,
{
    lemma_work_of_newcomers(State::init(table, now).philos, quota);
}

/// The work of philosophers that are thinking and have not eaten.
proof fn lemma_work_of_newcomers(philos: Seq<Philo>, quota: u32)
    requires
        quota >= 1,
        forall|i: int|
            0 <= i < philos.len() ==> (#[trigger] philos[i]).times == 0 && philos[i].phase
                == Phase::Thinking,
    ensures
        total_work(philos, quota) == 5 * quota * philos.len(),
    decreases philos.len(),
{
    if philos.len() > 0 {
        lemma_work_of_newcomers(philos.drop_last(), quota);
        assert(5 * quota * philos.len() == 5 * quota * (philos.len() - 1) + 5 * quota)
            by (nonlinear_arith);
    } else {
        assert(5 * quota * 0 == 0) by (nonlinear_arith);
    }
}

/// Bounded runs come to an end. No step adds to the work that is left,
/// and while the run is on, the step of a philosopher that is neither done
/// nor blocked takes at least one transition off it.
pub proof fn lemma_step_works_off(s: State, i: int, now: u64, quota: u32)
    requires
        s.wf(),
        0 <= i < s.n(),
        s.table.n_times == Some(quota),
    ensures
        total_work(s.step(i, now).0.philos, quota) <= total_work(s.philos, quota),
        s.moves(i) ==> total_work(s.step(i, now).0.philos, quota) < total_work(s.philos, quota),
{
    let t = s.step(i, now).0;
    lemma_table_order(s.n());
    assert(s.philo_wf(i));
    assert(t.philos =~= s.philos.update(i, t.philos[i]));
    lemma_total_work_update(s.philos, quota, i, t.philos[i]);
}

/// While a run with a quota is on, work is left; once it has completed,
/// none is.
pub proof fn lemma_work_left_while_running(s: State, quota: u32)
    requires
        s.wf(),
        s.table.n_times == Some(quota),
    ensures
        s.outcome == Outcome::Running ==> total_work(s.philos, quota) > 0,
        s.outcome == Outcome::Completed ==> total_work(s.philos, quota) == 0,
{
    if s.outcome == Outcome::Running {
        if forall|k: int| 0 <= k < s.n() ==> s.table.n_times == Some(#[trigger] s.philos[k].times) {
            lemma_count_full_every(s.philos, s.table.n_times);
        }
        let k = choose|k: int|
            0 <= k < s.n() && s.table.n_times != Some(#[trigger] s.philos[k].times);
        assert(s.philo_wf(k));
        lemma_work_at_least(s.philos, quota, k);
    }
    if s.outcome == Outcome::Completed {
        lemma_completed_means_all_full(s);
        lemma_work_of_the_done(s.philos, quota);
    }
}

/// The sum is at least the work of any one philosopher.
proof fn lemma_work_at_least(philos: Seq<Philo>, quota: u32, i: int)
    requires
        0 <= i < philos.len(),
    ensures
        total_work(philos, quota) >= work_of(philos[i], quota),
    decreases philos.len(),
{
    if i < philos.len() - 1 {
        lemma_work_at_least(philos.drop_last(), quota, i);
    }
}

/// Philosophers that are done have no work left.
proof fn lemma_work_of_the_done(philos: Seq<Philo>, quota: u32)
    requires
        forall|i: int| 0 <= i < philos.len() ==> (#[trigger] philos[i]).phase == Phase::Done,
    ensures
        total_work(philos, quota) == 0,
    decreases philos.len(),
{
    if philos.len() > 0 {
        lemma_work_of_the_done(philos.drop_last(), quota);
    }
}

/// A run without a quota never completes by itself: no philosopher is ever
/// full, none is done while the run is on, and no step reports completion.
pub proof fn lemma_unbounded_runs_on(s: State, i: int, now: u64)
    requires
        s.wf(),
        0 <= i < s.n(),
        s.table.n_times is None,
    ensures
        s.table.n_full == 0,
        s.outcome != Outcome::Completed,
        s.outcome == Outcome::Running ==> s.philos[i].phase != Phase::Done,
        !s.step(i, now).1.completed,
        s.step(i, now).0.outcome == s.outcome,
{
    lemma_count_full_zero(s.philos, s.table.n_times);
    assert(s.philo_wf(i));
}

} // verus!
