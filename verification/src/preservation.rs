//! The invariant of a run holds at its start and after every transition.
use vstd::prelude::*;
use crate::event::Outcome;
use crate::forks::{first_fork, lemma_fork_order, second_fork};
use crate::philo::{Phase, Philo};
use crate::simulation::{count_full, State};
use crate::table::Table;

verus! {

/// The acquisition order of every philosopher at a table of `n`, without
/// the modulus.
pub proof fn lemma_table_order(n: int)
    ensures
        forall|i: int|
            0 <= i < n ==> {
                &&& #[trigger] first_fork(i, n) == (if i + 1 < n { i } else { 0 })
                &&& second_fork(i, n) == (if i + 1 < n { i + 1 } else { i })
            },
        forall|i: int|
            0 <= i < n ==> {
                &&& #[trigger] second_fork(i, n) == (if i + 1 < n { i + 1 } else { i })
                &&& first_fork(i, n) == (if i + 1 < n { i } else { 0 })
            },
{
    assert forall|i: int| 0 <= i < n implies {
        &&& first_fork(i, n) == (if i + 1 < n { i } else { 0 })
        &&& second_fork(i, n) == (if i + 1 < n { i + 1 } else { i })
    } by {
        lemma_fork_order(i, n);
    }
}

/// No more philosophers are full than there are philosophers.
pub proof fn lemma_count_full_bound(philos: Seq<Philo>, quota: Option<u32>)
    ensures
        count_full(philos, quota) <= philos.len(),
    decreases philos.len(),
{
    if philos.len() > 0 {
        lemma_count_full_bound(philos.drop_last(), quota);
    }
}

/// Where nobody has eaten the quota, the count is zero.
pub proof fn lemma_count_full_zero(philos: Seq<Philo>, quota: Option<u32>)
    requires
        forall|i: int| 0 <= i < philos.len() ==> quota != Some(#[trigger] philos[i].times),
    ensures
        count_full(philos, quota) == 0,
    decreases philos.len(),
{
    if philos.len() > 0 {
        lemma_count_full_zero(philos.drop_last(), quota);
    }
}

/// Where the count equals the number of philosophers, each one has eaten
/// the quota.
pub proof fn lemma_count_full_all(philos: Seq<Philo>, quota: Option<u32>)
    requires
        count_full(philos, quota) == philos.len(),
    ensures
        forall|i: int| 0 <= i < philos.len() ==> quota == Some(#[trigger] philos[i].times),
    decreases philos.len(),
{
    if philos.len() > 0 {
        lemma_count_full_bound(philos.drop_last(), quota);
        lemma_count_full_all(philos.drop_last(), quota);
        assert forall|i: int| 0 <= i < philos.len() implies quota == Some(
            #[trigger] philos[i].times,
        ) by {
            if i < philos.len() - 1 {
                assert(philos.drop_last()[i] == philos[i]);
            }
        }
    }
}

/// Replacing one philosopher changes the count by what that philosopher
/// contributes.
pub proof fn lemma_count_full_update(philos: Seq<Philo>, quota: Option<u32>, i: int, p: Philo)
    requires
        0 <= i < philos.len(),
    ensures
        count_full(philos.update(i, p), quota) + (if quota == Some(philos[i].times) {
            1nat
        } else {
            0nat
        }) == count_full(philos, quota) + (if quota == Some(p.times) {
            1nat
        } else {
            0nat
        }),
    decreases philos.len(),
{
    let updated = philos.update(i, p);
    if i == philos.len() - 1 {
        assert(updated.drop_last() =~= philos.drop_last());
    } else {
        assert(updated.drop_last() =~= philos.drop_last().update(i, p));
        lemma_count_full_update(philos.drop_last(), quota, i, p);
    }
}

/// A run starts in a state that meets the invariant.
pub proof fn lemma_init_wf(table: Table, now: u64)
    requires
        table.valid(),
    ensures
        State::init(table, now).wf(),
{
    let s = State::init(table, now);
    lemma_count_full_zero(s.philos, s.table.n_times);
    assert forall|i: int| 0 <= i < s.n() implies #[trigger] s.philo_wf(i) by {}
    assert forall|f: int| 0 <= f < s.n() implies #[trigger] s.fork_wf(f) by {}
}

/// Leaving the run keeps the invariant.
proof fn lemma_stop_wf(s: State, i: int)
    requires
        s.wf(),
        0 <= i < s.n(),
        s.outcome != Outcome::Running || s.philos[i].phase == Phase::Done,
    ensures
        s.stop(i).0.wf(),
{
    let t = s.stop(i).0;
    lemma_table_order(s.n());
    assert(s.philo_wf(i));
    lemma_count_full_update(s.released(i).philos, s.table.n_times, i, t.philos[i]);
    assert(t.philos =~= s.philos.update(i, t.philos[i]));
    assert forall|f: int| 0 <= f < t.n() implies #[trigger] t.fork_wf(f) by {
        assert(s.fork_wf(f));
    }
    assert forall|j: int| 0 <= j < t.n() implies #[trigger] t.philo_wf(j) by {
        assert(s.philo_wf(j));
        assert(s.fork_wf(s.first(j)));
        assert(s.fork_wf(s.second(j)));
    }
}

/// Going to sleep keeps the invariant.
proof fn lemma_go_to_sleep_wf(s: State, i: int, now: u64)
    requires
        s.wf(),
        0 <= i < s.n(),
        s.outcome == Outcome::Running,
        s.philos[i].phase == Phase::Thinking,
    ensures
        s.go_to_sleep(i, now).0.wf(),
{
    let t = s.go_to_sleep(i, now).0;
    lemma_table_order(s.n());
    assert(s.philo_wf(i));
    lemma_count_full_update(s.philos, s.table.n_times, i, t.philos[i]);
    assert forall|f: int| 0 <= f < t.n() implies #[trigger] t.fork_wf(f) by {
        assert(s.fork_wf(f));
    }
    assert forall|j: int| 0 <= j < t.n() implies #[trigger] t.philo_wf(j) by {
        assert(s.philo_wf(j));
    }
}

/// Reaching for the second fork keeps the invariant.
proof fn lemma_reach_second_wf(s: State, i: int, now: u64)
    requires
        s.wf(),
        0 <= i < s.n(),
        s.outcome == Outcome::Running,
        s.philos[i].phase == Phase::WaitingSecond,
    ensures
        s.reach_second(i, now).0.wf(),
{
    let t = s.reach_second(i, now).0;
    lemma_table_order(s.n());
    assert(s.philo_wf(i));
    assert(s.fork_wf(s.second(i)));
    lemma_count_full_update(s.philos, s.table.n_times, i, t.philos[i]);
    assert forall|f: int| 0 <= f < t.n() implies #[trigger] t.fork_wf(f) by {
        assert(s.fork_wf(f));
    }
    assert forall|j: int| 0 <= j < t.n() implies #[trigger] t.philo_wf(j) by {
        assert(s.philo_wf(j));
        assert(s.fork_wf(s.first(j)));
        assert(s.fork_wf(s.second(j)));
    }
}

/// Reaching for the first fork, and for the second one after it, keeps the
/// invariant.
proof fn lemma_reach_first_wf(s: State, i: int, now: u64)
    requires
        s.wf(),
        0 <= i < s.n(),
        s.outcome == Outcome::Running,
        s.philos[i].phase == Phase::Sleeping || s.philos[i].phase == Phase::WaitingFirst,
    ensures
        s.reach_first(i, now).0.wf(),
{
    let t = s.reach_first(i, now).0;
    lemma_table_order(s.n());
    assert(s.philo_wf(i));
    assert(s.fork_wf(s.first(i)));
    assert(s.fork_wf(s.second(i)));
    lemma_count_full_update(s.philos, s.table.n_times, i, t.philos[i]);
    assert(t.philos =~= s.philos.update(i, t.philos[i]));
    assert forall|f: int| 0 <= f < t.n() implies #[trigger] t.fork_wf(f) by {
        assert(s.fork_wf(f));
    }
    assert forall|j: int| 0 <= j < t.n() implies #[trigger] t.philo_wf(j) by {
        assert(s.philo_wf(j));
        assert(s.fork_wf(s.first(j)));
        assert(s.fork_wf(s.second(j)));
    }
}

/// Ending a meal keeps the invariant.
proof fn lemma_finish_meal_wf(s: State, i: int, now: u64)
    requires
        s.wf(),
        0 <= i < s.n(),
        s.outcome == Outcome::Running,
        s.philos[i].phase == Phase::Eating,
    ensures
        s.finish_meal(i, now).0.wf(),
{
    let t = s.finish_meal(i, now).0;
    lemma_table_order(s.n());
    assert(s.philo_wf(i));
    lemma_count_full_update(s.philos, s.table.n_times, i, t.philos[i]);
    assert(t.philos =~= s.philos.update(i, t.philos[i]));
    lemma_count_full_bound(t.philos, s.table.n_times);
    assert forall|f: int| 0 <= f < t.n() implies #[trigger] t.fork_wf(f) by {
        assert(s.fork_wf(f));
    }
    assert forall|j: int| 0 <= j < t.n() implies #[trigger] t.philo_wf(j) by {
        assert(s.philo_wf(j));
        assert(s.fork_wf(s.first(j)));
        assert(s.fork_wf(s.second(j)));
    }
}

/// A step of any philosopher keeps the invariant.
pub proof fn lemma_step_wf(s: State, i: int, now: u64)
    requires
        s.wf(),
        0 <= i < s.n(),
    ensures
        s.step(i, now).0.wf(),
{
    if s.outcome != Outcome::Running {
        lemma_stop_wf(s, i);
    } else {
        match s.philos[i].phase {
            Phase::Thinking => lemma_go_to_sleep_wf(s, i, now),
            Phase::Sleeping | Phase::WaitingFirst => lemma_reach_first_wf(s, i, now),
            Phase::WaitingSecond => lemma_reach_second_wf(s, i, now),
            Phase::Eating => lemma_finish_meal_wf(s, i, now),
            Phase::Done => lemma_stop_wf(s, i),
        }
    }
}

/// A starving philosopher below whom nobody starves is the one that the
/// search from any higher bound finds.
pub proof fn lemma_starving_found(s: State, d: int, k: int, now: u64)
    requires
        0 <= d < k,
        s.starving_below(d, now) is None,
        s.starving(d, now),
    ensures
        s.starving_below(k, now) == Some(d),
    decreases k - d,
{
    if k > d + 1 {
        lemma_starving_found(s, d, k - 1, now);
    }
}

/// A poll of the monitor keeps the invariant.
pub proof fn lemma_monitor_wf(s: State, now: u64)
    requires
        s.wf(),
    ensures
        s.monitor(now).0.wf(),
{
    let t = s.monitor(now).0;
    lemma_starving_range(s, s.n(), now);
    assert forall|f: int| 0 <= f < t.n() implies #[trigger] t.fork_wf(f) by {
        assert(s.fork_wf(f));
    }
    assert forall|j: int| 0 <= j < t.n() implies #[trigger] t.philo_wf(j) by {
        assert(s.philo_wf(j));
    }
}

/// What the search below `k` tells: the philosopher it finds starves, is
/// below `k`, and nobody below it starves; where it finds none, nobody
/// below `k` starves.
pub proof fn lemma_starving_range(s: State, k: int, now: u64)
    ensures
        s.starving_below(k, now) matches Some(d) ==> 0 <= d < k && s.starving(d, now) && forall|
            j: int,
        |
            0 <= j < d ==> !s.starving(j, now),
        s.starving_below(k, now) is None ==> forall|j: int| 0 <= j < k ==> !s.starving(j, now),
    decreases k,
{
    if k > 0 {
        lemma_starving_range(s, k - 1, now);
    }
}

} // verus!
