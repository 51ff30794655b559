//! What can never happen in a run: two holders of one fork, neighbours
//! eating together, a completion that left somebody hungry, a run that goes
//! on after its end.
//!
//! Every statement is about an arbitrary state that meets the invariant.
//! A run starts in such a state and every transition keeps it
//! ([`crate::preservation`]), so each holds at every instant of every run.
use vstd::prelude::*;
use crate::event::Outcome;
use crate::philo::{Phase, Philo};
use crate::preservation::{lemma_count_full_all, lemma_starving_range, lemma_table_order};
use crate::simulation::{count_full, Action, State, Verdict};

verus! {

/// The number of philosophers with an index in `a..b` that are eating.
pub open spec fn eating_between(philos: Seq<Philo>, a: int, b: int) -> nat
    decreases b - a,
{
    if b <= a {
        0
    } else {
        eating_between(philos, a, b - 1) + (if philos[b - 1].phase == Phase::Eating {
            1nat
        } else {
            0nat
        })
    }
}

/// Mutual exclusion: no fork is held by two philosophers at once.
pub proof fn lemma_fork_exclusive(s: State, i: int, j: int, f: int)
    requires
        s.wf(),
        0 <= i < s.n(),
        0 <= j < s.n(),
        s.holds(i, f),
        s.holds(j, f),
    ensures
        i == j,
{
    lemma_table_order(s.n());
    assert(s.philo_wf(i));
    assert(s.philo_wf(j));
}

/// A philosopher that holds a fork is the one that the fork records, and
/// the other way round.
pub proof fn lemma_holder_is_who_holds(s: State, i: int, f: int)
    requires
        s.wf(),
        0 <= i < s.n(),
        0 <= f < s.n(),
    ensures
        s.holds(i, f) <==> s.forks[f].holder == Some(i as u8),
{
    lemma_table_order(s.n());
    assert(s.philo_wf(i));
    assert(s.fork_wf(f));
}

/// A philosopher that eats holds both of its forks, and they are two forks.
pub proof fn lemma_eating_holds_both(s: State, i: int)
    requires
        s.wf(),
        0 <= i < s.n(),
        s.philos[i].phase == Phase::Eating,
    ensures
        s.first(i) != s.second(i),
        s.forks[s.first(i)].holder == Some(i as u8),
        s.forks[s.second(i)].holder == Some(i as u8),
{
    assert(s.philo_wf(i));
}

/// Two philosophers that sit next to each other never eat at the same
/// time.
pub proof fn lemma_neighbours_never_eat_together(s: State, i: int, j: int)
    requires
        s.wf(),
        0 <= i < s.n(),
        0 <= j < s.n(),
        j == i + 1 || (i == s.n() - 1 && j == 0),
        s.philos[i].phase == Phase::Eating,
    ensures
        s.philos[j].phase != Phase::Eating,
{
    lemma_table_order(s.n());
    assert(s.philo_wf(i));
    assert(s.philo_wf(j));
}

/// Along a stretch of the table in which no two neighbours eat together,
/// at most every other philosopher eats.
proof fn lemma_eating_stretch(philos: Seq<Philo>, a: int, b: int)
    requires
        0 <= a <= b <= philos.len(),
        forall|i: int|
            a <= i && i + 1 < b && philos[i].phase == Phase::Eating ==> (#[trigger] philos[i
                + 1]).phase != Phase::Eating,
    ensures
        2 * eating_between(philos, a, b) <= b - a + 1,
        b > a && philos[b - 1].phase != Phase::Eating ==> 2 * eating_between(philos, a, b) <= b
            - a,
    decreases b - a,
{
    if b > a {
        lemma_eating_stretch(philos, a, b - 1);
        if b - 1 > a && philos[b - 1].phase == Phase::Eating {
            assert(philos[(b - 2) + 1].phase == Phase::Eating);
        }
    }
}

/// Counting from `a` is counting philosopher `a` and then from `a + 1`.
proof fn lemma_eating_split(philos: Seq<Philo>, a: int, b: int)
    requires
        a < b,
    ensures
        eating_between(philos, a, b) == eating_between(philos, a + 1, b) + (if philos[a].phase
            == Phase::Eating {
            1nat
        } else {
            0nat
        }),
    decreases b - a,
{
    if b > a + 1 {
        lemma_eating_split(philos, a, b - 1);
    } else {
        assert(eating_between(philos, a, a) == 0);
        assert(eating_between(philos, a + 1, b) == 0);
    }
}

/// At any instant at most half of the philosophers, rounded down, are
/// eating.
pub proof fn lemma_at_most_half_eat(s: State)
    requires
        s.wf(),
    ensures
        2 * eating_between(s.philos, 0, s.n()) <= s.n(),
{
    let n = s.n();
    lemma_table_order(n);
    assert forall|i: int|
        0 <= i && i + 1 < n && s.philos[i].phase == Phase::Eating implies (#[trigger] s.philos[i
        + 1]).phase != Phase::Eating by {
        lemma_neighbours_never_eat_together(s, i, i + 1);
    }
    if s.philos[n - 1].phase == Phase::Eating {
        assert(s.philo_wf(n - 1));
        lemma_neighbours_never_eat_together(s, n - 1, 0);
        lemma_eating_split(s.philos, 0, n);
        lemma_eating_stretch(s.philos, 1, n);
    } else {
        lemma_eating_stretch(s.philos, 0, n);
    }
}

/// A run that completed left nobody hungry: the counter of full
/// philosophers equals their number, each philosopher has eaten exactly the
/// quota and is done, and every fork is free.
pub proof fn lemma_completed_means_all_full(s: State)
    requires
        s.wf(),
        s.outcome == Outcome::Completed,
    ensures
        s.table.n_full == s.n(),
        forall|i: int|
            0 <= i < s.n() ==> s.table.n_times == Some((#[trigger] s.philos[i]).times)
                && s.philos[i].phase == Phase::Done,
        forall|f: int| 0 <= f < s.n() ==> (#[trigger] s.forks[f]).holder is None,
{
    lemma_count_full_all(s.philos, s.table.n_times);
    assert forall|i: int| 0 <= i < s.n() implies s.table.n_times == Some(
        (#[trigger] s.philos[i]).times,
    ) && s.philos[i].phase == Phase::Done by {
        assert(s.philo_wf(i));
    }
    assert forall|f: int| 0 <= f < s.n() implies (#[trigger] s.forks[f]).holder is None by {
        assert(s.fork_wf(f));
    }
}

/// What belongs to a philosopher changes in its own steps alone: the step
/// of philosopher `i` leaves every other philosopher as it was, counters,
/// time of the last meal and phase, and every fork that another one holds
/// with its holder; a poll of the monitor leaves all philosophers and all
/// forks as they were.
pub proof fn lemma_step_touches_its_own(s: State, i: int, now: u64)
    requires
        s.wf(),
        0 <= i < s.n(),
    ensures
        forall|j: int|
            0 <= j < s.n() && j != i ==> #[trigger] s.step(i, now).0.philos[j] == s.philos[j],
        forall|f: int|
            0 <= f < s.n() && s.forks[f].holder is Some && s.forks[f].holder != Some(i as u8)
                ==> #[trigger] s.step(i, now).0.forks[f] == s.forks[f],
        s.monitor(now).0.philos == s.philos,
        s.monitor(now).0.forks == s.forks,
        s.monitor(now).0.table == s.table,
{
    lemma_table_order(s.n());
    assert(s.philo_wf(i));
}

/// Each philosopher is counted as full exactly once: the counter goes up
/// by one in the step in which a philosopher ends its last required meal,
/// and in no other step; who is full stays full; and the counter is the
/// number of full philosophers, which is never more than there are.
pub proof fn lemma_counted_once(s: State, i: int, now: u64)
    requires
        s.wf(),
        0 <= i < s.n(),
    ensures
        s.table.n_full == count_full(s.philos, s.table.n_times),
        s.table.n_full <= s.n(),
        s.step(i, now).0.table.n_full == s.table.n_full + (if !s.is_full(i) && s.step(
            i,
            now,
        ).0.is_full(i) {
            1int
        } else {
            0int
        }),
        forall|j: int|
            0 <= j < s.n() && s.is_full(j) ==> #[trigger] s.step(i, now).0.is_full(j),
        forall|j: int|
            0 <= j < s.n() && j != i ==> s.is_full(j) == #[trigger] s.step(i, now).0.is_full(j),
{
    assert(s.philo_wf(i));
    assert forall|j: int| 0 <= j < s.n() && s.is_full(j) implies #[trigger] s.step(
        i,
        now,
    ).0.is_full(j) by {
        assert(s.philo_wf(j));
    }
}

/// Completion is reported exactly once: a step reports it if and only if
/// it takes the run from running to completed, which is when it counts the
/// last philosopher as full.
pub proof fn lemma_completion_reported_once(s: State, i: int, now: u64)
    requires
        s.wf(),
        0 <= i < s.n(),
    ensures
        s.step(i, now).1.completed <==> s.outcome == Outcome::Running && s.step(i, now).0.outcome
            == Outcome::Completed,
        s.step(i, now).1.completed ==> s.table.n_full + 1 == s.n() && s.step(i, now).0.table.n_full
            == s.n(),
        s.outcome == Outcome::Completed ==> !s.step(i, now).1.completed,
{
    assert(s.philo_wf(i));
}

/// The end of a run is final. Once the run has completed or a philosopher
/// has died, no step and no poll changes the outcome, and an agent that
/// steps logs nothing, is told to stop, ends up done and holds no fork.
pub proof fn lemma_end_is_final(s: State, i: int, now: u64)
    requires
        s.wf(),
        0 <= i < s.n(),
        s.outcome != Outcome::Running,
    ensures
        s.step(i, now).0.outcome == s.outcome,
        s.step(i, now).1 == State::quiet(Action::Stop),
        s.step(i, now).0.philos[i].phase == Phase::Done,
        forall|f: int| 0 <= f < s.n() ==> !s.step(i, now).0.holds(i, f),
        forall|f: int|
            0 <= f < s.n() ==> (#[trigger] s.step(i, now).0.forks[f]).holder != Some(i as u8),
        s.monitor(now) == (s, Verdict::Over),
{
    let t = s.step(i, now).0;
    lemma_table_order(s.n());
    assert(s.philo_wf(i));
    assert forall|f: int| 0 <= f < s.n() implies (#[trigger] t.forks[f]).holder != Some(
        i as u8,
    ) by {
        assert(s.fork_wf(f));
    }
}

/// Starvation is detected at the first poll after it: while the run is on,
/// a poll declares a death if and only if some philosopher starves at that
/// time, and then it names the lowest-indexed one and ends the run.
pub proof fn lemma_monitor_detects_starvation(s: State, now: u64)
    requires
        s.wf(),
        s.outcome == Outcome::Running,
    ensures
        (exists|i: int| 0 <= i < s.n() && s.starving(i, now)) <==> s.monitor(now).1 is Starved,
        s.monitor(now).1 matches Verdict::Starved(d) ==> {
            &&& d < s.n()
            &&& s.starving(d as int, now)
            &&& forall|j: int| 0 <= j < d ==> !s.starving(j, now)
            &&& s.monitor(now).0.outcome == Outcome::Died(d)
        },
        !(s.monitor(now).1 is Starved) ==> s.monitor(now) == (s, Verdict::Alive),
{
    lemma_starving_range(s, s.n(), now);
}

/// Starvation is found in time. Let philosopher `d`, kept from eating, have
/// been alive at the poll made at `previous`, and let the next poll come at
/// `now`, no more than the poll time later, when `d` has starved. Then that
/// poll falls within the time to die and one poll time of the beginning of
/// `d`'s last meal, declares a death and ends the run; and it names `d`,
/// unless a philosopher with a lower index has starved as well.
pub proof fn lemma_death_is_found_in_time(s: State, d: int, previous: u64, now: u64)
    requires
        s.wf(),
        s.outcome == Outcome::Running,
        0 <= d < s.n(),
        s.philos[d].phase != Phase::Eating,
        s.philos[d].phase != Phase::Done,
        previous <= s.philos[d].last_eat + s.table.t_die,
        previous <= now <= previous + s.table.poll_time(),
        s.philos[d].last_eat + s.table.t_die < now,
    ensures
        now <= s.philos[d].last_eat + s.table.t_die + s.table.poll_time(),
        s.monitor(now).1 matches Verdict::Starved(x) && x <= d && s.monitor(now).0.outcome
            == Outcome::Died(x) && ((forall|j: int| 0 <= j < d ==> !s.starving(j, now)) ==> x
            == d),
{
    lemma_starving_range(s, s.n(), now);
    assert(s.starving(d, now));
}

/// A philosopher that is in the middle of a meal, or done, is never
/// declared dead, and one that began its last meal no longer than `t_die`
/// ago is not either.
pub proof fn lemma_monitor_spares(s: State, i: int, now: u64)
    requires
        s.wf(),
        0 <= i < s.n(),
        s.philos[i].phase == Phase::Eating || s.philos[i].phase == Phase::Done || now
            <= s.philos[i].last_eat + s.table.t_die,
    ensures
        s.monitor(now).1 != Verdict::Starved(i as u8),
{
    lemma_starving_range(s, s.n(), now);
}

} // verus!
