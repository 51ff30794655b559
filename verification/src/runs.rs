//! Whole runs: any number of steps and polls, in any order and at any
//! times.
//!
//! The scheduler of a runtime decides which agent resumes when. Whatever it
//! decides, the run is a sequence of [`Move`]s from the initial state, and
//! what is proved here holds for every such sequence.
use vstd::prelude::*;
use crate::event::{EventKind, Outcome};
use crate::philo::Phase;
use crate::preservation::{lemma_init_wf, lemma_monitor_wf, lemma_step_wf, lemma_table_order};
use crate::progress::{lemma_initial_work, lemma_no_deadlock, lemma_step_works_off, total_work};
use crate::safety::{lemma_completed_means_all_full, lemma_step_touches_its_own};
use crate::simulation::{State, Step};
use crate::table::Table;

verus! {

/// One move of a run.
pub enum Move {
    /// The agent of a philosopher steps.
    Step { philosopher: u8, now: u64 },
    /// The monitor polls.
    Poll { now: u64 },
}

/// The step logs the beginning of a meal.
pub open spec fn begins_meal(step: Step) -> bool {
    step.event matches Some(e) && e.kind == EventKind::Eating
}

impl State {
    /// The state after one move.
    pub open spec fn apply(self, m: Move) -> State {
        match m {
            Move::Step { philosopher, now } => self.step(philosopher as int, now).0,
            Move::Poll { now } => self.monitor(now).0,
        }
    }

    /// The state after the moves `moves`, made from first to last.
    pub open spec fn after(self, moves: Seq<Move>) -> State
        decreases moves.len(),
    {
        if moves.len() == 0 {
            self
        } else {
            self.after(moves.drop_last()).apply(moves.last())
        }
    }

    /// The number of moves among `moves`, made from this state, that are
    /// steps of a philosopher that could move.
    pub open spec fn moving_steps(self, moves: Seq<Move>) -> nat
        decreases moves.len(),
    {
        if moves.len() == 0 {
            0
        } else {
            self.moving_steps(moves.drop_last()) + (match moves.last() {
                Move::Step { philosopher, now } => if self.after(moves.drop_last()).moves(
                    philosopher as int,
                ) {
                    1nat
                } else {
                    0nat
                },
                Move::Poll { now } => 0nat,
            })
        }
    }
}

impl State {
    /// The number of eating events that the steps of philosopher `i` among
    /// `moves`, made from this state, hand to the log: the meals that it
    /// began.
    pub open spec fn eating_events(self, moves: Seq<Move>, i: int) -> nat
        decreases moves.len(),
    {
        if moves.len() == 0 {
            0
        } else {
            self.eating_events(moves.drop_last(), i) + (match moves.last() {
                Move::Step { philosopher, now } => if philosopher == i && begins_meal(
                    self.after(moves.drop_last()).step(i, now).1,
                ) {
                    1nat
                } else {
                    0nat
                },
                Move::Poll { now } => 0nat,
            })
        }
    }

    /// Nobody can move: the run is over, or every philosopher that is not
    /// done waits for a fork that is held.
    pub open spec fn at_rest(self) -> bool {
        forall|i: int| 0 <= i < self.n() ==> !#[trigger] self.moves(i)
    }
}

/// Every step among `moves` is the step of a philosopher at a table of
/// `n`.
pub open spec fn seated(moves: Seq<Move>, n: int) -> bool {
    forall|k: int|
        0 <= k < moves.len() ==> (#[trigger] moves[k] matches Move::Step { philosopher, now }
            ==> philosopher < n)
}

/// The invariant holds throughout every run: whatever moves are made from
/// a state that meets it, the state after them meets it, at the same table
/// with the same configuration.
pub proof fn lemma_run_keeps_invariant(s: State, moves: Seq<Move>)
    requires
        s.wf(),
        seated(moves, s.n()),
    ensures
        s.after(moves).wf(),
        s.after(moves).table == (Table { n_full: s.after(moves).table.n_full, ..s.table }),
    decreases moves.len(),
{
    if moves.len() > 0 {
        let before = moves.drop_last();
        lemma_seated_before(moves, s.n());
        lemma_run_keeps_invariant(s, before);
        let t = s.after(before);
        match moves.last() {
            Move::Step { philosopher, now } => {
                lemma_step_wf(t, philosopher as int, now);
            },
            Move::Poll { now } => {
                lemma_monitor_wf(t, now);
            },
        }
    }
}

/// The invariant holds throughout every run from the start.
pub proof fn lemma_every_run_is_wf(table: Table, start: u64, moves: Seq<Move>)
    requires
        table.valid(),
        seated(moves, table.n as int),
    ensures
        State::init(table, start).after(moves).wf(),
{
    lemma_init_wf(table, start);
    lemma_run_keeps_invariant(State::init(table, start), moves);
}

/// No run deadlocks: at a table of two or more, after any moves, either
/// the run is over or there is a philosopher whose step changes its phase.
pub proof fn lemma_no_run_deadlocks(table: Table, start: u64, moves: Seq<Move>) -> (i: int)
    requires
        table.valid(),
        table.n >= 2,
        seated(moves, table.n as int),
        State::init(table, start).after(moves).outcome == Outcome::Running,
    ensures
        0 <= i < table.n,
        State::init(table, start).after(moves).moves(i),
{
    lemma_init_wf(table, start);
    lemma_run_keeps_invariant(State::init(table, start), moves);
    lemma_no_deadlock(State::init(table, start).after(moves))
}

/// Every move that counts takes work off: the steps of philosophers that
/// could move, and the work that is left after them, are together no more
/// than the work that was left before.
pub proof fn lemma_run_works_off(s: State, moves: Seq<Move>, quota: u32)
    requires
        s.wf(),
        seated(moves, s.n()),
        s.table.n_times == Some(quota),
    ensures
        s.moving_steps(moves) + total_work(s.after(moves).philos, quota) <= total_work(
            s.philos,
            quota,
        ),
    decreases moves.len(),
{
    if moves.len() > 0 {
        let before = moves.drop_last();
        lemma_seated_before(moves, s.n());
        lemma_run_works_off(s, before, quota);
        lemma_run_keeps_invariant(s, before);
        let t = s.after(before);
        match moves.last() {
            Move::Step { philosopher, now } => {
                lemma_step_works_off(t, philosopher as int, now, quota);
            },
            Move::Poll { now } => {},
        }
    }
}

/// Bounded runs are bounded: in a run of `n` philosophers with a quota of
/// `m` meals, at most `5 * m * n` moves are steps of a philosopher that
/// could move. With [`lemma_no_run_deadlocks`], a scheduler that lets
/// philosophers move whenever they can brings every such run of two or more
/// to its end.
pub proof fn lemma_bounded_run_ends(table: Table, start: u64, moves: Seq<Move>, quota: u32)
    requires
        table.valid(),
        table.n_times == Some(quota),
        seated(moves, table.n as int),
    ensures
        State::init(table, start).moving_steps(moves) <= 5 * quota * table.n,
{
    lemma_init_wf(table, start);
    lemma_initial_work(table, start, quota);
    lemma_run_works_off(State::init(table, start), moves, quota);
}

/// The moves before the last one are seated as all of them are.
pub proof fn lemma_seated_before(moves: Seq<Move>, n: int)
    requires
        seated(moves, n),
        moves.len() > 0,
    ensures
        seated(moves.drop_last(), n),
        moves.last() matches Move::Step { philosopher, now } ==> philosopher < n,
{
    let before = moves.drop_last();
    assert forall|k: int| 0 <= k < before.len() implies (#[trigger] before[k] matches Move::Step {
        philosopher,
        now,
    } ==> philosopher < n) by {
        assert(before[k] == moves[k]);
    }
    assert(moves[moves.len() - 1] == moves.last());
}

/// A run of two or more that has come to rest without a death has
/// completed: the counter of full philosophers equals their number, and
/// each philosopher has eaten exactly the quota and is done.
pub proof fn lemma_run_at_rest_has_completed(table: Table, start: u64, moves: Seq<Move>)
    requires
        table.valid(),
        table.n >= 2,
        seated(moves, table.n as int),
        State::init(table, start).after(moves).at_rest(),
        !(State::init(table, start).after(moves).outcome is Died),
    ensures
        State::init(table, start).after(moves).outcome == Outcome::Completed,
        State::init(table, start).after(moves).table.n_full == table.n,
        forall|i: int|
            0 <= i < table.n ==> table.n_times == Some(
                (#[trigger] State::init(table, start).after(moves).philos[i]).times,
            ) && State::init(table, start).after(moves).philos[i].phase == Phase::Done,
{
    let s = State::init(table, start).after(moves);
    lemma_init_wf(table, start);
    lemma_run_keeps_invariant(State::init(table, start), moves);
    if s.outcome == Outcome::Running {
        let i = lemma_no_deadlock(s);
        assert(s.moves(i));
    }
    lemma_completed_means_all_full(s);
}

/// In a run without a death each meal is begun once and counted once: the
/// meals that a philosopher has eaten are the eating events of its steps,
/// less the meal that it is in the middle of. The counter holds that
/// number, or the largest value of its type where the number is beyond it,
/// which only a run without a quota can reach.
pub proof fn lemma_each_meal_counts_once(table: Table, start: u64, moves: Seq<Move>, i: int)
    requires
        table.valid(),
        seated(moves, table.n as int),
        0 <= i < table.n,
        !(State::init(table, start).after(moves).outcome is Died),
    ensures
        ({
            let s = State::init(table, start).after(moves);
            let begun = State::init(table, start).eating_events(moves, i);
            let ended = begun - (if s.philos[i].phase == Phase::Eating {
                1int
            } else {
                0int
            });
            &&& ended >= 0
            &&& s.philos[i].times == (if ended <= u32::MAX {
                ended
            } else {
                u32::MAX as int
            })
            &&& table.n_times is Some ==> s.philos[i].times == ended
        }),
    decreases moves.len(),
{
    let init = State::init(table, start);
    lemma_init_wf(table, start);
    if moves.len() > 0 {
        let before = moves.drop_last();
        lemma_seated_before(moves, table.n as int);
        lemma_run_keeps_invariant(init, before);
        let t = init.after(before);
        lemma_table_order(t.n());
        assert(t.philo_wf(i));
        if t.outcome == Outcome::Completed {
            lemma_completed_means_all_full(t);
        }
        match moves.last() {
            Move::Step { philosopher, now } => {
                lemma_step_touches_its_own(t, philosopher as int, now);
            },
            Move::Poll { now } => {},
        }
        lemma_each_meal_counts_once(table, start, before, i);
    }
}

} // verus!
