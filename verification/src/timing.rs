//! Runs in which every agent resumes exactly when it is due.
//!
//! An agent is due when the time of its last action has passed: at once
//! after a yield or a wake-up, after `t_sleep` or `t_eat` where it was told
//! to sleep; an agent that waits is not due until a step wakes it. A runtime
//! whose timers fire on time makes such runs, and for them the bound on the
//! moves of a run becomes a bound on its time.
use vstd::prelude::*;
use crate::event::Outcome;
use crate::forks::lemma_neighbour_at;
use crate::philo::Phase;
use crate::preservation::{lemma_init_wf, lemma_table_order};
use crate::progress::{lemma_initial_work, lemma_no_deadlock, lemma_step_works_off, total_work};
use crate::runs::{lemma_run_keeps_invariant, lemma_seated_before, seated, Move};
use crate::safety::lemma_step_touches_its_own;
use crate::simulation::{Action, State};
use crate::table::Table;

verus! {

impl Move {
    /// The time at which the move is made.
    pub open spec fn time(self) -> u64 {
        match self {
            Move::Step { philosopher, now } => now,
            Move::Poll { now } => now,
        }
    }
}

impl State {
    /// When the agent of philosopher `i` resumes next, after the moves
    /// `moves` made from this state at `start`; `None` where it is blocked
    /// or has left its loop.
    pub open spec fn due(self, start: u64, moves: Seq<Move>, i: int) -> Option<int>
        decreases moves.len(),
    {
        if moves.len() == 0 {
            Some(start as int)
        } else {
            let state = self.after(moves.drop_last());
            let due = self.due(start, moves.drop_last(), i);
            match moves.last() {
                Move::Step { philosopher, now } => {
                    let step = state.step(philosopher as int, now).1;
                    if philosopher == i {
                        match step.action {
                            Action::Sleep(ms) => Some(now + ms),
                            Action::Yield => Some(now as int),
                            Action::Wait => None,
                            Action::Stop => None,
                        }
                    } else if due is None && (step.wake_first == Some(i as u8) || step.wake_second
                        == Some(i as u8)) {
                        Some(now as int)
                    } else {
                        due
                    }
                },
                Move::Poll { now } => {
                    if due is None && state.monitor(now).1 is Starved && state.philos[i].phase
                        != Phase::Done {
                        Some(now as int)
                    } else {
                        due
                    }
                },
            }
        }
    }

    /// Every move of `moves` is made on time: a step is made exactly when
    /// its agent is due, and no move is made after the time at which
    /// another agent was due.
    pub open spec fn on_time(self, start: u64, moves: Seq<Move>) -> bool
        decreases moves.len(),
    {
        if moves.len() == 0 {
            true
        } else {
            let before = moves.drop_last();
            &&& self.on_time(start, before)
            &&& forall|j: int|
                0 <= j < self.n() ==> (#[trigger] self.due(start, before, j) matches Some(t)
                    ==> moves.last().time() <= t)
            &&& moves.last() matches Move::Step { philosopher, now } ==> self.due(
                start,
                before,
                philosopher as int,
            ) == Some(now as int)
        }
    }

    /// The latest time of the run: that of its latest move, or `start`
    /// where there is none later.
    pub open spec fn latest(self, start: u64, moves: Seq<Move>) -> int
        decreases moves.len(),
    {
        if moves.len() == 0 {
            start as int
        } else if moves.last().time() >= self.latest(start, moves.drop_last()) {
            moves.last().time() as int
        } else {
            self.latest(start, moves.drop_last())
        }
    }

    /// After `moves`, philosopher `i` is due if it can move, and where it
    /// is due, it is due no later than one sleep and one meal after the
    /// latest time of the run.
    pub open spec fn soon(self, start: u64, moves: Seq<Move>, i: int) -> bool {
        &&& self.after(moves).moves(i) ==> self.due(start, moves, i) is Some
        &&& self.due(start, moves, i) matches Some(t) ==> t <= self.latest(start, moves)
            + self.table.t_eat + self.table.t_sleep
    }

    /// The work that the moves `moves`, made from this state, have taken
    /// off a quota of `quota` meals.
    pub open spec fn spent(self, moves: Seq<Move>, quota: u32) -> int {
        total_work(self.philos, quota) - total_work(self.after(moves).philos, quota)
    }

    /// After `moves`, philosopher `i` is due if it can move, and where it
    /// is due, it is due no later than one sleep and one meal for each
    /// transition that the run has worked off.
    pub open spec fn prompt(self, start: u64, moves: Seq<Move>, quota: u32, i: int) -> bool {
        &&& self.after(moves).moves(i) ==> self.due(start, moves, i) is Some
        &&& self.due(start, moves, i) matches Some(t) ==> t <= start + (self.table.t_eat
            + self.table.t_sleep) * self.spent(moves, quota)
    }
}

/// A longer time for each transition worked off.
proof fn lemma_time_grows(d: int, a: int, b: int)
    requires
        0 <= d,
        a <= b,
    ensures
        d * a <= d * b,
        a + 1 <= b ==> d * a + d <= d * b,
{
    assert(d * a <= d * b) by (nonlinear_arith)
        requires
            0 <= d,
            a <= b,
    ;
    if a + 1 <= b {
        assert(d * a + d <= d * b) by (nonlinear_arith)
            requires
                0 <= d,
                a + 1 <= b,
        ;
    }
}

/// A step that lets another philosopher move names it among its wake-ups:
/// no wake-up is lost.
pub proof fn lemma_step_wakes(t: State, p: int, now: u64, i: int)
    requires
        t.wf(),
        0 <= p < t.n(),
        0 <= i < t.n(),
        i != p,
        !t.moves(i),
        t.step(p, now).0.moves(i),
    ensures
        t.step(p, now).1.wake_first == Some(i as u8) || t.step(p, now).1.wake_second == Some(
            i as u8,
        ),
{
    lemma_table_order(t.n());
    lemma_step_touches_its_own(t, p, now);
    lemma_neighbour_at(t.first(p), p, t.n());
    lemma_neighbour_at(t.second(p), p, t.n());
    assert(t.philo_wf(p));
    assert(t.philo_wf(i));
    assert(t.fork_wf(t.first(i)));
    assert(t.fork_wf(t.second(i)));
}

/// A step after which its philosopher can move tells the agent to sleep
/// or to yield, and a sleep is that of a philosopher that could move, for
/// no longer than a meal or a sleep.
pub proof fn lemma_step_sets_a_timer(t: State, p: int, now: u64)
    requires
        t.wf(),
        0 <= p < t.n(),
    ensures
        t.step(p, now).0.moves(p) ==> t.step(p, now).1.action is Sleep || t.step(
            p,
            now,
        ).1.action is Yield,
        t.step(p, now).1.action matches Action::Sleep(ms) ==> t.moves(p) && ms
            <= t.table.t_eat + t.table.t_sleep,
{
    lemma_table_order(t.n());
    assert(t.philo_wf(p));
    assert(t.fork_wf(t.first(p)));
    assert(t.fork_wf(t.second(p)));
}

/// A run in which nobody has died is one in which nobody had died before
/// its last move.
proof fn lemma_no_death_before(s: State, moves: Seq<Move>)
    requires
        moves.len() > 0,
        !(s.after(moves).outcome is Died),
    ensures
        !(s.after(moves.drop_last()).outcome is Died),
        moves.last() matches Move::Poll { now } ==> s.after(moves) == s.after(moves.drop_last()),
{
}

/// In a run without a death in which every move is on time, whoever can
/// move is due, and nobody is due later than the work done allows.
proof fn lemma_on_time_run_is_prompt(table: Table, start: u64, moves: Seq<Move>, quota: u32)
    requires
        table.valid(),
        table.n_times == Some(quota),
        seated(moves, table.n as int),
        State::init(table, start).on_time(start, moves),
        !(State::init(table, start).after(moves).outcome is Died),
    ensures
        forall|i: int|
            0 <= i < table.n ==> #[trigger] State::init(table, start).prompt(
                start,
                moves,
                quota,
                i,
            ),
        0 <= State::init(table, start).spent(moves, quota),
    decreases moves.len(),
{
    let init = State::init(table, start);
    let d = table.t_eat + table.t_sleep;
    lemma_init_wf(table, start);
    if moves.len() == 0 {
        assert(d * 0 == 0) by (nonlinear_arith);
    } else {
        let before = moves.drop_last();
        lemma_seated_before(moves, table.n as int);
        lemma_no_death_before(init, moves);
        lemma_run_keeps_invariant(init, before);
        let t = init.after(before);
        let s = init.after(moves);
        lemma_on_time_run_is_prompt(table, start, before, quota);
        let spent_before = init.spent(before, quota);
        let spent_now = init.spent(moves, quota);
        match moves.last() {
            Move::Step { philosopher, now } => {
                let p = philosopher as int;
                lemma_step_works_off(t, p, now, quota);
                lemma_step_sets_a_timer(t, p, now);
                lemma_step_touches_its_own(t, p, now);
                lemma_time_grows(d, spent_before, spent_now);
                assert(init.prompt(start, before, quota, p));
                assert forall|i: int| 0 <= i < table.n implies #[trigger] init.prompt(
                    start,
                    moves,
                    quota,
                    i,
                ) by {
                    assert(init.prompt(start, before, quota, i));
                    if i != p && !t.moves(i) && s.moves(i) {
                        lemma_step_wakes(t, p, now, i);
                    }
                }
            },
            Move::Poll { now } => {
                assert(spent_now == spent_before);
                assert forall|i: int| 0 <= i < table.n implies #[trigger] init.prompt(
                    start,
                    moves,
                    quota,
                    i,
                ) by {
                    assert(init.prompt(start, before, quota, i));
                }
            },
        }
    }
}

/// In a run without a death, whoever can move is due, and nobody is due
/// later than one sleep and one meal after the latest move.
proof fn lemma_run_is_soon(table: Table, start: u64, moves: Seq<Move>)
    requires
        table.valid(),
        seated(moves, table.n as int),
        !(State::init(table, start).after(moves).outcome is Died),
    ensures
        forall|i: int|
            0 <= i < table.n ==> #[trigger] State::init(table, start).soon(start, moves, i),
    decreases moves.len(),
{
    let init = State::init(table, start);
    lemma_init_wf(table, start);
    if moves.len() > 0 {
        let before = moves.drop_last();
        lemma_seated_before(moves, table.n as int);
        lemma_no_death_before(init, moves);
        lemma_run_keeps_invariant(init, before);
        let t = init.after(before);
        let s = init.after(moves);
        lemma_run_is_soon(table, start, before);
        match moves.last() {
            Move::Step { philosopher, now } => {
                let p = philosopher as int;
                lemma_step_sets_a_timer(t, p, now);
                lemma_step_touches_its_own(t, p, now);
                assert forall|i: int| 0 <= i < table.n implies #[trigger] init.soon(
                    start,
                    moves,
                    i,
                ) by {
                    assert(init.soon(start, before, i));
                    if i != p && !t.moves(i) && s.moves(i) {
                        lemma_step_wakes(t, p, now, i);
                    }
                }
            },
            Move::Poll { now } => {
                assert forall|i: int| 0 <= i < table.n implies #[trigger] init.soon(
                    start,
                    moves,
                    i,
                ) by {
                    assert(init.soon(start, before, i));
                }
            },
        }
    }
}

/// No run stalls. While a run of two or more is on, with or without a
/// quota, there is a philosopher that can move and whose agent is due, no
/// later than one sleep and one meal after the latest move; its step
/// changes its phase.
pub proof fn lemma_run_never_stalls(table: Table, start: u64, moves: Seq<Move>) -> (i: int)
    requires
        table.valid(),
        table.n >= 2,
        seated(moves, table.n as int),
        State::init(table, start).after(moves).outcome == Outcome::Running,
    ensures
        0 <= i < table.n,
        State::init(table, start).after(moves).moves(i),
        State::init(table, start).due(start, moves, i) matches Some(t) && t <= State::init(
            table,
            start,
        ).latest(start, moves) + table.t_eat + table.t_sleep,
{
    let init = State::init(table, start);
    lemma_init_wf(table, start);
    lemma_run_keeps_invariant(init, moves);
    lemma_run_is_soon(table, start, moves);
    let i = lemma_no_deadlock(init.after(moves));
    assert(init.soon(start, moves, i));
    i
}

/// Bounded runs end in bounded time. Take a run of two or more
/// philosophers with a quota of `m` meals, in which nobody dies and every
/// move is on time. Once every agent that was due by the time `deadline`
/// has stepped, where `deadline` is five sleeps and five meals for each
/// meal of each philosopher after the start, the run has completed.
pub proof fn lemma_bounded_run_ends_in_time(
    table: Table,
    start: u64,
    moves: Seq<Move>,
    quota: u32,
    deadline: int,
)
    requires
        table.valid(),
        table.n >= 2,
        table.n_times == Some(quota),
        seated(moves, table.n as int),
        State::init(table, start).on_time(start, moves),
        !(State::init(table, start).after(moves).outcome is Died),
        deadline >= start + table.n * (table.t_eat + table.t_sleep) * quota * 5,
        forall|i: int|
            0 <= i < table.n ==> (#[trigger] State::init(table, start).due(start, moves, i)
                matches Some(t) ==> t > deadline),
    ensures
        State::init(table, start).after(moves).outcome == Outcome::Completed,
{
    let init = State::init(table, start);
    let s = init.after(moves);
    let d = table.t_eat + table.t_sleep;
    lemma_init_wf(table, start);
    lemma_run_keeps_invariant(init, moves);
    lemma_on_time_run_is_prompt(table, start, moves, quota);
    lemma_initial_work(table, start, quota);
    if s.outcome == Outcome::Running {
        let i = lemma_no_deadlock(s);
        assert(init.prompt(start, moves, quota, i));
        lemma_time_grows(d, init.spent(moves, quota), 5 * quota * table.n);
        assert(table.n * d * quota * 5 == d * (5 * quota * table.n)) by (nonlinear_arith);
    }
}

} // verus!
