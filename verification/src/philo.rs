//! One philosopher: its private counters and the phase it is in.
use vstd::prelude::*;
use crate::event::{Event, EventKind};
use crate::table::Table;

verus! {

/// Where a philosopher is in its cycle.
///
/// The cycle is sleeping, eating, thinking. Between sleeping and eating the
/// philosopher may have to wait for a fork: for its first one, holding
/// nothing, or for its second one, holding the first.
#[derive(Clone, Copy, Debug, PartialEq, Eq, Structural)]
pub enum Phase {
    /// Between meals, holding nothing. Every philosopher starts here.
    Thinking,
    /// Asleep for `t_sleep`, holding nothing.
    Sleeping,
    /// Blocked on the first fork, holding nothing.
    WaitingFirst,
    /// Blocked on the second fork, holding the first.
    WaitingSecond,
    /// Eating for `t_eat`, holding both forks.
    Eating,
    /// Finished: the quota is met or the run was stopped.
    Done,
}

/// A philosopher. `times` belongs to the agent alone; `last_eat` is read by
/// the monitor too, which is why both live behind the same lock in a run.
#[derive(Clone, Copy, Debug, PartialEq, Eq, Structural)]
pub struct Philo {
    /// Index at the table, from 0.
    pub n: u8,
    /// Meals finished.
    pub times: u32,
    /// Duration of one meal, in milliseconds.
    pub t_eat: u64,
    /// Duration of one sleep, in milliseconds.
    pub t_sleep: u64,
    /// When the last meal began, or when the philosopher sat down if it has
    /// not eaten yet; in milliseconds since the start of the run.
    pub last_eat: u64,
    /// Current phase.
    pub phase: Phase,
}

impl Philo {
    /// The meal counter after one more meal. It stops at the largest value
    /// of its type, which only an unbounded run can reach.
    pub open spec fn next_times(&self) -> u32 {
        if self.times < u32::MAX {
            (self.times + 1) as u32
        } else {
            self.times
        }
    }

    /// The log entry of this philosopher for `kind` at `now`.
    pub open spec fn event(&self, now: u64, kind: EventKind) -> Event {
        Event { time: now, philosopher: self.n, kind }
    }

    /// Philosopher `n` as it sits down at `now`: thinking, with no meal
    /// eaten and the timing constants of `table`.
    pub fn new(n: u8, table: &Table, now: u64) -> (p: Philo)
        ensures
            p == (Philo {
                n,
                times: 0,
                t_eat: table.t_eat,
                t_sleep: table.t_sleep,
                last_eat: now,
                phase: Phase::Thinking,
            }),
    {
        Philo {
            n,
            last_eat: now,
            times: 0,
            t_eat: table.t_eat,
            t_sleep: table.t_sleep,
            phase: Phase::Thinking,
        }
    }

    /// Goes to sleep at `now`. The caller suspends the agent for `t_sleep`.
    pub fn sleep(&mut self, now: u64) -> (event: Event)
        ensures
            *final(self) == (Philo { phase: Phase::Sleeping, ..*old(self) }),
            event == old(self).event(now, EventKind::Sleeping),
    {
        self.phase = Phase::Sleeping;
        Event { time: now, philosopher: self.n, kind: EventKind::Sleeping }
    }

    /// Begins a meal at `now`, and publishes that time as the beginning of
    /// the last meal. The caller holds both forks and suspends the agent for
    /// `t_eat`.
    pub fn eat(&mut self, now: u64) -> (event: Event)
        ensures
            *final(self) == (Philo { phase: Phase::Eating, last_eat: now, ..*old(self) }),
            event == old(self).event(now, EventKind::Eating),
    {
        self.phase = Phase::Eating;
        self.last_eat = now;
        Event { time: now, philosopher: self.n, kind: EventKind::Eating }
    }

    /// Counts the meal that has just ended. The caller makes this call
    /// once for each meal, after the agent was suspended for `t_eat`; a
    /// meal that a cancellation cuts short is not counted.
    pub fn count_meal(&mut self)
        ensures
            *final(self) == (Philo { times: old(self).next_times(), ..*old(self) }),
    {
        if self.times < u32::MAX {
            self.times = self.times + 1;
        }
    }

    /// Starts thinking at `now`. Thinking takes no fork and changes no
    /// counter.
    pub fn think(&mut self, now: u64) -> (event: Event)
        ensures
            *final(self) == (Philo { phase: Phase::Thinking, ..*old(self) }),
            event == old(self).event(now, EventKind::Thinking),
    {
        self.phase = Phase::Thinking;
        Event { time: now, philosopher: self.n, kind: EventKind::Thinking }
    }
}

} // verus!
