//! The table: timing constants, the meal quota and the count of agents that
//! have met it.
use vstd::prelude::*;

verus! {

/// What a quota check tells the agent that made it.
#[derive(Clone, Copy, Debug, PartialEq, Eq, Structural)]
pub enum Quota {
    /// The agent has not eaten the required number of meals.
    Hungry,
    /// The agent has met the quota; others have not yet.
    Full,
    /// The agent has met the quota and was the last one to do so.
    AllFull,
}

/// Shared state of one run. All times are in milliseconds.
#[derive(Clone, Copy, Debug, PartialEq, Eq, Structural)]
pub struct Table {
    /// Number of philosophers, and of forks.
    pub n: u8,
    /// Longest time a philosopher survives without beginning a meal.
    pub t_die: u64,
    /// Duration of one sleep.
    pub t_sleep: u64,
    /// Duration of one meal.
    pub t_eat: u64,
    /// Meals required of each philosopher; `None` when the run is unbounded.
    pub n_times: Option<u32>,
    /// Number of philosophers that have eaten `n_times` meals.
    pub n_full: u32,
}

impl Table {
    /// The counter never exceeds the number of philosophers.
    pub open spec fn wf(&self) -> bool {
        self.n_full <= self.n
    }

    /// The configuration is one a run may start from: at least one
    /// philosopher, positive durations, and a positive quota if there is one.
    pub open spec fn valid(&self) -> bool {
        &&& self.n >= 1
        &&& self.t_die >= 1
        &&& self.t_sleep >= 1
        &&& self.t_eat >= 1
        &&& self.n_times matches Some(m) ==> m >= 1
    }

    /// The time between two polls of the monitor: a tenth of the time to
    /// die, and at least one millisecond.
    pub open spec fn poll_time(&self) -> u64 {
        if self.t_die / 10 >= 1 {
            self.t_die / 10
        } else {
            1
        }
    }

    /// Whether `times_eaten` meals meet the quota.
    pub open spec fn meets_quota(&self, times_eaten: u32) -> bool {
        self.n_times == Some(times_eaten)
    }

    /// The table after an agent that ate `times_eaten` meals made its quota
    /// check.
    pub open spec fn after_record(&self, times_eaten: u32) -> Table {
        if self.meets_quota(times_eaten) {
            Table { n_full: (self.n_full + 1) as u32, ..*self }
        } else {
            *self
        }
    }

    /// The answer of the quota check made on this table.
    pub open spec fn quota_answer(&self, times_eaten: u32) -> Quota {
        if !self.meets_quota(times_eaten) {
            Quota::Hungry
        } else if self.n_full + 1 == self.n {
            Quota::AllFull
        } else {
            Quota::Full
        }
    }

    /// A table on which nobody has eaten yet.
    pub fn new(n_philosophers: u8, n_times: Option<u32>, t_die: u64, t_sleep: u64, t_eat: u64) -> (table: Table)
        ensures
            table == (Table { n: n_philosophers, t_die, t_sleep, t_eat, n_times, n_full: 0 }),
            table.wf(),
    {
        Table { n: n_philosophers, t_die, t_sleep, t_eat, n_times, n_full: 0 }
    }

    /// Whether the configuration is valid.
    pub fn is_valid(&self) -> (ok: bool)
        ensures
            ok == self.valid(),
    {
        let quota_ok = match self.n_times {
            Some(m) => m >= 1,
            None => true,
        };
        self.n >= 1 && self.t_die >= 1 && self.t_sleep >= 1 && self.t_eat >= 1 && quota_ok
    }

    /// How long the monitor waits between two polls, in milliseconds.
    pub fn poll_interval(&self) -> (ms: u64)
        ensures
            ms == self.poll_time(),
            1 <= ms,
            self.t_die >= 10 ==> ms * 10 <= self.t_die,
    {
        let tenth = self.t_die / 10;
        if tenth >= 1 {
            tenth
        } else {
            1
        }
    }

    /// The quota check of one agent: counts the agent as full when
    /// `times_eaten` equals the quota, and tells whether that made everybody
    /// full. The increment and the comparison are one step on `&mut self`.
    ///
    /// An agent makes this call once per meal, so it meets the quota at most
    /// once; the counter then has room for it.
    pub fn record(&mut self, times_eaten: u32) -> (answer: Quota)
        requires
            old(self).wf(),
            old(self).meets_quota(times_eaten) ==> old(self).n_full < old(self).n,
        ensures
            *final(self) == old(self).after_record(times_eaten),
            answer == old(self).quota_answer(times_eaten),
            final(self).wf(),
    {
        match self.n_times {
            Some(m) => {
                if m == times_eaten {
                    self.n_full = self.n_full + 1;
                    if self.n_full == self.n as u32 {
                        Quota::AllFull
                    } else {
                        Quota::Full
                    }
                } else {
                    Quota::Hungry
                }
            },
            None => Quota::Hungry,
        }
    }
}

} // verus!
