//! The simulation as a state machine.
//!
//! A run is one [`Simulation`] behind one lock. Each agent calls
//! [`Simulation::step`] whenever it resumes (after a sleep, a meal, a yield,
//! or a wake-up) and performs the [`Action`] that comes back; the monitor
//! calls [`Simulation::monitor`] at every poll. Each call is one atomic
//! transition of [`State`], the mathematical model that the contracts speak
//! of, so no agent ever observes a fork taken without the meal time being
//! published, or the counter of full philosophers raised without the
//! comparison that follows it.
use vstd::prelude::*;
use crate::config::ConfigError;
use crate::event::{Event, EventKind, Outcome};
use crate::forks::{first_fork, fork_order, neighbour, neighbour_at, second_fork, Fork};
use crate::philo::{Phase, Philo};
use crate::preservation::{lemma_init_wf, lemma_monitor_wf, lemma_starving_found, lemma_step_wf};
use crate::table::{Quota, Table};

verus! {

/// What the agent does after a step, before it steps again.
#[derive(Clone, Copy, Debug, PartialEq, Eq)]
pub enum Action {
    /// Suspend for this many milliseconds.
    Sleep(u64),
    /// Give other agents a chance to run.
    Yield,
    /// Block until another agent's step names this philosopher in its
    /// wake-ups, or the run is cancelled.
    Wait,
    /// Leave the loop: the agent is done.
    Stop,
}

/// The visible part of one transition of an agent.
#[derive(Clone, Copy, Debug, PartialEq, Eq)]
pub struct Step {
    /// The phase change to log, if there was one.
    pub event: Option<Event>,
    /// What the agent does next.
    pub action: Action,
    /// The philosopher to wake because the stepping agent's first fork
    /// became free while that philosopher waited for it.
    pub wake_first: Option<u8>,
    /// The same for the stepping agent's second fork.
    pub wake_second: Option<u8>,
    /// Whether this step completed the run: the last philosopher met the
    /// quota.
    pub completed: bool,
}

/// What one poll of the monitor found.
#[derive(Clone, Copy, Debug, PartialEq, Eq)]
pub enum Verdict {
    /// Nobody starved; poll again.
    Alive,
    /// This philosopher starved just now; the run is cancelled.
    Starved(u8),
    /// The run had ended before this poll.
    Over,
}

/// The number of philosophers among `philos` that have eaten exactly
/// `quota` meals.
pub open spec fn count_full(philos: Seq<Philo>, quota: Option<u32>) -> nat
    decreases philos.len(),
{
    if philos.len() == 0 {
        0
    } else {
        count_full(philos.drop_last(), quota) + (if quota == Some(philos.last().times) {
            1nat
        } else {
            0nat
        })
    }
}

/// The mathematical state of a run.
#[verifier::ext_equal]
pub struct State {
    pub table: Table,
    pub forks: Seq<Fork>,
    pub philos: Seq<Philo>,
    pub outcome: Outcome,
}

impl State {
    /// Number of philosophers.
    pub open spec fn n(self) -> int {
        self.table.n as int
    }

    /// The fork that philosopher `i` takes first.
    pub open spec fn first(self, i: int) -> int {
        first_fork(i, self.n())
    }

    /// The fork that philosopher `i` takes second.
    pub open spec fn second(self, i: int) -> int {
        second_fork(i, self.n())
    }

    /// Philosopher `i` is in a phase in which it holds fork `f`.
    pub open spec fn holds(self, i: int, f: int) -> bool {
        match self.philos[i].phase {
            Phase::WaitingSecond => f == self.first(i),
            Phase::Eating => f == self.first(i) || f == self.second(i),
            _ => false,
        }
    }

    /// The fork that philosopher `i` is waiting for, if it is waiting.
    pub open spec fn waits_for(self, i: int) -> Option<int> {
        match self.philos[i].phase {
            Phase::WaitingFirst => Some(self.first(i)),
            Phase::WaitingSecond => Some(self.second(i)),
            _ => None,
        }
    }

    /// Philosopher `i` waits for a fork that somebody holds: stepping it
    /// would change nothing.
    pub open spec fn blocked(self, i: int) -> bool {
        self.waits_for(i) matches Some(f) && self.forks[f].holder is Some
    }

    /// The run is on and philosopher `i` is neither done nor blocked: its
    /// next step changes its phase.
    pub open spec fn moves(self, i: int) -> bool {
        &&& self.outcome == Outcome::Running
        &&& self.philos[i].phase != Phase::Done
        &&& !self.blocked(i)
    }

    /// Philosopher `i` has eaten exactly the required number of meals.
    pub open spec fn is_full(self, i: int) -> bool {
        self.table.n_times == Some(self.philos[i].times)
    }

    /// What holds of philosopher `i` in every state of a run.
    pub open spec fn philo_wf(self, i: int) -> bool {
        let p = self.philos[i];
        &&& p.n == i
        &&& p.t_eat == self.table.t_eat
        &&& p.t_sleep == self.table.t_sleep
        &&& self.table.n_times matches Some(m) ==> p.times <= m
        &&& p.phase == Phase::Eating ==> self.first(i) != self.second(i)
        &&& self.holds(i, self.first(i)) ==> self.forks[self.first(i)].holder == Some(i as u8)
        &&& self.holds(i, self.second(i)) ==> self.forks[self.second(i)].holder == Some(i as u8)
        &&& self.is_full(i) ==> p.phase == Phase::Done
        &&& self.outcome == Outcome::Running && p.phase == Phase::Done ==> self.is_full(i)
    }

    /// What holds of fork `f` in every state of a run: whoever the fork
    /// records as its holder is a philosopher in a phase that holds it.
    pub open spec fn fork_wf(self, f: int) -> bool {
        self.forks[f].holder matches Some(j) ==> j < self.n() && self.holds(j as int, f)
    }

    /// How the outcome and the counter of full philosophers go together.
    pub open spec fn outcome_wf(self) -> bool {
        match self.outcome {
            Outcome::Running => self.table.n_full < self.n(),
            Outcome::Completed => self.table.n_full == self.n(),
            Outcome::Died(d) => d < self.n() && self.table.n_full < self.n(),
        }
    }

    /// The invariant of a run.
    pub open spec fn wf(self) -> bool {
        &&& self.table.valid()
        &&& self.forks.len() == self.n()
        &&& self.philos.len() == self.n()
        &&& forall|i: int| 0 <= i < self.n() ==> #[trigger] self.philo_wf(i)
        &&& forall|f: int| 0 <= f < self.n() ==> #[trigger] self.fork_wf(f)
        &&& self.table.n_full == count_full(self.philos, self.table.n_times)
        &&& self.outcome_wf()
    }

    /// The state in which a run on `table` starts at `now`: every fork free,
    /// every philosopher thinking with no meal eaten.
    pub open spec fn init(table: Table, now: u64) -> State {
        State {
            table: Table { n_full: 0, ..table },
            forks: Seq::new(table.n as nat, |f: int| Fork { holder: None }),
            philos: Seq::new(
                table.n as nat,
                |i: int|
                    Philo {
                        n: i as u8,
                        times: 0,
                        t_eat: table.t_eat,
                        t_sleep: table.t_sleep,
                        last_eat: now,
                        phase: Phase::Thinking,
                    },
            ),
            outcome: Outcome::Running,
        }
    }

    /// This state with philosopher `i` replaced by `p`.
    pub open spec fn with_philo(self, i: int, p: Philo) -> State {
        State { philos: self.philos.update(i, p), ..self }
    }

    /// This state with philosopher `i` in `phase`.
    pub open spec fn with_phase(self, i: int, phase: Phase) -> State {
        self.with_philo(i, Philo { phase, ..self.philos[i] })
    }

    /// This state with `holder` at fork `f`.
    pub open spec fn with_fork(self, f: int, holder: Option<u8>) -> State {
        State { forks: self.forks.update(f, Fork { holder }), ..self }
    }

    /// This state with fork `f` freed if philosopher `i` holds it.
    pub open spec fn without(self, f: int, i: int) -> State {
        if self.forks[f].holder == Some(i as u8) {
            self.with_fork(f, None)
        } else {
            self
        }
    }

    /// This state with the forks of philosopher `i` freed, the second one
    /// first: the reverse of the order in which they are taken.
    pub open spec fn released(self, i: int) -> State {
        self.without(self.second(i), i).without(self.first(i), i)
    }

    /// The philosopher to wake when philosopher `i` frees fork `f`: its
    /// neighbour at that fork, if it waits for it.
    pub open spec fn waiter(self, f: int, i: int) -> Option<u8> {
        let j = neighbour_at(f, i, self.n());
        if j != i && self.waits_for(j) == Some(f) {
            Some(j as u8)
        } else {
            None
        }
    }

    /// A step that logs nothing and wakes nobody.
    pub open spec fn quiet(action: Action) -> Step {
        Step { event: None, action, wake_first: None, wake_second: None, completed: false }
    }

    /// Philosopher `i` leaves the run: it frees what it holds and is done.
    pub open spec fn stop(self, i: int) -> (State, Step) {
        (self.released(i).with_phase(i, Phase::Done), Self::quiet(Action::Stop))
    }

    /// Philosopher `i` goes to sleep.
    pub open spec fn go_to_sleep(self, i: int, now: u64) -> (State, Step) {
        let p = self.philos[i];
        (
            self.with_phase(i, Phase::Sleeping),
            Step {
                event: Some(p.event(now, EventKind::Sleeping)),
                ..Self::quiet(Action::Sleep(p.t_sleep))
            },
        )
    }

    /// Philosopher `i`, holding nothing, reaches for its first fork, and for
    /// the second one if it got the first.
    pub open spec fn reach_first(self, i: int, now: u64) -> (State, Step) {
        if self.forks[self.first(i)].holder is None {
            self.with_fork(self.first(i), Some(i as u8)).reach_second(i, now)
        } else {
            (self.with_phase(i, Phase::WaitingFirst), Self::quiet(Action::Wait))
        }
    }

    /// Philosopher `i`, holding its first fork, reaches for the second one.
    /// If it gets it, the meal begins and its time is published in the same
    /// transition.
    pub open spec fn reach_second(self, i: int, now: u64) -> (State, Step) {
        let p = self.philos[i];
        if self.forks[self.second(i)].holder is None {
            (
                self.with_fork(self.second(i), Some(i as u8)).with_philo(
                    i,
                    Philo { phase: Phase::Eating, last_eat: now, ..p },
                ),
                Step {
                    event: Some(p.event(now, EventKind::Eating)),
                    ..Self::quiet(Action::Sleep(p.t_eat))
                },
            )
        } else {
            (self.with_phase(i, Phase::WaitingSecond), Self::quiet(Action::Wait))
        }
    }

    /// Philosopher `i` ends its meal: the meal is counted, both forks are
    /// freed, and the quota check is made, all in one transition.
    pub open spec fn finish_meal(self, i: int, now: u64) -> (State, Step) {
        let p = self.philos[i];
        let times = p.next_times();
        let answer = self.table.quota_answer(times);
        let phase = if answer == Quota::Hungry {
            Phase::Thinking
        } else {
            Phase::Done
        };
        (
            State {
                table: self.table.after_record(times),
                outcome: if answer == Quota::AllFull {
                    Outcome::Completed
                } else {
                    self.outcome
                },
                ..self.released(i).with_philo(i, Philo { times, phase, ..p })
            },
            Step {
                event: Some(p.event(now, EventKind::Thinking)),
                action: if answer == Quota::Hungry {
                    Action::Yield
                } else {
                    Action::Stop
                },
                wake_first: self.waiter(self.first(i), i),
                wake_second: self.waiter(self.second(i), i),
                completed: answer == Quota::AllFull,
            },
        )
    }

    /// One transition of philosopher `i` at time `now`.
    ///
    /// Once the run has ended, by completion or by a death, every agent
    /// that steps frees its forks and stops. While it runs, a thinking
    /// philosopher goes to sleep; one that wakes from sleep, or that waits,
    /// reaches for its forks; one that eats ends its meal.
    pub open spec fn step(self, i: int, now: u64) -> (State, Step) {
        if self.outcome != Outcome::Running {
            self.stop(i)
        } else {
            match self.philos[i].phase {
                Phase::Thinking => self.go_to_sleep(i, now),
                Phase::Sleeping | Phase::WaitingFirst => self.reach_first(i, now),
                Phase::WaitingSecond => self.reach_second(i, now),
                Phase::Eating => self.finish_meal(i, now),
                Phase::Done => self.stop(i),
            }
        }
    }

    /// Philosopher `i` has gone longer than `t_die` without beginning a
    /// meal, and is neither in the middle of one nor done.
    pub open spec fn starving(self, i: int, now: u64) -> bool {
        &&& self.philos[i].phase != Phase::Eating
        &&& self.philos[i].phase != Phase::Done
        &&& now - self.philos[i].last_eat > self.table.t_die
    }

    /// The lowest-indexed starving philosopher below `k`.
    pub open spec fn starving_below(self, k: int, now: u64) -> Option<int>
        decreases k,
    {
        if k <= 0 {
            None
        } else if self.starving_below(k - 1, now) is Some {
            self.starving_below(k - 1, now)
        } else if self.starving(k - 1, now) {
            Some(k - 1)
        } else {
            None
        }
    }

    /// One poll of the monitor at time `now`.
    pub open spec fn monitor(self, now: u64) -> (State, Verdict) {
        if self.outcome != Outcome::Running {
            (self, Verdict::Over)
        } else {
            match self.starving_below(self.n(), now) {
                Some(d) => (
                    State { outcome: Outcome::Died(d as u8), ..self },
                    Verdict::Starved(d as u8),
                ),
                None => (self, Verdict::Alive),
            }
        }
    }
}

/// A run: the table, its forks and its philosophers.
pub struct Simulation {
    table: Table,
    forks: Vec<Fork>,
    philos: Vec<Philo>,
    outcome: Outcome,
}

impl View for Simulation {
    type V = State;

    closed spec fn view(&self) -> State {
        State { table: self.table, forks: self.forks@, philos: self.philos@, outcome: self.outcome }
    }
}

impl Simulation {
    /// Sets the table: validates `table`, lays out one fork per philosopher
    /// and seats the philosophers at `now`. An invalid configuration is
    /// rejected before anything of a run exists.
    pub fn new(table: Table, now: u64) -> (r: Result<Simulation, ConfigError>)
        ensures
            table.valid() ==> (r matches Ok(sim) && sim@ == State::init(table, now) && sim@.wf()),
            !table.valid() ==> r == Err::<Simulation, ConfigError>(ConfigError::NotPositive),
    {
        if !table.is_valid() {
            return Err(ConfigError::NotPositive);
        }
        let table = Table::new(table.n, table.n_times, table.t_die, table.t_sleep, table.t_eat);
        let mut forks: Vec<Fork> = Vec::new();
        let mut philos: Vec<Philo> = Vec::new();
        let mut i: u8 = 0;
        while i < table.n
            invariant
                i <= table.n,
                forks@ =~= Seq::new(i as nat, |f: int| Fork { holder: None }),
                philos@ =~= Seq::new(
                    i as nat,
                    |k: int|
                        Philo {
                            n: k as u8,
                            times: 0,
                            t_eat: table.t_eat,
                            t_sleep: table.t_sleep,
                            last_eat: now,
                            phase: Phase::Thinking,
                        },
                ),
            decreases table.n - i,
        {
            forks.push(Fork::new());
            philos.push(Philo::new(i, &table, now));
            i = i + 1;
        }
        let sim = Simulation { table, forks, philos, outcome: Outcome::Running };
        proof {
            lemma_init_wf(table, now);
        }
        Ok(sim)
    }

    /// The vectors have one entry per philosopher.
    spec fn shaped(&self) -> bool {
        &&& self.forks@.len() == self.table.n
        &&& self.philos@.len() == self.table.n
    }

    /// Frees the forks that philosopher `i` holds, the second one first.
    fn release_both(&mut self, i: u8)
        requires
            old(self).shaped(),
            i < old(self).table.n,
        ensures
            final(self)@ == old(self)@.released(i as int),
            final(self).shaped(),
    {
        let (first, second) = fork_order(i, self.table.n);
        self.forks[second as usize].release(i);
        self.forks[first as usize].release(i);
    }

    fn stop(&mut self, i: u8) -> (step: Step)
        requires
            old(self).shaped(),
            i < old(self).table.n,
        ensures
            final(self)@ =~~= old(self)@.stop(i as int).0,
            step == old(self)@.stop(i as int).1,
    {
        self.release_both(i);
        self.philos[i as usize].phase = Phase::Done;
        Step { event: None, action: Action::Stop, wake_first: None, wake_second: None, completed: false }
    }

    fn go_to_sleep(&mut self, i: u8, now: u64) -> (step: Step)
        requires
            old(self).shaped(),
            i < old(self).table.n,
        ensures
            final(self)@ =~~= old(self)@.go_to_sleep(i as int, now).0,
            step == old(self)@.go_to_sleep(i as int, now).1,
    {
        let event = self.philos[i as usize].sleep(now);
        Step {
            event: Some(event),
            action: Action::Sleep(self.philos[i as usize].t_sleep),
            wake_first: None,
            wake_second: None,
            completed: false,
        }
    }

    fn reach_first(&mut self, i: u8, now: u64) -> (step: Step)
        requires
            old(self).shaped(),
            i < old(self).table.n,
        ensures
            final(self)@ =~~= old(self)@.reach_first(i as int, now).0,
            step == old(self)@.reach_first(i as int, now).1,
    {
        let (first, _) = fork_order(i, self.table.n);
        if self.forks[first as usize].try_acquire(i) {
            self.reach_second(i, now)
        } else {
            self.philos[i as usize].phase = Phase::WaitingFirst;
            Step { event: None, action: Action::Wait, wake_first: None, wake_second: None, completed: false }
        }
    }

    fn reach_second(&mut self, i: u8, now: u64) -> (step: Step)
        requires
            old(self).shaped(),
            i < old(self).table.n,
        ensures
            final(self)@ =~~= old(self)@.reach_second(i as int, now).0,
            step == old(self)@.reach_second(i as int, now).1,
    {
        let (_, second) = fork_order(i, self.table.n);
        if self.forks[second as usize].try_acquire(i) {
            let event = self.philos[i as usize].eat(now);
            Step {
                event: Some(event),
                action: Action::Sleep(self.philos[i as usize].t_eat),
                wake_first: None,
                wake_second: None,
                completed: false,
            }
        } else {
            self.philos[i as usize].phase = Phase::WaitingSecond;
            Step { event: None, action: Action::Wait, wake_first: None, wake_second: None, completed: false }
        }
    }

    /// The neighbour of philosopher `i` at its fork `f`, if it waits for
    /// that fork.
    fn waiter(&self, f: u8, i: u8) -> (w: Option<u8>)
        requires
            self.shaped(),
            i < self.table.n,
            f == self@.first(i as int) || f == self@.second(i as int),
        ensures
            w == self@.waiter(f as int, i as int),
    {
        let j = neighbour(f, i, self.table.n);
        if j == i {
            return None;
        }
        let (first, second) = fork_order(j, self.table.n);
        let waits = match self.philos[j as usize].phase {
            Phase::WaitingFirst => first == f,
            Phase::WaitingSecond => second == f,
            _ => false,
        };
        if waits {
            Some(j)
        } else {
            None
        }
    }

    fn finish_meal(&mut self, i: u8, now: u64) -> (step: Step)
        requires
            old(self).shaped(),
            old(self).table.wf(),
            old(self).table.n_full < old(self).table.n,
            i < old(self).table.n,
        ensures
            final(self)@ =~~= old(self)@.finish_meal(i as int, now).0,
            step == old(self)@.finish_meal(i as int, now).1,
    {
        let (first, second) = fork_order(i, self.table.n);
        let wake_first = self.waiter(first, i);
        let wake_second = self.waiter(second, i);
        self.philos[i as usize].count_meal();
        self.release_both(i);
        let event = self.philos[i as usize].think(now);
        let answer = self.table.record(self.philos[i as usize].times);
        match answer {
            Quota::Hungry => Step {
                event: Some(event),
                action: Action::Yield,
                wake_first,
                wake_second,
                completed: false,
            },
            Quota::Full => {
                self.philos[i as usize].phase = Phase::Done;
                Step {
                    event: Some(event),
                    action: Action::Stop,
                    wake_first,
                    wake_second,
                    completed: false,
                }
            },
            Quota::AllFull => {
                self.philos[i as usize].phase = Phase::Done;
                self.outcome = Outcome::Completed;
                Step {
                    event: Some(event),
                    action: Action::Stop,
                    wake_first,
                    wake_second,
                    completed: true,
                }
            },
        }
    }

    /// One transition of the agent of philosopher `i`, made when the agent
    /// resumes at time `now`. The agent logs the event, wakes the
    /// philosophers named, and performs the action.
    pub fn step(&mut self, i: u8, now: u64) -> (step: Step)
        requires
            old(self)@.wf(),
            i < old(self)@.n(),
        ensures
            final(self)@ == old(self)@.step(i as int, now).0,
            step == old(self)@.step(i as int, now).1,
            final(self)@.wf(),
    {
        proof {
            lemma_step_wf(self@, i as int, now);
        }
        match self.outcome {
            Outcome::Running => match self.philos[i as usize].phase {
                Phase::Thinking => self.go_to_sleep(i, now),
                Phase::Sleeping | Phase::WaitingFirst => self.reach_first(i, now),
                Phase::WaitingSecond => self.reach_second(i, now),
                Phase::Eating => self.finish_meal(i, now),
                Phase::Done => self.stop(i),
            },
            _ => self.stop(i),
        }
    }

    /// One poll of the monitor at time `now`: if the run is on and a
    /// philosopher starves, the lowest-indexed such philosopher is declared
    /// dead and the run is cancelled. The caller logs the death and wakes
    /// every agent; each of them stops at its next step.
    pub fn monitor(&mut self, now: u64) -> (verdict: Verdict)
        requires
            old(self)@.wf(),
        ensures
            final(self)@ == old(self)@.monitor(now).0,
            verdict == old(self)@.monitor(now).1,
            final(self)@.wf(),
    {
        match self.outcome {
            Outcome::Running => {},
            _ => {
                return Verdict::Over;
            },
        }
        let mut i: u8 = 0;
        while i < self.table.n
            invariant
                *self == *old(self),
                self@.wf(),
                self.outcome == Outcome::Running,
                i <= self.table.n,
                self@.starving_below(i as int, now) is None,
            decreases self.table.n - i,
        {
            let p = self.philos[i as usize];
            let exempt = match p.phase {
                Phase::Eating | Phase::Done => true,
                _ => false,
            };
            if !exempt && now > p.last_eat && now - p.last_eat > self.table.t_die {
                proof {
                    lemma_starving_found(self@, i as int, self@.n(), now);
                    lemma_monitor_wf(self@, now);
                }
                self.outcome = Outcome::Died(i);
                return Verdict::Starved(i);
            }
            i = i + 1;
        }
        Verdict::Alive
    }

    /// How far the run has come.
    pub fn outcome(&self) -> (outcome: Outcome)
        ensures
            outcome == self@.outcome,
    {
        self.outcome
    }

    /// The table as it stands.
    pub fn table(&self) -> (table: Table)
        ensures
            table == self@.table,
    {
        self.table
    }

    /// Philosopher `i` as it stands.
    pub fn philo(&self, i: u8) -> (p: Philo)
        requires
            self@.wf(),
            i < self@.n(),
        ensures
            p == self@.philos[i as int],
    {
        self.philos[i as usize]
    }

    /// Fork `f` as it stands.
    pub fn fork(&self, f: u8) -> (fork: Fork)
        requires
            self@.wf(),
            f < self@.n(),
        ensures
            fork == self@.forks[f as int],
    {
        self.forks[f as usize]
    }
}

} // verus!
