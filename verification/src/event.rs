//! What a run reports: phase changes, deaths, and how it ended.
use vstd::prelude::*;
use crate::text::{decimal, push_decimal};

verus! {

/// What happened to a philosopher.
#[derive(Clone, Copy, Debug, PartialEq, Eq, Structural)]
pub enum EventKind {
    Sleeping,
    Eating,
    Thinking,
    Died,
}

/// One entry of the log: at `time` milliseconds into the run, philosopher
/// `philosopher` (counted from 0) changed phase or died.
#[derive(Clone, Copy, Debug, PartialEq, Eq, Structural)]
pub struct Event {
    pub time: u64,
    pub philosopher: u8,
    pub kind: EventKind,
}

/// How far a run has come.
#[derive(Clone, Copy, Debug, PartialEq, Eq, Structural)]
pub enum Outcome {
    /// Agents are still cycling.
    Running,
    /// Every philosopher has eaten the required number of meals.
    Completed,
    /// The philosopher with this index starved; the run was cancelled.
    Died(u8),
}

impl EventKind {
    /// The words that end the log line of an event of this kind.
    pub open spec fn words(self) -> Seq<char> {
        match self {
            EventKind::Sleeping => " is sleeping"@,
            EventKind::Eating => " is eating"@,
            EventKind::Thinking => " is thinking"@,
            EventKind::Died => " died"@,
        }
    }
}

impl Event {
    /// The log line of the event: the time, a tab, the index of the
    /// philosopher, and what it does.
    pub open spec fn text(self) -> Seq<char> {
        decimal(self.time as nat) + "\t"@ + decimal(self.philosopher as nat) + self.kind.words()
    }

    /// The entry that reports the death of `philosopher` at `now`.
    pub fn death(philosopher: u8, now: u64) -> (event: Event)
        ensures
            event == (Event { time: now, philosopher, kind: EventKind::Died }),
    {
        Event { time: now, philosopher, kind: EventKind::Died }
    }

    /// The log line of the event, without a line break.
    pub fn line(&self) -> (line: String)
        ensures
            line@ == self.text(),
    {
        let mut line = String::new();
        push_decimal(&mut line, self.time);
        line.append("\t");
        push_decimal(&mut line, self.philosopher as u64);
        match self.kind {
            EventKind::Sleeping => line.append(" is sleeping"),
            EventKind::Eating => line.append(" is eating"),
            EventKind::Thinking => line.append(" is thinking"),
            EventKind::Died => line.append(" died"),
        }
        line
    }
}

impl Outcome {
    /// The line that sums up a run with this outcome and a quota of
    /// `n_times` meals; a death is told with the index of the philosopher,
    /// as the log lines name it. A run that is still on has no summary, and
    /// neither has a completion without a quota, which no run reaches.
    pub open spec fn summary_text(self, n_times: Option<u32>) -> Option<Seq<char>> {
        match self {
            Outcome::Running => None,
            Outcome::Completed => match n_times {
                Some(m) => Some("all philosophers have eaten "@ + decimal(m as nat) + " times"@),
                None => None,
            },
            Outcome::Died(d) => Some("philosopher "@ + decimal(d as nat) + " died"@),
        }
    }

    /// The exit status of a process whose run had this outcome: 0 for a
    /// completion, 2 for a death. A run that is still on has none.
    pub open spec fn exit_status(self) -> Option<u8> {
        match self {
            Outcome::Running => None,
            Outcome::Completed => Some(EXIT_COMPLETED),
            Outcome::Died(_) => Some(EXIT_DIED),
        }
    }

    /// The final summary of a run.
    pub fn summary(&self, n_times: Option<u32>) -> (line: Option<String>)
        ensures
            line matches Some(l) ==> self.summary_text(n_times) == Some(l@),
            line is None ==> self.summary_text(n_times) is None,
    {
        match self {
            Outcome::Running => None,
            Outcome::Completed => match n_times {
                Some(m) => {
                    let mut line = String::from_str("all philosophers have eaten ");
                    push_decimal(&mut line, m as u64);
                    line.append(" times");
                    Some(line)
                },
                None => None,
            },
            Outcome::Died(d) => {
                let mut line = String::from_str("philosopher ");
                push_decimal(&mut line, *d as u64);
                line.append(" died");
                Some(line)
            },
        }
    }

    /// The exit status that goes with the outcome.
    pub fn exit_code(&self) -> (code: Option<u8>)
        ensures
            code == self.exit_status(),
    {
        match self {
            Outcome::Running => None,
            Outcome::Completed => Some(EXIT_COMPLETED),
            Outcome::Died(_) => Some(EXIT_DIED),
        }
    }
}

/// Exit status of a run in which every philosopher met the quota.
pub const EXIT_COMPLETED: u8 = 0;

/// Exit status of a process that was given a wrong configuration.
pub const EXIT_CONFIG: u8 = 1;

/// Exit status of a run in which a philosopher starved.
pub const EXIT_DIED: u8 = 2;

} // verus!
