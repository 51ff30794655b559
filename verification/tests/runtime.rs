use std::sync::{Arc, Mutex};
use std::time::Duration;

use philosophers::clock::Clock;
use philosophers::event::{Event, Outcome};
use philosophers::philo::Phase;
use philosophers::simulation::{Action, Simulation, Verdict};
use philosophers::table::Table;
use tokio::sync::Notify;

/// What the tasks of a run share.
struct Shared {
    sim: Mutex<Simulation>,
    clock: Clock,
    wake: Vec<Notify>,
    log: Mutex<Vec<String>>,
    completions: Mutex<u32>,
}

async fn agent(shared: Arc<Shared>, i: u8) {
    loop {
        let step = {
            let mut sim = shared.sim.lock().unwrap();
            let step = sim.step(i, shared.clock.get_time());
            if let Some(event) = step.event {
                shared.log.lock().unwrap().push(event.line());
            }
            step
        };
        if step.completed {
            *shared.completions.lock().unwrap() += 1;
        }
        for j in [step.wake_first, step.wake_second].into_iter().flatten() {
            shared.wake[j as usize].notify_one();
        }
        match step.action {
            Action::Sleep(ms) => tokio::time::sleep(Duration::from_millis(ms)).await,
            Action::Yield => tokio::task::yield_now().await,
            Action::Wait => shared.wake[i as usize].notified().await,
            Action::Stop => return,
        }
    }
}

async fn watch(shared: Arc<Shared>, poll: u64) {
    loop {
        tokio::time::sleep(Duration::from_millis(poll)).await;
        let verdict = {
            let mut sim = shared.sim.lock().unwrap();
            let now = shared.clock.get_time();
            let verdict = sim.monitor(now);
            if let Verdict::Starved(d) = verdict {
                shared.log.lock().unwrap().push(Event::death(d, now).line());
            }
            verdict
        };
        match verdict {
            Verdict::Alive => {}
            Verdict::Starved(_) => {
                for signal in &shared.wake {
                    signal.notify_one();
                }
                return;
            }
            Verdict::Over => return,
        }
    }
}

/// Runs `table` on a runtime of its own, one task per philosopher and one
/// for the monitor, and hands back what they shared.
fn run(table: Table) -> Arc<Shared> {
    let runtime = tokio::runtime::Builder::new_multi_thread()
        .worker_threads(2)
        .enable_time()
        .build()
        .unwrap();
    runtime.block_on(async {
        let clock = Clock::start();
        let sim = Simulation::new(table, clock.get_time()).unwrap();
        let shared = Arc::new(Shared {
            sim: Mutex::new(sim),
            clock,
            wake: (0..table.n).map(|_| Notify::new()).collect(),
            log: Mutex::new(vec![]),
            completions: Mutex::new(0),
        });
        let watcher = tokio::spawn(watch(shared.clone(), table.poll_interval()));
        let mut agents = vec![];
        for i in 0..table.n {
            agents.push(tokio::spawn(agent(shared.clone(), i)));
        }
        for agent in agents {
            agent.await.unwrap();
        }
        watcher.await.unwrap();
        shared
    })
}

/// The time at the head of a log line.
fn time_of(line: &str) -> u64 {
    line.split('\t').next().unwrap().parse().unwrap()
}

#[test]
fn tasks_on_a_runtime_eat_their_meals() {
    let table = Table::validated(4, 5_000, 20, 20, Some(3)).unwrap();
    let shared = run(table);
    let sim = shared.sim.lock().unwrap();
    assert_eq!(sim.outcome(), Outcome::Completed);
    assert_eq!(sim.table().n_full, 4);
    for i in 0..4 {
        assert_eq!(sim.philo(i).times, 3);
        assert_eq!(sim.philo(i).phase, Phase::Done);
        assert_eq!(sim.fork(i).holder, None);
    }
    assert_eq!(*shared.completions.lock().unwrap(), 1);
    assert_eq!(
        sim.outcome().summary(sim.table().n_times),
        Some("all philosophers have eaten 3 times".to_string())
    );
    assert_eq!(sim.outcome().exit_code(), Some(0));

    let log = shared.log.lock().unwrap();
    assert_eq!(log.len(), 4 * 3 * 3);
    let times: Vec<u64> = log.iter().map(|line| time_of(line)).collect();
    assert!(times.windows(2).all(|w| w[0] <= w[1]), "{:?}", log);
    for who in 0..4 {
        let mine: Vec<&String> =
            log.iter().filter(|l| l.contains(&format!("\t{} is ", who))).collect();
        assert_eq!(mine.len(), 9);
        for (k, line) in mine.iter().enumerate() {
            let word = ["sleeping", "eating", "thinking"][k % 3];
            assert!(line.ends_with(&format!("\t{} is {}", who, word)), "{}", line);
        }
        // A meal begins a sleep after the philosopher went to sleep, and
        // ends a meal after it began.
        for meal in mine.chunks(3) {
            assert!(time_of(meal[1]) >= time_of(meal[0]) + 20);
            assert!(time_of(meal[2]) >= time_of(meal[1]) + 20);
        }
    }
}

#[test]
fn a_task_that_cannot_eat_is_found_dead_in_time() {
    // One philosopher, one fork: it never eats.
    let table = Table::validated(1, 100, 10, 10, None).unwrap();
    assert_eq!(table.poll_interval(), 10);
    let shared = run(table);
    let sim = shared.sim.lock().unwrap();
    assert_eq!(sim.outcome(), Outcome::Died(0));
    assert_eq!(sim.philo(0).times, 0);
    assert_eq!(sim.philo(0).phase, Phase::Done);
    assert_eq!(sim.fork(0).holder, None);
    assert_eq!(sim.outcome().exit_code(), Some(2));
    assert_eq!(*shared.completions.lock().unwrap(), 0);
    let log = shared.log.lock().unwrap();
    assert_eq!(log.len(), 2);
    assert!(log[0].ends_with("\t0 is sleeping"), "{}", log[0]);
    assert!(log[1].ends_with("\t0 died"), "{}", log[1]);
    let sat_down = sim.philo(0).last_eat;
    let died = time_of(&log[1]);
    assert!(died > sat_down + 100, "died at {}", died);
    assert!(died < sat_down + 100 + 10 + 2_000, "died at {}", died);
}
