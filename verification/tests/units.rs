use philosophers::clock::{to_millis, Clock};
use philosophers::event::{Event, EventKind, Outcome, EXIT_COMPLETED, EXIT_CONFIG, EXIT_DIED};
use philosophers::forks::{fork_order, neighbour, Fork};
use philosophers::philo::{Phase, Philo};
use philosophers::table::{Quota, Table};

#[test]
fn a_new_table_has_nobody_full() {
    let table = Table::new(5, Some(7), 800, 100, 200);
    assert_eq!(
        table,
        Table { n: 5, t_die: 800, t_sleep: 100, t_eat: 200, n_times: Some(7), n_full: 0 }
    );
    let unbounded = Table::new(1, None, 1, 2, 3);
    assert_eq!(
        unbounded,
        Table { n: 1, t_die: 1, t_sleep: 2, t_eat: 3, n_times: None, n_full: 0 }
    );
}

#[test]
fn the_quota_check_counts_each_full_philosopher() {
    let mut table = Table::new(3, Some(2), 800, 100, 200);
    assert_eq!(table.record(1), Quota::Hungry);
    assert_eq!(table.n_full, 0);
    assert_eq!(table.record(3), Quota::Hungry);
    assert_eq!(table.n_full, 0);
    assert_eq!(table.record(2), Quota::Full);
    assert_eq!(table.n_full, 1);
    assert_eq!(table.record(2), Quota::Full);
    assert_eq!(table.n_full, 2);
    assert_eq!(table.record(2), Quota::AllFull);
    assert_eq!(table.n_full, 3);
}

#[test]
fn the_quota_check_never_fires_without_a_quota() {
    let mut table = Table::new(2, None, 800, 100, 200);
    for times in [0, 1, 2, u32::MAX] {
        assert_eq!(table.record(times), Quota::Hungry);
        assert_eq!(table.n_full, 0);
    }
}

#[test]
fn the_monitor_polls_ten_times_per_time_to_die() {
    assert_eq!(Table::new(1, None, 800, 1, 1).poll_interval(), 80);
    assert_eq!(Table::new(1, None, 10, 1, 1).poll_interval(), 1);
    assert_eq!(Table::new(1, None, 19, 1, 1).poll_interval(), 1);
    assert_eq!(Table::new(1, None, 20, 1, 1).poll_interval(), 2);
    assert_eq!(Table::new(1, None, 9, 1, 1).poll_interval(), 1);
    assert_eq!(Table::new(1, None, 1, 1, 1).poll_interval(), 1);
    assert_eq!(Table::new(1, None, u64::MAX, 1, 1).poll_interval(), u64::MAX / 10);
}

#[test]
fn the_lower_fork_comes_first() {
    assert_eq!(fork_order(0, 5), (0, 1));
    assert_eq!(fork_order(1, 5), (1, 2));
    assert_eq!(fork_order(3, 5), (3, 4));
    assert_eq!(fork_order(4, 5), (0, 4));
    assert_eq!(fork_order(0, 2), (0, 1));
    assert_eq!(fork_order(1, 2), (0, 1));
    assert_eq!(fork_order(0, 1), (0, 0));
    assert_eq!(fork_order(254, 255), (0, 254));
    assert_eq!(fork_order(253, 255), (253, 254));
    for n in 1..=255u8 {
        for i in 0..n {
            let (first, second) = fork_order(i, n);
            let left = i;
            let right = ((i as u16 + 1) % n as u16) as u8;
            assert_eq!(first, left.min(right));
            assert_eq!(second, left.max(right));
        }
    }
}

#[test]
fn each_fork_has_two_philosophers_at_it() {
    assert_eq!(neighbour(0, 0, 5), 4);
    assert_eq!(neighbour(1, 0, 5), 1);
    assert_eq!(neighbour(4, 4, 5), 3);
    assert_eq!(neighbour(0, 4, 5), 0);
    assert_eq!(neighbour(2, 2, 5), 1);
    assert_eq!(neighbour(3, 2, 5), 3);
    assert_eq!(neighbour(0, 0, 2), 1);
    assert_eq!(neighbour(1, 0, 2), 1);
    assert_eq!(neighbour(0, 1, 2), 0);
    assert_eq!(neighbour(1, 1, 2), 0);
    assert_eq!(neighbour(0, 0, 1), 0);
}

#[test]
fn a_fork_has_one_holder_at_most() {
    let mut fork = Fork::new();
    assert_eq!(fork.holder, None);
    assert!(fork.try_acquire(3));
    assert_eq!(fork.holder, Some(3));
    assert!(!fork.try_acquire(4));
    assert_eq!(fork.holder, Some(3));
    assert!(!fork.try_acquire(3));
    assert_eq!(fork.holder, Some(3));
    assert!(!fork.release(4));
    assert_eq!(fork.holder, Some(3));
    assert!(fork.release(3));
    assert_eq!(fork.holder, None);
    assert!(!fork.release(3));
    assert_eq!(fork.holder, None);
}

#[test]
fn a_philosopher_sits_down_thinking() {
    let table = Table::new(5, Some(7), 800, 100, 200);
    let p = Philo::new(2, &table, 17);
    assert_eq!(
        p,
        Philo { n: 2, times: 0, t_eat: 200, t_sleep: 100, last_eat: 17, phase: Phase::Thinking }
    );
}

#[test]
fn a_philosopher_cycles_through_its_phases() {
    let table = Table::new(5, Some(7), 800, 100, 200);
    let mut p = Philo::new(2, &table, 0);
    assert_eq!(p.sleep(5), Event { time: 5, philosopher: 2, kind: EventKind::Sleeping });
    assert_eq!(p.phase, Phase::Sleeping);
    assert_eq!((p.times, p.last_eat), (0, 0));

    assert_eq!(p.eat(105), Event { time: 105, philosopher: 2, kind: EventKind::Eating });
    assert_eq!(p.phase, Phase::Eating);
    assert_eq!((p.times, p.last_eat), (0, 105));

    // The meal is counted when it ends; the phase is still that of the meal.
    p.count_meal();
    assert_eq!(
        p,
        Philo { n: 2, times: 1, t_eat: 200, t_sleep: 100, last_eat: 105, phase: Phase::Eating }
    );

    assert_eq!(p.think(305), Event { time: 305, philosopher: 2, kind: EventKind::Thinking });
    assert_eq!(p.phase, Phase::Thinking);
    assert_eq!((p.times, p.last_eat), (1, 105));
    assert_eq!(
        p,
        Philo { n: 2, times: 1, t_eat: 200, t_sleep: 100, last_eat: 105, phase: Phase::Thinking }
    );
}

#[test]
fn thinking_counts_no_meal() {
    let table = Table::new(5, Some(7), 800, 100, 200);
    let mut p = Philo::new(4, &table, 9);
    p.times = 3;
    p.phase = Phase::Eating;
    let before = p;
    assert_eq!(p.think(50), Event { time: 50, philosopher: 4, kind: EventKind::Thinking });
    assert_eq!(p, Philo { phase: Phase::Thinking, ..before });
    assert_eq!(p.think(60), Event { time: 60, philosopher: 4, kind: EventKind::Thinking });
    assert_eq!(p, Philo { phase: Phase::Thinking, ..before });
    // Neither do going to sleep and beginning a meal.
    p.sleep(70);
    p.eat(80);
    assert_eq!(p.times, 3);
}

#[test]
fn the_meal_counter_stops_at_its_largest_value() {
    let table = Table::new(1, None, 800, 100, 200);
    let mut p = Philo::new(0, &table, 0);
    p.times = u32::MAX - 1;
    let before = p;
    p.count_meal();
    assert_eq!(p, Philo { times: u32::MAX, ..before });
    p.count_meal();
    assert_eq!(p, Philo { times: u32::MAX, ..before });
}

#[test]
fn numbers_are_written_in_decimal() {
    let time_of = |n: u64| {
        let line = Event { time: n, philosopher: 0, kind: EventKind::Died }.line();
        line.strip_suffix("\t0 died").unwrap().to_string()
    };
    assert_eq!(time_of(0), "0");
    assert_eq!(time_of(7), "7");
    assert_eq!(time_of(10), "10");
    assert_eq!(time_of(1234567890), "1234567890");
    assert_eq!(time_of(u64::MAX), "18446744073709551615");
    for n in [0u64, 9, 10, 99, 100, 101, 4294967295, 4294967296, 1 << 40] {
        assert_eq!(time_of(n), format!("{}", n));
    }
}

#[test]
fn log_lines_hold_time_tab_philosopher_and_phase() {
    let line = |time, philosopher, kind| Event { time, philosopher, kind }.line();
    assert_eq!(line(0, 0, EventKind::Sleeping), "0\t0 is sleeping");
    assert_eq!(line(200, 0, EventKind::Eating), "200\t0 is eating");
    assert_eq!(line(401, 3, EventKind::Thinking), "401\t3 is thinking");
    assert_eq!(line(810, 254, EventKind::Died), "810\t254 died");
    assert_eq!(line(u64::MAX, 9, EventKind::Eating), "18446744073709551615\t9 is eating");
    assert_eq!(Event::death(1, 55), Event { time: 55, philosopher: 1, kind: EventKind::Died });
    assert_eq!(Event::death(1, 55).line(), "55\t1 died");
}

#[test]
fn the_summary_tells_how_the_run_ended() {
    assert_eq!(Outcome::Running.summary(Some(3)), None);
    assert_eq!(Outcome::Running.summary(None), None);
    assert_eq!(
        Outcome::Completed.summary(Some(3)),
        Some("all philosophers have eaten 3 times".to_string())
    );
    assert_eq!(
        Outcome::Completed.summary(Some(4294967295)),
        Some("all philosophers have eaten 4294967295 times".to_string())
    );
    assert_eq!(Outcome::Completed.summary(None), None);
    assert_eq!(Outcome::Died(0).summary(Some(3)), Some("philosopher 0 died".to_string()));
    assert_eq!(Outcome::Died(254).summary(None), Some("philosopher 254 died".to_string()));
}

#[test]
fn exit_codes_tell_completion_from_death_and_from_a_wrong_configuration() {
    assert_eq!(Outcome::Running.exit_code(), None);
    assert_eq!(Outcome::Completed.exit_code(), Some(0));
    assert_eq!(Outcome::Died(3).exit_code(), Some(2));
    assert_eq!(EXIT_COMPLETED, 0);
    assert_eq!(EXIT_CONFIG, 1);
    assert_eq!(EXIT_DIED, 2);
}

#[test]
fn seconds_and_milliseconds_add_up() {
    assert_eq!(to_millis(0, 0), 0);
    assert_eq!(to_millis(0, 999), 999);
    assert_eq!(to_millis(1, 0), 1000);
    assert_eq!(to_millis(12, 345), 12345);
    assert_eq!(to_millis(18446744073709551, 615), u64::MAX);
    assert_eq!(to_millis(18446744073709551, 614), u64::MAX - 1);
    assert_eq!(to_millis(18446744073709551, 616), u64::MAX);
    assert_eq!(to_millis(18446744073709552, 0), u64::MAX);
    assert_eq!(to_millis(u64::MAX, 999), u64::MAX);
}

#[test]
fn the_clock_counts_up_from_its_start() {
    let clock = Clock::start();
    let first = clock.get_time();
    assert!(first < 10_000);
    let runtime = tokio::runtime::Builder::new_current_thread().enable_time().build().unwrap();
    runtime.block_on(async {
        tokio::time::sleep(std::time::Duration::from_millis(30)).await;
    });
    let second = clock.get_time();
    assert!(second >= first + 30, "{} then {}", first, second);
    assert!(second < 20_000);
    let later = Clock::start();
    assert!(later.get_time() <= clock.get_time());
}
