use rar_chat::liveness::StarvationClock;
use std::time::Duration;

/// The average and the clock together: the average as `0.6 * before + 0.4 *
/// now`, held against the floor.
fn eval_throughput(
    prev_ema: f64,
    bytes_this_window: u64,
    floor_bps: u64,
    warmed: bool,
    starved_since: &mut Option<Duration>,
    now_since_start: Duration,
    sustained: Duration,
) -> (f64, bool) {
    let ema = 0.6 * prev_ema + 0.4 * bytes_this_window as f64;
    let mut clock = StarvationClock { starved_since: starved_since.map(|d| d.as_nanos()) };
    let starved = clock.evaluate(
        ema < floor_bps as f64,
        warmed,
        now_since_start.as_nanos(),
        sustained.as_nanos(),
    );
    *starved_since = clock.starved_since.map(|ns| Duration::from_nanos(ns as u64));
    (ema, starved)
}

#[test]
fn healthy_stream_never_starves() {
    let mut ss = None;
    let mut ema = 0.0;
    for sec in 1..=30u64 {
        let (e, starved) = eval_throughput(ema, 50, 1, true, &mut ss, Duration::from_secs(sec), Duration::from_secs(20));
        ema = e;
        assert!(!starved, "healthy 50 B/s must never starve (sec {sec})");
    }
}

#[test]
fn sustained_silence_trips_after_window_not_before() {
    let mut ss = None;
    let mut ema = 100.0;
    let mut tripped_at = None;
    for sec in 1..=40u64 {
        let (e, starved) = eval_throughput(ema, 0, 1, true, &mut ss, Duration::from_secs(sec), Duration::from_secs(20));
        ema = e;
        if starved && tripped_at.is_none() {
            tripped_at = Some(sec);
        }
    }
    let t = tripped_at.expect("silence must eventually trip");
    assert!(t >= 20, "must not trip before the sustained window (tripped at {t}s)");
}

#[test]
fn warmup_exempts_first_second() {
    let mut ss = None;
    let (_e, starved) = eval_throughput(0.0, 0, 1, false, &mut ss, Duration::from_secs(0), Duration::from_secs(20));
    assert!(!starved);
    assert!(ss.is_none(), "starvation clock must not arm during warm-up");
}

#[test]
fn recovery_resets_the_clock() {
    let mut ss = None;
    let mut ema = 0.0;
    for sec in 1..=10u64 {
        let (e, _) = eval_throughput(ema, 0, 1, true, &mut ss, Duration::from_secs(sec), Duration::from_secs(20));
        ema = e;
    }
    assert!(ss.is_some(), "clock should be armed after sustained silence");
    let (_e, starved) = eval_throughput(ema, 100, 1, true, &mut ss, Duration::from_secs(11), Duration::from_secs(20));
    assert!(!starved);
    assert!(ss.is_none(), "recovery must disarm the starvation clock");
}

#[test]
fn clock_trips_exactly_at_the_window() {
    let mut clock = StarvationClock::new();
    assert!(!clock.evaluate(true, true, 100, 50));
    assert_eq!(clock.starved_since, Some(100));
    assert!(!clock.evaluate(true, true, 149, 50));
    assert!(clock.evaluate(true, true, 150, 50));
    assert_eq!(clock.starved_since, Some(100));
}

#[test]
fn a_window_of_nothing_trips_at_once() {
    let mut clock = StarvationClock::new();
    assert!(clock.evaluate(true, true, 7, 0));
}

#[test]
fn a_clock_that_runs_back_counts_as_no_time() {
    let mut clock = StarvationClock { starved_since: Some(100) };
    assert!(!clock.evaluate(true, true, 40, 1));
    assert!(clock.evaluate(true, true, 101, 1));
}
