use rmms_engine::timing::Time;
use std::time::{Duration, Instant};

fn wait(ms: u64) {
    let t0 = Instant::now();
    while t0.elapsed() < Duration::from_millis(ms) {}
}

#[test]
fn a_new_stopwatch_has_measured_nothing() {
    let t = Time::init();
    assert_eq!(t.elapsed(), 0);
    let d = Time::default();
    assert_eq!(d.elapsed(), 0);
}

#[test]
fn start_keeps_the_last_measurement() {
    let mut t = Time::init();
    wait(3);
    t.stop();
    let measured = t.elapsed();
    assert!(measured >= 3000);
    t.start();
    assert_eq!(t.elapsed(), measured);
}

#[test]
fn stop_measures_from_the_last_start() {
    let mut t = Time::init();
    wait(20);
    t.start();
    t.stop();
    assert!(t.elapsed() < 20_000);
    let copy = t.clone();
    assert_eq!(copy.elapsed(), t.elapsed());
}

#[test]
fn record_sets_the_measurement_and_start_at_the_start() {
    let mut t = Time::init();
    t.record(1234);
    assert_eq!(t.elapsed(), 1234);
    let earlier = Instant::now();
    wait(5);
    t.start_at(earlier);
    assert_eq!(t.elapsed(), 1234);
    t.stop();
    assert!(t.elapsed() >= 5000);
}
