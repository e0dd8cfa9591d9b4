use tcp_engine::timer::Timer;

#[test]
fn stopped_timer_does_not_count() {
    let mut t = Timer::new(100);
    assert!(!t.is_running());
    assert!(!t.increment(500));
    assert_eq!(t.elapsed_time(), 0);
}

#[test]
fn timer_fires_at_rto() {
    let mut t = Timer::new(100);
    t.start();
    assert!(!t.increment(99));
    assert_eq!(t.elapsed_time(), 99);
    assert!(t.increment(1));
}

#[test]
fn double_rto_and_reset() {
    let mut t = Timer::new(100);
    t.start();
    t.increment(150);
    t.double_rto();
    assert_eq!(t.rto, 200);
    assert_eq!(t.elapsed_time(), 0);
    assert!(!t.increment(199));
    assert!(t.increment(1));
    t.reset();
    assert_eq!(t.rto, 100);
    assert_eq!(t.elapsed_time(), 0);
    assert!(t.is_running());
}

#[test]
fn start_is_noop_when_running() {
    let mut t = Timer::new(100);
    t.start();
    t.increment(40);
    t.double_rto();
    t.increment(10);
    t.start();
    assert_eq!(t.rto, 200);
    assert_eq!(t.elapsed_time(), 10);
    t.stop();
    assert!(!t.is_running());
    t.start();
    assert_eq!(t.rto, 100);
    assert_eq!(t.elapsed_time(), 0);
}

#[test]
fn double_rto_saturates() {
    let mut t = Timer::new(u64::MAX - 1);
    t.double_rto();
    assert_eq!(t.rto, u64::MAX);
}
