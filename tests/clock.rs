use termgame::clock::EveryNSync;

#[test]
fn fires_only_after_a_full_interval() {
    let mut c = EveryNSync::new(10);
    assert!(!c.run_at(0));
    assert!(!c.run_at(10));
    assert_eq!(c.prevtime, 0);
    assert!(c.run_at(11));
    assert_eq!(c.prevtime, 10);
    assert!(!c.run_at(15));
    assert!(!c.run_at(20));
    assert_eq!(c.prevtime, 10);
}

#[test]
fn reference_moves_by_whole_intervals() {
    let mut c = EveryNSync::new(10);
    // a slow caller: the reference catches up one interval per call
    assert!(c.run_at(35));
    assert_eq!(c.prevtime, 10);
    assert!(c.run_at(35));
    assert_eq!(c.prevtime, 20);
    assert!(!c.run_at(30));
    assert_eq!(c.prevtime, 20);
}

#[test]
fn count_over_a_span_is_within_one_of_the_floor() {
    let mut c = EveryNSync::new(10);
    let mut fired = 0u64;
    let mut t = 0u64;
    while t <= 105 {
        if c.run_at(t) {
            fired += 1;
        }
        t += 3;
    }
    let span = 105u64;
    assert!(fired <= span / 10);
    assert!(fired + 1 >= span / 10);
    assert_eq!(c.prevtime, fired * 10);
}

#[test]
fn close_calls_do_not_both_fire() {
    let mut c = EveryNSync::new(10);
    assert!(c.run_at(12));
    assert!(!c.run_at(19));
}

#[test]
fn clock_run_does_not_fire_early() {
    let mut c = EveryNSync::new(u64::MAX);
    assert!(!c.run());
    assert!(!c.run());
    assert_eq!(c.prevtime, 0);
    assert_eq!(c.interval, u64::MAX);
}
