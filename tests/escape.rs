use mandelbrot::escape::EscapeTracker;

fn run(orbit: &[bool], limit: usize) -> Option<usize> {
    let mut tracker = EscapeTracker::new(limit);
    let mut i: usize = 0;
    while tracker.running() {
        if let Some(k) = tracker.observe(orbit[i]) {
            return Some(k);
        }
        i += 1;
    }
    tracker.verdict()
}

#[test]
fn zero_limit_is_bounded_without_iterating() {
    let tracker = EscapeTracker::new(0);
    assert!(!tracker.running());
    assert_eq!(tracker.verdict(), None);
}

#[test]
fn orbit_that_stays_inside_is_bounded_for_every_limit() {
    let orbit = vec![false; 300];
    for limit in 1..=255 {
        assert_eq!(run(&orbit, limit), None);
    }
}

#[test]
fn escape_count_does_not_depend_on_a_larger_limit() {
    // The orbit of 5+5i: |0| <= 2, then |5+5i| > 2.
    let orbit = vec![false, true, true, true];
    assert_eq!(run(&orbit, 2), Some(1));
    assert_eq!(run(&orbit, 3), Some(1));
    assert_eq!(run(&orbit, 4), Some(1));
    assert_eq!(run(&orbit, 1), None);
    assert_eq!(run(&orbit, 0), None);
}

#[test]
fn observe_reports_the_current_iteration() {
    let mut tracker = EscapeTracker::new(10);
    assert_eq!(tracker.observe(false), None);
    assert_eq!(tracker.observe(false), None);
    assert!(tracker.running());
    assert_eq!(tracker.observe(true), Some(2));
    assert!(!tracker.running());
    assert_eq!(tracker.verdict(), Some(2));
}

#[test]
fn limit_reached_without_escape_is_bounded() {
    let mut tracker = EscapeTracker::new(2);
    assert_eq!(tracker.observe(false), None);
    assert_eq!(tracker.observe(false), None);
    assert!(!tracker.running());
    assert_eq!(tracker.verdict(), None);
}
