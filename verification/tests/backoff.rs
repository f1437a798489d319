use clipmesh::backoff::{next_delay, restart_delay, Nanos, SECOND};

const MILLISECOND: Nanos = 1_000_000;

#[test]
fn backs_off_then_resets_after_a_stable_run() {
    let min = SECOND;
    let max = 30 * SECOND;
    let stable = 5 * SECOND;
    // A short-lived run escalates the backoff (doubles), capped at max.
    assert_eq!(
        next_delay(min, 10 * MILLISECOND, min, max, stable),
        2 * SECOND
    );
    assert_eq!(
        next_delay(20 * SECOND, 10 * MILLISECOND, min, max, stable),
        max
    );
    // A run that stayed up long enough resets the backoff to the minimum.
    assert_eq!(next_delay(max, 10 * SECOND, min, max, stable), min);
}

#[test]
fn a_run_of_exactly_the_stable_length_resets() {
    let stable = 5 * SECOND;
    assert_eq!(next_delay(8 * SECOND, stable, SECOND, 30 * SECOND, stable), SECOND);
    assert_eq!(
        next_delay(8 * SECOND, stable - 1, SECOND, 30 * SECOND, stable),
        16 * SECOND
    );
}

#[test]
fn a_restarted_task_waits_longer_each_time() {
    let mut delay = SECOND;
    let mut seen = Vec::new();
    for _ in 0..8 {
        delay = restart_delay(delay, 0);
        seen.push(delay / SECOND);
    }
    for pair in seen.windows(2) {
        assert!(pair[0] <= pair[1], "{seen:?}");
    }
    assert_eq!(restart_delay(delay, 3600 * SECOND), SECOND);
}
