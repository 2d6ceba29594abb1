use mkworld_tracker::state::{AppState, RaceState, RACE_COOLDOWN_NANOS};

#[test]
fn new_state_starts_at_first_race_without_points() {
    let s = AppState::new();
    assert_eq!(s.state, RaceState { current_race: 1, current_points: None });
    assert!(s.last_detected_time.is_none());
}

#[test]
fn first_race_detection_is_accepted() {
    let mut s = AppState::new();
    assert!(s.try_update_race(4));
    assert_eq!(s.state.current_race, 4);
    assert!(s.last_detected_time.is_some());
}

#[test]
fn detection_right_after_another_is_refused() {
    let mut s = AppState::new();
    assert!(s.try_update_race(4));
    let before = s.last_detected_time;
    assert!(!s.try_update_race(5));
    assert_eq!(s.state.current_race, 4);
    assert_eq!(s.last_detected_time, before);
}

#[test]
fn record_race_inside_cooldown_changes_nothing() {
    let mut s = AppState::new();
    assert!(s.record_race(2, 1_000));
    assert!(!s.record_race(3, 1_000 + RACE_COOLDOWN_NANOS - 1));
    assert_eq!(s.state.current_race, 2);
    assert_eq!(s.last_detected_time, Some(1_000));
}

#[test]
fn record_race_after_exactly_two_minutes_is_refused() {
    let mut s = AppState::new();
    assert!(s.record_race(2, 5));
    assert!(!s.record_race(3, 5 + RACE_COOLDOWN_NANOS));
    assert_eq!(s.state.current_race, 2);
    assert_eq!(s.last_detected_time, Some(5));
}

#[test]
fn record_race_after_more_than_two_minutes_is_accepted() {
    let mut s = AppState::new();
    assert!(s.record_race(2, 5));
    assert!(s.record_race(3, 6 + RACE_COOLDOWN_NANOS));
    assert_eq!(s.state.current_race, 3);
    assert_eq!(s.last_detected_time, Some(6 + RACE_COOLDOWN_NANOS));
}

#[test]
fn clock_reading_before_the_last_detection_counts_as_no_time() {
    let mut s = AppState::new();
    assert!(s.record_race(2, 10 * RACE_COOLDOWN_NANOS));
    assert!(!s.record_race(3, 0));
    assert_eq!(s.state.current_race, 2);
}

#[test]
fn accepted_detections_in_a_run_are_more_than_two_minutes_apart() {
    let mut s = AppState::new();
    let step = RACE_COOLDOWN_NANOS / 4;
    let mut accepted = Vec::new();
    for k in 0..20u128 {
        let now = k * step;
        if s.record_race((k % 12) as u32 + 1, now) {
            accepted.push(now);
            assert_eq!(s.last_detected_time, Some(now));
        }
    }
    assert_eq!(accepted, vec![0, 5 * step, 10 * step, 15 * step]);
}

#[test]
fn race_update_keeps_points() {
    let mut s = AppState::new();
    assert!(s.try_update_points(40));
    assert!(s.try_update_race(7));
    assert_eq!(s.state.current_points, Some(40));
}

#[test]
fn points_update_and_repeat() {
    let mut s = AppState::new();
    assert!(s.try_update_points(15));
    assert_eq!(s.state.current_points, Some(15));
    assert!(!s.try_update_points(15));
    assert!(s.try_update_points(0));
    assert_eq!(s.state.current_points, Some(0));
    assert_eq!(s.state.current_race, 1);
    assert!(s.last_detected_time.is_none());
}

