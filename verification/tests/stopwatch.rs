use guessing_game::stopwatch::Stopwatch;
use guessing_game::stopwatch::StopwatchState;

#[test]
fn not_started_shows_zeros() {
    let sw = Stopwatch::new(0);
    assert!(matches!(sw.state, StopwatchState::NotStarted));
    assert_eq!(sw.get_time(123_456), "00:00:00");
}

#[test]
fn running_time_formats_minutes_seconds_hundredths() {
    let mut sw = Stopwatch::new(0);
    sw.next_state(0);
    assert!(matches!(sw.state, StopwatchState::Running));
    assert_eq!(sw.get_time(0), "00:00:00");
    assert_eq!(sw.get_time(61_510), "01:01:51");
    assert_eq!(sw.get_time(9_059_990), "150:59:99");
}

#[test]
fn pause_banks_elapsed_time_and_resume_continues() {
    let mut sw = Stopwatch::new(0);
    sw.next_state(0);
    sw.pause(1000);
    assert!(matches!(sw.state, StopwatchState::NotStarted));
    assert_eq!(sw.paused_ms, 1000);
    assert_eq!(sw.get_time(1500), "00:00:00");
    sw.resume(2000);
    assert!(matches!(sw.state, StopwatchState::Running));
    assert_eq!(sw.get_time(2500), "00:01:50");
}

#[test]
fn done_freezes_the_display() {
    let mut sw = Stopwatch::new(0);
    sw.next_state(0);
    sw.next_state(4000);
    assert!(matches!(sw.state, StopwatchState::Done));
    assert_eq!(sw.get_time(99_999), "00:04:00");
    sw.next_state(100_000);
    assert!(matches!(sw.state, StopwatchState::NotStarted));
    assert_eq!(sw.paused_ms, 0);
    assert_eq!(sw.get_time(100_001), "00:00:00");
}

#[test]
fn pause_and_resume_outside_their_states_do_nothing() {
    let mut sw = Stopwatch::new(0);
    sw.pause(500);
    assert!(matches!(sw.state, StopwatchState::NotStarted));
    assert_eq!(sw.paused_ms, 0);
    sw.next_state(1000);
    sw.resume(2000);
    assert!(matches!(sw.state, StopwatchState::Running));
    assert_eq!(sw.get_time(3000), "00:02:00");
}
