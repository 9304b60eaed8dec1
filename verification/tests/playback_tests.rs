use obel::playback::{PlaybackState, Progress, DEVICE_CHECK_INTERVAL, MAX_POSITION};

#[test]
fn play_pause_resume_positions() {
    let mut s = PlaybackState::start(0, true, Some("Speakers".to_string()));
    s.play_started("/m/a.mp3".to_string(), 100);
    assert_eq!(s.get_current_pos(100), 0);
    assert_eq!(s.get_current_pos(600), 500);
    s.paused(1100);
    assert_eq!(s.get_current_pos(1100), 1000);
    assert_eq!(s.get_current_pos(9999), 1000);
    assert!(!s.was_playing);
    s.resumed(5000);
    assert_eq!(s.get_current_pos(6000), 2000);
    s.seeked(42, 7000);
    assert_eq!(s.get_current_pos(7000), 42);
    assert_eq!(s.get_current_pos(7010), 52);
}

#[test]
fn clock_going_back_counts_as_no_time() {
    let mut s = PlaybackState::start(0, true, None);
    s.play_started("x".to_string(), 500);
    assert_eq!(s.get_current_pos(400), 0);
}

#[test]
fn device_checks_every_two_seconds() {
    let mut s = PlaybackState::start(1_000, true, Some("A".to_string()));
    assert!(!s.device_check_due(1_000 + DEVICE_CHECK_INTERVAL - 1));
    assert!(s.device_check_due(1_000 + DEVICE_CHECK_INTERVAL));
    assert_eq!(s.last_device_check, 1_000 + DEVICE_CHECK_INTERVAL);
    assert!(!s.device_check_due(1_000 + DEVICE_CHECK_INTERVAL + 5));
}

#[test]
fn device_change_detection() {
    let s = PlaybackState::start(0, true, Some("A".to_string()));
    assert!(!s.device_changed(&None));
    assert!(!s.device_changed(&Some("A".to_string())));
    assert!(s.device_changed(&Some("B".to_string())));
    let none = PlaybackState::start(0, false, Some("A".to_string()));
    assert_eq!(none.last_device, None);
    assert!(none.device_changed(&Some("A".to_string())));
}

#[test]
fn device_switch_restores_place() {
    let mut s = PlaybackState::start(0, true, Some("A".to_string()));
    s.play_started("/m/a.mp3".to_string(), 0);
    s.lose_output(3_000, false, false);
    assert!(!s.has_output);
    assert_eq!(s.saved_position, Some(3_000));
    let restore = s.reconnected(Some("B".to_string()));
    assert_eq!(restore, Some(("/m/a.mp3".to_string(), 3_000)));
    assert_eq!(s.device_name(), Some("B".to_string()));
    s.restored(3_000, 10_000);
    assert_eq!(s.get_current_pos(10_500), 3_500);
}

#[test]
fn device_switch_while_paused_stays_paused() {
    let mut s = PlaybackState::start(0, true, None);
    s.play_started("t".to_string(), 0);
    s.paused(800);
    s.lose_output(5_000, true, false);
    assert!(!s.was_playing);
    let restore = s.reconnected(None);
    assert_eq!(restore, Some(("t".to_string(), 800)));
    s.restored(800, 9_000);
    assert_eq!(s.get_current_pos(20_000), 800);
}

#[test]
fn nothing_to_restore_before_any_track() {
    let mut s = PlaybackState::start(0, true, None);
    s.lose_output(10, true, true);
    assert_eq!(s.reconnected(None), None);
}

#[test]
fn progress_and_finish() {
    let mut s = PlaybackState::start(0, true, None);
    assert!(!s.reports_progress());
    s.play_started("t".to_string(), 0);
    assert!(s.reports_progress());
    match s.progress(250, false) {
        Progress::At(p) => assert_eq!(p, 250),
        Progress::Finished => panic!("not over yet"),
    }
    match s.progress(300, true) {
        Progress::Finished => {}
        Progress::At(_) => panic!("the track is over"),
    }
    assert!(!s.was_playing);
    assert_eq!(s.pos_timer, None);
    assert!(!s.reports_progress());
}

#[test]
fn position_limit() {
    let mut s = PlaybackState::start(0, true, None);
    s.seeked(MAX_POSITION, 0);
    assert!(s.fits_at(0));
    assert!(!s.fits_at(1));
}

#[test]
fn progress_after_seek_counts_from_the_seek() {
    let mut s = PlaybackState::start(0, true, None);
    s.play_started("t".to_string(), 0);
    s.seeked(10_000, 500);
    for (now, expected) in [(500u128, 10_000u128), (1_500, 11_000), (2_500, 12_000)] {
        match s.progress(now, false) {
            Progress::At(p) => assert_eq!(p, expected),
            Progress::Finished => panic!("not over yet"),
        }
    }
    assert!(matches!(s.progress(3_000, true), Progress::Finished));
    assert!(!s.reports_progress());
}

#[test]
fn paused_reports_nothing_until_resume() {
    let mut s = PlaybackState::start(0, true, None);
    s.play_started("t".to_string(), 0);
    s.paused(100);
    assert!(!s.reports_progress());
    s.seeked(50, 200);
    assert!(!s.reports_progress());
    s.resumed(300);
    assert!(s.reports_progress());
    match s.progress(400, false) {
        Progress::At(p) => assert_eq!(p, 150),
        Progress::Finished => panic!("not over yet"),
    }
}

#[test]
fn progress_across_a_switch_skips_the_time_without_output() {
    let mut s = PlaybackState::start(0, true, Some("A".to_string()));
    s.play_started("t".to_string(), 0);
    s.seeked(10_000, 500);
    s.lose_output(1_500, false, false);
    assert!(!s.reports_progress());
    let restore = s.reconnected(Some("B".to_string()));
    assert_eq!(restore, Some(("t".to_string(), 11_000)));
    s.restored(11_000, 2_500);
    match s.progress(3_500, false) {
        // 10_000 + (3_500 - 500) - (2_500 - 1_500)
        Progress::At(p) => assert_eq!(p, 12_000),
        Progress::Finished => panic!("not over yet"),
    }
}

#[test]
fn switch_after_the_end_stays_silent() {
    let mut s = PlaybackState::start(0, true, None);
    s.play_started("t".to_string(), 0);
    assert!(matches!(s.progress(100, true), Progress::Finished));
    s.lose_output(200, false, true);
    let restore = s.reconnected(None);
    assert!(restore.is_some());
    s.restored(100, 300);
    assert!(!s.reports_progress());
}
