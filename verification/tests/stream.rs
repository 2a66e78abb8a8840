use capture_stream::audio::audio_mixer::{mix_after_capture, mix_start, MixAction};
use capture_stream::keylog::KeyLog;
use capture_stream::stream::{header_outcome, open_outcome};

#[test]
fn open_failure_names_the_url() {
    assert_eq!(open_outcome(0, "rtmp://host/live"), Ok(()));
    assert_eq!(open_outcome(3, "rtmp://host/live"), Ok(()));
    assert_eq!(
        open_outcome(-5, "rtmp://host/live"),
        Err("Failed to open output URL: rtmp://host/live".to_string())
    );
}

#[test]
fn header_failure_reports_the_code() {
    assert_eq!(header_outcome(0), Ok(()));
    assert_eq!(header_outcome(1), Ok(()));
    assert_eq!(header_outcome(-22), Err("Failed to write stream header: -22".to_string()));
    assert_eq!(
        header_outcome(i32::MIN),
        Err("Failed to write stream header: -2147483648".to_string())
    );
}

#[test]
fn mixing_needs_both_resamplers() {
    let missing = Err("Resampler not set up for one or both inputs".to_string());
    assert_eq!(mix_start(false, false), missing);
    assert_eq!(mix_start(true, false), missing);
    assert_eq!(mix_start(false, true), missing);
    assert_eq!(mix_start(true, true), Ok(MixAction::CaptureA));
}

#[test]
fn mixing_round_order() {
    assert_eq!(mix_after_capture(false, 0), MixAction::Silence);
    assert_eq!(mix_after_capture(false, 8), MixAction::CaptureB);
    assert_eq!(mix_after_capture(true, 0), MixAction::Silence);
    assert_eq!(mix_after_capture(true, 8), MixAction::Mix);
}

#[test]
fn earlier_reading_is_taken_as_newest_press_time() {
    let mut log = KeyLog::new();
    log.push_at("a".to_string(), 3_000_000_000);
    log.push_at("b".to_string(), 1_000_000_000);
    // "b" is stamped at 3 s, like "a": both show until 5 s, in press order.
    assert_eq!(log.current_keys_at(2_500_000_000), vec!["a", "b"]);
    assert_eq!(log.current_keys_at(3_500_000_000), vec!["a", "b"]);
    assert!(log.current_keys_at(5_000_000_000).is_empty());
}
