use capture_stream::encoder::{codec_flags, CODEC_FLAG_GLOBAL_HEADER, FORMAT_GLOBAL_HEADER};
use capture_stream::keylog::{
    is_key_press, key_name_lparam, known_key_name, unknown_key_name, vk_to_name, KeyEntry, KeyLog,
    DISPLAY_DURATION_NANOS, MAX_KEYS, VK_LSHIFT, VK_RETURN, VK_UP, WM_KEYDOWN, WM_SYSKEYDOWN,
};
use capture_stream::stream::needs_io_open;

#[test]
fn new_log_is_empty() {
    let log = KeyLog::new();
    assert!(log.current_keys().is_empty());
    assert!(log.current_keys_at(0).is_empty());
}

#[test]
fn keys_show_for_the_display_duration() {
    let mut log = KeyLog::new();
    log.push_at("A".to_string(), 0);
    log.push_at("B".to_string(), 1_000_000_000);
    assert_eq!(log.current_keys_at(1_500_000_000), vec!["A", "B"]);
    assert_eq!(log.current_keys_at(DISPLAY_DURATION_NANOS), vec!["B"]);
    assert!(log.current_keys_at(3_000_000_000).is_empty());
}

#[test]
fn log_keeps_at_most_ten_keys() {
    let mut log = KeyLog::new();
    for i in 0..15u128 {
        log.push_at(format!("K{}", i), i);
    }
    let keys = log.current_keys_at(20);
    assert_eq!(keys.len(), MAX_KEYS);
    assert_eq!(keys[0], "K5");
    assert_eq!(keys[9], "K14");
}

#[test]
fn push_drops_expired_keys() {
    let mut log = KeyLog::new();
    log.push_at("old".to_string(), 0);
    log.push_at("new".to_string(), 5_000_000_000);
    // The expired key is gone even when asked about an earlier time.
    assert_eq!(log.current_keys_at(0), vec!["new"]);
}

#[test]
fn pushed_key_is_newest_shown() {
    let mut log = KeyLog::new();
    log.push("Ctrl".to_string());
    log.push("C".to_string());
    assert_eq!(log.current_keys(), vec!["Ctrl", "C"]);
}

#[test]
fn key_entry_holds_name_and_time() {
    let e = KeyEntry { name: "Tab".to_string(), pressed_at: 7 };
    assert_eq!(e.name, "Tab");
    assert_eq!(e.pressed_at, 7);
}

#[test]
fn known_names() {
    assert_eq!(known_key_name(VK_RETURN), Some("Enter".to_string()));
    assert_eq!(known_key_name(VK_LSHIFT), Some("Shift".to_string()));
    assert_eq!(known_key_name(VK_UP), Some("\u{2191}".to_string()));
    assert_eq!(known_key_name(0x70), Some("F1".to_string()));
    assert_eq!(known_key_name(0x7B), Some("F12".to_string()));
    assert_eq!(known_key_name(0x41), None);
}

#[test]
fn unknown_names_use_the_code() {
    assert_eq!(unknown_key_name(0), "#0");
    assert_eq!(unknown_key_name(65), "#65");
    assert_eq!(unknown_key_name(65535), "#65535");
}

#[test]
fn vk_to_name_prefers_fixed_then_system_name() {
    assert_eq!(vk_to_name(VK_RETURN, Some("Return".to_string())), "Enter");
    assert_eq!(vk_to_name(0x41, Some("A".to_string())), "A");
    assert_eq!(vk_to_name(0x41, None), "#65");
}

#[test]
fn lparam_from_scancode() {
    assert_eq!(key_name_lparam(0x1E), 0x1E0000);
    assert_eq!(key_name_lparam(0x21E), 0x1E0000);
    assert_eq!(key_name_lparam(0x1FF), 0x1FF0000);
}

#[test]
fn key_press_messages() {
    assert!(is_key_press(0, WM_KEYDOWN));
    assert!(is_key_press(5, WM_SYSKEYDOWN));
    assert!(!is_key_press(-1, WM_KEYDOWN));
    assert!(!is_key_press(0, 0x0101));
}

#[test]
fn muxer_flags() {
    assert_eq!(codec_flags(FORMAT_GLOBAL_HEADER, 1), 1 | CODEC_FLAG_GLOBAL_HEADER);
    assert_eq!(codec_flags(0x0001, 1), 1);
    assert!(needs_io_open(0));
    assert!(!needs_io_open(0x0001));
}

#[test]
fn shown_keys_only_expire_oldest_first() {
    let mut log = KeyLog::new();
    log.push_at("A".to_string(), 0);
    log.push_at("B".to_string(), 500_000_000);
    log.push_at("C".to_string(), 1_000_000_000);
    let early = log.current_keys_at(1_000_000_000);
    let late = log.current_keys_at(2_200_000_000);
    assert_eq!(early, vec!["A", "B", "C"]);
    assert_eq!(late, vec!["B", "C"]);
    assert!(early.ends_with(&late));
}
