use std::collections::HashMap;

use capture_stream::args::{Args, AudioSetup, DeviceChoice};

fn args_with(size: &str, video_bit_rate: &str, audio_bit_rate: &str) -> Args {
    Args {
        debug: false,
        ffmpeg: "ffmpeg".to_string(),
        microphone: None,
        audio: None,
        display: None,
        video_encoder: "libx264".to_string(),
        size: size.to_string(),
        video_bit_rate: video_bit_rate.to_string(),
        fps: 30,
        video_options: Vec::new(),
        audio_encoder: "aac".to_string(),
        audio_bit_rate: audio_bit_rate.to_string(),
        sample_rate: 44100,
        channels: 2,
        bytes_per_sample: 4,
        url: "rtmp://localhost/live".to_string(),
    }
}

fn size_of(s: &str) -> Result<(usize, usize), String> {
    args_with(s, "2500k", "192k").size()
}

#[test]
fn size_default_value() {
    assert_eq!(size_of("1920x1080"), Ok((1920, 1080)));
}

#[test]
fn size_accepts_other_separators_and_case() {
    assert_eq!(size_of("1280X720"), Ok((1280, 720)));
    assert_eq!(size_of("640*480"), Ok((640, 480)));
    assert_eq!(size_of("800\u{d7}600"), Ok((800, 600)));
}

#[test]
fn size_trims_whitespace() {
    assert_eq!(size_of("  1920 x 1080\t"), Ok((1920, 1080)));
    assert_eq!(size_of("\u{3000}1920x1080\u{a0}"), Ok((1920, 1080)));
}

#[test]
fn size_accepts_plus_sign() {
    assert_eq!(size_of("+10x+20"), Ok((10, 20)));
}

#[test]
fn size_invalid_width() {
    assert_eq!(size_of(""), Err("Invalid width".to_string()));
    assert_eq!(size_of("abcx100"), Err("Invalid width".to_string()));
    assert_eq!(size_of("-5x100"), Err("Invalid width".to_string()));
    assert_eq!(size_of("x100"), Err("Invalid width".to_string()));
}

#[test]
fn size_missing_height() {
    assert_eq!(size_of("1920"), Err("Missing height".to_string()));
}

#[test]
fn size_invalid_height() {
    assert_eq!(size_of("1920x"), Err("Invalid height".to_string()));
    assert_eq!(size_of("1920x10 80"), Err("Invalid height".to_string()));
    assert_eq!(size_of("1920xx1080"), Err("Invalid height".to_string()));
}

#[test]
fn size_too_many_dimensions() {
    assert_eq!(size_of("1x2x3"), Err("Too many dimensions".to_string()));
}

#[test]
fn size_rejects_zero() {
    assert_eq!(
        size_of("0x1080"),
        Err("Width and height must be greater than 0".to_string())
    );
    assert_eq!(
        size_of("1920x0"),
        Err("Width and height must be greater than 0".to_string())
    );
}

#[test]
fn size_rejects_overflow() {
    assert_eq!(
        size_of("99999999999999999999999x1"),
        Err("Invalid width".to_string())
    );
}

#[test]
fn video_bit_rate_suffixes() {
    assert_eq!(args_with("1x1", "2500k", "1").video_bit_rate(), Ok(2_500_000));
    assert_eq!(args_with("1x1", "3m", "1").video_bit_rate(), Ok(3_000_000));
    assert_eq!(args_with("1x1", "1g", "1").video_bit_rate(), Ok(1_000_000_000));
    assert_eq!(args_with("1x1", " 800 ", "1").video_bit_rate(), Ok(800));
    assert_eq!(args_with("1x1", "k", "1").video_bit_rate(), Ok(0));
    assert_eq!(args_with("1x1", "-2k", "1").video_bit_rate(), Ok(-2000));
}

#[test]
fn video_bit_rate_errors() {
    assert_eq!(
        args_with("1x1", "1.5m", "1").video_bit_rate(),
        Err("Invalid bitrate".to_string())
    );
    assert_eq!(
        args_with("1x1", "2500K", "1").video_bit_rate(),
        Err("Invalid bitrate".to_string())
    );
    assert_eq!(
        args_with("1x1", "", "1").video_bit_rate(),
        Err("Invalid bitrate".to_string())
    );
    assert_eq!(
        args_with("1x1", "10000000000g", "1").video_bit_rate(),
        Err("Invalid bitrate".to_string())
    );
}

#[test]
fn audio_bit_rate_values() {
    assert_eq!(args_with("1x1", "1", "192k").audio_bit_rate(), Ok(192_000));
    assert_eq!(
        args_with("1x1", "1", "-9223372036854775808").audio_bit_rate(),
        Ok(i64::MIN)
    );
    assert_eq!(
        args_with("1x1", "1", "fast").audio_bit_rate(),
        Err("Invalid audio bitrate".to_string())
    );
}

#[test]
fn video_options_split_at_first_equals() {
    let mut a = args_with("1x1", "1", "1");
    a.video_options = vec![
        "preset=ultrafast".to_string(),
        "tune".to_string(),
        "x264-params=keyint=60".to_string(),
        "preset=veryfast".to_string(),
    ];
    let opts = a.video_options();
    assert_eq!(opts.len(), 3);
    let map: HashMap<String, String> = opts.into_iter().collect();
    assert_eq!(map.get("preset").map(String::as_str), Some("veryfast"));
    assert_eq!(map.get("tune").map(String::as_str), Some(""));
    assert_eq!(map.get("x264-params").map(String::as_str), Some("keyint=60"));
}

#[test]
fn video_options_empty() {
    let a = args_with("1x1", "1", "1");
    assert!(a.video_options().is_empty());
}

#[test]
fn inputs_and_sources() {
    let mut a = args_with("1x1", "1", "1");
    assert!(!a.has_inputs());
    assert_eq!(a.audio_setup(), AudioSetup::Silent);
    assert_eq!(a.display_index(), None);
    a.display = Some(None);
    assert!(a.has_inputs());
    assert_eq!(a.display_index(), Some(0));
    a.display = Some(Some(2));
    assert_eq!(a.display_index(), Some(2));
    a.audio = Some(None);
    assert_eq!(a.audio_setup(), AudioSetup::Render(DeviceChoice::Default));
    a.microphone = Some(Some(3));
    assert_eq!(
        a.audio_setup(),
        AudioSetup::Mixed(DeviceChoice::Default, DeviceChoice::Index(3))
    );
    a.audio = None;
    assert_eq!(a.audio_setup(), AudioSetup::Microphone(DeviceChoice::Index(3)));
}
