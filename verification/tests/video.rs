use capture_stream::video::video_desktop::{FrameLimiter, VideoDesktop};
use capture_stream::video::video_format::VideoFormat;
use capture_stream::video::video_stream::{join_time, split_time, VideoStream};

#[test]
fn split_time_reads_little_endian_prefix() {
    let mut data = vec![0u8; 16];
    data[0] = 0x01;
    data[1] = 0x02;
    data[15] = 0x80;
    data.extend_from_slice(&[9, 8, 7]);
    let (ts, rest) = split_time(&data);
    assert_eq!(ts, 0x8000_0000_0000_0000_0000_0000_0000_0201u128);
    assert_eq!(rest, &[9, 8, 7]);
}

#[test]
fn join_then_split_round_trips() {
    let ts = 1_700_000_000_123_456_789u128;
    let pixels = [1u8, 2, 3, 4, 5];
    let msg = join_time(ts, &pixels);
    assert_eq!(msg.len(), 21);
    assert_eq!(&msg[..16], &ts.to_le_bytes());
    let (t, rest) = split_time(&msg);
    assert_eq!(t, ts);
    assert_eq!(rest, &pixels);
}

#[test]
fn video_write_stamps_in_frames() {
    let fmt = VideoFormat { width: 1920, height: 1080, bit_rate: 2_500_000, pix_fmt: 0, fps: 30 };
    let mut s = VideoStream::new(fmt);
    let t0: u128 = 1_700_000_000_000_000_000;
    assert_eq!(s.write(t0), 0);
    assert_eq!(s.write(t0 + 100_000_000), 3);
    assert_eq!(s.write(t0 + 1_000_000_000), 30);
    assert_eq!(s.format().fps, 30);
}

#[test]
fn line_size_is_four_bytes_per_pixel() {
    let fmt = VideoFormat { width: 1280, height: 720, bit_rate: 0, pix_fmt: 28, fps: 60 };
    assert_eq!(fmt.line_size(), 5120);
}

#[test]
fn desktop_size_rate_and_limit() {
    let mut d = VideoDesktop::new(1920, 1080);
    assert_eq!(d.width(), 1920);
    assert_eq!(d.height(), 1080);
    assert_eq!(d.bit_rate(30), 1920 * 1080 * 32 * 30);
    assert_eq!(d.bit_rate(0), 0);
    d.set_fps_limit(30).set_fps_limit(25);
    assert_eq!(d.target_fps(), 25);
}

#[test]
fn with_index_picks_monitor() {
    let monitors = vec![10u32, 20, 30];
    assert_eq!(VideoDesktop::with_index(1, &monitors), Ok(20));
    assert_eq!(
        VideoDesktop::with_index(3, &monitors),
        Err("Monitor index out of bounds".to_string())
    );
}

#[test]
fn limiter_spaces_frames() {
    // 4 frames per second: one every 250 ms.
    let mut l = FrameLimiter::new(4);
    let ms: u128 = 1_000_000;
    assert!(!l.accept_frame(100 * ms));
    assert!(l.accept_frame(250 * ms));
    assert!(!l.accept_frame(400 * ms));
    assert!(l.accept_frame(500 * ms));
    assert!(!l.accept_frame(10 * ms));
}

#[test]
fn limiter_without_rate_passes_all() {
    let mut l = VideoDesktop::new(1, 1).frame_limiter();
    assert!(l.accept_frame(0));
    assert!(l.accept_frame(0));
}

#[test]
fn to_bytes_drops_row_padding() {
    // 1 pixel wide, 2 rows, rows 6 bytes apart in the mapped texture.
    let mapped = [1u8, 2, 3, 4, 0, 0, 5, 6, 7, 8];
    assert_eq!(VideoDesktop::to_bytes(&mapped, 1, 2, 6), vec![1, 2, 3, 4, 5, 6, 7, 8]);
    assert!(VideoDesktop::to_bytes(&mapped, 1, 0, 6).is_empty());
}

#[test]
fn limiter_paces_a_burst() {
    // 10 frames per second: 100 ms apart at least.
    let mut l = FrameLimiter::new(10);
    let ms: u128 = 1_000_000;
    let arrivals = [50, 100, 120, 199, 200, 350, 360, 460];
    let delivered: Vec<u128> = arrivals
        .iter()
        .map(|t| t * ms)
        .filter(|&t| l.accept_frame(t))
        .collect();
    assert_eq!(delivered, vec![100 * ms, 200 * ms, 350 * ms, 460 * ms]);
    for pair in delivered.windows(2) {
        assert!(pair[1] >= pair[0] + 100 * ms);
    }
}
