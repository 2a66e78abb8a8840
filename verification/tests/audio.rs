use capture_stream::audio::audio_device::{stream_flags, FLOW_CAPTURE, FLOW_RENDER, STREAMFLAGS_LOOPBACK};
use capture_stream::audio::audio_format::{
    sample_format_bytes, sample_format_is_planar, AudioFormat, SAMPLE_FMT_FLT, SAMPLE_FMT_FLTP,
    SAMPLE_FMT_NONE, SAMPLE_FMT_S16, SAMPLE_FMT_S16P, SAMPLE_FMT_S32, SAMPLE_FMT_U8,
};
use capture_stream::audio::audio_stream::{select_sample_format, AudioStream};

#[test]
fn sample_format_from_bit_depth() {
    assert_eq!(AudioFormat::sample_format(32, 3), SAMPLE_FMT_FLT);
    assert_eq!(AudioFormat::sample_format(32, 1), SAMPLE_FMT_S32);
    assert_eq!(AudioFormat::sample_format(24, 3), SAMPLE_FMT_S32);
    assert_eq!(AudioFormat::sample_format(16, 0xFFFE), SAMPLE_FMT_S16);
    assert_eq!(AudioFormat::sample_format(8, 1), SAMPLE_FMT_U8);
    assert_eq!(AudioFormat::sample_format(12, 1), SAMPLE_FMT_NONE);
}

#[test]
fn sample_format_sizes_and_layout() {
    assert_eq!(sample_format_bytes(SAMPLE_FMT_U8), 1);
    assert_eq!(sample_format_bytes(SAMPLE_FMT_S16P), 2);
    assert_eq!(sample_format_bytes(SAMPLE_FMT_FLTP), 4);
    assert_eq!(sample_format_bytes(10), 8);
    assert_eq!(sample_format_bytes(SAMPLE_FMT_NONE), 0);
    assert!(sample_format_is_planar(SAMPLE_FMT_FLTP));
    assert!(!sample_format_is_planar(SAMPLE_FMT_FLT));
    assert!(!sample_format_is_planar(SAMPLE_FMT_NONE));
}

#[test]
fn format_from_wave_format() {
    let f = AudioFormat::from_wave_format(384_000, 48_000, 2, 32, 3);
    assert_eq!(f, AudioFormat::new(3_072_000, 48_000, 2, 4, SAMPLE_FMT_FLT));
}

#[test]
fn format_from_codec() {
    let f = AudioFormat::from_codec(192_000, 44_100, 2, SAMPLE_FMT_FLTP);
    assert_eq!(f.bytes_per_sample, 4);
    assert_eq!(f.channels, 2);
    assert_eq!(f.sample_format, SAMPLE_FMT_FLTP);
}

#[test]
fn nb_samples_counts_whole_frames() {
    let f = AudioFormat::new(0, 48_000, 2, 4, SAMPLE_FMT_FLT);
    assert_eq!(f.nb_samples(80), 10);
    assert_eq!(f.nb_samples(87), 10);
    assert_eq!(f.nb_samples(-9), -1);
    assert_eq!(f.nb_samples(0), 0);
}

#[test]
fn from_bytes_deinterleaves_planar() {
    let f = AudioFormat::new(0, 48_000, 2, 2, SAMPLE_FMT_S16P);
    let bytes = [1u8, 2, 3, 4, 5, 6, 7, 8, 9];
    let planes = f.from_bytes(&bytes);
    assert_eq!(planes, vec![vec![1, 2, 5, 6], vec![3, 4, 7, 8]]);
}

#[test]
fn from_bytes_keeps_packed() {
    let f = AudioFormat::new(0, 48_000, 2, 4, SAMPLE_FMT_FLT);
    let bytes = [1u8, 2, 3, 4, 5];
    assert_eq!(f.from_bytes(&bytes), vec![vec![1, 2, 3, 4, 5]]);
}

#[test]
fn packet_bytes_product() {
    let f = AudioFormat::new(0, 48_000, 2, 4, SAMPLE_FMT_FLT);
    assert_eq!(f.packet_bytes(480), 3840);
}

#[test]
fn stream_flags_by_direction() {
    assert_eq!(stream_flags(FLOW_CAPTURE), Ok(0));
    assert_eq!(stream_flags(FLOW_RENDER), Ok(STREAMFLAGS_LOOPBACK));
    assert_eq!(stream_flags(2), Err("Unsupported data flow".to_string()));
}

#[test]
fn select_sample_format_defaults_to_float_planar() {
    assert_eq!(select_sample_format(None), SAMPLE_FMT_FLTP);
    assert_eq!(select_sample_format(Some(SAMPLE_FMT_NONE)), SAMPLE_FMT_FLTP);
    assert_eq!(select_sample_format(Some(SAMPLE_FMT_S16)), SAMPLE_FMT_S16);
}

fn stream() -> AudioStream {
    // 2 channels, 2 bytes per sample, frames of 3 samples: 6 bytes per plane.
    AudioStream::new(AudioFormat::new(0, 1000, 2, 2, SAMPLE_FMT_S16P), 3, 2)
}

#[test]
fn push_collects_until_a_frame_is_full() {
    let mut s = stream();
    assert_eq!(s.push(vec![vec![1, 2, 3, 4], vec![11, 12, 13, 14]]), None);
    let out = s.push(vec![vec![5, 6, 7, 8], vec![15, 16, 17, 18]]);
    assert_eq!(out, Some(vec![vec![1, 2, 3, 4, 5, 6], vec![11, 12, 13, 14, 15, 16]]));
    // Two bytes per channel stay queued.
    let out = s.push(vec![vec![9, 10, 20, 21], vec![19, 20, 30, 31]]);
    assert_eq!(out, Some(vec![vec![7, 8, 9, 10, 20, 21], vec![17, 18, 19, 20, 30, 31]]));
}

#[test]
fn write_stamps_frames_without_overlap() {
    let mut s = stream();
    let second: u128 = 1_000_000_000;
    // Not a whole frame yet: no stamp, the clock does not start.
    assert_eq!(s.write(5 * second, vec![vec![1, 2], vec![3, 4]]), None);
    let (planes, pts) = s.write(5 * second, vec![vec![1, 2, 3, 4], vec![5, 6, 7, 8]]).unwrap();
    assert_eq!(pts, 0);
    assert_eq!(planes, vec![vec![1, 2, 1, 2, 3, 4], vec![3, 4, 5, 6, 7, 8]]);
    // 1 ms later is sample 1 at 1000 Hz, but the first frame holds samples
    // 0..3, so the next frame starts at 3.
    let (_, pts) = s.write(5 * second + 1_000_000, vec![vec![0; 6], vec![0; 6]]).unwrap();
    assert_eq!(pts, 3);
    // 1 s after the start is sample 1000.
    let (_, pts) = s.write(6 * second, vec![vec![0; 6], vec![0; 6]]).unwrap();
    assert_eq!(pts, 1000);
}

#[test]
fn stream_queue_counters() {
    let mut s = stream();
    assert_eq!(s.required_bytes(), 6);
    assert_eq!(s.queued_bytes(), 0);
    assert_eq!(s.next(), 0);
    assert_eq!(s.write(7, vec![vec![1, 2, 3, 4], vec![5, 6, 7, 8]]), None);
    assert_eq!(s.queued_bytes(), 4);
    assert!(s.write(7, vec![vec![0, 0], vec![0, 0]]).is_some());
    assert_eq!(s.queued_bytes(), 0);
    assert_eq!(s.next(), 3);
    assert_eq!(s.start(), 7);
}
