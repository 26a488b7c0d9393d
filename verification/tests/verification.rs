use lilaccaps::verification::{
    compare_packet_data, packet_line_within_limit, parse_packet_line, read_bounded, valid_packet_hash,
    verify_structure, AudioStreamMetadata, PacketLine, VideoShape, MAX_PACKET_LINE_BYTES,
};

fn chunks_of(total: usize, size: usize) -> Vec<Vec<u8>> {
    let mut chunks = Vec::new();
    let mut left = total;
    while left > 0 {
        let n = left.min(size);
        chunks.push(vec![b'a'; n]);
        left -= n;
    }
    chunks
}

fn stream(index: u32, codec: &str, rate: u32) -> AudioStreamMetadata {
    AudioStreamMetadata {
        index,
        codec: codec.to_string(),
        sample_rate: Some(rate),
        channels: Some(2),
        channel_layout: Some("stereo".to_string()),
    }
}

fn shape(width: u32, height: u32, frames: Option<u64>, audio: Vec<AudioStreamMetadata>) -> VideoShape {
    VideoShape { width, height, video_stream_count: 1, frame_count: frames, audio_streams: audio }
}

const HASH: &str = "SHA256:0123456789abcdef0123456789abcdef0123456789abcdef0123456789abcdef";

#[test]
fn rejects_missing_or_malformed_audio_hashes() {
    assert!(parse_packet_line("size=42|data_hash=\n").is_err());
    assert!(parse_packet_line("size=42\n").is_err());
    assert!(!packet_line_within_limit(MAX_PACKET_LINE_BYTES + 1));
}

#[test]
fn drains_output_but_keeps_memory_bounded() {
    let (output, truncated) = read_bounded(&chunks_of(100_000, 4096), 100);
    assert_eq!(output.len(), 100);
    assert!(truncated);
}

#[test]
fn bounded_read_keeps_everything_under_the_limit() {
    let (output, truncated) = read_bounded(&chunks_of(250, 100), 250);
    assert_eq!(output.len(), 250);
    assert!(!truncated);
    let (output, truncated) = read_bounded(&Vec::new(), 10);
    assert!(output.is_empty());
    assert!(!truncated);
}

#[test]
fn packet_line_limit_accepts_the_limit_itself() {
    assert!(packet_line_within_limit(MAX_PACKET_LINE_BYTES));
    assert!(packet_line_within_limit(0));
}

#[test]
fn parses_a_packet_line_and_its_timestamps() {
    let line = format!("pts_time=0.021333|dts_time=N/A|size=371|data_hash={HASH}\n");
    let packet = parse_packet_line(&line).unwrap().unwrap();
    assert_eq!(packet.hash, HASH);
    assert_eq!(packet.size, 371);
    assert_eq!(packet.pts.as_deref(), Some("0.021333"));
    assert_eq!(packet.dts, None);
    assert_eq!(packet.duration, None);
}

#[test]
fn blank_packet_lines_are_skipped() {
    assert!(parse_packet_line("   \n").unwrap().is_none());
}

#[test]
fn packet_errors_name_the_field() {
    assert_eq!(
        parse_packet_line("size=1|data_hash=SHA256:xyz").unwrap_err(),
        "audio packet has an invalid SHA256 data hash"
    );
    assert_eq!(parse_packet_line("size=42").unwrap_err(), "audio packet is missing its SHA256 data hash");
    assert_eq!(
        parse_packet_line(&format!("data_hash={HASH}")).unwrap_err(),
        "audio packet is missing its size"
    );
    assert_eq!(
        parse_packet_line(&format!("size=-4|data_hash={HASH}")).unwrap_err(),
        "audio packet has an invalid size"
    );
}

#[test]
fn the_last_repeated_field_wins() {
    let packet = parse_packet_line(&format!("size=1|data_hash={HASH}|size=9")).unwrap().unwrap();
    assert_eq!(packet.size, 9);
}

#[test]
fn validates_packet_hashes() {
    assert!(valid_packet_hash(HASH));
    assert!(!valid_packet_hash("SHA256:"));
    assert!(!valid_packet_hash(&HASH.replace("SHA256", "MD5xxx")));
    assert!(!valid_packet_hash(&HASH.replace('f', "g")));
}

#[test]
fn compares_packet_data() {
    let a = PacketLine { hash: HASH.to_string(), size: 10, pts: None, dts: None, duration: None };
    let mut b = a.clone();
    assert!(compare_packet_data(1, &a, &b).is_ok());
    b.size = 11;
    assert_eq!(
        compare_packet_data(3, &a, &b).unwrap_err(),
        "audio packet 3 data changed; audio must be copied without re-encoding"
    );
}

#[test]
fn identical_structure_passes_with_frame_counts() {
    let source = shape(640, 480, Some(20), vec![stream(1, "aac", 48000)]);
    let output = shape(640, 480, Some(20), vec![stream(1, "aac", 48000)]);
    assert_eq!(verify_structure(&source, &output), Ok(Some(true)));
    let unknown = shape(640, 480, None, vec![stream(1, "aac", 48000)]);
    assert_eq!(verify_structure(&source, &unknown), Ok(None));
}

#[test]
fn structure_failures_describe_the_change() {
    let source = shape(640, 480, Some(20), vec![stream(1, "aac", 48000)]);
    assert_eq!(
        verify_structure(&source, &shape(320, 240, Some(20), vec![stream(1, "aac", 48000)])).unwrap_err(),
        "render verification failed: video dimensions changed from 640x480 to 320x240"
    );
    let mut two = shape(640, 480, Some(20), vec![stream(1, "aac", 48000)]);
    two.video_stream_count = 2;
    assert_eq!(
        verify_structure(&source, &two).unwrap_err(),
        "render verification failed: expected one output video stream, found 2"
    );
    assert_eq!(
        verify_structure(&source, &shape(640, 480, Some(19), vec![stream(1, "aac", 48000)])).unwrap_err(),
        "render verification failed: frame count changed from 20 to 19"
    );
    assert_eq!(
        verify_structure(&source, &shape(640, 480, Some(20), vec![])).unwrap_err(),
        "render verification failed: audio stream count changed from 1 to 0"
    );
    assert_eq!(
        verify_structure(&source, &shape(640, 480, Some(20), vec![stream(1, "aac", 44100)])).unwrap_err(),
        "render verification failed: audio stream 0 codec, sample rate, or channel count changed"
    );
}
