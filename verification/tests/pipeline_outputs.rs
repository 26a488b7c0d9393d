use lilaccaps::captions::{captions_output, default_output_path, temp_audio_path};
use lilaccaps::faster_whisper::{subtitle_cue, timed_word};

#[test]
fn rejects_empty_or_invalid_helper_items_in_centiseconds() {
    assert!(timed_word(String::new(), 0, 100).is_none());
    assert!(subtitle_cue(1, "hello", 200, 100).is_none());
    assert!(subtitle_cue(1, "   ", 0, 100).is_none());
    let word = timed_word("hi".into(), 10, 20).unwrap();
    assert_eq!((word.start_cs, word.end_cs, word.text.as_str()), (10, 20, "hi"));
    let cue = subtitle_cue(4, "  hello ", 0, 124).unwrap();
    assert_eq!((cue.index, cue.start_cs, cue.end_cs, cue.text.as_str()), (4, 0, 124, "hello"));
}

#[test]
fn caption_outputs_sit_beside_the_input() {
    assert_eq!(default_output_path("/v/talk.mp4"), "/v/talk.srt");
    assert_eq!(temp_audio_path("/r", "/v/talk.mp4"), "/r/tmp/talk.mono16k.wav");
    let out = captions_output("/v/talk.mp4".into(), "/v/talk.srt".into(), "/m/model.bin".into());
    assert_eq!(out.status, "generated");
    assert_eq!(out.output, "/v/talk.srt");
}
