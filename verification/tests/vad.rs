use kotoma::config::VadConfig;
use kotoma::vad::{SegmentEnd, VadLevel, VadRunner, FRAME_SAMPLES};

#[test]
fn limits_in_frames() {
    let r = VadRunner::new(2, 500, 900, 15_000);
    let s = r.segmenter();
    assert_eq!(s.silence_limit, 30);
    assert_eq!(s.min_speech_frames, 16);
    assert_eq!(s.max_segment_frames, 500);
    let tiny = VadRunner::new(0, 0, 10, 29).segmenter();
    assert_eq!(tiny.silence_limit, 1);
    assert_eq!(tiny.min_speech_frames, 1);
    assert_eq!(tiny.max_segment_frames, 1);
}

#[test]
fn aggressiveness_levels() {
    assert_eq!(VadRunner::new(0, 1, 1, 1).level(), VadLevel::Quality);
    assert_eq!(VadRunner::new(1, 1, 1, 1).level(), VadLevel::LowBitrate);
    assert_eq!(VadRunner::new(2, 1, 1, 1).level(), VadLevel::Aggressive);
    assert_eq!(VadRunner::new(9, 1, 1, 1).level(), VadLevel::VeryAggressive);
}

#[test]
fn speech_then_silence_emits_segment() {
    let mut s = VadRunner::new(2, 90, 60, 15_000).segmenter();
    // silence before speech is ignored
    let a = s.on_frame(false);
    assert!(!a.append && !a.start && a.end == SegmentEnd::Open);
    let a = s.on_frame(true);
    assert!(a.start && a.append && a.end == SegmentEnd::Open);
    s.on_frame(true);
    s.on_frame(true);
    let a = s.on_frame(false);
    assert!(a.append && a.end == SegmentEnd::Open);
    let a = s.on_frame(false);
    assert_eq!(a.end, SegmentEnd::Emit { id: 0, speech_ms: 90 });
    assert!(!s.in_speech);
    assert_eq!(s.next_id, 1);
}

#[test]
fn short_speech_is_dropped() {
    let mut s = VadRunner::new(2, 120, 30, 15_000).segmenter();
    s.on_frame(true);
    let a = s.on_frame(false);
    assert_eq!(a.end, SegmentEnd::Drop);
    assert_eq!(s.next_id, 0);
}

#[test]
fn long_speech_is_force_flushed() {
    let mut s = VadRunner::new(2, 30, 900, 90).segmenter();
    s.on_frame(true);
    s.on_frame(true);
    let a = s.on_frame(true);
    assert_eq!(a.end, SegmentEnd::Emit { id: 0, speech_ms: 90 });
    let a = s.on_frame(true);
    assert!(a.start);
}

#[test]
fn pause_abandons_segment() {
    let mut s = VadRunner::new(2, 30, 900, 15_000).segmenter();
    s.on_frame(true);
    assert!(s.draft().active);
    assert_eq!(s.draft().speech_ms, 30);
    s.pause();
    assert!(!s.in_speech);
    assert!(!s.draft().active);
}

#[test]
fn detector_error_counts_as_silence() {
    let mut s = VadRunner::new(2, 30, 30, 15_000).segmenter();
    let a = s.on_detection(Err(()));
    assert!(!a.append);
    let a = s.on_detection(Ok(true));
    assert!(a.start);
}

#[test]
fn detector_hears_no_voice_in_silence() {
    let runner = VadConfig::default().runner();
    let mut vad = runner.detector();
    assert_eq!(vad.get_sample_rate(), 16_000);
    assert_eq!(vad.get_level(), VadLevel::Aggressive);
    let mut seg = runner.segmenter();
    let frame = vec![0i16; FRAME_SAMPLES];
    for _ in 0..10 {
        let a = seg.on_samples(&mut vad, &frame);
        assert!(!a.start && !a.append);
    }
    // An unsupported frame length is an error from the detector: no speech.
    let bad = vec![12000i16; 7];
    let a = seg.on_samples(&mut vad, &bad);
    assert!(!a.start && !a.append);
    assert!(!seg.in_speech);
}

#[test]
fn stream_of_segments_is_numbered_in_order() {
    // 30 ms frames: a segment needs one speech frame and ends after one
    // silent frame; pauses in between abandon what is open.
    let mut s = VadRunner::new(2, 30, 30, 15_000).segmenter();
    let frames = [true, false, true, true, false, false, true];
    let mut ids = Vec::new();
    for (k, speech) in frames.iter().enumerate() {
        if k == 5 {
            s.pause();
        }
        if let SegmentEnd::Emit { id, .. } = s.on_frame(*speech).end {
            ids.push(id);
        }
    }
    s.on_frame(true);
    s.pause();
    s.on_frame(true);
    if let SegmentEnd::Emit { id, .. } = s.on_frame(false).end {
        ids.push(id);
    }
    assert_eq!(ids, vec![0, 1, 2]);
}
