//! Voice-activity segmentation: 30 ms frames are classified as speech or
//! not, and runs of speech are cut into segments at a silence gap or at a
//! maximum length.
use vstd::prelude::*;
use webrtc_vad::Vad;
use crate::msg::DraftState;

verus! {

/// Frame length in milliseconds.
pub const FRAME_MS: u32 = 30;

/// Samples per frame at 16 kHz.
pub const FRAME_SAMPLES: usize = 480;

/// Sample rate of the audio handed to the detector.
pub const TARGET_SR: u32 = 16_000;

#[verifier::external_type_specification]
#[verifier::external_body]
pub struct ExVad(Vad);

/// The detector's aggressiveness; higher levels report speech less readily.
#[derive(Clone, Copy, Debug, PartialEq, Eq)]
pub enum VadLevel {
    Quality,
    LowBitrate,
    Aggressive,
    VeryAggressive,
}

/// The sample rates the detector supports.
pub open spec fn supported_rate(sample_rate: u32) -> bool {
    sample_rate == 8000 || sample_rate == 16000 || sample_rate == 32000 || sample_rate == 48000
}

/// The frame lengths the detector accepts at a sample rate: 10, 20 or 30 ms
/// of samples.
pub open spec fn valid_frame_len(sample_rate: u32, len: int) -> bool {
    let per_ms = sample_rate / 1000;
    len == 10 * per_ms || len == 20 * per_ms || len == 30 * per_ms
}

/// A WebRTC voice-activity detector, with the sample rate and
/// aggressiveness it was created for and the frames it has been handed.
pub struct Detector {
    vad: Vad,
    sample_rate: u32,
    level: VadLevel,
    fed: Ghost<Seq<Seq<i16>>>,
}

impl Detector {
    /// The sample rate the detector was set to.
    pub closed spec fn sample_rate(&self) -> u32 {
        self.sample_rate
    }

    /// The aggressiveness mode the detector was set to.
    pub closed spec fn level(&self) -> VadLevel {
        self.level
    }

    /// The frames handed to the detector so far, oldest first.
    pub closed spec fn fed(&self) -> Seq<Seq<i16>> {
        self.fed@
    }

    pub fn get_sample_rate(&self) -> (r: u32)
        ensures
            r == self.sample_rate(),
    {
        self.sample_rate
    }

    pub fn get_level(&self) -> (r: VadLevel)
        ensures
            r == self.level(),
    {
        self.level
    }
}

/// Creates a detector with `Vad::new_with_rate_and_mode`, set to
/// `sample_rate` (converted with `SampleRate::try_from`, which accepts
/// exactly the four supported rates) and to the mode of `level`; the
/// detector records the same two values and has been handed no frame yet.
#[verifier::external_body]
fn create_detector(sample_rate: u32, level: VadLevel) -> (r: Detector)
    requires
        supported_rate(sample_rate),
    ensures
        r.sample_rate() == sample_rate,
        r.level() == level,
        r.fed() == Seq::<Seq<i16>>::empty(),
{
    let mode = match level {
        VadLevel::Quality => webrtc_vad::VadMode::Quality,
        VadLevel::LowBitrate => webrtc_vad::VadMode::LowBitrate,
        VadLevel::Aggressive => webrtc_vad::VadMode::Aggressive,
        VadLevel::VeryAggressive => webrtc_vad::VadMode::VeryAggressive,
    };
    let rate = <webrtc_vad::SampleRate as std::convert::TryFrom<i32>>::try_from(sample_rate as i32).unwrap();
    Detector { vad: Vad::new_with_rate_and_mode(rate, mode), sample_rate, level, fed: Ghost(Seq::empty()) }
}

/// Classifies one frame with `Vad::is_voice_segment`, which indexes the
/// first sample (so the frame must not be empty) and hands the frame to
/// libfvad's `fvad_process`: that answers `Err(())` exactly when the length
/// is not 10, 20 or 30 ms of samples at the detector's rate, and otherwise
/// `Ok` with its speech decision. The decision depends on the detector's
/// internal state, so only when `Err` comes is stated; the frame is recorded
/// as handed to the detector, and its rate and mode stay as they were.
#[verifier::external_body]
fn classify_frame(d: &mut Detector, frame: &[i16]) -> (r: Result<bool, ()>)
    requires
        frame@.len() > 0,
    ensures
        final(d).sample_rate() == old(d).sample_rate(),
        final(d).level() == old(d).level(),
        final(d).fed() == old(d).fed().push(frame@),
        r is Err <==> !valid_frame_len(old(d).sample_rate(), frame@.len() as int),
{
    let r = d.vad.is_voice_segment(frame);
    proof {
        d.fed@ = d.fed@.push(frame@);
    }
    r
}

/// Segmentation settings, in milliseconds.
#[derive(Clone, Copy, Debug)]
pub struct VadRunner {
    pub aggressiveness: u8,
    pub min_speech_ms: u32,
    pub silence_ms: u32,
    pub max_segment_ms: u32,
}

/// `ms` in whole frames, at least one.
pub open spec fn frames_for(ms: u32) -> usize {
    if ms / FRAME_MS >= 1 {
        (ms / FRAME_MS) as usize
    } else {
        1
    }
}

pub open spec fn level_for(aggr: u8) -> VadLevel {
    if aggr == 0 {
        VadLevel::Quality
    } else if aggr == 1 {
        VadLevel::LowBitrate
    } else if aggr == 2 {
        VadLevel::Aggressive
    } else {
        VadLevel::VeryAggressive
    }
}

impl VadRunner {
    pub fn new(aggr: u8, min_speech_ms: u32, silence_ms: u32, max_segment_ms: u32) -> (r: VadRunner)
        ensures
            r.aggressiveness == aggr,
            r.min_speech_ms == min_speech_ms,
            r.silence_ms == silence_ms,
            r.max_segment_ms == max_segment_ms,
    {
        VadRunner { aggressiveness: aggr, min_speech_ms, silence_ms, max_segment_ms }
    }

    /// 0 is `Quality`, 1 `LowBitrate`, 2 `Aggressive`, anything higher
    /// `VeryAggressive`.
    pub fn level(&self) -> (r: VadLevel)
        ensures
            r == level_for(self.aggressiveness),
    {
        match self.aggressiveness {
            0 => VadLevel::Quality,
            1 => VadLevel::LowBitrate,
            2 => VadLevel::Aggressive,
            _ => VadLevel::VeryAggressive,
        }
    }

    /// A detector for 16 kHz frames at the configured aggressiveness.
    pub fn detector(&self) -> (r: Detector)
        ensures
            r.sample_rate() == TARGET_SR,
            r.level() == level_for(self.aggressiveness),
            r.fed() == Seq::<Seq<i16>>::empty(),
    {
        create_detector(TARGET_SR, self.level())
    }

    /// A segmenter with the limits converted to frames, in its idle state.
    pub fn segmenter(&self) -> (r: Segmenter)
        ensures
            r.silence_limit == frames_for(self.silence_ms),
            r.min_speech_frames == frames_for(self.min_speech_ms),
            r.max_segment_frames == frames_for(self.max_segment_ms),
            !r.in_speech,
            r.speech_frames == 0,
            r.silence_frames == 0,
            r.next_id == 0,
            r.wf(),
    {
        Segmenter {
            silence_limit: frames_of(self.silence_ms),
            min_speech_frames: frames_of(self.min_speech_ms),
            max_segment_frames: frames_of(self.max_segment_ms),
            in_speech: false,
            speech_frames: 0,
            silence_frames: 0,
            next_id: 0,
        }
    }
}

fn frames_of(ms: u32) -> (r: usize)
    ensures
        r == frames_for(ms),
{
    let f = ms / FRAME_MS;
    if f >= 1 {
        f as usize
    } else {
        1
    }
}

/// How a segment ends on a frame.
#[derive(Clone, Copy, Debug, PartialEq, Eq)]
pub enum SegmentEnd {
    /// The segment goes on.
    Open,
    /// The segment is complete: emit it under `id`, with `speech_ms` of speech.
    Emit { id: u64, speech_ms: u32 },
    /// The segment held too little speech: throw it away.
    Drop,
}

/// What to do with one frame.
#[derive(Clone, Copy, Debug, PartialEq, Eq)]
pub struct FrameAction {
    /// Speech begins on this frame: note the segment's start time.
    pub start: bool,
    /// Append this frame to the segment.
    pub append: bool,
    /// What happens to the segment after this frame.
    pub end: SegmentEnd,
}

/// The segmentation state, counted in frames.
#[derive(Clone, Copy, Debug)]
pub struct Segmenter {
    pub silence_limit: usize,
    pub min_speech_frames: usize,
    pub max_segment_frames: usize,
    pub in_speech: bool,
    pub speech_frames: usize,
    pub silence_frames: usize,
    pub next_id: u64,
}

pub open spec fn next_id_after(id: u64) -> u64 {
    if id == u64::MAX {
        0
    } else {
        (id + 1) as u64
    }
}

/// The state after a segment ends.
pub open spec fn idle(s: Segmenter, next_id: u64) -> Segmenter {
    Segmenter { in_speech: false, speech_frames: 0, silence_frames: 0, next_id, ..s }
}

/// One frame through the segmenter: speech opens or extends a segment;
/// silence inside a segment extends it and, after `silence_limit` silent
/// frames, closes it (emitted if it held `min_speech_frames` speech
/// frames, else dropped); a segment that reaches `max_segment_frames` is
/// emitted at once.
pub open spec fn step(s: Segmenter, speech: bool) -> (Segmenter, FrameAction) {
    if speech {
        let speech_frames = if s.in_speech { s.speech_frames + 1 } else { 1 };
        let t = Segmenter { in_speech: true, speech_frames: speech_frames as usize, silence_frames: 0, ..s };
        if t.speech_frames + t.silence_frames >= s.max_segment_frames {
            (idle(s, next_id_after(s.next_id)), FrameAction { start: !s.in_speech, append: true, end: SegmentEnd::Emit { id: s.next_id, speech_ms: (t.speech_frames * 30) as u32 } })
        } else {
            (t, FrameAction { start: !s.in_speech, append: true, end: SegmentEnd::Open })
        }
    } else if s.in_speech {
        let silence_frames = s.silence_frames + 1;
        if silence_frames >= s.silence_limit {
            if s.speech_frames >= s.min_speech_frames {
                (idle(s, next_id_after(s.next_id)), FrameAction { start: false, append: true, end: SegmentEnd::Emit { id: s.next_id, speech_ms: (s.speech_frames * 30) as u32 } })
            } else {
                (idle(s, s.next_id), FrameAction { start: false, append: true, end: SegmentEnd::Drop })
            }
        } else if s.speech_frames + silence_frames >= s.max_segment_frames {
            (idle(s, next_id_after(s.next_id)), FrameAction { start: false, append: true, end: SegmentEnd::Emit { id: s.next_id, speech_ms: (s.speech_frames * 30) as u32 } })
        } else {
            (Segmenter { silence_frames: silence_frames as usize, ..s }, FrameAction { start: false, append: true, end: SegmentEnd::Open })
        }
    } else {
        (s, FrameAction { start: false, append: false, end: SegmentEnd::Open })
    }
}

impl Segmenter {
    /// Limits are at least one frame, the segment length stays below the
    /// maximum between frames, and an idle segmenter counts nothing.
    pub open spec fn wf(&self) -> bool {
        &&& self.silence_limit >= 1
        &&& self.min_speech_frames >= 1
        &&& 1 <= self.max_segment_frames <= frames_for(u32::MAX)
        &&& self.in_speech ==> self.speech_frames >= 1 && self.speech_frames + self.silence_frames
            < self.max_segment_frames && self.silence_frames < self.silence_limit
        &&& !self.in_speech ==> self.speech_frames == 0 && self.silence_frames == 0
    }

    /// Feeds one frame's classification.
    pub fn on_frame(&mut self, speech: bool) -> (r: FrameAction)
        requires
            old(self).wf(),
        ensures
            (*final(self), r) == step(*old(self), speech),
            final(self).wf(),
    {
        let next = if self.next_id == u64::MAX {
            0
        } else {
            self.next_id + 1
        };
        if speech {
            let start = !self.in_speech;
            if start {
                self.in_speech = true;
                self.speech_frames = 0;
            }
            self.silence_frames = 0;
            self.speech_frames = self.speech_frames + 1;
            if self.speech_frames + self.silence_frames >= self.max_segment_frames {
                let id = self.next_id;
                let speech_ms = (self.speech_frames as u32) * FRAME_MS;
                self.next_id = next;
                self.in_speech = false;
                self.speech_frames = 0;
                self.silence_frames = 0;
                FrameAction { start, append: true, end: SegmentEnd::Emit { id, speech_ms } }
            } else {
                FrameAction { start, append: true, end: SegmentEnd::Open }
            }
        } else if self.in_speech {
            self.silence_frames = self.silence_frames + 1;
            if self.silence_frames >= self.silence_limit {
                let end = if self.speech_frames >= self.min_speech_frames {
                    let id = self.next_id;
                    let speech_ms = (self.speech_frames as u32) * FRAME_MS;
                    self.next_id = next;
                    SegmentEnd::Emit { id, speech_ms }
                } else {
                    SegmentEnd::Drop
                };
                self.in_speech = false;
                self.silence_frames = 0;
                self.speech_frames = 0;
                FrameAction { start: false, append: true, end }
            } else if self.speech_frames + self.silence_frames >= self.max_segment_frames {
                let id = self.next_id;
                let speech_ms = (self.speech_frames as u32) * FRAME_MS;
                self.next_id = next;
                self.in_speech = false;
                self.speech_frames = 0;
                self.silence_frames = 0;
                FrameAction { start: false, append: true, end: SegmentEnd::Emit { id, speech_ms } }
            } else {
                FrameAction { start: false, append: true, end: SegmentEnd::Open }
            }
        } else {
            FrameAction { start: false, append: false, end: SegmentEnd::Open }
        }
    }

    /// Feeds the detector's answer for one frame; an error counts as no
    /// speech.
    pub fn on_detection(&mut self, detection: Result<bool, ()>) -> (r: FrameAction)
        requires
            old(self).wf(),
        ensures
            (*final(self), r) == step(*old(self), detection == Ok::<bool, ()>(true)),
            final(self).wf(),
    {
        let speech = match detection {
            Ok(b) => b,
            Err(_) => false,
        };
        self.on_frame(speech)
    }

    /// Classifies one frame of 16-bit samples with the detector and feeds
    /// the answer to the segmenter. The frame is handed to the detector; a
    /// length the detector does not accept counts as no speech, and a
    /// 30 ms frame at 16 kHz is always accepted.
    pub fn on_samples(&mut self, detector: &mut Detector, frame: &[i16]) -> (r: FrameAction)
        requires
            old(self).wf(),
            frame@.len() > 0,
        ensures
            final(self).wf(),
            final(detector).fed() == old(detector).fed().push(frame@),
            final(detector).sample_rate() == old(detector).sample_rate(),
            final(detector).level() == old(detector).level(),
            exists|speech: bool| (*final(self), r) == step(*old(self), speech),
            !valid_frame_len(old(detector).sample_rate(), frame@.len() as int) ==> (*final(self), r)
                == step(*old(self), false),
            old(detector).sample_rate() == TARGET_SR && frame@.len() == FRAME_SAMPLES
                ==> valid_frame_len(old(detector).sample_rate(), frame@.len() as int),
    {
        let detection = classify_frame(detector, frame);
        self.on_detection(detection)
    }

    /// The live indicator for the segment in progress.
    pub fn draft(&self) -> (r: DraftState)
        requires
            self.wf(),
        ensures
            r.active == self.in_speech,
            r.speech_ms == self.speech_frames * 30,
            r.elapsed_ms == (self.speech_frames + self.silence_frames) * 30,
    {
        let speech_ms = (self.speech_frames as u32) * FRAME_MS;
        let elapsed_ms = ((self.speech_frames + self.silence_frames) as u32) * FRAME_MS;
        DraftState { active: self.in_speech, speech_ms, elapsed_ms }
    }

    /// Recording paused: any segment in progress is abandoned.
    pub fn pause(&mut self)
        requires
            old(self).wf(),
        ensures
            *final(self) == idle(*old(self), old(self).next_id),
            final(self).wf(),
    {
        self.in_speech = false;
        self.speech_frames = 0;
        self.silence_frames = 0;
    }
}


// ---------------------------------------------------------------------------
// Laws
// ---------------------------------------------------------------------------

/// Segment ids count up: an emitted segment takes the current counter and
/// advances it by one; no other frame touches it.
pub proof fn lemma_ids_count_up(s: Segmenter, speech: bool)
    requires
        s.wf(),
    ensures
        step(s, speech).1.end matches SegmentEnd::Emit { id, .. } ==> id == s.next_id
            && step(s, speech).0.next_id == next_id_after(s.next_id),
        !(step(s, speech).1.end is Emit) ==> step(s, speech).0.next_id == s.next_id,
{
}

/// An emitted segment holds at least one frame of speech; one closed by
/// silence holds at least the minimum; a dropped one held less than the
/// minimum.
pub proof fn lemma_emitted_speech(s: Segmenter, speech: bool)
    requires
        s.wf(),
    ensures
        step(s, speech).1.end matches SegmentEnd::Emit { speech_ms, .. } ==> speech_ms >= FRAME_MS,
        !speech && s.in_speech && s.silence_frames + 1 >= s.silence_limit ==> (step(s, speech).1.end
            matches SegmentEnd::Emit { speech_ms, .. } ==> speech_ms >= s.min_speech_frames * FRAME_MS),
        step(s, speech).1.end is Drop ==> s.speech_frames < s.min_speech_frames,
{
}

/// Frames outside speech are not kept, and every frame inside a segment is.
pub proof fn lemma_frames_kept(s: Segmenter, speech: bool)
    requires
        s.wf(),
    ensures
        step(s, speech).1.append == (speech || s.in_speech),
        step(s, speech).1.start == (speech && !s.in_speech),
{
}

/// Between frames, an open segment's speech frames plus its current run of
/// silent frames stay below the maximum. The silence run restarts on each
/// speech frame, so this bounds those two counters, not the number of frames
/// appended to the segment.
pub proof fn lemma_segment_length_bounded(s: Segmenter, speech: bool)
    requires
        s.wf(),
    ensures
        step(s, speech).0.wf(),
        step(s, speech).0.in_speech ==> step(s, speech).0.speech_frames + step(s, speech).0.silence_frames
            < s.max_segment_frames,
{
}

/// What the capture loop hands the segmenter, in order: one classified frame,
/// or a chunk that arrived while recording was paused.
#[derive(Clone, Copy, Debug, PartialEq, Eq)]
pub enum StreamEvent {
    Frame(bool),
    Pause,
}

/// The segmenter after a stream of events, with the ids of the segments
/// emitted along the way, in emission order.
pub open spec fn run_stream(s: Segmenter, events: Seq<StreamEvent>) -> (Segmenter, Seq<u64>)
    decreases events.len(),
{
    if events.len() == 0 {
        (s, Seq::empty())
    } else {
        let (t, ids) = run_stream(s, events.drop_last());
        match events.last() {
            StreamEvent::Frame(speech) => {
                let (u, action) = step(t, speech);
                match action.end {
                    SegmentEnd::Emit { id, .. } => (u, ids.push(id)),
                    _ => (u, ids),
                }
            },
            StreamEvent::Pause => (idle(t, t.next_id), ids),
        }
    }
}

/// Over any stream, the emitted ids are the counter's start value, then one
/// more each time, with no gap and no repeat, as long as the counter does not
/// reach its maximum; the state stays well formed and the counter ends just
/// past the last id.
pub proof fn lemma_stream_ids_consecutive(s: Segmenter, events: Seq<StreamEvent>)
    requires
        s.wf(),
        s.next_id + events.len() <= u64::MAX,
    ensures
        run_stream(s, events).0.wf(),
        run_stream(s, events).1.len() <= events.len(),
        run_stream(s, events).0.next_id == s.next_id + run_stream(s, events).1.len(),
        forall|i: int| 0 <= i < run_stream(s, events).1.len() ==> #[trigger] run_stream(s, events).1[i]
            == s.next_id + i,
    decreases events.len(),
{
    if events.len() > 0 {
        let prev = events.drop_last();
        lemma_stream_ids_consecutive(s, prev);
        let (t, ids) = run_stream(s, prev);
        match events.last() {
            StreamEvent::Frame(speech) => {
                lemma_ids_count_up(t, speech);
                lemma_segment_length_bounded(t, speech);
                let (u, action) = step(t, speech);
                match action.end {
                    SegmentEnd::Emit { id, .. } => {
                        assert(ids.push(id)[ids.len() as int] == id);
                    },
                    _ => {},
                }
            },
            StreamEvent::Pause => {},
        }
    }
}

/// From a fresh segmenter, the segments of a stream are numbered 0, 1, 2, ...
/// in the order they are emitted.
pub proof fn lemma_fresh_stream_ids(s: Segmenter, events: Seq<StreamEvent>)
    requires
        s.wf(),
        s.next_id == 0,
        events.len() <= u64::MAX,
    ensures
        forall|i: int| 0 <= i < run_stream(s, events).1.len() ==> #[trigger] run_stream(s, events).1[i] == i,
{
    lemma_stream_ids_consecutive(s, events);
}


/// A speech frame ends any run of silence: after it the segmenter counts no
/// silent frame, so a later silence gap is counted from zero. A silent frame
/// inside a segment that stays open adds exactly one to the run, and a
/// segment is dropped only on a silent frame that completes a run of
/// `silence_limit` silent frames.
pub proof fn lemma_silence_run(s: Segmenter, speech: bool)
    requires
        s.wf(),
    ensures
        speech ==> step(s, speech).0.silence_frames == 0,
        !speech && s.in_speech && step(s, speech).0.in_speech ==> step(s, speech).0.silence_frames
            == s.silence_frames + 1,
        !speech && !s.in_speech ==> step(s, speech).0.silence_frames == 0,
        step(s, speech).1.end is Drop ==> !speech && s.in_speech && s.silence_frames + 1 >= s.silence_limit,
{
}

} // verus!
