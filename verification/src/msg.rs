use vstd::prelude::*;
use crate::transcribe::TranscriptLine;

verus! {

/// Messages from the worker threads to the interface loop.
#[derive(Clone, Debug)]
pub enum UiMsg {
    NewLine(TranscriptLine),
    TranslationReady { id: u64, translated: String },
    TranslatorStatus(TranslatorStatus),
    SpeakerReady { id: u64, speaker: String },
    DiarizerStatus(DiarizerStatus),
}

#[derive(Clone, Copy, Debug, PartialEq, Eq)]
pub enum TranslatorStatus {
    Loading,
    Ready,
    Failed,
}

#[derive(Clone, Copy, Debug, PartialEq, Eq)]
pub enum DiarizerStatus {
    Off,
    Loading,
    Ready,
    Failed,
}

/// The segment being captured, for the live indicator.
#[derive(Clone, Copy, Debug, PartialEq, Eq)]
pub struct DraftState {
    pub active: bool,
    pub speech_ms: u32,
    pub elapsed_ms: u32,
}

impl DraftState {
    pub fn idle() -> (r: DraftState)
        ensures
            !r.active && r.speech_ms == 0 && r.elapsed_ms == 0,
    {
        DraftState { active: false, speech_ms: 0, elapsed_ms: 0 }
    }
}

/// Whether `c` lies in one of the kana / CJK ideograph ranges that mark a
/// line as Japanese.
pub open spec fn is_japanese_char(c: char) -> bool {
    let n = c as u32;
    ||| (0x3040 <= n <= 0x309F)
    ||| (0x30A0 <= n <= 0x30FF)
    ||| (0x4E00 <= n <= 0x9FFF)
    ||| (0xFF66 <= n <= 0xFF9D)
}

pub open spec fn has_japanese(s: Seq<char>) -> bool {
    exists|i: int| 0 <= i < s.len() && is_japanese_char(#[trigger] s[i])
}

pub fn detect_lang(text: &str) -> (r: &'static str)
    ensures
        has_japanese(text@) ==> r@ == "ja"@,
        !has_japanese(text@) ==> r@ == "en"@,
{
    let mut found = false;
    for c in it: text.chars()
        invariant
            it.seq() == text@,
            found == (exists|i: int| 0 <= i < it.index() && is_japanese_char(#[trigger] text@[i])),
    {
        let n = c as u32;
        if (0x3040 <= n && n <= 0x309F) || (0x30A0 <= n && n <= 0x30FF) || (0x4E00 <= n && n <= 0x9FFF) || (0xFF66 <= n && n <= 0xFF9D) {
            found = true;
        }
    }
    if found { "ja" } else { "en" }
}

} // verus!
