//! What happens to recogniser output between the model and the transcript:
//! language selection, the rolling prompt, filtering and line assembly.
use vstd::prelude::*;
use crate::clock::LocalTime;
use crate::filter::{clean, cleaned, is_silence_fallback, silence_fallback};
use crate::msg::{detect_lang, has_japanese};
use crate::text::{chars_eq, chars_of, slice_of, string_of};

verus! {

/// Number of characters of earlier transcript handed to the recogniser as
/// its initial prompt.
pub const PROMPT_CHAR_WINDOW: usize = 224;

/// Segments with less speech than this are dropped when their text is a
/// silence fallback phrase.
pub const SILENCE_FALLBACK_SPEECH_MS: u32 = 1500;

/// One transcribed utterance.
#[derive(Clone, Debug)]
pub struct TranscriptLine {
    pub id: u64,
    pub text: String,
    pub translated: Option<String>,
    pub src_lang: String,
    pub started_at: LocalTime,
    pub ended_at: LocalTime,
}

impl TranscriptLine {
    pub open spec fn wf(&self) -> bool {
        self.started_at.wf() && self.ended_at.wf()
    }
}

/// The language code handed to the recogniser for a configured language.
pub open spec fn whisper_code(lang: Seq<char>) -> Seq<char> {
    if lang == "en"@ {
        "en"@
    } else if lang == "ja"@ {
        "ja"@
    } else {
        "auto"@
    }
}

/// `"en"` and `"ja"` are passed through; anything else asks the recogniser
/// to detect the language.
pub fn whisper_language(lang: &str) -> (r: &'static str)
    ensures
        r@ == whisper_code(lang@),
{
    let l = chars_of(lang);
    if chars_eq(&l, &chars_of("en")) {
        "en"
    } else if chars_eq(&l, &chars_of("ja")) {
        "ja"
    } else {
        "auto"
    }
}

/// The last `n` elements of `s` (all of it when shorter).
pub open spec fn last_n(s: Seq<char>, n: int) -> Seq<char> {
    if s.len() <= n {
        s
    } else {
        s.subrange(s.len() - n, s.len() as int)
    }
}

/// The rolling window of recent transcript text used as the recogniser's
/// prompt.
pub struct PromptContext {
    chars: Vec<char>,
}

impl View for PromptContext {
    type V = Seq<char>;

    closed spec fn view(&self) -> Seq<char> {
        self.chars@
    }
}

impl PromptContext {
    pub open spec fn wf(&self) -> bool {
        self@.len() <= PROMPT_CHAR_WINDOW
    }

    pub fn new() -> (r: PromptContext)
        ensures
            r@ == Seq::<char>::empty(),
            r.wf(),
    {
        PromptContext { chars: Vec::new() }
    }

    /// Appends a space and `line`, then keeps only the last
    /// [`PROMPT_CHAR_WINDOW`] characters.
    pub fn push_line(&mut self, line: &str)
        requires
            old(self).wf(),
        ensures
            final(self)@ == last_n(old(self)@ + seq![' '] + line@, PROMPT_CHAR_WINDOW as int),
            final(self).wf(),
    {
        let l = chars_of(line);
        let mut full: Vec<char> = Vec::new();
        full.extend_from_slice(&self.chars);
        full.push(' ');
        full.extend_from_slice(&l);
        assert(full@ =~= old(self)@ + seq![' '] + line@);
        let n = full.len();
        if n > PROMPT_CHAR_WINDOW {
            self.chars = slice_of(&full, n - PROMPT_CHAR_WINDOW, n);
        } else {
            self.chars = full;
        }
    }

    pub fn prompt(&self) -> (r: String)
        ensures
            r@ == self@,
    {
        string_of(&self.chars)
    }
}

/// The text kept of a recognised segment: the filtered text, unless it is
/// a silence fallback phrase from a segment with under 1.5 s of speech.
pub open spec fn accepted_text(raw: Seq<char>, speech_ms: u32) -> Option<Seq<char>> {
    match cleaned(raw) {
        None => None,
        Some(c) => if speech_ms < SILENCE_FALLBACK_SPEECH_MS && silence_fallback(c) {
            None
        } else {
            Some(c)
        },
    }
}

/// The language tag of a line: `"ja"` when it holds kana or CJK ideographs.
pub open spec fn lang_tag(text: Seq<char>) -> Seq<char> {
    if has_japanese(text) {
        "ja"@
    } else {
        "en"@
    }
}

/// Turns the raw text recognised for segment `id` into a transcript line,
/// or drops it; a kept line is also appended to the prompt context.
pub fn finish_segment(
    ctx: &mut PromptContext,
    raw: &str,
    id: u64,
    speech_ms: u32,
    started_at: LocalTime,
    ended_at: LocalTime,
) -> (r: Option<TranscriptLine>)
    requires
        old(ctx).wf(),
    ensures
        final(ctx).wf(),
        accepted_text(raw@, speech_ms) is None ==> r is None && final(ctx)@ == old(ctx)@,
        accepted_text(raw@, speech_ms) matches Some(c) ==> {
            &&& r matches Some(line)
            &&& line.id == id
            &&& line.text@ == c
            &&& line.translated is None
            &&& line.src_lang@ == lang_tag(c)
            &&& line.started_at == started_at
            &&& line.ended_at == ended_at
            &&& final(ctx)@ == last_n(old(ctx)@ + seq![' '] + c, PROMPT_CHAR_WINDOW as int)
        },
{
    let text = match clean(raw) {
        Some(t) => t,
        None => return None,
    };
    if speech_ms < SILENCE_FALLBACK_SPEECH_MS && is_silence_fallback(text.as_str()) {
        return None;
    }
    let lang = detect_lang(text.as_str());
    let src_lang = string_of(&chars_of(lang));
    ctx.push_line(text.as_str());
    Some(TranscriptLine { id, text, translated: None, src_lang, started_at, ended_at })
}


/// Only a silence-fallback phrase from a short segment is dropped: a text
/// that cleans to anything else is accepted, as cleaned, whatever the amount
/// of speech; a segment with at least 1.5 s of speech keeps whatever
/// survives cleaning; and what cleaning drops is never accepted.
pub proof fn lemma_only_short_fallbacks_dropped(raw: Seq<char>, speech_ms: u32)
    ensures
        cleaned(raw) is Some && !silence_fallback(cleaned(raw)->0) ==> accepted_text(raw, speech_ms)
            == cleaned(raw),
        speech_ms >= 1500 ==> accepted_text(raw, speech_ms) == cleaned(raw),
        cleaned(raw) is None ==> accepted_text(raw, speech_ms) is None,
        accepted_text(raw, speech_ms) is None && cleaned(raw) is Some ==> speech_ms < 1500
            && silence_fallback(cleaned(raw)->0),
{
}

} // verus!
