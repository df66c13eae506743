//! Translation requests to a local LLM server: the context window of
//! recent pairs, the prompt, the server's command line and what is done
//! with a reply.
use vstd::prelude::*;
use std::collections::VecDeque;
use crate::text::{chars_eq, chars_of, decimal, push_decimal, push_str, string_of, trim, trim_chars};
use crate::transcribe::TranscriptLine;

verus! {

/// Number of recent (source, translation) pairs shown to the translator.
pub const CONTEXT_PAIRS: usize = 3;

/// Settings for the translation server.
#[derive(Clone, Debug)]
pub struct TranslatorConfig {
    pub binary: String,
    pub model_path: String,
    pub port: u16,
    pub n_ctx: u32,
    pub max_new_tokens: u32,
    pub startup_timeout_secs: u64,
    pub log_dir: String,
}

/// A translated pair: source language, source text, translation.
pub type PairView = (Seq<char>, Seq<char>, Seq<char>);

pub open spec fn pair_view(p: (String, String, String)) -> PairView {
    (p.0@, p.1@, p.2@)
}

/// The most recent translated pairs, oldest first.
pub struct ContextWindow {
    pairs: VecDeque<(String, String, String)>,
}

impl View for ContextWindow {
    type V = Seq<PairView>;

    closed spec fn view(&self) -> Seq<PairView> {
        self.pairs@.map_values(|p: (String, String, String)| pair_view(p))
    }
}

/// The last `n` elements of `s`.
pub open spec fn keep_last<A>(s: Seq<A>, n: int) -> Seq<A> {
    if s.len() <= n {
        s
    } else {
        s.subrange(s.len() - n, s.len() as int)
    }
}

pub open spec fn arrow(lang: Seq<char>) -> Seq<char> {
    if lang == "ja"@ {
        "JA→EN"@
    } else {
        "EN→JA"@
    }
}

pub open spec fn context_lines(pairs: Seq<PairView>) -> Seq<char>
    decreases pairs.len(),
{
    if pairs.len() == 0 {
        seq![]
    } else {
        let p = pairs.last();
        context_lines(pairs.drop_last()) + "- ["@ + arrow(p.0) + "] "@ + p.1 + " → "@ + p.2 + "\n"@
    }
}

/// The context block appended to the system prompt (empty without pairs).
pub open spec fn context_block(pairs: Seq<PairView>) -> Seq<char> {
    if pairs.len() == 0 {
        seq![]
    } else {
        "\n\nRecent context (for reference, do NOT re-translate):\n"@ + context_lines(pairs)
    }
}

impl ContextWindow {
    pub open spec fn wf(&self) -> bool {
        self@.len() <= CONTEXT_PAIRS
    }

    pub fn new() -> (r: ContextWindow)
        ensures
            r@ == Seq::<PairView>::empty(),
            r.wf(),
    {
        let r = ContextWindow { pairs: VecDeque::new() };
        assert(r@ =~= Seq::<PairView>::empty());
        r
    }

    pub fn len(&self) -> (n: usize)
        ensures
            n == self@.len(),
    {
        self.pairs.len()
    }

    /// Records a translated pair, forgetting the oldest beyond
    /// [`CONTEXT_PAIRS`].
    pub fn push(&mut self, src_lang: &str, src: &str, dst: &str)
        ensures
            final(self)@ == keep_last(old(self)@.push((src_lang@, src@, dst@)), CONTEXT_PAIRS as int),
            final(self).wf(),
    {
        let entry = (string_of(&chars_of(src_lang)), string_of(&chars_of(src)), string_of(&chars_of(dst)));
        let ghost old_raw = self.pairs@;
        self.pairs.push_back(entry);
        let ghost raw = self.pairs@;
        let ghost full = old(self)@.push((src_lang@, src@, dst@));
        assert(raw == old_raw.push(entry));
        assert(raw.map_values(|p: (String, String, String)| pair_view(p)) =~= full);
        let ghost mut dropped: int = 0;
        while self.pairs.len() > CONTEXT_PAIRS
            invariant
                0 <= dropped <= raw.len(),
                self.pairs@ == raw.subrange(dropped, raw.len() as int),
                dropped > 0 ==> self.pairs@.len() >= CONTEXT_PAIRS,
            decreases raw.len() - dropped,
        {
            self.pairs.pop_front();
            proof {
                dropped = dropped + 1;
            }
            assert(self.pairs@ =~= raw.subrange(dropped, raw.len() as int));
        }
        assert(self@ =~= full.subrange(dropped as int, full.len() as int));
        assert(dropped > 0 ==> dropped == full.len() - CONTEXT_PAIRS);
        assert(final(self)@ =~= keep_last(full, CONTEXT_PAIRS as int));
    }

    /// The context block for the system prompt.
    pub fn render(&self) -> (r: String)
        ensures
            r@ == context_block(self@),
    {
        let n = self.pairs.len();
        if n == 0 {
            let r = String::new();
            return r;
        }
        let mut out: Vec<char> = Vec::new();
        push_str(&mut out, "\n\nRecent context (for reference, do NOT re-translate):\n");
        let ghost head = out@;
        let mut i: usize = 0;
        while i < n
            invariant
                n == self@.len(),
                i <= n,
                out@ == head + context_lines(self@.subrange(0, i as int)),
            decreases n - i,
        {
            let p = &self.pairs[i];
            assert(self@[i as int] == pair_view(*p));
            assert(self@.subrange(0, i + 1).drop_last() == self@.subrange(0, i as int));
            let is_ja = chars_eq(&chars_of(p.0.as_str()), &chars_of("ja"));
            push_str(&mut out, "- [");
            if is_ja {
                push_str(&mut out, "JA→EN");
            } else {
                push_str(&mut out, "EN→JA");
            }
            push_str(&mut out, "] ");
            push_str(&mut out, p.1.as_str());
            push_str(&mut out, " → ");
            push_str(&mut out, p.2.as_str());
            push_str(&mut out, "\n");
            i += 1;
        }
        assert(self@.subrange(0, n as int) == self@);
        string_of(&out)
    }
}

/// The source and target language names for a line's language tag.
pub open spec fn language_names(src_lang: Seq<char>) -> (Seq<char>, Seq<char>) {
    if src_lang == "ja"@ {
        ("Japanese"@, "English"@)
    } else {
        ("English"@, "Japanese"@)
    }
}

pub open spec fn system_prompt(src_lang: Seq<char>, pairs: Seq<PairView>) -> Seq<char> {
    "You are a professional simultaneous interpreter translating"@ + " from "@ + language_names(src_lang).0
        + " to "@ + language_names(src_lang).1 + ".\nRules:\n"@
        + "- Output ONLY the translation. No explanations, no quotes, no prefixes.\n"@
        + "- If the input is a sentence fragment (no period, cut mid-thought), translate it as a fragment. Do NOT pad or complete.\n"@
        + "- Preserve tone: formal stays formal, casual stays casual.\n"@
        + "- Keep proper nouns, technical terms, and numbers exact.\n"@
        + "- Match punctuation style of the target language."@ + context_block(pairs)
}

/// The chat-template prompt for translating `text`.
pub open spec fn chat_prompt(src_lang: Seq<char>, text: Seq<char>, pairs: Seq<PairView>) -> Seq<char> {
    "<|im_start|>system\n"@ + system_prompt(src_lang, pairs) + "<|im_end|>\n<|im_start|>user\n"@ + text
        + "<|im_end|>\n<|im_start|>assistant\n"@
}

/// The prompt sent to the translation server for `line`.
pub fn build_prompt(line: &TranscriptLine, context: &ContextWindow) -> (r: String)
    ensures
        r@ == chat_prompt(line.src_lang@, line.text@, context@),
{
    let is_ja = chars_eq(&chars_of(line.src_lang.as_str()), &chars_of("ja"));
    let (src, dst) = if is_ja {
        ("Japanese", "English")
    } else {
        ("English", "Japanese")
    };
    let ctx_block = context.render();
    let mut out: Vec<char> = Vec::new();
    push_str(&mut out, "<|im_start|>system\n");
    push_str(&mut out, "You are a professional simultaneous interpreter translating");
    push_str(&mut out, " from ");
    push_str(&mut out, src);
    push_str(&mut out, " to ");
    push_str(&mut out, dst);
    push_str(&mut out, ".\nRules:\n");
    push_str(&mut out, "- Output ONLY the translation. No explanations, no quotes, no prefixes.\n");
    push_str(
        &mut out,
        "- If the input is a sentence fragment (no period, cut mid-thought), translate it as a fragment. Do NOT pad or complete.\n",
    );
    push_str(&mut out, "- Preserve tone: formal stays formal, casual stays casual.\n");
    push_str(&mut out, "- Keep proper nouns, technical terms, and numbers exact.\n");
    push_str(&mut out, "- Match punctuation style of the target language.");
    push_str(&mut out, ctx_block.as_str());
    push_str(&mut out, "<|im_end|>\n<|im_start|>user\n");
    push_str(&mut out, line.text.as_str());
    push_str(&mut out, "<|im_end|>\n<|im_start|>assistant\n");
    assert(out@ =~= chat_prompt(line.src_lang@, line.text@, context@));
    string_of(&out)
}

/// `http://127.0.0.1:{port}{path}`.
pub open spec fn local_url(port: u16, path: Seq<char>) -> Seq<char> {
    "http://127.0.0.1:"@ + decimal(port as nat) + path
}

/// The URL of an endpoint of the local server.
pub fn endpoint_url(port: u16, path: &str) -> (r: String)
    ensures
        r@ == local_url(port, path@),
{
    let mut out: Vec<char> = Vec::new();
    push_str(&mut out, "http://127.0.0.1:");
    push_decimal(&mut out, port as u64);
    push_str(&mut out, path);
    assert(out@ =~= local_url(port, path@));
    string_of(&out)
}

/// The server's command-line arguments.
pub open spec fn server_arg_list(cfg: TranslatorConfig) -> Seq<Seq<char>> {
    seq![
        "--model"@,
        cfg.model_path@,
        "--port"@,
        decimal(cfg.port as nat),
        "--host"@,
        "127.0.0.1"@,
        "--ctx-size"@,
        decimal(cfg.n_ctx as nat),
        "--n-gpu-layers"@,
        "999"@,
        "--threads"@,
        "4"@,
    ]
}

fn decimal_string(n: u64) -> (r: String)
    ensures
        r@ == decimal(n as nat),
{
    let mut out: Vec<char> = Vec::new();
    push_decimal(&mut out, n);
    assert(out@ =~= decimal(n as nat));
    string_of(&out)
}

pub fn server_args(cfg: &TranslatorConfig) -> (r: Vec<String>)
    ensures
        r@.map_values(|s: String| s@) == server_arg_list(*cfg),
{
    let mut r: Vec<String> = Vec::new();
    r.push(string_of(&chars_of("--model")));
    r.push(string_of(&chars_of(cfg.model_path.as_str())));
    r.push(string_of(&chars_of("--port")));
    r.push(decimal_string(cfg.port as u64));
    r.push(string_of(&chars_of("--host")));
    r.push(string_of(&chars_of("127.0.0.1")));
    r.push(string_of(&chars_of("--ctx-size")));
    r.push(decimal_string(cfg.n_ctx as u64));
    r.push(string_of(&chars_of("--n-gpu-layers")));
    r.push(string_of(&chars_of("999")));
    r.push(string_of(&chars_of("--threads")));
    r.push(string_of(&chars_of("4")));
    assert(r@.map_values(|s: String| s@) =~= server_arg_list(*cfg));
    r
}

pub open spec fn reply_text(content: Option<&str>) -> Seq<char> {
    match content {
        Some(c) => trim(c@),
        None => seq![],
    }
}

/// Handles the server's reply for `line`: the `content` field, trimmed, is
/// the translation; an empty one is dropped. A translation is recorded in
/// the context window and returned.
pub fn accept_translation(context: &mut ContextWindow, line: &TranscriptLine, content: Option<&str>) -> (r: Option<String>)
    ensures
        reply_text(content).len() == 0 ==> r is None && final(context)@ == old(context)@,
        reply_text(content).len() > 0 ==> {
            &&& r matches Some(t)
            &&& t@ == reply_text(content)
            &&& final(context)@ == keep_last(
                old(context)@.push((line.src_lang@, line.text@, reply_text(content))),
                CONTEXT_PAIRS as int,
            )
        },
        final(context).wf() || final(context)@ == old(context)@,
{
    let text = match content {
        Some(c) => trim_chars(&chars_of(c)),
        None => Vec::new(),
    };
    if text.len() == 0 {
        return None;
    }
    let translated = string_of(&text);
    context.push(line.src_lang.as_str(), line.text.as_str(), translated.as_str());
    Some(translated)
}


/// After recording a pair, the window holds at most three pairs and the
/// newest one last, preceded by the most recent earlier ones in order.
pub proof fn lemma_context_keeps_recent(pairs: Seq<PairView>, p: PairView)
    ensures
        keep_last(pairs.push(p), CONTEXT_PAIRS as int).len() <= CONTEXT_PAIRS,
        keep_last(pairs.push(p), CONTEXT_PAIRS as int).last() == p,
        pairs.len() < CONTEXT_PAIRS ==> keep_last(pairs.push(p), CONTEXT_PAIRS as int) == pairs.push(p),
{
}


/// Model files smaller than this are taken to be broken downloads.
pub const MIN_MODEL_BYTES: u64 = 10_000_000;

/// Whether translation can start: the model file must exist and, when its
/// size can be read, be at least [`MIN_MODEL_BYTES`].
pub fn translator_model_usable(exists: bool, size: Option<u64>) -> (r: bool)
    ensures
        r == (exists && match size {
            Some(n) => n >= MIN_MODEL_BYTES,
            None => true,
        }),
{
    if !exists {
        return false;
    }
    match size {
        Some(n) => n >= MIN_MODEL_BYTES,
        None => true,
    }
}


/// One line of the context block: direction, source and translation.
pub open spec fn context_entry(p: PairView) -> Seq<char> {
    "- ["@ + arrow(p.0) + "] "@ + p.1 + " → "@ + p.2 + "\n"@
}

proof fn lemma_entry_in_lines(pairs: Seq<PairView>, i: int) -> (ab: (Seq<char>, Seq<char>))
    requires
        0 <= i < pairs.len(),
    ensures
        context_lines(pairs) == ab.0 + context_entry(pairs[i]) + ab.1,
    decreases pairs.len(),
{
    let d = pairs.drop_last();
    assert(context_lines(pairs) =~= context_lines(d) + context_entry(pairs.last()));
    if i == pairs.len() - 1 {
        assert(context_lines(pairs) =~= context_lines(d) + context_entry(pairs[i]) + Seq::<char>::empty());
        (context_lines(d), Seq::<char>::empty())
    } else {
        let (a, b) = lemma_entry_in_lines(d, i);
        assert(d[i] == pairs[i]);
        assert(context_lines(pairs) =~= a + context_entry(pairs[i]) + (b + context_entry(pairs.last())));
        (a, b + context_entry(pairs.last()))
    }
}

/// The recent pairs reach the translator: the prompt for a window of pairs
/// is the prompt for an empty window with the window's context block put
/// right after the rules, before the end of the system turn and the user
/// turn that holds the text.
pub proof fn lemma_prompt_shows_context(src_lang: Seq<char>, text: Seq<char>, pairs: Seq<PairView>)
    ensures
        ({
            let tail = "<|im_end|>\n<|im_start|>user\n"@ + text + "<|im_end|>\n<|im_start|>assistant\n"@;
            let base = chat_prompt(src_lang, text, Seq::empty());
            let head = base.subrange(0, base.len() - tail.len());
            &&& base.len() >= tail.len()
            &&& base == head + tail
            &&& chat_prompt(src_lang, text, pairs) == head + context_block(pairs) + tail
        }),
{
    let tail = "<|im_end|>\n<|im_start|>user\n"@ + text + "<|im_end|>\n<|im_start|>assistant\n"@;
    let sys0 = system_prompt(src_lang, Seq::empty());
    let x = "<|im_start|>system\n"@ + sys0;
    assert(context_block(Seq::<PairView>::empty()) == Seq::<char>::empty());
    assert(system_prompt(src_lang, pairs) =~= sys0 + context_block(pairs));
    let base = chat_prompt(src_lang, text, Seq::empty());
    assert(base =~= x + tail);
    assert(base.subrange(0, base.len() - tail.len()) =~= x);
    assert(chat_prompt(src_lang, text, pairs) =~= x + context_block(pairs) + tail);
}

/// Every pair in the window appears in the prompt as "- [direction] source
/// → translation".
pub proof fn lemma_pair_in_prompt(src_lang: Seq<char>, text: Seq<char>, pairs: Seq<PairView>, i: int) -> (ab: (
    Seq<char>,
    Seq<char>,
))
    requires
        0 <= i < pairs.len(),
    ensures
        chat_prompt(src_lang, text, pairs) == ab.0 + context_entry(pairs[i]) + ab.1,
{
    let (a, b) = lemma_entry_in_lines(pairs, i);
    let intro = "\n\nRecent context (for reference, do NOT re-translate):\n"@;
    let tail = "<|im_end|>\n<|im_start|>user\n"@ + text + "<|im_end|>\n<|im_start|>assistant\n"@;
    let sys0 = system_prompt(src_lang, Seq::empty());
    let x = "<|im_start|>system\n"@ + sys0;
    lemma_prompt_shows_context(src_lang, text, pairs);
    let base = chat_prompt(src_lang, text, Seq::empty());
    assert(context_block(Seq::<PairView>::empty()) == Seq::<char>::empty());
    assert(base =~= x + tail);
    assert(base.subrange(0, base.len() - tail.len()) =~= x);
    assert(context_block(pairs) == intro + context_lines(pairs));
    let a2 = x + intro + a;
    let b2 = b + tail;
    assert(chat_prompt(src_lang, text, pairs) =~= a2 + context_entry(pairs[i]) + b2);
    (a2, b2)
}

} // verus!
