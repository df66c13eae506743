//! Post-processing of raw recogniser output: drops noise tags, bracketed
//! captions, known hallucinated phrases and runaway repetition loops.
use vstd::prelude::*;
use crate::text::{
    chars_eq, chars_of, count, ends_with, ends_with_ignore_case, fold_ascii, fold_ascii_exec,
    is_alphanumeric, char_alphanumeric, is_white_space, is_ws, join, join_chars,
    lemma_count_push, lemma_join_push, lemma_trim_end_is_prefix, lemma_trim_end_id,
    lemma_trim_start_id, lemma_trim_start_is_suffix, non_ws, slice_of, split_words,
    str_lowercase, str_views, string_of, to_lowercase, trim, trim_chars, trim_end, trim_end_chars,
    views, words, replace_all, replace_all_chars, ends_with_chars, lemma_join_extend_last,
};

verus! {

// ---------------------------------------------------------------------------
// Phrase tables
// ---------------------------------------------------------------------------

/// Tags that the recogniser writes for non-speech audio; each occurrence is
/// blanked out.
pub open spec fn noise_tags() -> Seq<Seq<char>> {
    seq![
        "[BLANK_AUDIO]"@,
        "[MUSIC]"@,
        "[Music]"@,
        "[music]"@,
        "[MÚSICA]"@,
        "[Music playing]"@,
        "[APPLAUSE]"@,
        "[Applause]"@,
        "[LAUGHTER]"@,
        "[Laughter]"@,
        "[SILENCE]"@,
        "[NOISE]"@,
        "[noise]"@,
        "(inaudible)"@,
        "(Inaudible)"@,
    ]
}

fn noise_tags_exec() -> (r: Vec<&'static str>)
    ensures
        str_views(r@) == noise_tags(),
{
    let r = vec![
        "[BLANK_AUDIO]",
        "[MUSIC]",
        "[Music]",
        "[music]",
        "[MÚSICA]",
        "[Music playing]",
        "[APPLAUSE]",
        "[Applause]",
        "[LAUGHTER]",
        "[Laughter]",
        "[SILENCE]",
        "[NOISE]",
        "[noise]",
        "(inaudible)",
        "(Inaudible)",
    ];
    assert(str_views(r@) =~= noise_tags());
    r
}

/// Every noise tag is non-empty.
pub proof fn lemma_noise_tags_nonempty()
    ensures
        forall|i: int| 0 <= i < noise_tags().len() ==> (#[trigger] noise_tags()[i]).len() > 0,
{
    reveal_strlit("[BLANK_AUDIO]");
    reveal_strlit("[MUSIC]");
    reveal_strlit("[Music]");
    reveal_strlit("[music]");
    reveal_strlit("[MÚSICA]");
    reveal_strlit("[Music playing]");
    reveal_strlit("[APPLAUSE]");
    reveal_strlit("[Applause]");
    reveal_strlit("[LAUGHTER]");
    reveal_strlit("[Laughter]");
    reveal_strlit("[SILENCE]");
    reveal_strlit("[NOISE]");
    reveal_strlit("[noise]");
    reveal_strlit("(inaudible)");
    reveal_strlit("(Inaudible)");
}

/// Whole-line phrases that the recogniser invents on silence or music.
pub open spec fn hallucination_phrases() -> Seq<Seq<char>> {
    seq![
        "thank you for watching"@,
        "thanks for watching"@,
        "thank you for watching!"@,
        "thanks for watching!"@,
        "please subscribe"@,
        "please subscribe."@,
        "please subscribe to my channel"@,
        "subscribe to my channel"@,
        "like and subscribe"@,
        "see you in the next video"@,
        "see you next time"@,
        "thanks for listening"@,
    ]
}

fn hallucination_phrases_exec() -> (r: Vec<&'static str>)
    ensures
        str_views(r@) == hallucination_phrases(),
{
    let r = vec![
        "thank you for watching",
        "thanks for watching",
        "thank you for watching!",
        "thanks for watching!",
        "please subscribe",
        "please subscribe.",
        "please subscribe to my channel",
        "subscribe to my channel",
        "like and subscribe",
        "see you in the next video",
        "see you next time",
        "thanks for listening",
    ];
    assert(str_views(r@) =~= hallucination_phrases());
    r
}

/// Short phrases that the recogniser commonly produces on near-silent audio;
/// dropped only when the segment held little actual speech.
pub open spec fn silence_fallbacks() -> Seq<Seq<char>> {
    seq![
        "thank you"@,
        "thanks"@,
        "you"@,
        "bye"@,
        "bye bye"@,
        "goodbye"@,
        "hi"@,
        "hello"@,
        "okay"@,
        "ok"@,
        "yes"@,
        "no"@,
        "uh"@,
        "um"@,
        "mm"@,
        "hmm"@,
    ]
}

fn silence_fallbacks_exec() -> (r: Vec<&'static str>)
    ensures
        str_views(r@) == silence_fallbacks(),
{
    let r = vec![
        "thank you",
        "thanks",
        "you",
        "bye",
        "bye bye",
        "goodbye",
        "hi",
        "hello",
        "okay",
        "ok",
        "yes",
        "no",
        "uh",
        "um",
        "mm",
        "hmm",
    ];
    assert(str_views(r@) =~= silence_fallbacks());
    r
}

/// Video-style sign-off suffixes, stripped from the end of a line whatever
/// precedes them (ASCII case ignored).
pub open spec fn trailing_hallucinations() -> Seq<Seq<char>> {
    seq![
        "thank you for watching."@,
        "thanks for watching."@,
        "thank you for watching!"@,
        "thanks for watching!"@,
        "thank you for watching"@,
        "thanks for watching"@,
        "please subscribe."@,
        "please subscribe"@,
        "thanks for listening."@,
        "thanks for listening"@,
    ]
}

fn trailing_hallucinations_exec() -> (r: Vec<&'static str>)
    ensures
        str_views(r@) == trailing_hallucinations(),
{
    let r = vec![
        "thank you for watching.",
        "thanks for watching.",
        "thank you for watching!",
        "thanks for watching!",
        "thank you for watching",
        "thanks for watching",
        "please subscribe.",
        "please subscribe",
        "thanks for listening.",
        "thanks for listening",
    ];
    assert(str_views(r@) =~= trailing_hallucinations());
    r
}

pub proof fn lemma_trailing_hallucinations_nonempty()
    ensures
        forall|i: int| 0 <= i < trailing_hallucinations().len() ==> (#[trigger] trailing_hallucinations()[i]).len() > 0,
{
    reveal_strlit("thank you for watching.");
    reveal_strlit("thanks for watching.");
    reveal_strlit("thank you for watching!");
    reveal_strlit("thanks for watching!");
    reveal_strlit("thank you for watching");
    reveal_strlit("thanks for watching");
    reveal_strlit("please subscribe.");
    reveal_strlit("please subscribe");
    reveal_strlit("thanks for listening.");
    reveal_strlit("thanks for listening");
}

/// Filler stripped from the end of a line only when the text before it
/// already ends a sentence, so that "I wanted to say thank you" survives.
pub open spec fn trailing_filler() -> Seq<Seq<char>> {
    seq![
        "thank you so much."@,
        "thank you very much."@,
        "thank you."@,
        "thank you"@,
        "thanks."@,
        "thanks"@,
    ]
}

fn trailing_filler_exec() -> (r: Vec<&'static str>)
    ensures
        str_views(r@) == trailing_filler(),
{
    let r = vec![
        "thank you so much.",
        "thank you very much.",
        "thank you.",
        "thank you",
        "thanks.",
        "thanks",
    ];
    assert(str_views(r@) =~= trailing_filler());
    r
}

pub proof fn lemma_trailing_filler_nonempty()
    ensures
        forall|i: int| 0 <= i < trailing_filler().len() ==> (#[trigger] trailing_filler()[i]).len() > 0,
{
    reveal_strlit("thank you so much.");
    reveal_strlit("thank you very much.");
    reveal_strlit("thank you.");
    reveal_strlit("thank you");
    reveal_strlit("thanks.");
    reveal_strlit("thanks");
}

/// Stray endings that the recogniser appends after a finished sentence.
pub open spec fn stray_you_suffixes() -> Seq<Seq<char>> {
    seq![
        " you."@,
        " you"@,
        ". you."@,
        ". you"@,
    ]
}

fn stray_you_suffixes_exec() -> (r: Vec<&'static str>)
    ensures
        str_views(r@) == stray_you_suffixes(),
{
    let r = vec![
        " you.",
        " you",
        ". you.",
        ". you",
    ];
    assert(str_views(r@) =~= stray_you_suffixes());
    r
}


// ---------------------------------------------------------------------------
// Specification of the filter
// ---------------------------------------------------------------------------

/// A character that ends a sentence.
pub open spec fn is_stop_char(c: char) -> bool {
    c == '.' || c == '?' || c == '!' || c == '…' || c == '。' || c == '？' || c == '！'
}

/// `s`, without trailing whitespace, ends with sentence punctuation.
pub open spec fn ends_sentence(s: Seq<char>) -> bool {
    let t = trim_end(s);
    t.len() > 0 && is_stop_char(t.last())
}

/// The last character is `.`, `?` or `!`.
pub open spec fn ends_with_basic_stop(s: Seq<char>) -> bool {
    s.len() > 0 && (s.last() == '.' || s.last() == '?' || s.last() == '!')
}

/// Removing stray endings: the first suffix (from index `i` on) that `t`
/// ends with, and whose remainder ends with `.`, `?` or `!`, is cut off.
pub open spec fn strip_you_from(t: Seq<char>, i: int) -> Seq<char>
    decreases stray_you_suffixes().len() - i,
{
    if i < 0 || i >= stray_you_suffixes().len() {
        t
    } else {
        let suf = stray_you_suffixes()[i];
        let before = trim_end(t.subrange(0, t.len() - suf.len()));
        if ends_with(t, suf) && ends_with_basic_stop(before) {
            before
        } else {
            strip_you_from(t, i + 1)
        }
    }
}

pub open spec fn strip_you(s: Seq<char>) -> Seq<char> {
    strip_you_from(trim_end(s), 0)
}

/// `s` ends with phrase `p` (ASCII case aside) and has text before it.
pub open spec fn tail_hit(s: Seq<char>, p: Seq<char>) -> bool {
    ends_with_ignore_case(s, p) && s.len() > p.len()
}

/// What is left of `s` once the phrase `p` at its end is cut off.
pub open spec fn cut_tail(s: Seq<char>, p: Seq<char>) -> Seq<char> {
    trim_end(s.subrange(0, s.len() - p.len()))
}

pub open spec fn filler_hit(s: Seq<char>, p: Seq<char>) -> bool {
    tail_hit(s, p) && ends_sentence(cut_tail(s, p))
}

/// Index of the first phrase of `ps` from `i` on that `s` ends with, or
/// `ps.len()`.
pub open spec fn first_tail(s: Seq<char>, ps: Seq<Seq<char>>, i: int) -> int
    decreases ps.len() - i,
{
    if i < 0 || i >= ps.len() {
        ps.len() as int
    } else if tail_hit(s, ps[i]) {
        i
    } else {
        first_tail(s, ps, i + 1)
    }
}

pub open spec fn first_filler(s: Seq<char>, ps: Seq<Seq<char>>, i: int) -> int
    decreases ps.len() - i,
{
    if i < 0 || i >= ps.len() {
        ps.len() as int
    } else if filler_hit(s, ps[i]) {
        i
    } else {
        first_filler(s, ps, i + 1)
    }
}

pub proof fn lemma_first_tail(s: Seq<char>, ps: Seq<Seq<char>>, i: int)
    requires
        0 <= i <= ps.len(),
    ensures
        i <= first_tail(s, ps, i) <= ps.len(),
        first_tail(s, ps, i) < ps.len() ==> tail_hit(s, ps[first_tail(s, ps, i)]),
    decreases ps.len() - i,
{
    if i < ps.len() && !tail_hit(s, ps[i]) {
        lemma_first_tail(s, ps, i + 1);
    }
}

pub proof fn lemma_first_filler(s: Seq<char>, ps: Seq<Seq<char>>, i: int)
    requires
        0 <= i <= ps.len(),
    ensures
        i <= first_filler(s, ps, i) <= ps.len(),
        first_filler(s, ps, i) < ps.len() ==> filler_hit(s, ps[first_filler(s, ps, i)]),
    decreases ps.len() - i,
{
    if i < ps.len() && !filler_hit(s, ps[i]) {
        lemma_first_filler(s, ps, i + 1);
    }
}

/// Repeatedly cuts sign-off phrases, then sentence-final filler, off the end.
pub open spec fn strip_tails(s: Seq<char>) -> Seq<char>
    decreases s.len(),
{
    let hs = trailing_hallucinations();
    let fs = trailing_filler();
    let i = first_tail(s, hs, 0);
    let j = first_filler(s, fs, 0);
    if 0 <= i < hs.len() && hs[i].len() > 0 {
        proof {
            lemma_first_tail(s, hs, 0);
            lemma_trim_end_is_prefix(s.subrange(0, s.len() - hs[i].len()));
        }
        strip_tails(cut_tail(s, hs[i]))
    } else if 0 <= i < hs.len() {
        s
    } else if 0 <= j < fs.len() && fs[j].len() > 0 {
        proof {
            lemma_first_filler(s, fs, 0);
            lemma_trim_end_is_prefix(s.subrange(0, s.len() - fs[j].len()));
        }
        strip_tails(cut_tail(s, fs[j]))
    } else {
        s
    }
}

/// How many words at the end of `ws` equal `w`.
pub open spec fn trailing_run(ws: Seq<Seq<char>>, w: Seq<char>) -> nat
    decreases ws.len(),
{
    if ws.len() > 0 && ws.last() == w {
        1 + trailing_run(ws.drop_last(), w)
    } else {
        0
    }
}

/// A trailing run of five or more identical words is removed; the remaining
/// words are joined by single spaces.
pub open spec fn strip_word_run(s: Seq<char>) -> Seq<char> {
    let t = trim_end(s);
    let ws = words(t);
    if ws.len() == 0 {
        t
    } else {
        let run = trailing_run(ws, ws.last());
        if run < 5 {
            t
        } else {
            join(ws.subrange(0, ws.len() - run), seq![' '])
        }
    }
}

/// One round of tail stripping.
pub open spec fn strip_pass(s: Seq<char>) -> Seq<char> {
    strip_word_run(strip_tails(trim(strip_you(s))))
}

pub open spec fn strip_rounds(s: Seq<char>, n: nat) -> Seq<char>
    decreases n,
{
    if n == 0 {
        s
    } else {
        strip_rounds(strip_pass(s), (n - 1) as nat)
    }
}

/// A single non-whitespace character makes up at least 70% of the (at
/// least 15) non-whitespace characters.
pub open spec fn is_char_loop(s: Seq<char>) -> bool {
    let cs = non_ws(s);
    cs.len() >= 15 && exists|i: int| 0 <= i < cs.len() && #[trigger] count(cs, cs[i]) * 100 >= 70 * cs.len()
}

/// A single word makes up at least 60% of the (at least 20) words.
pub open spec fn is_word_loop(s: Seq<char>) -> bool {
    let ws = words(s);
    ws.len() >= 20 && exists|i: int| 0 <= i < ws.len() && #[trigger] count(ws, ws[i]) * 100 >= 60 * ws.len()
}

/// The whitespace runs of `s` collapsed into single spaces, ends trimmed.
pub open spec fn collapsed(s: Seq<char>) -> Seq<char> {
    join(words(s), seq![' '])
}

pub open spec fn wraps(t: Seq<char>, open: char, close: char) -> bool {
    t.len() > 0 && t[0] == open && t.last() == close
}

/// The trimmed text is empty, or is a short caption wrapped in one pair of
/// brackets (at most 30 characters inside, once trimmed).
pub open spec fn only_brackets(s: Seq<char>) -> bool {
    let t = trim(s);
    if t.len() == 0 {
        true
    } else if !(wraps(t, '[', ']') || wraps(t, '(', ')') || wraps(t, '《', '》') || wraps(t, '「', '」')) {
        false
    } else if t.len() <= 2 {
        true
    } else {
        trim(t.subrange(1, t.len() - 1)).len() <= 30
    }
}

/// Drops trailing characters that are not alphanumeric.
pub open spec fn trim_end_non_alnum(s: Seq<char>) -> Seq<char>
    decreases s.len(),
{
    if s.len() > 0 && !char_alphanumeric(s.last()) {
        trim_end_non_alnum(s.drop_last())
    } else {
        s
    }
}

pub open spec fn replace_tags(s: Seq<char>, tags: Seq<Seq<char>>) -> Seq<char>
    decreases tags.len(),
{
    if tags.len() == 0 {
        s
    } else {
        replace_all(replace_tags(s, tags.drop_last()), tags.last(), seq![' '])
    }
}

/// The text after noise tags are blanked out and whitespace is collapsed.
pub open spec fn untagged(text: Seq<char>) -> Seq<char> {
    collapsed(trim(replace_tags(trim(text), noise_tags())))
}

/// The text is (ignoring trailing punctuation) a whole-line hallucination.
pub open spec fn is_hallucination(s: Seq<char>) -> bool {
    let lower = str_lowercase(s);
    let bare = trim_end_non_alnum(lower);
    exists|i: int|
        0 <= i < hallucination_phrases().len() && (bare == #[trigger] hallucination_phrases()[i]
            || lower == hallucination_phrases()[i])
}

/// What `clean` keeps of a line of recogniser output, if anything.
pub open spec fn cleaned(text: Seq<char>) -> Option<Seq<char>> {
    let s = untagged(text);
    if s.len() == 0 || only_brackets(s) {
        None
    } else {
        let s2 = trim(strip_rounds(s, 3));
        if s2.len() == 0 || is_hallucination(s2) || is_char_loop(s2) || is_word_loop(s2) {
            None
        } else {
            Some(s2)
        }
    }
}

/// Keeps the characters that are alphanumeric or whitespace.
pub open spec fn keep_alnum_ws(s: Seq<char>) -> Seq<char>
    decreases s.len(),
{
    if s.len() == 0 {
        seq![]
    } else if char_alphanumeric(s.last()) || is_ws(s.last()) {
        keep_alnum_ws(s.drop_last()).push(s.last())
    } else {
        keep_alnum_ws(s.drop_last())
    }
}

/// The lowercased letters, digits and single spaces of the trimmed text.
pub open spec fn bare_words(text: Seq<char>) -> Seq<char> {
    collapsed(keep_alnum_ws(str_lowercase(trim(text))))
}

pub open spec fn silence_fallback(text: Seq<char>) -> bool {
    exists|i: int| 0 <= i < silence_fallbacks().len() && bare_words(text) == #[trigger] silence_fallbacks()[i]
}

pub open spec fn opt_view(r: Option<String>) -> Option<Seq<char>> {
    match r {
        Some(s) => Some(s@),
        None => None,
    }
}


// ---------------------------------------------------------------------------
// Proof helpers for words
// ---------------------------------------------------------------------------

/// Words are non-empty runs of non-whitespace characters; a text ending in a
/// non-whitespace character has at least one word.
pub proof fn lemma_words_shape(s: Seq<char>)
    ensures
        forall|k: int| 0 <= k < words(s).len() ==> (#[trigger] words(s)[k]).len() > 0,
        forall|k: int, m: int|
            0 <= k < words(s).len() && 0 <= m < words(s)[k].len() ==> !is_ws(
                #[trigger] words(s)[k][m],
            ),
        s.len() > 0 && !is_ws(s.last()) ==> words(s).len() > 0,
    decreases s.len(),
{
    if s.len() > 0 {
        lemma_words_shape(s.drop_last());
        let w = words(s.drop_last());
        let c = s.last();
        if !is_ws(c) && s.len() >= 2 && !is_ws(s[s.len() - 2]) {
            assert(s.drop_last().last() == s[s.len() - 2]);
            let ws = words(s);
            assert forall|k: int, m: int|
                0 <= k < ws.len() && 0 <= m < ws[k].len() implies !is_ws(#[trigger] ws[k][m]) by {
                if k < ws.len() - 1 {
                    assert(ws[k] == w[k]);
                } else {
                    assert(ws[k] == w.last().push(c));
                    if m < w.last().len() {
                        assert(ws[k][m] == w[w.len() - 1][m]);
                    }
                }
            }
            assert forall|k: int| 0 <= k < ws.len() implies (#[trigger] ws[k]).len() > 0 by {
                if k < ws.len() - 1 {
                    assert(ws[k] == w[k]);
                }
            }
        } else if !is_ws(c) {
            let ws = words(s);
            assert forall|k: int, m: int|
                0 <= k < ws.len() && 0 <= m < ws[k].len() implies !is_ws(#[trigger] ws[k][m]) by {
                if k < ws.len() - 1 {
                    assert(ws[k] == w[k]);
                }
            }
            assert forall|k: int| 0 <= k < ws.len() implies (#[trigger] ws[k]).len() > 0 by {
                if k < ws.len() - 1 {
                    assert(ws[k] == w[k]);
                }
            }
        }
    }
}

/// A join of non-empty words ends with the last character of the last word.
pub proof fn lemma_join_last(ws: Seq<Seq<char>>, sep: Seq<char>)
    requires
        ws.len() > 0,
        ws.last().len() > 0,
    ensures
        join(ws, sep).len() > 0,
        join(ws, sep).last() == ws.last().last(),
{
    if ws.len() > 1 {
        let j = join(ws.drop_last(), sep) + sep;
        assert(join(ws, sep) == j + ws.last());
    }
}

// ---------------------------------------------------------------------------
// Executable filter
// ---------------------------------------------------------------------------

/// `s` ends with `suffix`, comparing ASCII letters without regard to case.
pub fn ends_with_ignore_ascii_case(s: &[char], suffix: &[char]) -> (r: bool)
    ensures
        r == ends_with_ignore_case(s@, suffix@),
{
    let n = s.len();
    if suffix.len() > n {
        return false;
    }
    let off = n - suffix.len();
    let mut i: usize = 0;
    while i < suffix.len()
        invariant
            n == s@.len(),
            off + suffix@.len() == n,
            i <= suffix@.len(),
            forall|j: int|
                0 <= j < i ==> #[trigger] fold_ascii(s@[s@.len() - suffix@.len() + j]) == fold_ascii(
                    suffix@[j],
                ),
        decreases suffix@.len() - i,
    {
        if fold_ascii_exec(s[off + i]) != fold_ascii_exec(suffix[i]) {
            assert(fold_ascii(s@[s@.len() - suffix@.len() + i]) != fold_ascii(suffix@[i as int]));
            return false;
        }
        i += 1;
    }
    true
}

pub fn is_stop(c: char) -> (r: bool)
    ensures
        r == is_stop_char(c),
        r == (c == '.' || c == '?' || c == '!' || c == '…' || c == '。' || c == '？' || c == '！'),
{
    c == '.' || c == '?' || c == '!' || c == '…' || c == '。' || c == '？' || c == '！'
}

/// Whether `s`, trailing whitespace aside, ends with sentence punctuation.
pub fn is_sentence_end(s: &[char]) -> (r: bool)
    ensures
        r == ends_sentence(s@),
{
    let t = trim_end_chars(s);
    t.len() > 0 && is_stop(t[t.len() - 1])
}

fn ends_with_basic_stop_exec(s: &[char]) -> (r: bool)
    ensures
        r == ends_with_basic_stop(s@),
{
    s.len() > 0 && (s[s.len() - 1] == '.' || s[s.len() - 1] == '?' || s[s.len() - 1] == '!')
}

/// Cuts a stray trailing " you" / " you." that follows a finished sentence;
/// otherwise returns the text without trailing whitespace.
pub fn strip_trailing_stray_you(s: &[char]) -> (r: Vec<char>)
    ensures
        r@ == strip_you(s@),
{
    let t = trim_end_chars(s);
    let sufs = stray_you_suffixes_exec();
    let mut i: usize = 0;
    while i < sufs.len()
        invariant
            i <= sufs@.len(),
            str_views(sufs@) == stray_you_suffixes(),
            strip_you_from(t@, i as int) == strip_you(s@),
        decreases sufs@.len() - i,
    {
        let suf = chars_of(sufs[i]);
        assert(suf@ == stray_you_suffixes()[i as int]);
        if ends_with_chars(&t, &suf) {
            let cut = t.len() - suf.len();
            let before = trim_end_chars(&slice_of(&t, 0, cut));
            if ends_with_basic_stop_exec(&before) {
                return before;
            }
        }
        i += 1;
    }
    t
}

/// Collapses every whitespace run into one space and drops the ends.
pub fn collapse_whitespace(s: &[char]) -> (r: Vec<char>)
    ensures
        r@ == collapsed(s@),
{
    let mut out: Vec<char> = Vec::new();
    let mut prev_space = false;
    let mut i: usize = 0;
    while i < s.len()
        invariant
            i <= s@.len(),
            prev_space == (i > 0 && is_ws(s@[i - 1])),
            (out@.len() > 0) == (words(s@.subrange(0, i as int)).len() > 0),
            (prev_space && out@.len() > 0) ==> out@ == join(words(s@.subrange(0, i as int)), seq![' ']).push(' '),
            !(prev_space && out@.len() > 0) ==> out@ == join(words(s@.subrange(0, i as int)), seq![' ']),
        decreases s@.len() - i,
    {
        let c = s[i];
        let ghost p = s@.subrange(0, i + 1);
        let ghost w = words(s@.subrange(0, i as int));
        proof {
            assert(p.drop_last() == s@.subrange(0, i as int));
            assert(p.last() == c);
            lemma_words_shape(s@.subrange(0, i as int));
            lemma_words_shape(p);
        }
        if is_white_space(c) {
            if !prev_space && out.len() > 0 {
                out.push(' ');
            }
            prev_space = true;
        } else {
            proof {
                if i > 0 {
                    assert(p[p.len() - 2] == s@[i - 1]);
                    assert(s@.subrange(0, i as int).last() == s@[i - 1]);
                }
                if i > 0 && !is_ws(s@[i - 1]) {
                    lemma_join_extend_last(w, c, seq![' ']);
                } else {
                    lemma_join_push(w, seq![c], seq![' ']);
                }
            }
            out.push(c);
            prev_space = false;
        }
        i += 1;
    }
    assert(s@.subrange(0, s@.len() as int) == s@);
    proof {
        lemma_words_shape(s@);
        if words(s@).len() > 0 {
            lemma_join_last(words(s@), seq![' ']);
        }
    }
    if out.len() > 0 && out[out.len() - 1] == ' ' {
        out.pop();
        proof {
            if !(prev_space && out@.len() + 1 > 0) {
                assert(!is_ws(join(words(s@), seq![' ']).last()));
            }
        }
    }
    out
}

/// Whether the text is empty or a short caption inside one pair of brackets.
pub fn is_only_brackets(s: &[char]) -> (r: bool)
    ensures
        r == only_brackets(s@),
{
    let t = trim_chars(s);
    if t.len() == 0 {
        return true;
    }
    let first = t[0];
    let last = t[t.len() - 1];
    let wrapped = (first == '[' && last == ']') || (first == '(' && last == ')') || (first == '《'
        && last == '》') || (first == '「' && last == '」');
    if !wrapped {
        return false;
    }
    let total = t.len();
    if total <= 2 {
        return true;
    }
    let inner = trim_chars(&slice_of(&t, 1, total - 1));
    inner.len() <= 30
}


fn chars_list(v: Vec<&'static str>) -> (r: Vec<Vec<char>>)
    ensures
        views(r@) == str_views(v@),
{
    let mut r: Vec<Vec<char>> = Vec::new();
    let mut i: usize = 0;
    while i < v.len()
        invariant
            i <= v@.len(),
            views(r@) == str_views(v@).subrange(0, i as int),
        decreases v@.len() - i,
    {
        let c = chars_of(v[i]);
        proof {
            assert(views(r@.push(c)) == views(r@).push(c@));
        }
        r.push(c);
        i += 1;
        assert(views(r@) == str_views(v@).subrange(0, i as int));
    }
    assert(str_views(v@).subrange(0, v@.len() as int) == str_views(v@));
    r
}

/// Index of the first phrase that `out` ends with (see [`first_tail`] and
/// [`first_filler`]).
fn find_tail(out: &[char], ps: &Vec<Vec<char>>, filler: bool) -> (k: usize)
    ensures
        !filler ==> k == first_tail(out@, views(ps@), 0),
        filler ==> k == first_filler(out@, views(ps@), 0),
{
    let mut i: usize = 0;
    while i < ps.len()
        invariant
            i <= ps@.len(),
            !filler ==> first_tail(out@, views(ps@), 0) == first_tail(out@, views(ps@), i as int),
            filler ==> first_filler(out@, views(ps@), 0) == first_filler(out@, views(ps@), i as int),
        decreases ps@.len() - i,
    {
        let p = &ps[i];
        assert(views(ps@)[i as int] == p@);
        if ends_with_ignore_ascii_case(out, p) && out.len() > p.len() {
            if !filler {
                return i;
            }
            let new_len = out.len() - p.len();
            let before = trim_end_chars(&slice_of(out, 0, new_len));
            if is_sentence_end(&before) {
                return i;
            }
        }
        i += 1;
    }
    i
}

/// Cuts sign-off phrases (always) and sentence-final filler (after a
/// finished sentence) off the end of the trimmed text, as long as any match.
pub fn strip_trailing_hallucinations(s: &[char]) -> (r: Vec<char>)
    ensures
        r@ == strip_tails(trim(s@)),
{
    let mut out = trim_chars(s);
    let hs = chars_list(trailing_hallucinations_exec());
    let fs = chars_list(trailing_filler_exec());
    proof {
        lemma_trailing_hallucinations_nonempty();
        lemma_trailing_filler_nonempty();
    }
    loop
        invariant
            views(hs@) == trailing_hallucinations(),
            views(fs@) == trailing_filler(),
            strip_tails(out@) == strip_tails(trim(s@)),
        ensures
            out@ == strip_tails(trim(s@)),
        decreases out@.len(),
    {
        proof {
            lemma_trailing_hallucinations_nonempty();
            lemma_trailing_filler_nonempty();
        }
        let i = find_tail(&out, &hs, false);
        proof {
            lemma_first_tail(out@, views(hs@), 0);
        }
        if i < hs.len() {
            let new_len = out.len() - hs[i].len();
            let next = trim_end_chars(&slice_of(&out, 0, new_len));
            proof {
                assert(views(hs@)[i as int] == hs@[i as int]@);
                assert(trailing_hallucinations()[i as int].len() > 0);
                lemma_trim_end_is_prefix(out@.subrange(0, new_len as int));
            }
            out = next;
            continue;
        }
        let j = find_tail(&out, &fs, true);
        proof {
            lemma_first_filler(out@, views(fs@), 0);
        }
        if j < fs.len() {
            let new_len = out.len() - fs[j].len();
            let next = trim_end_chars(&slice_of(&out, 0, new_len));
            proof {
                assert(views(fs@)[j as int] == fs@[j as int]@);
                assert(trailing_filler()[j as int].len() > 0);
                lemma_trim_end_is_prefix(out@.subrange(0, new_len as int));
            }
            out = next;
            continue;
        }
        assert(strip_tails(out@) == out@);
        break;
    }
    out
}

/// Number of occurrences of `x` in `v`.
fn count_chars(v: &[char], x: char) -> (n: usize)
    ensures
        n == count(v@, x),
{
    let mut n: usize = 0;
    let mut i: usize = 0;
    while i < v.len()
        invariant
            i <= v@.len(),
            n == count(v@.subrange(0, i as int), x),
            n <= i,
        decreases v@.len() - i,
    {
        proof {
            assert(v@.subrange(0, i + 1) == v@.subrange(0, i as int).push(v@[i as int]));
            lemma_count_push(v@.subrange(0, i as int), x, v@[i as int]);
        }
        if v[i] == x {
            n += 1;
        }
        i += 1;
    }
    assert(v@.subrange(0, v@.len() as int) == v@);
    n
}

fn count_words(ws: &Vec<Vec<char>>, x: &[char]) -> (n: usize)
    ensures
        n == count(views(ws@), x@),
{
    let mut n: usize = 0;
    let mut i: usize = 0;
    while i < ws.len()
        invariant
            i <= ws@.len(),
            n == count(views(ws@).subrange(0, i as int), x@),
            n <= i,
        decreases ws@.len() - i,
    {
        proof {
            assert(views(ws@).subrange(0, i + 1) == views(ws@).subrange(0, i as int).push(ws@[i as int]@));
            lemma_count_push(views(ws@).subrange(0, i as int), x@, ws@[i as int]@);
        }
        if chars_eq(&ws[i], x) {
            n += 1;
        }
        i += 1;
    }
    assert(views(ws@).subrange(0, ws@.len() as int) == views(ws@));
    n
}

fn non_ws_chars(s: &[char]) -> (r: Vec<char>)
    ensures
        r@ == non_ws(s@),
{
    let mut r: Vec<char> = Vec::new();
    let mut i: usize = 0;
    while i < s.len()
        invariant
            i <= s@.len(),
            r@ == non_ws(s@.subrange(0, i as int)),
        decreases s@.len() - i,
    {
        assert(s@.subrange(0, i + 1).drop_last() == s@.subrange(0, i as int));
        if !is_white_space(s[i]) {
            r.push(s[i]);
        }
        i += 1;
    }
    assert(s@.subrange(0, s@.len() as int) == s@);
    r
}

/// A runaway character loop: one character is at least 70% of the 15 or
/// more non-whitespace characters.
pub fn is_repetition_loop(s: &[char]) -> (r: bool)
    ensures
        r == is_char_loop(s@),
{
    let chars = non_ws_chars(s);
    let n = chars.len();
    if n < 15 {
        return false;
    }
    let mut i: usize = 0;
    while i < n
        invariant
            n >= 15,
            n == chars@.len(),
            chars@ == non_ws(s@),
            i <= n,
            forall|j: int| 0 <= j < i ==> !(#[trigger] count(chars@, chars@[j]) * 100 >= 70 * chars@.len()),
        decreases n - i,
    {
        let c = count_chars(&chars, chars[i]);
        if (c as u128) * 100 >= 70 * (n as u128) {
            assert(count(chars@, chars@[i as int]) * 100 >= 70 * chars@.len());
            return true;
        }
        i += 1;
    }
    false
}

/// A runaway word loop: one word is at least 60% of 20 or more words.
pub fn is_word_repetition_loop(s: &[char]) -> (r: bool)
    ensures
        r == is_word_loop(s@),
{
    let ws = split_words(s);
    let n = ws.len();
    if n < 20 {
        return false;
    }
    let mut i: usize = 0;
    while i < n
        invariant
            n >= 20,
            n == ws@.len(),
            views(ws@) == words(s@),
            i <= n,
            forall|j: int| 0 <= j < i ==> !(#[trigger] count(words(s@), words(s@)[j]) * 100 >= 60 * words(s@).len()),
        decreases n - i,
    {
        let c = count_words(&ws, &ws[i]);
        assert(views(ws@)[i as int] == ws@[i as int]@);
        if (c as u128) * 100 >= 60 * (n as u128) {
            assert(count(words(s@), words(s@)[i as int]) * 100 >= 60 * words(s@).len());
            return true;
        }
        i += 1;
    }
    false
}

/// If the trailing run of identical words is exactly `ws[j..]`, its length
/// is `ws.len() - j`.
pub proof fn lemma_trailing_run(ws: Seq<Seq<char>>, w: Seq<char>, j: int)
    requires
        0 <= j <= ws.len(),
        forall|k: int| j <= k < ws.len() ==> ws[k] == w,
        j == 0 || ws[j - 1] != w,
    ensures
        trailing_run(ws, w) == ws.len() - j,
    decreases ws.len(),
{
    if ws.len() > j {
        assert forall|k: int| j <= k < ws.drop_last().len() implies ws.drop_last()[k] == w by {
            assert(ws.drop_last()[k] == ws[k]);
        }
        if j > 0 {
            assert(ws.drop_last()[j - 1] == ws[j - 1]);
        }
        lemma_trailing_run(ws.drop_last(), w, j);
    }
}

/// Removes a trailing run of five or more identical words, whatever the
/// number of words before it.
pub fn strip_trailing_word_repetition(s: &[char]) -> (r: Vec<char>)
    ensures
        r@ == strip_word_run(s@),
{
    let trimmed = trim_end_chars(s);
    let ws = split_words(&trimmed);
    let n = ws.len();
    if n == 0 {
        return trimmed;
    }
    let ghost wv = views(ws@);
    assert(wv.last() == ws@[n - 1]@);
    let mut run: usize = 1;
    let mut j: usize = n - 1;
    while j > 0 && chars_eq(&ws[j - 1], &ws[n - 1])
        invariant
            n == ws@.len(),
            wv == views(ws@),
            wv.last() == ws@[n - 1]@,
            1 <= run,
            j < n,
            run == n - j,
            forall|k: int| j <= k < n ==> wv[k] == wv.last(),
        decreases j,
    {
        assert(wv[j - 1] == ws@[j - 1]@);
        run += 1;
        j -= 1;
    }
    if j > 0 {
        assert(wv[j - 1] == ws@[j - 1]@);
    }
    proof {
        lemma_trailing_run(wv, wv.last(), j as int);
    }
    if run < 5 {
        return trimmed;
    }
    let keep = n - run;
    if keep == 0 {
        assert(wv.subrange(0, 0) == Seq::<Seq<char>>::empty());
        return Vec::new();
    }
    let mut kept = ws;
    kept.truncate(keep);
    assert(views(kept@) == wv.subrange(0, keep as int));
    let sp = vec![' '];
    assert(sp@ == seq![' ']);
    join_chars(&kept, &sp)
}


/// A text that one round of stripping leaves unchanged stays unchanged.
pub proof fn lemma_strip_rounds_fixed(s: Seq<char>, n: nat)
    requires
        strip_pass(s) == s,
    ensures
        strip_rounds(s, n) == s,
    decreases n,
{
    if n > 0 {
        lemma_strip_rounds_fixed(s, (n - 1) as nat);
    }
}

fn trim_end_non_alnum_chars(s: &[char]) -> (r: Vec<char>)
    ensures
        r@ == trim_end_non_alnum(s@),
{
    let mut e = s.len();
    assert(s@.subrange(0, s@.len() as int) == s@);
    while e > 0 && !is_alphanumeric(s[e - 1])
        invariant
            e <= s@.len(),
            trim_end_non_alnum(s@) == trim_end_non_alnum(s@.subrange(0, e as int)),
        decreases e,
    {
        assert(s@.subrange(0, e as int).drop_last() == s@.subrange(0, e - 1));
        e -= 1;
    }
    slice_of(s, 0, e)
}

/// What is left of one line of recogniser output once noise tags, bracketed
/// captions, sign-off phrases, filler tails and repetition loops are
/// removed; `None` when nothing worth keeping remains.
pub fn clean(text: &str) -> (r: Option<String>)
    ensures
        opt_view(r) == cleaned(text@),
{
    let t0 = chars_of(text);
    let mut s = trim_chars(&t0);
    let tags = noise_tags_exec();
    let space = vec![' '];
    assert(space@ == seq![' ']);
    let mut i: usize = 0;
    while i < tags.len()
        invariant
            i <= tags@.len(),
            str_views(tags@) == noise_tags(),
            space@ == seq![' '],
            s@ == replace_tags(trim(text@), noise_tags().subrange(0, i as int)),
        decreases tags@.len() - i,
    {
        proof {
            lemma_noise_tags_nonempty();
            assert(noise_tags().subrange(0, i + 1).drop_last() == noise_tags().subrange(0, i as int));
        }
        let tag = chars_of(tags[i]);
        assert(tag@ == noise_tags()[i as int]);
        s = replace_all_chars(&s, &tag, &space);
        i += 1;
    }
    assert(noise_tags().subrange(0, noise_tags().len() as int) == noise_tags());
    let s = collapse_whitespace(&trim_chars(&s));
    if s.len() == 0 {
        return None;
    }
    if is_only_brackets(&s) {
        return None;
    }
    let ghost s0 = s@;
    let mut s = s;
    let mut round: usize = 0;
    while round < 3
        invariant
            round <= 3,
            strip_rounds(s@, (3 - round) as nat) == strip_rounds(s0, 3),
        decreases 3 - round,
    {
        let before = s;
        let a = strip_trailing_stray_you(&before);
        let b = strip_trailing_hallucinations(&a);
        s = strip_trailing_word_repetition(&b);
        assert(strip_rounds(before@, (3 - round) as nat) == strip_rounds(s@, (3 - round - 1) as nat));
        if chars_eq(&s, &before) {
            proof {
                lemma_strip_rounds_fixed(s@, (3 - round - 1) as nat);
                lemma_strip_rounds_fixed(s@, 0);
            }
            round = 3;
        } else {
            round += 1;
        }
    }
    let s = trim_chars(&s);
    assert(s0 == untagged(text@));
    assert(s@ == trim(strip_rounds(untagged(text@), 3)));
    if s.len() == 0 {
        return None;
    }
    let out = string_of(&s);
    let lower_string = to_lowercase(out.as_str());
    let lower = chars_of(lower_string.as_str());
    let bare = trim_end_non_alnum_chars(&lower);
    let hp = hallucination_phrases_exec();
    let mut k: usize = 0;
    while k < hp.len()
        invariant
            k <= hp@.len(),
            str_views(hp@) == hallucination_phrases(),
            lower@ == str_lowercase(s@),
            bare@ == trim_end_non_alnum(lower@),
            forall|j: int|
                0 <= j < k ==> !(bare@ == #[trigger] hallucination_phrases()[j] || lower@
                    == hallucination_phrases()[j]),
            s@ == trim(strip_rounds(untagged(text@), 3)),
            s@.len() > 0,
            !only_brackets(untagged(text@)),
            untagged(text@).len() > 0,
        decreases hp@.len() - k,
    {
        let h = chars_of(hp[k]);
        assert(h@ == hallucination_phrases()[k as int]);
        if chars_eq(&bare, &h) || chars_eq(&lower, &h) {
            assert(bare@ == hallucination_phrases()[k as int] || lower@ == hallucination_phrases()[k as int]);
            assert(is_hallucination(s@));
            return None;
        }
        k += 1;
    }
    if is_repetition_loop(&s) || is_word_repetition_loop(&s) {
        return None;
    }
    Some(out)
}

fn keep_alnum_ws_chars(s: &[char]) -> (r: Vec<char>)
    ensures
        r@ == keep_alnum_ws(s@),
{
    let mut r: Vec<char> = Vec::new();
    let mut i: usize = 0;
    while i < s.len()
        invariant
            i <= s@.len(),
            r@ == keep_alnum_ws(s@.subrange(0, i as int)),
        decreases s@.len() - i,
    {
        assert(s@.subrange(0, i + 1).drop_last() == s@.subrange(0, i as int));
        let c = s[i];
        if is_alphanumeric(c) || is_white_space(c) {
            r.push(c);
        }
        i += 1;
    }
    assert(s@.subrange(0, s@.len() as int) == s@);
    r
}

/// Whether the text is one of the short phrases that the recogniser
/// produces on near-silent audio ("Thank you.", "you", "Bye."), compared on
/// lowercased letters and digits with single spaces.
pub fn is_silence_fallback(text: &str) -> (r: bool)
    ensures
        r == silence_fallback(text@),
{
    let t = trim_chars(&chars_of(text));
    let ts = string_of(&t);
    let lower_string = to_lowercase(ts.as_str());
    let lower = chars_of(lower_string.as_str());
    let kept = keep_alnum_ws_chars(&lower);
    let bare = collapse_whitespace(&kept);
    let fbs = silence_fallbacks_exec();
    let mut k: usize = 0;
    while k < fbs.len()
        invariant
            k <= fbs@.len(),
            str_views(fbs@) == silence_fallbacks(),
            bare@ == bare_words(text@),
            forall|j: int| 0 <= j < k ==> bare@ != #[trigger] silence_fallbacks()[j],
        decreases fbs@.len() - k,
    {
        let f = chars_of(fbs[k]);
        assert(f@ == silence_fallbacks()[k as int]);
        if chars_eq(&bare, &f) {
            return true;
        }
        k += 1;
    }
    false
}


// ---------------------------------------------------------------------------
// Laws
// ---------------------------------------------------------------------------

/// Trimming twice is trimming once.
pub proof fn lemma_trim_idempotent(s: Seq<char>)
    ensures
        trim(trim(s)) == trim(s),
        trim(s).len() > 0 ==> !is_ws(trim(s)[0]) && !is_ws(trim(s).last()),
{
    let e = trim_end(s);
    lemma_trim_end_is_prefix(s);
    crate::text::lemma_trim_start_is_suffix(e);
    let t = crate::text::trim_start(e);
    if t.len() > 0 {
        assert(t.last() == e.last());
        crate::text::lemma_trim_end_id(t);
        crate::text::lemma_trim_start_id(t);
    }
}

/// Stripping sign-off phrases and filler goes on until none is left: a
/// second pass changes nothing.
pub proof fn lemma_strip_tails_idempotent(s: Seq<char>)
    ensures
        strip_tails(strip_tails(s)) == strip_tails(s),
    decreases s.len(),
{
    let hs = trailing_hallucinations();
    let fs = trailing_filler();
    let i = first_tail(s, hs, 0);
    let j = first_filler(s, fs, 0);
    lemma_first_tail(s, hs, 0);
    lemma_first_filler(s, fs, 0);
    lemma_trailing_hallucinations_nonempty();
    lemma_trailing_filler_nonempty();
    if 0 <= i < hs.len() {
        lemma_trim_end_is_prefix(s.subrange(0, s.len() - hs[i].len()));
        lemma_strip_tails_idempotent(cut_tail(s, hs[i]));
    } else if 0 <= j < fs.len() {
        lemma_trim_end_is_prefix(s.subrange(0, s.len() - fs[j].len()));
        lemma_strip_tails_idempotent(cut_tail(s, fs[j]));
    }
}

/// A line that `clean` keeps is non-empty, has no surrounding whitespace,
/// is not a whole-line hallucination and is not a repetition loop.
pub proof fn lemma_clean_keeps_only_tidy_lines(text: Seq<char>)
    ensures
        cleaned(text) matches Some(s) ==> {
            &&& s.len() > 0
            &&& trim(s) == s
            &&& !is_hallucination(s)
            &&& !is_char_loop(s)
            &&& !is_word_loop(s)
        },
{
    let s = untagged(text);
    if !(s.len() == 0 || only_brackets(s)) {
        lemma_trim_idempotent(strip_rounds(s, 3));
    }
}

/// Text that is only noise tags and whitespace is dropped.
pub proof fn lemma_clean_drops_blank(text: Seq<char>)
    requires
        untagged(text).len() == 0,
    ensures
        cleaned(text) is None,
{
}

/// Silence fallback detection ignores case and punctuation: it only looks
/// at the lowercased letters, digits and words of the text.
pub proof fn lemma_silence_fallback_by_bare_words(a: Seq<char>, b: Seq<char>)
    requires
        bare_words(a) == bare_words(b),
    ensures
        silence_fallback(a) == silence_fallback(b),
{
}


/// Text without stray whitespace: every whitespace character is a single
/// space with a non-whitespace character on each side.
pub open spec fn tidy_spacing(x: Seq<char>) -> bool {
    forall|i: int|
        0 <= i < x.len() && is_ws(#[trigger] x[i]) ==> x[i] == ' ' && 0 < i < x.len() - 1 && !is_ws(
            x[i - 1],
        ) && !is_ws(x[i + 1])
}

proof fn lemma_join_tidy(ws: Seq<Seq<char>>)
    requires
        forall|k: int| 0 <= k < ws.len() ==> (#[trigger] ws[k]).len() > 0,
        forall|k: int, m: int| 0 <= k < ws.len() && 0 <= m < ws[k].len() ==> !is_ws(#[trigger] ws[k][m]),
    ensures
        tidy_spacing(join(ws, seq![' '])),
        ws.len() > 0 ==> join(ws, seq![' ']).len() > 0 && !is_ws(join(ws, seq![' '])[0]) && !is_ws(
            join(ws, seq![' ']).last(),
        ),
    decreases ws.len(),
{
    if ws.len() == 1 {
        let w = ws[0];
        assert forall|i: int| 0 <= i < w.len() implies !is_ws(#[trigger] w[i]) by {
            assert(ws[0][i] == w[i]);
        }
    } else if ws.len() > 1 {
        let v = ws.drop_last();
        assert forall|k: int| 0 <= k < v.len() implies (#[trigger] v[k]).len() > 0 by {
            assert(v[k] == ws[k]);
        }
        assert forall|k: int, m: int| 0 <= k < v.len() && 0 <= m < v[k].len() implies !is_ws(#[trigger] v[k][m]) by {
            assert(v[k] == ws[k]);
        }
        lemma_join_tidy(v);
        let x = join(v, seq![' ']);
        let w = ws.last();
        let y = join(ws, seq![' ']);
        assert(y == x + seq![' '] + w);
        assert forall|m: int| 0 <= m < w.len() implies !is_ws(#[trigger] w[m]) by {
            assert(ws[ws.len() - 1][m] == w[m]);
        }
        assert forall|i: int| 0 <= i < y.len() && is_ws(#[trigger] y[i]) implies y[i] == ' ' && 0 < i < y.len() - 1
            && !is_ws(y[i - 1]) && !is_ws(y[i + 1]) by {
            if i < x.len() {
                assert(y[i] == x[i]);
                assert(y[i - 1] == x[i - 1]);
                if i + 1 < x.len() {
                    assert(y[i + 1] == x[i + 1]);
                }
            } else if i == x.len() {
                assert(y[i - 1] == x.last());
                assert(y[i + 1] == w[0]);
            } else {
                assert(y[i] == w[i - x.len() - 1]);
            }
        }
        assert(y[0] == x[0]);
        assert(y.last() == w.last());
    }
}

/// `collapse_whitespace` leaves no whitespace at either end and only single
/// spaces between words.
pub proof fn lemma_collapsed_is_tidy(s: Seq<char>)
    ensures
        tidy_spacing(collapsed(s)),
        collapsed(s).len() > 0 ==> !is_ws(collapsed(s)[0]) && !is_ws(collapsed(s).last()),
{
    lemma_words_shape(s);
    lemma_join_tidy(words(s));
    if collapsed(s).len() > 0 {
        assert(words(s).len() > 0);
    }
}


proof fn lemma_tidy_ends(x: Seq<char>)
    requires
        tidy_spacing(x),
    ensures
        x.len() > 0 ==> !is_ws(x[0]) && !is_ws(x.last()),
        trim_end(x) == x,
        trim(x) == x,
{
    if x.len() > 0 {
        if is_ws(x[0]) {
            assert(is_ws(x[0]));
        }
        if is_ws(x[x.len() - 1]) {
            assert(is_ws(x[x.len() - 1]));
        }
        crate::text::lemma_trim_end_id(x);
        crate::text::lemma_trim_start_id(x);
    }
}

/// A prefix of tidy text, with trailing whitespace dropped, is tidy.
proof fn lemma_tidy_prefix(x: Seq<char>, k: int)
    requires
        tidy_spacing(x),
        0 <= k <= x.len(),
    ensures
        tidy_spacing(trim_end(x.subrange(0, k))),
{
    let p = x.subrange(0, k);
    lemma_trim_end_is_prefix(p);
    let q = trim_end(p);
    assert forall|i: int| 0 <= i < q.len() && is_ws(#[trigger] q[i]) implies q[i] == ' ' && 0 < i < q.len() - 1
        && !is_ws(q[i - 1]) && !is_ws(q[i + 1]) by {
        assert(q[i] == x[i]);
        assert(is_ws(x[i]));
        assert(q[i - 1] == x[i - 1]);
        if i == q.len() - 1 {
            assert(q.last() == q[i]);
        }
        assert(q[i + 1] == x[i + 1]);
    }
}

proof fn lemma_strip_you_tidy(s: Seq<char>, i: int)
    requires
        tidy_spacing(s),
    ensures
        tidy_spacing(strip_you_from(s, i)),
    decreases stray_you_suffixes().len() - i,
{
    if 0 <= i < stray_you_suffixes().len() {
        let suf = stray_you_suffixes()[i];
        if ends_with(s, suf) {
            lemma_tidy_prefix(s, s.len() - suf.len());
        }
        lemma_strip_you_tidy(s, i + 1);
    }
}

proof fn lemma_strip_tails_tidy(s: Seq<char>)
    requires
        tidy_spacing(s),
    ensures
        tidy_spacing(strip_tails(s)),
    decreases s.len(),
{
    let hs = trailing_hallucinations();
    let fs = trailing_filler();
    let i = first_tail(s, hs, 0);
    let j = first_filler(s, fs, 0);
    lemma_first_tail(s, hs, 0);
    lemma_first_filler(s, fs, 0);
    lemma_trailing_hallucinations_nonempty();
    lemma_trailing_filler_nonempty();
    if 0 <= i < hs.len() {
        lemma_trim_end_is_prefix(s.subrange(0, s.len() - hs[i].len()));
        lemma_tidy_prefix(s, s.len() - hs[i].len());
        lemma_strip_tails_tidy(cut_tail(s, hs[i]));
    } else if 0 <= j < fs.len() {
        lemma_trim_end_is_prefix(s.subrange(0, s.len() - fs[j].len()));
        lemma_tidy_prefix(s, s.len() - fs[j].len());
        lemma_strip_tails_tidy(cut_tail(s, fs[j]));
    }
}

proof fn lemma_strip_word_run_tidy(s: Seq<char>)
    requires
        tidy_spacing(s),
    ensures
        tidy_spacing(strip_word_run(s)),
{
    lemma_tidy_ends(s);
    let ws = words(s);
    lemma_words_shape(s);
    if ws.len() > 0 {
        let run = trailing_run(ws, ws.last());
        if run >= 5 {
            lemma_trailing_run_le(ws, ws.last());
            let v = ws.subrange(0, ws.len() - run);
            assert forall|k: int| 0 <= k < v.len() implies (#[trigger] v[k]).len() > 0 by {
                assert(v[k] == ws[k]);
            }
            assert forall|k: int, m: int| 0 <= k < v.len() && 0 <= m < v[k].len() implies !is_ws(#[trigger] v[k][m]) by {
                assert(v[k] == ws[k]);
            }
            lemma_join_tidy(v);
        }
    }
}

proof fn lemma_trailing_run_le(ws: Seq<Seq<char>>, w: Seq<char>)
    ensures
        trailing_run(ws, w) <= ws.len(),
    decreases ws.len(),
{
    if ws.len() > 0 && ws.last() == w {
        lemma_trailing_run_le(ws.drop_last(), w);
    }
}

proof fn lemma_strip_rounds_tidy(s: Seq<char>, n: nat)
    requires
        tidy_spacing(s),
    ensures
        tidy_spacing(strip_rounds(s, n)),
    decreases n,
{
    if n > 0 {
        lemma_tidy_ends(s);
        lemma_strip_you_tidy(s, 0);
        let a = strip_you(s);
        lemma_tidy_ends(a);
        lemma_strip_tails_tidy(a);
        lemma_strip_word_run_tidy(strip_tails(trim(a)));
        lemma_strip_rounds_tidy(strip_pass(s), (n - 1) as nat);
    }
}

/// A line that `clean` keeps has single spaces between words and no
/// whitespace at either end.
pub proof fn lemma_clean_output_is_tidy(text: Seq<char>)
    ensures
        cleaned(text) matches Some(s) ==> tidy_spacing(s),
{
    let s = untagged(text);
    lemma_collapsed_is_tidy(trim(replace_tags(trim(text), noise_tags())));
    lemma_strip_rounds_tidy(s, 3);
    lemma_tidy_ends(strip_rounds(s, 3));
}


// ---------------------------------------------------------------------------
// Laws of the tail stripping
// ---------------------------------------------------------------------------

/// `a` and `b` have the same length and the same characters once ASCII
/// letters are folded to lower case.
pub open spec fn same_ignoring_ascii_case(a: Seq<char>, b: Seq<char>) -> bool {
    &&& a.len() == b.len()
    &&& forall|i: int| 0 <= i < a.len() ==> #[trigger] fold_ascii(a[i]) == fold_ascii(b[i])
}

/// The character `m` places before the last one of `a`.
spec fn back(a: Seq<char>, m: int) -> char {
    a[a.len() - 1 - m]
}

/// Counted from the end, `a` and `b` differ (ASCII case aside) at a position
/// that both reach, so neither ends with the other.
spec fn tails_differ(a: Seq<char>, b: Seq<char>) -> bool {
    exists|m: int|
        #![trigger back(a, m)]
        0 <= m < a.len() && m < b.len() && fold_ascii(back(a, m)) != fold_ascii(back(b, m))
}

proof fn lemma_tails_differ_symmetric(a: Seq<char>, b: Seq<char>)
    requires
        tails_differ(a, b),
    ensures
        tails_differ(b, a),
{
    let m = choose|m: int|
        0 <= m < a.len() && m < b.len() && fold_ascii(back(a, m)) != fold_ascii(back(b, m));
    assert(fold_ascii(back(b, m)) != fold_ascii(back(a, m)));
}

/// A text that ends with `b` does not end with a phrase whose tail differs.
proof fn lemma_differ_no_hit(s: Seq<char>, a: Seq<char>, b: Seq<char>)
    requires
        tails_differ(a, b),
        ends_with_ignore_case(s, b),
    ensures
        !ends_with_ignore_case(s, a),
{
    let m = choose|m: int|
        0 <= m < a.len() && m < b.len() && fold_ascii(back(a, m)) != fold_ascii(back(b, m));
    let ib = b.len() - 1 - m;
    assert(fold_ascii(s[s.len() - b.len() + ib]) == fold_ascii(b[ib]));
    if ends_with_ignore_case(s, a) {
        let ia = a.len() - 1 - m;
        assert(fold_ascii(s[s.len() - a.len() + ia]) == fold_ascii(a[ia]));
    }
}

/// Sign-off phrases, taken in list order, do not end one another.
proof fn lemma_sign_offs_differ_ordered(i: int, j: int)
    requires
        0 <= i < j < trailing_hallucinations().len(),
    ensures
        tails_differ(trailing_hallucinations()[i], trailing_hallucinations()[j]),
{
    reveal_strlit("thank you for watching.");
    reveal_strlit("thanks for watching.");
    reveal_strlit("thank you for watching!");
    reveal_strlit("thanks for watching!");
    reveal_strlit("thank you for watching");
    reveal_strlit("thanks for watching");
    reveal_strlit("please subscribe.");
    reveal_strlit("please subscribe");
    reveal_strlit("thanks for listening.");
    reveal_strlit("thanks for listening");
    let hs = trailing_hallucinations();
    if i == 0 && j == 1 {
        assert(fold_ascii(back(hs[0], 14)) != fold_ascii(back(hs[1], 14)));
    } else if i == 0 && j == 2 {
        assert(fold_ascii(back(hs[0], 0)) != fold_ascii(back(hs[2], 0)));
    } else if i == 0 && j == 3 {
        assert(fold_ascii(back(hs[0], 0)) != fold_ascii(back(hs[3], 0)));
    } else if i == 0 && j == 4 {
        assert(fold_ascii(back(hs[0], 0)) != fold_ascii(back(hs[4], 0)));
    } else if i == 0 && j == 5 {
        assert(fold_ascii(back(hs[0], 0)) != fold_ascii(back(hs[5], 0)));
    } else if i == 0 && j == 6 {
        assert(fold_ascii(back(hs[0], 1)) != fold_ascii(back(hs[6], 1)));
    } else if i == 0 && j == 7 {
        assert(fold_ascii(back(hs[0], 0)) != fold_ascii(back(hs[7], 0)));
    } else if i == 0 && j == 8 {
        assert(fold_ascii(back(hs[0], 4)) != fold_ascii(back(hs[8], 4)));
    } else if i == 0 && j == 9 {
        assert(fold_ascii(back(hs[0], 0)) != fold_ascii(back(hs[9], 0)));
    } else if i == 1 && j == 2 {
        assert(fold_ascii(back(hs[1], 0)) != fold_ascii(back(hs[2], 0)));
    } else if i == 1 && j == 3 {
        assert(fold_ascii(back(hs[1], 0)) != fold_ascii(back(hs[3], 0)));
    } else if i == 1 && j == 4 {
        assert(fold_ascii(back(hs[1], 0)) != fold_ascii(back(hs[4], 0)));
    } else if i == 1 && j == 5 {
        assert(fold_ascii(back(hs[1], 0)) != fold_ascii(back(hs[5], 0)));
    } else if i == 1 && j == 6 {
        assert(fold_ascii(back(hs[1], 1)) != fold_ascii(back(hs[6], 1)));
    } else if i == 1 && j == 7 {
        assert(fold_ascii(back(hs[1], 0)) != fold_ascii(back(hs[7], 0)));
    } else if i == 1 && j == 8 {
        assert(fold_ascii(back(hs[1], 4)) != fold_ascii(back(hs[8], 4)));
    } else if i == 1 && j == 9 {
        assert(fold_ascii(back(hs[1], 0)) != fold_ascii(back(hs[9], 0)));
    } else if i == 2 && j == 3 {
        assert(fold_ascii(back(hs[2], 14)) != fold_ascii(back(hs[3], 14)));
    } else if i == 2 && j == 4 {
        assert(fold_ascii(back(hs[2], 0)) != fold_ascii(back(hs[4], 0)));
    } else if i == 2 && j == 5 {
        assert(fold_ascii(back(hs[2], 0)) != fold_ascii(back(hs[5], 0)));
    } else if i == 2 && j == 6 {
        assert(fold_ascii(back(hs[2], 0)) != fold_ascii(back(hs[6], 0)));
    } else if i == 2 && j == 7 {
        assert(fold_ascii(back(hs[2], 0)) != fold_ascii(back(hs[7], 0)));
    } else if i == 2 && j == 8 {
        assert(fold_ascii(back(hs[2], 0)) != fold_ascii(back(hs[8], 0)));
    } else if i == 2 && j == 9 {
        assert(fold_ascii(back(hs[2], 0)) != fold_ascii(back(hs[9], 0)));
    } else if i == 3 && j == 4 {
        assert(fold_ascii(back(hs[3], 0)) != fold_ascii(back(hs[4], 0)));
    } else if i == 3 && j == 5 {
        assert(fold_ascii(back(hs[3], 0)) != fold_ascii(back(hs[5], 0)));
    } else if i == 3 && j == 6 {
        assert(fold_ascii(back(hs[3], 0)) != fold_ascii(back(hs[6], 0)));
    } else if i == 3 && j == 7 {
        assert(fold_ascii(back(hs[3], 0)) != fold_ascii(back(hs[7], 0)));
    } else if i == 3 && j == 8 {
        assert(fold_ascii(back(hs[3], 0)) != fold_ascii(back(hs[8], 0)));
    } else if i == 3 && j == 9 {
        assert(fold_ascii(back(hs[3], 0)) != fold_ascii(back(hs[9], 0)));
    } else if i == 4 && j == 5 {
        assert(fold_ascii(back(hs[4], 13)) != fold_ascii(back(hs[5], 13)));
    } else if i == 4 && j == 6 {
        assert(fold_ascii(back(hs[4], 0)) != fold_ascii(back(hs[6], 0)));
    } else if i == 4 && j == 7 {
        assert(fold_ascii(back(hs[4], 0)) != fold_ascii(back(hs[7], 0)));
    } else if i == 4 && j == 8 {
        assert(fold_ascii(back(hs[4], 0)) != fold_ascii(back(hs[8], 0)));
    } else if i == 4 && j == 9 {
        assert(fold_ascii(back(hs[4], 3)) != fold_ascii(back(hs[9], 3)));
    } else if i == 5 && j == 6 {
        assert(fold_ascii(back(hs[5], 0)) != fold_ascii(back(hs[6], 0)));
    } else if i == 5 && j == 7 {
        assert(fold_ascii(back(hs[5], 0)) != fold_ascii(back(hs[7], 0)));
    } else if i == 5 && j == 8 {
        assert(fold_ascii(back(hs[5], 0)) != fold_ascii(back(hs[8], 0)));
    } else if i == 5 && j == 9 {
        assert(fold_ascii(back(hs[5], 3)) != fold_ascii(back(hs[9], 3)));
    } else if i == 6 && j == 7 {
        assert(fold_ascii(back(hs[6], 0)) != fold_ascii(back(hs[7], 0)));
    } else if i == 6 && j == 8 {
        assert(fold_ascii(back(hs[6], 1)) != fold_ascii(back(hs[8], 1)));
    } else if i == 6 && j == 9 {
        assert(fold_ascii(back(hs[6], 0)) != fold_ascii(back(hs[9], 0)));
    } else if i == 7 && j == 8 {
        assert(fold_ascii(back(hs[7], 0)) != fold_ascii(back(hs[8], 0)));
    } else if i == 7 && j == 9 {
        assert(fold_ascii(back(hs[7], 0)) != fold_ascii(back(hs[9], 0)));
    } else if i == 8 && j == 9 {
        assert(fold_ascii(back(hs[8], 0)) != fold_ascii(back(hs[9], 0)));
    }
}

/// No sign-off phrase ends a filler phrase, nor the other way round.
proof fn lemma_sign_off_filler_differ(i: int, j: int)
    requires
        0 <= i < trailing_hallucinations().len(),
        0 <= j < trailing_filler().len(),
    ensures
        tails_differ(trailing_hallucinations()[i], trailing_filler()[j]),
{
    reveal_strlit("thank you for watching.");
    reveal_strlit("thanks for watching.");
    reveal_strlit("thank you for watching!");
    reveal_strlit("thanks for watching!");
    reveal_strlit("thank you for watching");
    reveal_strlit("thanks for watching");
    reveal_strlit("please subscribe.");
    reveal_strlit("please subscribe");
    reveal_strlit("thanks for listening.");
    reveal_strlit("thanks for listening");
    reveal_strlit("thank you so much.");
    reveal_strlit("thank you very much.");
    reveal_strlit("thank you.");
    reveal_strlit("thank you");
    reveal_strlit("thanks.");
    reveal_strlit("thanks");
    let hs = trailing_hallucinations();
    let fs = trailing_filler();
    if i == 0 && j == 0 {
        assert(fold_ascii(back(hs[0], 1)) != fold_ascii(back(fs[0], 1)));
    } else if i == 0 && j == 1 {
        assert(fold_ascii(back(hs[0], 1)) != fold_ascii(back(fs[1], 1)));
    } else if i == 0 && j == 2 {
        assert(fold_ascii(back(hs[0], 1)) != fold_ascii(back(fs[2], 1)));
    } else if i == 0 && j == 3 {
        assert(fold_ascii(back(hs[0], 0)) != fold_ascii(back(fs[3], 0)));
    } else if i == 0 && j == 4 {
        assert(fold_ascii(back(hs[0], 1)) != fold_ascii(back(fs[4], 1)));
    } else if i == 0 && j == 5 {
        assert(fold_ascii(back(hs[0], 0)) != fold_ascii(back(fs[5], 0)));
    } else if i == 1 && j == 0 {
        assert(fold_ascii(back(hs[1], 1)) != fold_ascii(back(fs[0], 1)));
    } else if i == 1 && j == 1 {
        assert(fold_ascii(back(hs[1], 1)) != fold_ascii(back(fs[1], 1)));
    } else if i == 1 && j == 2 {
        assert(fold_ascii(back(hs[1], 1)) != fold_ascii(back(fs[2], 1)));
    } else if i == 1 && j == 3 {
        assert(fold_ascii(back(hs[1], 0)) != fold_ascii(back(fs[3], 0)));
    } else if i == 1 && j == 4 {
        assert(fold_ascii(back(hs[1], 1)) != fold_ascii(back(fs[4], 1)));
    } else if i == 1 && j == 5 {
        assert(fold_ascii(back(hs[1], 0)) != fold_ascii(back(fs[5], 0)));
    } else if i == 2 && j == 0 {
        assert(fold_ascii(back(hs[2], 0)) != fold_ascii(back(fs[0], 0)));
    } else if i == 2 && j == 1 {
        assert(fold_ascii(back(hs[2], 0)) != fold_ascii(back(fs[1], 0)));
    } else if i == 2 && j == 2 {
        assert(fold_ascii(back(hs[2], 0)) != fold_ascii(back(fs[2], 0)));
    } else if i == 2 && j == 3 {
        assert(fold_ascii(back(hs[2], 0)) != fold_ascii(back(fs[3], 0)));
    } else if i == 2 && j == 4 {
        assert(fold_ascii(back(hs[2], 0)) != fold_ascii(back(fs[4], 0)));
    } else if i == 2 && j == 5 {
        assert(fold_ascii(back(hs[2], 0)) != fold_ascii(back(fs[5], 0)));
    } else if i == 3 && j == 0 {
        assert(fold_ascii(back(hs[3], 0)) != fold_ascii(back(fs[0], 0)));
    } else if i == 3 && j == 1 {
        assert(fold_ascii(back(hs[3], 0)) != fold_ascii(back(fs[1], 0)));
    } else if i == 3 && j == 2 {
        assert(fold_ascii(back(hs[3], 0)) != fold_ascii(back(fs[2], 0)));
    } else if i == 3 && j == 3 {
        assert(fold_ascii(back(hs[3], 0)) != fold_ascii(back(fs[3], 0)));
    } else if i == 3 && j == 4 {
        assert(fold_ascii(back(hs[3], 0)) != fold_ascii(back(fs[4], 0)));
    } else if i == 3 && j == 5 {
        assert(fold_ascii(back(hs[3], 0)) != fold_ascii(back(fs[5], 0)));
    } else if i == 4 && j == 0 {
        assert(fold_ascii(back(hs[4], 0)) != fold_ascii(back(fs[0], 0)));
    } else if i == 4 && j == 1 {
        assert(fold_ascii(back(hs[4], 0)) != fold_ascii(back(fs[1], 0)));
    } else if i == 4 && j == 2 {
        assert(fold_ascii(back(hs[4], 0)) != fold_ascii(back(fs[2], 0)));
    } else if i == 4 && j == 3 {
        assert(fold_ascii(back(hs[4], 0)) != fold_ascii(back(fs[3], 0)));
    } else if i == 4 && j == 4 {
        assert(fold_ascii(back(hs[4], 0)) != fold_ascii(back(fs[4], 0)));
    } else if i == 4 && j == 5 {
        assert(fold_ascii(back(hs[4], 0)) != fold_ascii(back(fs[5], 0)));
    } else if i == 5 && j == 0 {
        assert(fold_ascii(back(hs[5], 0)) != fold_ascii(back(fs[0], 0)));
    } else if i == 5 && j == 1 {
        assert(fold_ascii(back(hs[5], 0)) != fold_ascii(back(fs[1], 0)));
    } else if i == 5 && j == 2 {
        assert(fold_ascii(back(hs[5], 0)) != fold_ascii(back(fs[2], 0)));
    } else if i == 5 && j == 3 {
        assert(fold_ascii(back(hs[5], 0)) != fold_ascii(back(fs[3], 0)));
    } else if i == 5 && j == 4 {
        assert(fold_ascii(back(hs[5], 0)) != fold_ascii(back(fs[4], 0)));
    } else if i == 5 && j == 5 {
        assert(fold_ascii(back(hs[5], 0)) != fold_ascii(back(fs[5], 0)));
    } else if i == 6 && j == 0 {
        assert(fold_ascii(back(hs[6], 1)) != fold_ascii(back(fs[0], 1)));
    } else if i == 6 && j == 1 {
        assert(fold_ascii(back(hs[6], 1)) != fold_ascii(back(fs[1], 1)));
    } else if i == 6 && j == 2 {
        assert(fold_ascii(back(hs[6], 1)) != fold_ascii(back(fs[2], 1)));
    } else if i == 6 && j == 3 {
        assert(fold_ascii(back(hs[6], 0)) != fold_ascii(back(fs[3], 0)));
    } else if i == 6 && j == 4 {
        assert(fold_ascii(back(hs[6], 1)) != fold_ascii(back(fs[4], 1)));
    } else if i == 6 && j == 5 {
        assert(fold_ascii(back(hs[6], 0)) != fold_ascii(back(fs[5], 0)));
    } else if i == 7 && j == 0 {
        assert(fold_ascii(back(hs[7], 0)) != fold_ascii(back(fs[0], 0)));
    } else if i == 7 && j == 1 {
        assert(fold_ascii(back(hs[7], 0)) != fold_ascii(back(fs[1], 0)));
    } else if i == 7 && j == 2 {
        assert(fold_ascii(back(hs[7], 0)) != fold_ascii(back(fs[2], 0)));
    } else if i == 7 && j == 3 {
        assert(fold_ascii(back(hs[7], 0)) != fold_ascii(back(fs[3], 0)));
    } else if i == 7 && j == 4 {
        assert(fold_ascii(back(hs[7], 0)) != fold_ascii(back(fs[4], 0)));
    } else if i == 7 && j == 5 {
        assert(fold_ascii(back(hs[7], 0)) != fold_ascii(back(fs[5], 0)));
    } else if i == 8 && j == 0 {
        assert(fold_ascii(back(hs[8], 1)) != fold_ascii(back(fs[0], 1)));
    } else if i == 8 && j == 1 {
        assert(fold_ascii(back(hs[8], 1)) != fold_ascii(back(fs[1], 1)));
    } else if i == 8 && j == 2 {
        assert(fold_ascii(back(hs[8], 1)) != fold_ascii(back(fs[2], 1)));
    } else if i == 8 && j == 3 {
        assert(fold_ascii(back(hs[8], 0)) != fold_ascii(back(fs[3], 0)));
    } else if i == 8 && j == 4 {
        assert(fold_ascii(back(hs[8], 1)) != fold_ascii(back(fs[4], 1)));
    } else if i == 8 && j == 5 {
        assert(fold_ascii(back(hs[8], 0)) != fold_ascii(back(fs[5], 0)));
    } else if i == 9 && j == 0 {
        assert(fold_ascii(back(hs[9], 0)) != fold_ascii(back(fs[0], 0)));
    } else if i == 9 && j == 1 {
        assert(fold_ascii(back(hs[9], 0)) != fold_ascii(back(fs[1], 0)));
    } else if i == 9 && j == 2 {
        assert(fold_ascii(back(hs[9], 0)) != fold_ascii(back(fs[2], 0)));
    } else if i == 9 && j == 3 {
        assert(fold_ascii(back(hs[9], 0)) != fold_ascii(back(fs[3], 0)));
    } else if i == 9 && j == 4 {
        assert(fold_ascii(back(hs[9], 0)) != fold_ascii(back(fs[4], 0)));
    } else if i == 9 && j == 5 {
        assert(fold_ascii(back(hs[9], 0)) != fold_ascii(back(fs[5], 0)));
    }
}

/// Filler phrases, taken in list order, do not end one another.
proof fn lemma_fillers_differ_ordered(i: int, j: int)
    requires
        0 <= i < j < trailing_filler().len(),
    ensures
        tails_differ(trailing_filler()[i], trailing_filler()[j]),
{
    reveal_strlit("thank you so much.");
    reveal_strlit("thank you very much.");
    reveal_strlit("thank you.");
    reveal_strlit("thank you");
    reveal_strlit("thanks.");
    reveal_strlit("thanks");
    let fs = trailing_filler();
    if i == 0 && j == 1 {
        assert(fold_ascii(back(fs[0], 6)) != fold_ascii(back(fs[1], 6)));
    } else if i == 0 && j == 2 {
        assert(fold_ascii(back(fs[0], 1)) != fold_ascii(back(fs[2], 1)));
    } else if i == 0 && j == 3 {
        assert(fold_ascii(back(fs[0], 0)) != fold_ascii(back(fs[3], 0)));
    } else if i == 0 && j == 4 {
        assert(fold_ascii(back(fs[0], 1)) != fold_ascii(back(fs[4], 1)));
    } else if i == 0 && j == 5 {
        assert(fold_ascii(back(fs[0], 0)) != fold_ascii(back(fs[5], 0)));
    } else if i == 1 && j == 2 {
        assert(fold_ascii(back(fs[1], 1)) != fold_ascii(back(fs[2], 1)));
    } else if i == 1 && j == 3 {
        assert(fold_ascii(back(fs[1], 0)) != fold_ascii(back(fs[3], 0)));
    } else if i == 1 && j == 4 {
        assert(fold_ascii(back(fs[1], 1)) != fold_ascii(back(fs[4], 1)));
    } else if i == 1 && j == 5 {
        assert(fold_ascii(back(fs[1], 0)) != fold_ascii(back(fs[5], 0)));
    } else if i == 2 && j == 3 {
        assert(fold_ascii(back(fs[2], 0)) != fold_ascii(back(fs[3], 0)));
    } else if i == 2 && j == 4 {
        assert(fold_ascii(back(fs[2], 1)) != fold_ascii(back(fs[4], 1)));
    } else if i == 2 && j == 5 {
        assert(fold_ascii(back(fs[2], 0)) != fold_ascii(back(fs[5], 0)));
    } else if i == 3 && j == 4 {
        assert(fold_ascii(back(fs[3], 0)) != fold_ascii(back(fs[4], 0)));
    } else if i == 3 && j == 5 {
        assert(fold_ascii(back(fs[3], 0)) != fold_ascii(back(fs[5], 0)));
    } else if i == 4 && j == 5 {
        assert(fold_ascii(back(fs[4], 0)) != fold_ascii(back(fs[5], 0)));
    }
}

proof fn lemma_sign_offs_differ(i: int, j: int)
    requires
        0 <= i < trailing_hallucinations().len(),
        0 <= j < trailing_hallucinations().len(),
        i != j,
    ensures
        tails_differ(trailing_hallucinations()[i], trailing_hallucinations()[j]),
{
    let hs = trailing_hallucinations();
    if i < j {
        lemma_sign_offs_differ_ordered(i, j);
    } else {
        lemma_sign_offs_differ_ordered(j, i);
        lemma_tails_differ_symmetric(hs[j], hs[i]);
    }
}

proof fn lemma_fillers_differ(i: int, j: int)
    requires
        0 <= i < trailing_filler().len(),
        0 <= j < trailing_filler().len(),
        i != j,
    ensures
        tails_differ(trailing_filler()[i], trailing_filler()[j]),
{
    let fs = trailing_filler();
    if i < j {
        lemma_fillers_differ_ordered(i, j);
    } else {
        lemma_fillers_differ_ordered(j, i);
        lemma_tails_differ_symmetric(fs[j], fs[i]);
    }
}

/// Every phrase of both lists ends with a printable ASCII character other
/// than the space.
proof fn lemma_phrases_end_printable()
    ensures
        forall|i: int|
            0 <= i < trailing_hallucinations().len() ==> 0x21 <= (#[trigger] trailing_hallucinations()[i]).last() as u32 <= 0x7E,
        forall|i: int|
            0 <= i < trailing_filler().len() ==> 0x21 <= (#[trigger] trailing_filler()[i]).last() as u32 <= 0x7E,
{
    reveal_strlit("thank you for watching.");
    reveal_strlit("thanks for watching.");
    reveal_strlit("thank you for watching!");
    reveal_strlit("thanks for watching!");
    reveal_strlit("thank you for watching");
    reveal_strlit("thanks for watching");
    reveal_strlit("please subscribe.");
    reveal_strlit("please subscribe");
    reveal_strlit("thanks for listening.");
    reveal_strlit("thanks for listening");
    reveal_strlit("thank you so much.");
    reveal_strlit("thank you very much.");
    reveal_strlit("thank you.");
    reveal_strlit("thank you");
    reveal_strlit("thanks.");
    reveal_strlit("thanks");
}

proof fn lemma_first_tail_at(s: Seq<char>, ps: Seq<Seq<char>>, i: int, k: int)
    requires
        0 <= i <= k <= ps.len(),
        forall|j: int| i <= j < k ==> !tail_hit(s, #[trigger] ps[j]),
        k < ps.len() ==> tail_hit(s, ps[k]),
    ensures
        first_tail(s, ps, i) == k,
    decreases k - i,
{
    if i < k {
        lemma_first_tail_at(s, ps, i + 1, k);
    }
}

proof fn lemma_first_filler_at(s: Seq<char>, ps: Seq<Seq<char>>, i: int, k: int)
    requires
        0 <= i <= k <= ps.len(),
        forall|j: int| i <= j < k ==> !filler_hit(s, #[trigger] ps[j]),
        k < ps.len() ==> filler_hit(s, ps[k]),
    ensures
        first_filler(s, ps, i) == k,
    decreases k - i,
{
    if i < k {
        lemma_first_filler_at(s, ps, i + 1, k);
    }
}

/// A trimmed, non-empty text, a space and a phrase (in any ASCII case) make a
/// trimmed text that ends with the phrase and leaves the text once it is cut.
proof fn lemma_appended_phrase(p: Seq<char>, f: Seq<char>, ph: Seq<char>)
    requires
        p == trim(p),
        p.len() > 0,
        ph.len() > 0,
        0x21 <= ph.last() as u32 <= 0x7E,
        same_ignoring_ascii_case(f, ph),
    ensures
        trim(p + seq![' '] + f) == p + seq![' '] + f,
        tail_hit(p + seq![' '] + f, ph),
        cut_tail(p + seq![' '] + f, ph) == p,
{
    let s = p + seq![' '] + f;
    let e = trim_end(p);
    lemma_trim_end_is_prefix(p);
    lemma_trim_start_is_suffix(e);
    assert(e == p);
    assert(!is_ws(p.last()));
    assert(!is_ws(p[0]));
    assert(fold_ascii(f[f.len() - 1]) == fold_ascii(ph[ph.len() - 1]));
    assert(s.last() == f.last());
    assert(!is_ws(s.last()));
    lemma_trim_end_id(s);
    assert(s[0] == p[0]);
    lemma_trim_start_id(s);
    assert forall|i: int| 0 <= i < ph.len() implies #[trigger] fold_ascii(s[s.len() - ph.len() + i])
        == fold_ascii(ph[i]) by {
        assert(s[s.len() - ph.len() + i] == f[i]);
    }
    let q = s.subrange(0, s.len() - ph.len());
    assert(q == p.push(' '));
    assert(q.drop_last() == p);
    lemma_trim_end_id(p);
}

/// A sign-off phrase after a finished text is cut, in any ASCII case: the
/// text, a space and a sign-off phrase come back as the text, for any text
/// that is trimmed, non-empty and left unchanged on its own.
pub proof fn lemma_sign_off_stripped(p: Seq<char>, f: Seq<char>, k: int)
    requires
        p == trim(p),
        p.len() > 0,
        strip_tails(p) == p,
        0 <= k < trailing_hallucinations().len(),
        same_ignoring_ascii_case(f, trailing_hallucinations()[k]),
    ensures
        strip_tails(trim(p + seq![' '] + f)) == p,
{
    let hs = trailing_hallucinations();
    let s = p + seq![' '] + f;
    lemma_trailing_hallucinations_nonempty();
    lemma_phrases_end_printable();
    lemma_appended_phrase(p, f, hs[k]);
    assert forall|j: int| 0 <= j < k implies !tail_hit(s, #[trigger] hs[j]) by {
        lemma_sign_offs_differ(j, k);
        lemma_differ_no_hit(s, hs[j], hs[k]);
    }
    lemma_first_tail_at(s, hs, 0, k);
}

/// Filler after a finished sentence is cut, in any ASCII case: a text that
/// ends with sentence punctuation, a space and a filler phrase come back as
/// the text, for any text that is trimmed and left unchanged on its own.
pub proof fn lemma_filler_after_sentence_stripped(p: Seq<char>, f: Seq<char>, k: int)
    requires
        p == trim(p),
        p.len() > 0,
        strip_tails(p) == p,
        ends_sentence(p),
        0 <= k < trailing_filler().len(),
        same_ignoring_ascii_case(f, trailing_filler()[k]),
    ensures
        strip_tails(trim(p + seq![' '] + f)) == p,
{
    let hs = trailing_hallucinations();
    let fs = trailing_filler();
    let s = p + seq![' '] + f;
    lemma_trailing_filler_nonempty();
    lemma_phrases_end_printable();
    lemma_appended_phrase(p, f, fs[k]);
    assert forall|j: int| 0 <= j < hs.len() implies !tail_hit(s, #[trigger] hs[j]) by {
        lemma_sign_off_filler_differ(j, k);
        lemma_differ_no_hit(s, hs[j], fs[k]);
    }
    lemma_first_tail_at(s, hs, 0, hs.len() as int);
    assert forall|j: int| 0 <= j < k implies !filler_hit(s, #[trigger] fs[j]) by {
        lemma_fillers_differ(j, k);
        lemma_differ_no_hit(s, fs[j], fs[k]);
    }
    lemma_first_filler_at(s, fs, 0, k);
}

/// Filler after text that does not end a sentence is kept: the text, a
/// space and a filler phrase come back unchanged, so "I wanted to say thank
/// you" survives. Holds for any trimmed, non-empty text.
pub proof fn lemma_filler_without_sentence_kept(p: Seq<char>, f: Seq<char>, k: int)
    requires
        p == trim(p),
        p.len() > 0,
        !ends_sentence(p),
        0 <= k < trailing_filler().len(),
        same_ignoring_ascii_case(f, trailing_filler()[k]),
    ensures
        strip_tails(trim(p + seq![' '] + f)) == p + seq![' '] + f,
{
    let hs = trailing_hallucinations();
    let fs = trailing_filler();
    let s = p + seq![' '] + f;
    lemma_trailing_filler_nonempty();
    lemma_phrases_end_printable();
    lemma_appended_phrase(p, f, fs[k]);
    assert forall|j: int| 0 <= j < hs.len() implies !tail_hit(s, #[trigger] hs[j]) by {
        lemma_sign_off_filler_differ(j, k);
        lemma_differ_no_hit(s, hs[j], fs[k]);
    }
    lemma_first_tail_at(s, hs, 0, hs.len() as int);
    assert forall|j: int| 0 <= j < fs.len() implies !filler_hit(s, #[trigger] fs[j]) by {
        if j != k {
            lemma_fillers_differ(j, k);
            lemma_differ_no_hit(s, fs[j], fs[k]);
        }
    }
    lemma_first_filler_at(s, fs, 0, fs.len() as int);
}


/// A text ends a sentence exactly when its last character other than
/// whitespace is `.`, `?`, `!`, `…`, `。`, `？` or `！`; a comma, a letter or
/// any other character does not end one.
pub proof fn lemma_sentence_end_chars(s: Seq<char>)
    ensures
        ends_sentence(s) <==> (trim_end(s).len() > 0 && {
            let c = trim_end(s).last();
            c == '.' || c == '?' || c == '!' || c == '…' || c == '。' || c == '？' || c == '！'
        }),
{
}

/// Filler after a trimmed text whose last character is not sentence
/// punctuation (a comma, a letter, a digit, ...) is kept: "Okay, thank you."
/// and "Yes, thanks" come back unchanged.
pub proof fn lemma_filler_kept_without_stop(p: Seq<char>, f: Seq<char>, k: int)
    requires
        p == trim(p),
        p.len() > 0,
        !(p.last() == '.' || p.last() == '?' || p.last() == '!' || p.last() == '…' || p.last() == '。'
            || p.last() == '？' || p.last() == '！'),
        0 <= k < trailing_filler().len(),
        same_ignoring_ascii_case(f, trailing_filler()[k]),
    ensures
        strip_tails(trim(p + seq![' '] + f)) == p + seq![' '] + f,
{
    let e = trim_end(p);
    lemma_trim_end_is_prefix(p);
    lemma_trim_start_is_suffix(e);
    assert(e == p);
    lemma_sentence_end_chars(p);
    lemma_filler_without_sentence_kept(p, f, k);
}

} // verus!
