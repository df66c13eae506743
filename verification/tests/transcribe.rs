use kotoma::clock::LocalTime;
use kotoma::msg::detect_lang;
use kotoma::transcribe::{finish_segment, whisper_language, PromptContext};

fn t() -> LocalTime {
    LocalTime::new(2024, 1, 2, 3, 4, 5).unwrap()
}

#[test]
fn detects_japanese_by_kana_and_kanji() {
    assert_eq!(detect_lang("こんにちは"), "ja");
    assert_eq!(detect_lang("カタカナ"), "ja");
    assert_eq!(detect_lang("漢字"), "ja");
    assert_eq!(detect_lang("ｱｲｳ"), "ja");
    assert_eq!(detect_lang("Hello there"), "en");
    assert_eq!(detect_lang("한국어"), "en");
    assert_eq!(detect_lang(""), "en");
}

#[test]
fn whisper_language_codes() {
    assert_eq!(whisper_language("en"), "en");
    assert_eq!(whisper_language("ja"), "ja");
    assert_eq!(whisper_language("auto"), "auto");
    assert_eq!(whisper_language("fr"), "auto");
}

#[test]
fn short_silence_fallback_is_dropped() {
    let mut ctx = PromptContext::new();
    assert!(finish_segment(&mut ctx, " Thank you.", 1, 900, t(), t()).is_none());
    assert_eq!(ctx.prompt(), "");
    let line = finish_segment(&mut ctx, " Thank you.", 2, 1500, t(), t()).unwrap();
    assert_eq!(line.text, "Thank you.");
    assert_eq!(line.src_lang, "en");
    assert_eq!(line.id, 2);
    assert!(line.translated.is_none());
    assert_eq!(ctx.prompt(), " Thank you.");
}

#[test]
fn japanese_line_is_tagged() {
    let mut ctx = PromptContext::new();
    let line = finish_segment(&mut ctx, "元気です。", 5, 3000, t(), t()).unwrap();
    assert_eq!(line.src_lang, "ja");
    assert_eq!(line.started_at, t());
}

#[test]
fn noise_only_segment_is_dropped() {
    let mut ctx = PromptContext::new();
    assert!(finish_segment(&mut ctx, "[BLANK_AUDIO]", 1, 5000, t(), t()).is_none());
}

#[test]
fn prompt_keeps_last_224_chars() {
    let mut ctx = PromptContext::new();
    for i in 0..40 {
        ctx.push_line(&format!("sentence number {i}"));
    }
    let p = ctx.prompt();
    assert_eq!(p.chars().count(), 224);
    assert!(p.ends_with(" sentence number 39"));
}
