use kotoma::filter::{
    clean, is_silence_fallback, strip_trailing_hallucinations, strip_trailing_word_repetition,
};

#[test]
fn drops_blank_audio_only() {
    assert_eq!(clean("[BLANK_AUDIO]"), None);
}

#[test]
fn strips_trailing_noise_tag() {
    assert_eq!(
        clean("Hello world. [BLANK_AUDIO]").as_deref(),
        Some("Hello world.")
    );
}

#[test]
fn drops_thanks_for_watching() {
    assert_eq!(clean("Thanks for watching!"), None);
}

#[test]
fn keeps_real_speech() {
    assert_eq!(
        clean("  This is real speech.  ").as_deref(),
        Some("This is real speech.")
    );
}

#[test]
fn drops_bracket_only_nonlatin() {
    assert_eq!(clean("《Soucaity Astrolabe》"), None);
}

#[test]
fn drops_repetition_loop() {
    let runaway: String = "ん".repeat(300);
    assert_eq!(clean(&runaway), None);
}

#[test]
fn keeps_normal_repetition() {
    assert_eq!(
        clean("yeah yeah yeah it's fine").as_deref(),
        Some("yeah yeah yeah it's fine")
    );
}

#[test]
fn silence_fallback_detects_thank_you() {
    assert!(is_silence_fallback("Thank you."));
    assert!(is_silence_fallback("thank you"));
    assert!(is_silence_fallback("you"));
    assert!(is_silence_fallback(" Bye. "));
}

#[test]
fn silence_fallback_ignores_real_speech() {
    assert!(!is_silence_fallback("Thank you for joining today."));
    assert!(!is_silence_fallback("I don't know."));
}

#[test]
fn strips_trailing_youtube_tail() {
    assert_eq!(
        clean("I don't know. Thank you. Thank you for watching. you").as_deref(),
        Some("I don't know.")
    );
}

#[test]
fn strips_trailing_stray_you() {
    assert_eq!(
        clean("Oh, that looks great. Alright. you").as_deref(),
        Some("Oh, that looks great. Alright.")
    );
}

#[test]
fn drops_word_repetition_loop() {
    let runaway = "Great. ".repeat(100);
    assert_eq!(clean(&runaway), None);
}

#[test]
fn strips_trailing_word_repetition_tail() {
    let input = format!(
        "Let me explain this properly. {}",
        "Great. ".repeat(40)
    );
    assert_eq!(
        clean(&input).as_deref(),
        Some("Let me explain this properly.")
    );
}

#[test]
fn keeps_short_natural_repetition() {
    assert_eq!(
        clean("no no no, that's not what I meant").as_deref(),
        Some("no no no, that's not what I meant")
    );
}

#[test]
fn strips_trailing_thank_you_after_sentence() {
    assert_eq!(
        clean("I can speak English. Thank you. Thank you.").as_deref(),
        Some("I can speak English.")
    );
}

#[test]
fn strips_trailing_thank_you_very_much() {
    assert_eq!(
        clean("That was a great talk. Thank you very much.").as_deref(),
        Some("That was a great talk.")
    );
}

#[test]
fn keeps_thank_you_in_middle() {
    assert_eq!(
        clean("I wanted to say thank you").as_deref(),
        Some("I wanted to say thank you")
    );
}

#[test]
fn strips_case_insensitive_youtube_tail() {
    assert_eq!(
        clean("That concludes today's lecture. thank you for watching").as_deref(),
        Some("That concludes today's lecture.")
    );
}

#[test]
fn uppercase_sign_off_is_dropped() {
    assert_eq!(clean("THANKS FOR WATCHING!!"), None);
    assert_eq!(clean("Please subscribe."), None);
}

#[test]
fn noise_tags_inside_text_become_spaces() {
    assert_eq!(
        clean("We start[MUSIC]now (inaudible) ok").as_deref(),
        Some("We start now ok")
    );
}

#[test]
fn bracketed_caption_rules() {
    assert_eq!(clean("(laughs)"), None);
    assert_eq!(clean("「字幕」"), None);
    assert_eq!(
        clean("[this caption is far too long to be only a bracketed tag]").as_deref(),
        Some("[this caption is far too long to be only a bracketed tag]")
    );
}

#[test]
fn silence_fallback_ignores_punctuation_and_spacing() {
    assert!(is_silence_fallback("Bye   bye!!"));
    assert!(is_silence_fallback("HMM..."));
    assert!(!is_silence_fallback("bye bye bye"));
}

#[test]
fn japanese_repetition_under_threshold_is_kept() {
    assert_eq!(clean("ありがとうございます").as_deref(), Some("ありがとうございます"));
}

#[test]
fn five_identical_words_alone_are_stripped() {
    assert!(strip_trailing_word_repetition(&"go go go go go".chars().collect::<Vec<char>>()).is_empty());
}

#[test]
fn word_run_strip_keeps_the_words_before_it() {
    let out = strip_trailing_word_repetition(&"stop go go go go go  ".chars().collect::<Vec<char>>());
    assert_eq!(out.iter().collect::<String>(), "stop");
}

#[test]
fn four_identical_words_are_kept() {
    let out = strip_trailing_word_repetition(&"go go go go ".chars().collect::<Vec<char>>());
    assert_eq!(out.iter().collect::<String>(), "go go go go");
}

#[test]
fn sign_off_in_capitals_is_cut_after_any_text() {
    let out = strip_trailing_hallucinations(&"we are done THANKS FOR WATCHING!".chars().collect::<Vec<char>>());
    assert_eq!(out.iter().collect::<String>(), "we are done");
}

#[test]
fn filler_after_sentence_is_cut_in_any_case() {
    let out = strip_trailing_hallucinations(&"It works. Thank You Very Much.".chars().collect::<Vec<char>>());
    assert_eq!(out.iter().collect::<String>(), "It works.");
}

#[test]
fn filler_without_sentence_end_is_kept() {
    let out = strip_trailing_hallucinations(&"I wanted to say Thank You".chars().collect::<Vec<char>>());
    assert_eq!(out.iter().collect::<String>(), "I wanted to say Thank You");
}
