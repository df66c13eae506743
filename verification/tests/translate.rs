use kotoma::clock::LocalTime;
use kotoma::config::{default_llama_server_binary, TranslatorConfigToml};
use kotoma::transcribe::TranscriptLine;
use kotoma::translate::{
    accept_translation, build_prompt, endpoint_url, server_args, translator_model_usable, ContextWindow,
};

fn line(text: &str, lang: &str) -> TranscriptLine {
    let t = LocalTime::new(2024, 1, 1, 0, 0, 0).unwrap();
    TranscriptLine {
        id: 3,
        text: text.to_string(),
        translated: None,
        src_lang: lang.to_string(),
        started_at: t,
        ended_at: t,
    }
}

#[test]
fn context_window_keeps_three_newest() {
    let mut ctx = ContextWindow::new();
    assert_eq!(ctx.render(), "");
    ctx.push("en", "one", "一");
    ctx.push("ja", "二", "two");
    ctx.push("en", "three", "三");
    ctx.push("en", "four", "四");
    assert_eq!(ctx.len(), 3);
    assert_eq!(
        ctx.render(),
        "\n\nRecent context (for reference, do NOT re-translate):\n- [JA→EN] 二 → two\n- [EN→JA] three → 三\n- [EN→JA] four → 四\n"
    );
}

#[test]
fn prompt_names_languages_and_text() {
    let ctx = ContextWindow::new();
    let p = build_prompt(&line("Good morning", "en"), &ctx);
    assert!(p.starts_with("<|im_start|>system\nYou are a professional simultaneous interpreter"));
    assert!(p.contains(" from English to Japanese.\nRules:\n- Output ONLY the translation."));
    assert!(p.ends_with("- Match punctuation style of the target language.<|im_end|>\n<|im_start|>user\nGood morning<|im_end|>\n<|im_start|>assistant\n"));
    let p = build_prompt(&line("おはよう", "ja"), &ctx);
    assert!(p.contains("from Japanese to English."));
}

#[test]
fn replies_are_trimmed_and_recorded() {
    let mut ctx = ContextWindow::new();
    let l = line("Hello", "en");
    assert_eq!(accept_translation(&mut ctx, &l, Some("  こんにちは \n")).as_deref(), Some("こんにちは"));
    assert_eq!(ctx.len(), 1);
    assert_eq!(accept_translation(&mut ctx, &l, Some("   ")), None);
    assert_eq!(accept_translation(&mut ctx, &l, None), None);
    assert_eq!(ctx.len(), 1);
}

#[test]
fn server_endpoint_and_arguments() {
    assert_eq!(endpoint_url(8787, "/health"), "http://127.0.0.1:8787/health");
    assert_eq!(endpoint_url(0, "/completion"), "http://127.0.0.1:0/completion");
    let toml = TranslatorConfigToml {
        model_path: "/m/qwen.gguf".to_string(),
        binary: default_llama_server_binary(),
        port: 8787,
        n_ctx: 4096,
        max_new_tokens: 512,
        startup_timeout_secs: 120,
    };
    let cfg = toml.to_runtime("/logs");
    assert_eq!(cfg.log_dir, "/logs");
    assert_eq!(
        server_args(&cfg),
        vec![
            "--model", "/m/qwen.gguf", "--port", "8787", "--host", "127.0.0.1", "--ctx-size", "4096",
            "--n-gpu-layers", "999", "--threads", "4"
        ]
    );
}

#[test]
fn translator_model_size_check() {
    assert!(!translator_model_usable(false, None));
    assert!(!translator_model_usable(true, Some(9_999_999)));
    assert!(translator_model_usable(true, Some(10_000_000)));
    assert!(translator_model_usable(true, None));
}
