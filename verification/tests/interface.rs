use kotoma::audio::{capture_name, device_list, parse_device, DeviceSource};
use kotoma::clock::LocalTime;
use kotoma::config::{
    config_search_order, default_device, default_language, default_output, default_threads, output_extension,
    ConfigLocation, OutputExtension, VadConfig,
};
use kotoma::msg::TranslatorStatus;
use kotoma::transcribe::TranscriptLine;
use kotoma::ui::{column_cell, column_scroll, help_line, line_head, picker_item, saved_note, title};

#[test]
fn device_list_has_default_first_and_no_duplicates() {
    let inputs = vec!["Mic".to_string(), "default".to_string(), "Mic".to_string(), "USB".to_string()];
    let outputs = vec!["Speakers".to_string(), "Speakers".to_string()];
    assert_eq!(
        device_list(&inputs, &outputs),
        vec!["default", "Mic", "USB", "loopback:Speakers"]
    );
    assert_eq!(device_list(&vec![], &vec![]), vec!["default"]);
}

#[test]
fn device_names_parse() {
    assert_eq!(parse_device("loopback:Speakers"), DeviceSource::Loopback("Speakers".to_string()));
    assert_eq!(parse_device("default"), DeviceSource::Default);
    assert_eq!(parse_device("Mic"), DeviceSource::Named("Mic".to_string()));
    assert_eq!(capture_name(true, "Speakers"), "loopback:Speakers");
    assert_eq!(capture_name(false, "Mic"), "Mic");
}

#[test]
fn output_extensions() {
    assert_eq!(output_extension(None).unwrap(), OutputExtension::AddMarkdown);
    assert_eq!(output_extension(Some("md")).unwrap(), OutputExtension::Keep);
    assert_eq!(output_extension(Some("MarkDown")).unwrap(), OutputExtension::Keep);
    assert_eq!(output_extension(Some("LOG")).unwrap(), OutputExtension::Keep);
    let err = output_extension(Some("WAV")).unwrap_err();
    assert_eq!(err.lower, "wav");
    assert_eq!(
        err.message(),
        "unsupported output extension: .wav (allowed: .md, .markdown, .mdown, .mkd, .txt, .log)"
    );
}

#[test]
fn config_defaults() {
    assert_eq!(default_output(), "transcript.md");
    assert_eq!(default_language(), "en");
    assert_eq!(default_device(), "default");
    assert_eq!(default_threads(), 4);
    let v = VadConfig::default();
    assert_eq!((v.aggressiveness, v.min_speech_ms, v.silence_ms, v.max_segment_ms), (2, 500, 900, 15_000));
    let order = config_search_order();
    assert_eq!(order[0], ConfigLocation::WorkingDir("kotoma.toml".to_string()));
    assert_eq!(order[1], ConfigLocation::Home(".config/kotoma/kotoma.toml".to_string()));
    assert_eq!(order[3], ConfigLocation::Home(".config/livemd/livemd.toml".to_string()));
}

#[test]
fn status_title_and_help() {
    assert_eq!(
        title(true, "en", "MacBook Pro Mic", "ggml-small.bin", TranslatorStatus::Ready),
        " kotoma · REC · lang=en · in=MacBook Pro Mic · model=ggml-small.bin · tr=ready "
    );
    assert_eq!(
        title(false, "auto", "x", "y", TranslatorStatus::Failed),
        " kotoma · PAUSED · lang=auto · in=x · model=y · tr=off "
    );
    assert_eq!(
        help_line(None, 0),
        " q quit&save · s save · l cycle lang · d device · space pause · ↑/PgUp scroll "
    );
    assert_eq!(
        help_line(Some("saved → a.md"), 12),
        " saved → a.md · q quit&save · s save · l lang · d device · space pause · ↑↓/PgUp/PgDn · End follow (−12) "
    );
    assert_eq!(saved_note("a.md"), "saved → a.md");
}

#[test]
fn columns_show_source_or_translation() {
    let t = LocalTime::new(2024, 1, 1, 10, 31, 3).unwrap();
    let mut l = TranscriptLine {
        id: 0,
        text: "Hello".to_string(),
        translated: None,
        src_lang: "en".to_string(),
        started_at: t,
        ended_at: t,
    };
    assert_eq!(column_cell(&l, "en"), (true, "Hello".to_string()));
    assert_eq!(column_cell(&l, "ja"), (false, "…".to_string()));
    l.translated = Some("こんにちは".to_string());
    assert_eq!(column_cell(&l, "ja"), (false, "こんにちは".to_string()));
    assert_eq!(line_head(&l, true), "[10:31:03] ▶ ");
    assert_eq!(line_head(&l, false), "[10:31:03]   ");
}

#[test]
fn column_scrolling() {
    assert_eq!(column_scroll(50, 20, 0), (30, 30));
    assert_eq!(column_scroll(50, 20, 10), (20, 30));
    assert_eq!(column_scroll(50, 20, 99), (0, 30));
    assert_eq!(column_scroll(5, 20, 3), (0, 0));
}

#[test]
fn picker_entries() {
    assert_eq!(picker_item("Mic", true), "▶ Mic");
    assert_eq!(picker_item("loopback:Speakers", false), "  [loopback] Speakers");
}
