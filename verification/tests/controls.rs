use kotoma::app::{apply_msg, next_language, Controls, Key, KeyAction};
use kotoma::clock::LocalTime;
use kotoma::msg::{TranslatorStatus, UiMsg};
use kotoma::transcribe::TranscriptLine;

fn ch(c: char) -> Key {
    Key::Char { c, ctrl_only: false }
}

#[test]
fn language_cycles_en_ja_auto() {
    assert_eq!(next_language("en"), "ja");
    assert_eq!(next_language("ja"), "auto");
    assert_eq!(next_language("auto"), "en");
    assert_eq!(next_language("xx"), "en");
    assert_eq!(next_language(&next_language(&next_language("ja"))), "ja");
}

#[test]
fn keys_map_to_actions() {
    let mut c = Controls::new();
    assert_eq!(c.on_key(ch('q'), 0, 5), KeyAction::SaveAndQuit);
    assert_eq!(c.on_key(Key::Char { c: 'c', ctrl_only: true }, 0, 5), KeyAction::SaveAndQuit);
    assert_eq!(c.on_key(ch('c'), 0, 5), KeyAction::Nothing);
    assert_eq!(c.on_key(ch('s'), 0, 5), KeyAction::Save);
    assert_eq!(c.on_key(ch('l'), 0, 5), KeyAction::CycleLanguage);
    assert_eq!(c.on_key(ch(' '), 0, 5), KeyAction::TogglePause);
    assert_eq!(c.on_key(ch('d'), 0, 5), KeyAction::OpenPicker);
}

#[test]
fn scrolling_is_clamped() {
    let mut c = Controls::new();
    c.on_key(Key::Up, 2, 5);
    c.on_key(Key::Up, 2, 5);
    c.on_key(Key::Up, 2, 5);
    assert_eq!(c.scroll_up, 2);
    c.on_key(Key::PageUp, 10, 5);
    assert_eq!(c.scroll_up, 7);
    c.on_key(Key::PageDown, 10, 5);
    c.on_key(Key::PageDown, 10, 5);
    assert_eq!(c.scroll_up, 0);
    c.on_key(Key::Home, 42, 5);
    assert_eq!(c.scroll_up, 42);
    c.clamp_scroll(30);
    assert_eq!(c.scroll_up, 30);
    c.on_key(Key::End, 42, 5);
    assert_eq!(c.scroll_up, 0);
    c.on_wheel(true, 100);
    assert_eq!(c.scroll_up, 3);
    c.on_wheel(false, 100);
    c.on_wheel(false, 100);
    assert_eq!(c.scroll_up, 0);
}

#[test]
fn picker_navigation_and_choice() {
    let mut c = Controls::new();
    let devices = vec!["default".to_string(), "Mic".to_string(), "loopback:Speakers".to_string()];
    c.open_picker(devices, "Mic");
    assert_eq!(c.picker.as_ref().unwrap().selected, 1);
    c.on_key(Key::Down, 0, 5);
    c.on_key(Key::Down, 0, 5);
    assert_eq!(c.picker.as_ref().unwrap().selected, 2);
    c.on_key(Key::Up, 0, 5);
    // Scrolling keys do not scroll while the picker is open.
    assert_eq!(c.scroll_up, 0);
    assert_eq!(c.on_key(Key::Enter, 0, 5), KeyAction::SwitchDevice("Mic".to_string()));
    assert!(c.picker.is_none());

    c.open_picker(vec!["default".to_string()], "gone");
    assert_eq!(c.picker.as_ref().unwrap().selected, 0);
    assert_eq!(c.on_key(ch('q'), 0, 5), KeyAction::Nothing);
    assert!(c.picker.is_none());
}

fn line(id: u64) -> TranscriptLine {
    let t = LocalTime::new(2024, 1, 1, 0, 0, 0).unwrap();
    TranscriptLine {
        id,
        text: format!("line {id}"),
        translated: None,
        src_lang: "en".to_string(),
        started_at: t,
        ended_at: t,
    }
}

#[test]
fn messages_update_transcript() {
    let mut lines = Vec::new();
    let mut status = TranslatorStatus::Loading;
    apply_msg(&mut lines, &mut status, UiMsg::NewLine(line(1)));
    apply_msg(&mut lines, &mut status, UiMsg::NewLine(line(2)));
    apply_msg(&mut lines, &mut status, UiMsg::TranslationReady { id: 2, translated: "二".to_string() });
    apply_msg(&mut lines, &mut status, UiMsg::TranslationReady { id: 9, translated: "x".to_string() });
    apply_msg(&mut lines, &mut status, UiMsg::TranslatorStatus(TranslatorStatus::Ready));
    assert_eq!(lines.len(), 2);
    assert_eq!(lines[0].translated, None);
    assert_eq!(lines[1].translated.as_deref(), Some("二"));
    assert_eq!(status, TranslatorStatus::Ready);
}
