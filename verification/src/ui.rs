//! The text of the terminal interface: status title, help line, column
//! cells, picker entries and the scroll arithmetic of a column.
use vstd::prelude::*;
use crate::audio::LOOPBACK_PREFIX;
use crate::msg::TranslatorStatus;
use crate::text::{chars_eq, chars_of, decimal, push_decimal, push_str, slice_of, starts_with, starts_with_at, string_of};
use crate::transcribe::TranscriptLine;

verus! {

pub open spec fn translator_label_spec(s: TranslatorStatus) -> Seq<char> {
    match s {
        TranslatorStatus::Loading => "tr=loading"@,
        TranslatorStatus::Ready => "tr=ready"@,
        TranslatorStatus::Failed => "tr=off"@,
    }
}

pub fn translator_label(s: TranslatorStatus) -> (r: &'static str)
    ensures
        r@ == translator_label_spec(s),
{
    match s {
        TranslatorStatus::Loading => "tr=loading",
        TranslatorStatus::Ready => "tr=ready",
        TranslatorStatus::Failed => "tr=off",
    }
}

pub open spec fn title_spec(recording: bool, language: Seq<char>, input: Seq<char>, model: Seq<char>, s: TranslatorStatus) -> Seq<char> {
    " kotoma · "@ + (if recording {
        "REC"@
    } else {
        "PAUSED"@
    }) + " · lang="@ + language + " · in="@ + input + " · model="@ + model + " · "@
        + translator_label_spec(s) + " "@
}

/// The title of the level gauge.
pub fn title(recording: bool, language: &str, input_name: &str, model_name: &str, status: TranslatorStatus) -> (r: String)
    ensures
        r@ == title_spec(recording, language@, input_name@, model_name@, status),
{
    let mut out: Vec<char> = Vec::new();
    push_str(&mut out, " kotoma · ");
    if recording {
        push_str(&mut out, "REC");
    } else {
        push_str(&mut out, "PAUSED");
    }
    push_str(&mut out, " · lang=");
    push_str(&mut out, language);
    push_str(&mut out, " · in=");
    push_str(&mut out, input_name);
    push_str(&mut out, " · model=");
    push_str(&mut out, model_name);
    push_str(&mut out, " · ");
    push_str(&mut out, translator_label(status));
    push_str(&mut out, " ");
    assert(out@ =~= title_spec(recording, language@, input_name@, model_name@, status));
    string_of(&out)
}

pub open spec fn nav_spec(scroll_up: u16) -> Seq<char> {
    if scroll_up == 0 {
        " ↑/PgUp scroll "@
    } else {
        " ↑↓/PgUp/PgDn · End follow (−"@ + decimal(scroll_up as nat) + ") "@
    }
}

pub open spec fn help_spec(saved_note: Option<Seq<char>>, scroll_up: u16) -> Seq<char> {
    match saved_note {
        Some(note) => " "@ + note + " · q quit&save · s save · l lang · d device · space pause ·"@
            + nav_spec(scroll_up),
        None => " q quit&save · s save · l cycle lang · d device · space pause ·"@ + nav_spec(scroll_up),
    }
}

/// The help line at the bottom.
pub fn help_line(saved_note: Option<&str>, scroll_up: u16) -> (r: String)
    ensures
        r@ == help_spec(
            match saved_note {
                Some(n) => Some(n@),
                None => None,
            },
            scroll_up,
        ),
{
    let mut nav: Vec<char> = Vec::new();
    if scroll_up == 0 {
        push_str(&mut nav, " ↑/PgUp scroll ");
    } else {
        push_str(&mut nav, " ↑↓/PgUp/PgDn · End follow (−");
        push_decimal(&mut nav, scroll_up as u64);
        push_str(&mut nav, ") ");
    }
    assert(nav@ =~= nav_spec(scroll_up));
    let mut out: Vec<char> = Vec::new();
    match saved_note {
        Some(note) => {
            push_str(&mut out, " ");
            push_str(&mut out, note);
            push_str(&mut out, " · q quit&save · s save · l lang · d device · space pause ·");
        },
        None => {
            push_str(&mut out, " q quit&save · s save · l cycle lang · d device · space pause ·");
        },
    }
    out.extend_from_slice(&nav);
    assert(out@ =~= help_spec(
        match saved_note {
            Some(n) => Some(n@),
            None => None,
        },
        scroll_up,
    ));
    string_of(&out)
}

/// The note shown after a save.
pub fn saved_note(path: &str) -> (r: String)
    ensures
        r@ == "saved → "@ + path@,
{
    let mut out: Vec<char> = Vec::new();
    push_str(&mut out, "saved → ");
    push_str(&mut out, path);
    string_of(&out)
}

/// What a column shows for a line: the recognised text in the column of
/// its language, else the translation, or `…` while it is pending.
pub open spec fn cell_spec(line: TranscriptLine, col_lang: Seq<char>) -> (bool, Seq<char>) {
    if line.src_lang@ == col_lang {
        (true, line.text@)
    } else {
        match line.translated {
            Some(t) => (false, t@),
            None => (false, "…"@),
        }
    }
}

pub fn column_cell(line: &TranscriptLine, col_lang: &str) -> (r: (bool, String))
    ensures
        (r.0, r.1@) == cell_spec(*line, col_lang@),
{
    let is_source = chars_eq(&chars_of(line.src_lang.as_str()), &chars_of(col_lang));
    if is_source {
        (true, string_of(&chars_of(line.text.as_str())))
    } else {
        match &line.translated {
            Some(t) => (false, string_of(&chars_of(t.as_str()))),
            None => (false, string_of(&chars_of("…"))),
        }
    }
}

/// `[hh:mm:ss] ` and the source marker.
pub open spec fn head_spec(line: TranscriptLine, is_source: bool) -> Seq<char> {
    "["@ + line.started_at.formatted("%H:%M:%S"@) + "] "@ + (if is_source {
        "▶ "@
    } else {
        "  "@
    })
}

pub fn line_head(line: &TranscriptLine, is_source: bool) -> (r: String)
    requires
        line.wf(),
    ensures
        r@ == head_spec(*line, is_source),
{
    let ts = line.started_at.format("%H:%M:%S");
    let mut out: Vec<char> = Vec::new();
    push_str(&mut out, "[");
    push_str(&mut out, ts.as_str());
    push_str(&mut out, "] ");
    if is_source {
        push_str(&mut out, "▶ ");
    } else {
        push_str(&mut out, "  ");
    }
    assert(out@ =~= head_spec(*line, is_source));
    string_of(&out)
}

/// For a column of `total` wrapped rows shown in `height` rows, with the
/// view `scroll_up` rows above the newest: the first row to show and the
/// largest useful `scroll_up`.
pub fn column_scroll(total: u16, height: u16, scroll_up: u16) -> (r: (u16, u16))
    ensures
        r.1 == (if total > height {
            total - height
        } else {
            0
        }),
        r.0 == r.1 - (if scroll_up < r.1 {
            scroll_up
        } else {
            r.1
        }),
        r.0 <= r.1,
{
    let tail = total.saturating_sub(height);
    let up = if scroll_up < tail {
        scroll_up
    } else {
        tail
    };
    (tail - up, tail)
}

/// An entry of the device picker: a marker for the selected entry, and
/// loopback sources shown as `[loopback] name`.
pub open spec fn picker_item_spec(device: Seq<char>, selected: bool) -> Seq<char> {
    (if selected {
        "▶ "@
    } else {
        "  "@
    }) + (if starts_with(device, "loopback:"@) {
        "[loopback] "@ + device.subrange(9, device.len() as int)
    } else {
        device
    })
}

pub fn picker_item(device: &str, selected: bool) -> (r: String)
    ensures
        r@ == picker_item_spec(device@, selected),
{
    let d = chars_of(device);
    let prefix = chars_of(LOOPBACK_PREFIX);
    proof {
        reveal_strlit("loopback:");
    }
    assert(d@.subrange(0, d@.len() as int) == d@);
    let mut out: Vec<char> = Vec::new();
    if selected {
        push_str(&mut out, "▶ ");
    } else {
        push_str(&mut out, "  ");
    }
    if starts_with_at(&d, 0, &prefix) {
        push_str(&mut out, "[loopback] ");
        let rest = slice_of(&d, 9, d.len());
        out.extend_from_slice(&rest);
    } else {
        out.extend_from_slice(&d);
    }
    assert(out@ =~= picker_item_spec(device@, selected));
    string_of(&out)
}

} // verus!
