//! The interface's decisions: what a key or a message does to the
//! transcript view, the scroll position and the device picker.
use vstd::prelude::*;
use crate::msg::{TranslatorStatus, UiMsg};
use crate::text::{chars_eq, chars_of, string_of};
use crate::transcribe::TranscriptLine;

verus! {

/// The audio-source chooser.
#[derive(Clone, Debug)]
pub struct DevicePicker {
    pub devices: Vec<String>,
    pub selected: usize,
}

impl DevicePicker {
    pub open spec fn wf(&self) -> bool {
        self.selected < self.devices@.len()
    }
}

/// A key press, as far as the interface distinguishes keys.
#[derive(Clone, Copy, Debug, PartialEq, Eq)]
pub enum Key {
    Char { c: char, ctrl_only: bool },
    Esc,
    Enter,
    Up,
    Down,
    PageUp,
    PageDown,
    Home,
    End,
    Other,
}

/// What the loop must do after a key press.
#[derive(Clone, Debug, PartialEq, Eq)]
pub enum KeyAction {
    Nothing,
    /// Write the transcript, then leave.
    SaveAndQuit,
    /// Write the transcript now.
    Save,
    CycleLanguage,
    TogglePause,
    /// List the audio sources and open the picker over them.
    OpenPicker,
    /// Switch capture to the named source.
    SwitchDevice(String),
}

/// The interface state that keys act on.
#[derive(Clone, Debug)]
pub struct Controls {
    pub picker: Option<DevicePicker>,
    /// Rows scrolled up from the newest line; 0 follows the transcript.
    pub scroll_up: u16,
}

pub open spec fn picker_wf(p: Option<DevicePicker>) -> bool {
    match p {
        Some(pk) => pk.wf(),
        None => true,
    }
}

pub open spec fn sat_add(a: u16, b: u16) -> u16 {
    if a + b > u16::MAX {
        u16::MAX
    } else {
        (a + b) as u16
    }
}

pub open spec fn sat_sub(a: u16, b: u16) -> u16 {
    if a < b {
        0
    } else {
        (a - b) as u16
    }
}

pub open spec fn min16(a: u16, b: u16) -> u16 {
    if a < b {
        a
    } else {
        b
    }
}

/// The scroll position after a key with the picker closed.
pub open spec fn scrolled(scroll: u16, key: Key, scroll_max: u16, page: u16) -> u16 {
    match key {
        Key::Up => min16(sat_add(scroll, 1), scroll_max),
        Key::Down => sat_sub(scroll, 1),
        Key::PageUp => min16(sat_add(scroll, page), scroll_max),
        Key::PageDown => sat_sub(scroll, page),
        Key::Home => scroll_max,
        Key::End => 0,
        _ => scroll,
    }
}

/// The action of a key with the picker closed.
pub open spec fn main_action(key: Key) -> KeyAction {
    match key {
        Key::Char { c, ctrl_only } => if c == 'q' || (c == 'c' && ctrl_only) {
            KeyAction::SaveAndQuit
        } else if c == 's' {
            KeyAction::Save
        } else if c == 'l' {
            KeyAction::CycleLanguage
        } else if c == ' ' {
            KeyAction::TogglePause
        } else if c == 'd' {
            KeyAction::OpenPicker
        } else {
            KeyAction::Nothing
        },
        _ => KeyAction::Nothing,
    }
}

/// Keys that close the picker.
pub open spec fn closes_picker(key: Key) -> bool {
    key == Key::Esc || key matches Key::Char { c: 'd', .. } || key matches Key::Char { c: 'q', .. }
}

pub open spec fn next_language_spec(lang: Seq<char>) -> Seq<char> {
    if lang == "en"@ {
        "ja"@
    } else if lang == "ja"@ {
        "auto"@
    } else {
        "en"@
    }
}

/// The language after `l`: en → ja → auto → en.
pub fn next_language(lang: &str) -> (r: String)
    ensures
        r@ == next_language_spec(lang@),
{
    let l = chars_of(lang);
    if chars_eq(&l, &chars_of("en")) {
        string_of(&chars_of("ja"))
    } else if chars_eq(&l, &chars_of("ja")) {
        string_of(&chars_of("auto"))
    } else {
        string_of(&chars_of("en"))
    }
}

/// Index of the first device named `name`, or 0.
pub open spec fn position_or_zero(devices: Seq<String>, name: Seq<char>) -> int {
    if exists|i: int| 0 <= i < devices.len() && devices[i]@ == name {
        choose|i: int|
            0 <= i < devices.len() && devices[i]@ == name && forall|j: int|
                0 <= j < i ==> devices[j]@ != name
    } else {
        0
    }
}

impl Controls {
    pub fn new() -> (r: Controls)
        ensures
            r.picker is None,
            r.scroll_up == 0,
    {
        Controls { picker: None, scroll_up: 0 }
    }

    pub open spec fn wf(&self) -> bool {
        picker_wf(self.picker)
    }

    /// After drawing: the scroll position may not exceed what the columns
    /// can show.
    pub fn clamp_scroll(&mut self, scroll_max: u16)
        ensures
            final(self).scroll_up == min16(old(self).scroll_up, scroll_max),
            final(self).picker == old(self).picker,
    {
        if self.scroll_up > scroll_max {
            self.scroll_up = scroll_max;
        }
    }

    /// Mouse wheel: three rows per notch, up to `scroll_max`.
    pub fn on_wheel(&mut self, up: bool, scroll_max: u16)
        ensures
            final(self).picker == old(self).picker,
            up ==> final(self).scroll_up == min16(sat_add(old(self).scroll_up, 3), scroll_max),
            !up ==> final(self).scroll_up == sat_sub(old(self).scroll_up, 3),
    {
        if up {
            self.scroll_up = min_u16(self.scroll_up.saturating_add(3), scroll_max);
        } else {
            self.scroll_up = self.scroll_up.saturating_sub(3);
        }
    }

    /// Opens the picker over `devices` with the current source selected
    /// (the first entry when it is not listed).
    pub fn open_picker(&mut self, devices: Vec<String>, current: &str)
        requires
            devices@.len() > 0,
        ensures
            final(self).picker matches Some(pk) && pk.devices@ == devices@ && pk.selected
                == position_or_zero(devices@, current@),
            final(self).scroll_up == old(self).scroll_up,
            final(self).wf(),
    {
        let cur = chars_of(current);
        let mut i: usize = 0;
        while i < devices.len() && !chars_eq(&chars_of(devices[i].as_str()), &cur)
            invariant
                i <= devices@.len(),
                cur@ == current@,
                forall|j: int| 0 <= j < i ==> devices@[j]@ != current@,
            decreases devices@.len() - i,
        {
            i += 1;
        }
        let found = i < devices.len();
        let selected = if found {
            i
        } else {
            0
        };
        proof {
            if found {
                assert(devices@[i as int]@ == current@);
                let k = choose|k: int|
                    0 <= k < devices@.len() && devices@[k]@ == current@ && forall|j: int|
                        0 <= j < k ==> devices@[j]@ != current@;
                if k < i {
                } else if k > i {
                    assert(devices@[i as int]@ != current@);
                }
            } else {
                assert(i == devices@.len());
            }
        }
        self.picker = Some(DevicePicker { devices, selected });
    }

    /// Handles a key press; `page` is the page-scroll step and `scroll_max`
    /// the largest useful scroll position.
    pub fn on_key(&mut self, key: Key, scroll_max: u16, page: u16) -> (r: KeyAction)
        requires
            old(self).wf(),
        ensures
            final(self).wf(),
            old(self).picker is None ==> r == main_action(key) && final(self).picker is None
                && final(self).scroll_up == scrolled(old(self).scroll_up, key, scroll_max, page),
            old(self).picker matches Some(pk) ==> final(self).scroll_up == old(self).scroll_up && {
                if closes_picker(key) {
                    r == KeyAction::Nothing && final(self).picker is None
                } else if key == Key::Up {
                    r == KeyAction::Nothing && (final(self).picker matches Some(q) && q.devices
                        == pk.devices && q.selected == (if pk.selected > 0 {
                        pk.selected - 1
                    } else {
                        0
                    }))
                } else if key == Key::Down {
                    r == KeyAction::Nothing && (final(self).picker matches Some(q) && q.devices
                        == pk.devices && q.selected == (if pk.selected + 1 < pk.devices@.len() {
                        pk.selected + 1
                    } else {
                        pk.selected as int
                    }))
                } else if key == Key::Enter {
                    final(self).picker is None && (r matches KeyAction::SwitchDevice(d) && d@
                        == pk.devices@[pk.selected as int]@)
                } else {
                    r == KeyAction::Nothing && final(self).picker == old(self).picker
                }
            },
    {
        let taken = self.picker.take();
        assert(taken == old(self).picker);
        match taken {
            Some(mut pk) => {
                assert(pk.wf());
                let closes = match key {
                    Key::Esc => true,
                    Key::Char { c, ctrl_only: _ } => c == 'd' || c == 'q',
                    _ => false,
                };
                if closes {
                    return KeyAction::Nothing;
                }
                match key {
                    Key::Up => {
                        if pk.selected > 0 {
                            pk.selected = pk.selected - 1;
                        }
                        self.picker = Some(pk);
                        KeyAction::Nothing
                    },
                    Key::Down => {
                        if pk.selected < pk.devices.len() - 1 {
                            pk.selected = pk.selected + 1;
                        }
                        self.picker = Some(pk);
                        KeyAction::Nothing
                    },
                    Key::Enter => {
                        let choice = string_of(&chars_of(pk.devices[pk.selected].as_str()));
                        KeyAction::SwitchDevice(choice)
                    },
                    _ => {
                        self.picker = Some(pk);
                        KeyAction::Nothing
                    },
                }
            },
            None => {
                match key {
                    Key::Up => {
                        self.scroll_up = min_u16(self.scroll_up.saturating_add(1), scroll_max);
                    },
                    Key::Down => {
                        self.scroll_up = self.scroll_up.saturating_sub(1);
                    },
                    Key::PageUp => {
                        self.scroll_up = min_u16(self.scroll_up.saturating_add(page), scroll_max);
                    },
                    Key::PageDown => {
                        self.scroll_up = self.scroll_up.saturating_sub(page);
                    },
                    Key::Home => {
                        self.scroll_up = scroll_max;
                    },
                    Key::End => {
                        self.scroll_up = 0;
                    },
                    _ => {},
                }
                match key {
                    Key::Char { c, ctrl_only } => {
                        if c == 'q' || (c == 'c' && ctrl_only) {
                            KeyAction::SaveAndQuit
                        } else if c == 's' {
                            KeyAction::Save
                        } else if c == 'l' {
                            KeyAction::CycleLanguage
                        } else if c == ' ' {
                            KeyAction::TogglePause
                        } else if c == 'd' {
                            KeyAction::OpenPicker
                        } else {
                            KeyAction::Nothing
                        }
                    },
                    _ => KeyAction::Nothing,
                }
            },
        }
    }
}

fn min_u16(a: u16, b: u16) -> (r: u16)
    ensures
        r == min16(a, b),
{
    if a < b {
        a
    } else {
        b
    }
}

/// The transcript after a translation for line `id` arrives: the first line
/// with that id gets it; without such a line nothing changes.
pub open spec fn with_translation(lines: Seq<TranscriptLine>, id: u64, t: String) -> Seq<TranscriptLine> {
    if exists|i: int| 0 <= i < lines.len() && lines[i].id == id {
        let i = choose|i: int|
            0 <= i < lines.len() && lines[i].id == id && forall|j: int| 0 <= j < i ==> lines[j].id != id;
        lines.update(i, TranscriptLine { translated: Some(t), ..lines[i] })
    } else {
        lines
    }
}

/// Applies a worker message to the transcript and the translator status.
pub fn apply_msg(lines: &mut Vec<TranscriptLine>, status: &mut TranslatorStatus, msg: UiMsg)
    ensures
        msg matches UiMsg::NewLine(l) ==> final(lines)@ == old(lines)@.push(l) && *final(status)
            == *old(status),
        msg matches UiMsg::TranslationReady { id, translated } ==> final(lines)@ == with_translation(
            old(lines)@,
            id,
            translated,
        ) && *final(status) == *old(status),
        msg matches UiMsg::TranslatorStatus(s) ==> final(lines)@ == old(lines)@ && *final(status) == s,
        msg matches UiMsg::SpeakerReady { .. } ==> final(lines)@ == old(lines)@ && *final(status)
            == *old(status),
        msg matches UiMsg::DiarizerStatus(_) ==> final(lines)@ == old(lines)@ && *final(status)
            == *old(status),
{
    match msg {
        UiMsg::NewLine(line) => {
            lines.push(line);
        },
        UiMsg::TranslationReady { id, translated } => {
            let mut i: usize = 0;
            while i < lines.len() && lines[i].id != id
                invariant
                    i <= lines@.len(),
                    lines@ == old(lines)@,
                    forall|j: int| 0 <= j < i ==> lines@[j].id != id,
                decreases lines@.len() - i,
            {
                i += 1;
            }
            if i < lines.len() {
                let mut line = lines.remove(i);
                line.translated = Some(translated);
                lines.insert(i, line);
                proof {
                    let k = choose|k: int|
                        0 <= k < old(lines)@.len() && old(lines)@[k].id == id && forall|j: int|
                            0 <= j < k ==> old(lines)@[j].id != id;
                    assert(k == i);
                    assert(lines@ =~= with_translation(old(lines)@, id, translated));
                }
            }
        },
        UiMsg::TranslatorStatus(s) => {
            *status = s;
        },
        UiMsg::SpeakerReady { .. } => {},
        UiMsg::DiarizerStatus(_) => {},
    }
}


// ---------------------------------------------------------------------------
// Laws
// ---------------------------------------------------------------------------

/// The language key cycles en → ja → auto → en: three presses come back.
pub proof fn lemma_language_cycle(lang: Seq<char>)
    requires
        lang == "en"@ || lang == "ja"@ || lang == "auto"@,
    ensures
        next_language_spec(next_language_spec(next_language_spec(lang))) == lang,
        lang == "en"@ ==> next_language_spec(lang) == "ja"@,
        lang == "ja"@ ==> next_language_spec(lang) == "auto"@,
        lang == "auto"@ ==> next_language_spec(lang) == "en"@,
{
    reveal_strlit("en");
    reveal_strlit("ja");
    reveal_strlit("auto");
    assert("ja"@[0] != "en"@[0]);
    assert("auto"@.len() != "en"@.len());
    assert("auto"@.len() != "ja"@.len());
}

/// Keys never scroll past what the columns can show.
pub proof fn lemma_scroll_stays_in_range(scroll: u16, key: Key, scroll_max: u16, page: u16)
    requires
        scroll <= scroll_max,
    ensures
        scrolled(scroll, key, scroll_max, page) <= scroll_max,
{
}

/// End returns to following the newest line; Home goes to the oldest.
pub proof fn lemma_home_end(scroll: u16, scroll_max: u16, page: u16)
    ensures
        scrolled(scroll, Key::End, scroll_max, page) == 0,
        scrolled(scroll, Key::Home, scroll_max, page) == scroll_max,
{
}

} // verus!
