//! Settings read from the configuration file, with their defaults, and the
//! rule for the transcript file's extension.
use vstd::prelude::*;
use crate::text::{chars_eq, chars_of, push_str, string_of};
use crate::translate::TranslatorConfig;
use crate::vad::VadRunner;

verus! {

/// The whole configuration. Paths are kept as text.
#[derive(Clone, Debug)]
pub struct Config {
    pub model_path: String,
    pub output_path: String,
    pub language: String,
    pub input_device: String,
    pub threads: i32,
    pub vad: VadConfig,
    pub translator: Option<TranslatorConfigToml>,
    /// Set at start-up, not read from the file.
    pub log_dir: String,
}

/// Voice-activity settings, in milliseconds.
#[derive(Clone, Copy, Debug)]
pub struct VadConfig {
    pub aggressiveness: u8,
    pub min_speech_ms: u32,
    pub silence_ms: u32,
    pub max_segment_ms: u32,
}

impl Default for VadConfig {
    fn default() -> (r: Self)
        ensures
            r.aggressiveness == 2,
            r.min_speech_ms == 500,
            r.silence_ms == 900,
            r.max_segment_ms == 15_000,
    {
        VadConfig {
            aggressiveness: default_aggr(),
            min_speech_ms: default_min_speech(),
            silence_ms: default_silence(),
            max_segment_ms: default_max_segment(),
        }
    }
}

impl VadConfig {
    /// The segmentation runner for these settings.
    pub fn runner(&self) -> (r: VadRunner)
        ensures
            r.aggressiveness == self.aggressiveness,
            r.min_speech_ms == self.min_speech_ms,
            r.silence_ms == self.silence_ms,
            r.max_segment_ms == self.max_segment_ms,
    {
        VadRunner::new(self.aggressiveness, self.min_speech_ms, self.silence_ms, self.max_segment_ms)
    }
}

/// The `[translator]` table.
#[derive(Clone, Debug)]
pub struct TranslatorConfigToml {
    pub model_path: String,
    pub binary: String,
    pub port: u16,
    pub n_ctx: u32,
    pub max_new_tokens: u32,
    pub startup_timeout_secs: u64,
}

impl TranslatorConfigToml {
    /// The translator's run-time settings, logging into `log_dir`.
    pub fn to_runtime(&self, log_dir: &str) -> (r: TranslatorConfig)
        ensures
            r.binary@ == self.binary@,
            r.model_path@ == self.model_path@,
            r.port == self.port,
            r.n_ctx == self.n_ctx,
            r.max_new_tokens == self.max_new_tokens,
            r.startup_timeout_secs == self.startup_timeout_secs,
            r.log_dir@ == log_dir@,
    {
        TranslatorConfig {
            binary: string_of(&chars_of(self.binary.as_str())),
            model_path: string_of(&chars_of(self.model_path.as_str())),
            port: self.port,
            n_ctx: self.n_ctx,
            max_new_tokens: self.max_new_tokens,
            startup_timeout_secs: self.startup_timeout_secs,
            log_dir: string_of(&chars_of(log_dir)),
        }
    }
}

pub fn default_output() -> (r: String)
    ensures
        r@ == "transcript.md"@,
{
    string_of(&chars_of("transcript.md"))
}

pub fn default_language() -> (r: String)
    ensures
        r@ == "en"@,
{
    string_of(&chars_of("en"))
}

pub fn default_device() -> (r: String)
    ensures
        r@ == "default"@,
{
    string_of(&chars_of("default"))
}

pub fn default_threads() -> (r: i32)
    ensures
        r == 4,
{
    4
}

pub fn default_aggr() -> (r: u8)
    ensures
        r == 2,
{
    2
}

pub fn default_min_speech() -> (r: u32)
    ensures
        r == 500,
{
    500
}

pub fn default_silence() -> (r: u32)
    ensures
        r == 900,
{
    900
}

pub fn default_max_segment() -> (r: u32)
    ensures
        r == 15_000,
{
    15_000
}

pub fn default_llama_server_binary() -> (r: String)
    ensures
        r@ == "llama-server"@,
{
    string_of(&chars_of("llama-server"))
}

pub fn default_translator_port() -> (r: u16)
    ensures
        r == 8787,
{
    8787
}

pub fn default_translator_n_ctx() -> (r: u32)
    ensures
        r == 4096,
{
    4096
}

pub fn default_translator_max_new() -> (r: u32)
    ensures
        r == 512,
{
    512
}

pub fn default_translator_startup_timeout() -> (r: u64)
    ensures
        r == 120,
{
    120
}

// ---------------------------------------------------------------------------
// Transcript file extension
// ---------------------------------------------------------------------------

/// Extensions accepted for the transcript file, in lowercase.
pub open spec fn allowed_output_exts() -> Seq<Seq<char>> {
    seq!["md"@, "markdown"@, "mdown"@, "mkd"@, "txt"@, "log"@]
}

pub open spec fn lower_ascii_char(c: char) -> char {
    if 0x41 <= (c as u32) <= 0x5A {
        ((c as u32 + 32) as u8) as char
    } else {
        c
    }
}

/// `str::to_ascii_lowercase`.
pub open spec fn ascii_lower(s: Seq<char>) -> Seq<char> {
    s.map_values(|c: char| lower_ascii_char(c))
}

pub fn to_ascii_lowercase(s: &str) -> (r: String)
    ensures
        r@ == ascii_lower(s@),
{
    let c = chars_of(s);
    let mut out: Vec<char> = Vec::new();
    let mut i: usize = 0;
    while i < c.len()
        invariant
            i <= c@.len(),
            c@ == s@,
            out@ == ascii_lower(c@.subrange(0, i as int)),
        decreases c@.len() - i,
    {
        let ch = c[i];
        let n = ch as u32;
        let lc = if 0x41 <= n && n <= 0x5A {
            ((n + 32) as u8) as char
        } else {
            ch
        };
        out.push(lc);
        i += 1;
        assert(out@ =~= ascii_lower(c@.subrange(0, i as int)));
    }
    assert(c@.subrange(0, c@.len() as int) == s@);
    string_of(&out)
}

/// What to do with the requested transcript path.
#[derive(Clone, Copy, Debug, PartialEq, Eq)]
pub enum OutputExtension {
    /// No extension: use `.md`.
    AddMarkdown,
    /// An accepted extension: keep the path.
    Keep,
}

/// An extension that is not accepted, in lowercase.
#[derive(Clone, Debug)]
pub struct UnsupportedExtension {
    pub lower: String,
}

pub open spec fn allowed_list_text() -> Seq<char> {
    ".md, .markdown, .mdown, .mkd, .txt, .log"@
}

impl UnsupportedExtension {
    /// The error text shown to the user.
    pub fn message(&self) -> (r: String)
        ensures
            r@ == "unsupported output extension: ."@ + self.lower@ + " (allowed: "@ + allowed_list_text()
                + ")"@,
    {
        let mut out: Vec<char> = Vec::new();
        push_str(&mut out, "unsupported output extension: .");
        push_str(&mut out, self.lower.as_str());
        push_str(&mut out, " (allowed: ");
        push_str(&mut out, ".md, .markdown, .mdown, .mkd, .txt, .log");
        push_str(&mut out, ")");
        string_of(&out)
    }
}

pub open spec fn extension_rule(ext: Option<Seq<char>>) -> Result<OutputExtension, Seq<char>> {
    match ext {
        None => Ok(OutputExtension::AddMarkdown),
        Some(e) => if allowed_output_exts().contains(ascii_lower(e)) {
            Ok(OutputExtension::Keep)
        } else {
            Err(ascii_lower(e))
        },
    }
}

/// The rule for the transcript path's extension (`None` when the path has
/// none): a missing one becomes `.md`, an accepted one (any ASCII case) is
/// kept, anything else is refused.
pub fn output_extension(ext: Option<&str>) -> (r: Result<OutputExtension, UnsupportedExtension>)
    ensures
        match (r, ext) {
            (Ok(k), None) => extension_rule(None) == Ok::<OutputExtension, Seq<char>>(k),
            (Ok(k), Some(e)) => extension_rule(Some(e@)) == Ok::<OutputExtension, Seq<char>>(k),
            (Err(u), None) => false,
            (Err(u), Some(e)) => extension_rule(Some(e@)) == Err::<OutputExtension, Seq<char>>(u.lower@),
        },
{
    match ext {
        None => Ok(OutputExtension::AddMarkdown),
        Some(e) => {
            let lower = to_ascii_lowercase(e);
            let l = chars_of(lower.as_str());
            let allowed = vec!["md", "markdown", "mdown", "mkd", "txt", "log"];
            let ghost list = allowed@.map_values(|x: &str| x@);
            assert(list =~= allowed_output_exts());
            let mut i: usize = 0;
            while i < allowed.len()
                invariant
                    i <= allowed@.len(),
                    list == allowed@.map_values(|x: &str| x@),
                    list == allowed_output_exts(),
                    l@ == ascii_lower(e@),
                    ext == Some(e),
                    forall|j: int| 0 <= j < i ==> list[j] != l@,
                decreases allowed@.len() - i,
            {
                if chars_eq(&chars_of(allowed[i]), &l) {
                    assert(list[i as int] == l@);
                    return Ok(OutputExtension::Keep);
                }
                i += 1;
            }
            assert(!list.contains(l@));
            Err(UnsupportedExtension { lower })
        },
    }
}


/// The extension check ignores ASCII case.
pub proof fn lemma_extension_case_insensitive(a: Seq<char>, b: Seq<char>)
    requires
        ascii_lower(a) == ascii_lower(b),
    ensures
        extension_rule(Some(a)) == extension_rule(Some(b)),
{
}


/// Where a configuration file may be.
#[derive(Clone, Debug, PartialEq, Eq)]
pub enum ConfigLocation {
    /// Relative to the working directory.
    WorkingDir(String),
    /// Relative to the user's home directory.
    Home(String),
}

pub enum ConfigLocationView {
    WorkingDir(Seq<char>),
    Home(Seq<char>),
}

impl View for ConfigLocation {
    type V = ConfigLocationView;

    open spec fn view(&self) -> ConfigLocationView {
        match self {
            ConfigLocation::WorkingDir(p) => ConfigLocationView::WorkingDir(p@),
            ConfigLocation::Home(p) => ConfigLocationView::Home(p@),
        }
    }
}

/// Where to look for the configuration when none is given, first match
/// wins: `./kotoma.toml`, `~/.config/kotoma/kotoma.toml`, then the legacy
/// `./livemd.toml` and `~/.config/livemd/livemd.toml`.
pub fn config_search_order() -> (r: Vec<ConfigLocation>)
    ensures
        r@.len() == 4,
        r@[0]@ == ConfigLocationView::WorkingDir("kotoma.toml"@),
        r@[1]@ == ConfigLocationView::Home(".config/kotoma/kotoma.toml"@),
        r@[2]@ == ConfigLocationView::WorkingDir("livemd.toml"@),
        r@[3]@ == ConfigLocationView::Home(".config/livemd/livemd.toml"@),
{
    let mut r: Vec<ConfigLocation> = Vec::new();
    r.push(ConfigLocation::WorkingDir(string_of(&chars_of("kotoma.toml"))));
    r.push(ConfigLocation::Home(string_of(&chars_of(".config/kotoma/kotoma.toml"))));
    r.push(ConfigLocation::WorkingDir(string_of(&chars_of("livemd.toml"))));
    r.push(ConfigLocation::Home(string_of(&chars_of(".config/livemd/livemd.toml"))));
    r
}

} // verus!
