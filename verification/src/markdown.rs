//! The Markdown transcript document: frontmatter, a session header and a
//! two-language table, or a new session appended to an earlier file.
use vstd::prelude::*;
use crate::clock::LocalTime;
use crate::text::{chars_of, ends_with, push_str, string_of};
use crate::transcribe::TranscriptLine;

verus! {

pub open spec fn escape_char(c: char) -> Seq<char> {
    if c == '|' {
        seq!['\\', '|']
    } else if c == '\n' {
        seq![' ']
    } else {
        seq![c]
    }
}

/// A table cell: `|` becomes `\|` and line breaks become spaces.
pub open spec fn escaped(s: Seq<char>) -> Seq<char>
    decreases s.len(),
{
    if s.len() == 0 {
        seq![]
    } else {
        escaped(s.drop_last()) + escape_char(s.last())
    }
}

pub open spec fn opt_text(o: Option<String>) -> Seq<char> {
    match o {
        Some(t) => t@,
        None => seq![],
    }
}

/// The English and the Japanese cell of a line: the recognised text in the
/// column of its language, the translation (if any yet) in the other.
pub open spec fn columns(line: TranscriptLine) -> (Seq<char>, Seq<char>) {
    if line.src_lang@ == "ja"@ {
        (opt_text(line.translated), line.text@)
    } else {
        (line.text@, opt_text(line.translated))
    }
}

pub open spec fn row(line: TranscriptLine) -> Seq<char> {
    "| "@ + line.started_at.formatted("%H:%M:%S"@) + " | "@ + escaped(columns(line).0) + " | "@
        + escaped(columns(line).1) + " |\n"@
}

pub open spec fn rows(lines: Seq<TranscriptLine>) -> Seq<char>
    decreases lines.len(),
{
    if lines.len() == 0 {
        seq![]
    } else {
        rows(lines.drop_last()) + row(lines.last())
    }
}

/// `## start – end`; the end shows its date only when it falls on another day.
pub open spec fn session_header(start: LocalTime, end: LocalTime) -> Seq<char> {
    "## "@ + start.formatted("%Y-%m-%d %H:%M"@) + " – "@ + (if start.same_day(&end) {
        end.formatted("%H:%M"@)
    } else {
        end.formatted("%Y-%m-%d %H:%M"@)
    }) + "\n\n"@ + "| time | English | 日本語 |\n"@ + "|------|---------|--------|\n"@
}

/// A session block for a non-empty list of lines.
pub open spec fn session(lines: Seq<TranscriptLine>) -> Seq<char> {
    session_header(lines[0].started_at, lines.last().ended_at) + rows(lines)
}

pub open spec fn frontmatter(now: LocalTime) -> Seq<char> {
    "---\ntitle: Transcript\ncreated: "@ + now.formatted("%Y-%m-%d %H:%M:%S"@) + "\n---\n\n"@
}

pub open spec fn session_if_any(lines: Seq<TranscriptLine>) -> Seq<char> {
    if lines.len() > 0 {
        session(lines)
    } else {
        seq![]
    }
}

/// The file contents to write, or `None` when there is nothing to write.
/// Earlier contents are kept verbatim, followed by a blank line and the
/// new session; a new file starts with the frontmatter.
pub open spec fn document(lines: Seq<TranscriptLine>, existing: Option<Seq<char>>, now: LocalTime) -> Option<Seq<char>> {
    if lines.len() == 0 && existing is None {
        None
    } else {
        match existing {
            Some(prev) => Some(
                prev + (if ends_with(prev, "\n"@) {
                    Seq::<char>::empty()
                } else {
                    "\n"@
                }) + "\n"@ + session_if_any(lines),
            ),
            None => Some(frontmatter(now) + session_if_any(lines)),
        }
    }
}

pub open spec fn opt_str_view(o: Option<&str>) -> Option<Seq<char>> {
    match o {
        Some(e) => Some(e@),
        None => None,
    }
}

pub open spec fn lines_wf(lines: Seq<TranscriptLine>) -> bool {
    forall|i: int| 0 <= i < lines.len() ==> (#[trigger] lines[i]).wf()
}

/// Escapes a table cell.
pub fn escape_cell(s: &str) -> (r: String)
    ensures
        r@ == escaped(s@),
{
    let c = chars_of(s);
    let mut out: Vec<char> = Vec::new();
    let mut i: usize = 0;
    while i < c.len()
        invariant
            i <= c@.len(),
            c@ == s@,
            out@ == escaped(c@.subrange(0, i as int)),
        decreases c@.len() - i,
    {
        assert(c@.subrange(0, i + 1).drop_last() == c@.subrange(0, i as int));
        let ch = c[i];
        if ch == '|' {
            out.push('\\');
            out.push('|');
        } else if ch == '\n' {
            out.push(' ');
        } else {
            out.push(ch);
        }
        i += 1;
        assert(out@ =~= escaped(c@.subrange(0, i as int)));
    }
    assert(c@.subrange(0, c@.len() as int) == s@);
    string_of(&out)
}

fn opt_str(o: &Option<String>) -> (r: &str)
    ensures
        r@ == opt_text(*o),
{
    match o {
        Some(t) => t.as_str(),
        None => {
            proof {
                reveal_strlit("");
            }
            ""
        },
    }
}

fn push_row(out: &mut Vec<char>, line: &TranscriptLine)
    requires
        line.wf(),
    ensures
        final(out)@ == old(out)@ + row(*line),
{
    let ts = line.started_at.format("%H:%M:%S");
    let is_ja = crate::text::chars_eq(&chars_of(line.src_lang.as_str()), &chars_of("ja"));
    let (en, ja) = if is_ja {
        (opt_str(&line.translated), line.text.as_str())
    } else {
        (line.text.as_str(), opt_str(&line.translated))
    };
    let en_cell = escape_cell(en);
    let ja_cell = escape_cell(ja);
    push_str(out, "| ");
    push_str(out, ts.as_str());
    push_str(out, " | ");
    push_str(out, en_cell.as_str());
    push_str(out, " | ");
    push_str(out, ja_cell.as_str());
    push_str(out, " |\n");
    assert(en@ == columns(*line).0 && ja@ == columns(*line).1);
    assert(final(out)@ =~= old(out)@ + row(*line));
}

fn push_session(out: &mut Vec<char>, lines: &[TranscriptLine])
    requires
        lines@.len() > 0,
        lines_wf(lines@),
    ensures
        final(out)@ == old(out)@ + session(lines@),
{
    let first = lines[0].started_at;
    let last = lines[lines.len() - 1].ended_at;
    assert(lines@[0].wf() && lines@[lines@.len() - 1].wf());
    let start = first.format("%Y-%m-%d %H:%M");
    let end = if first.is_same_day(&last) {
        last.format("%H:%M")
    } else {
        last.format("%Y-%m-%d %H:%M")
    };
    push_str(out, "## ");
    push_str(out, start.as_str());
    push_str(out, " – ");
    push_str(out, end.as_str());
    push_str(out, "\n\n");
    push_str(out, "| time | English | 日本語 |\n");
    push_str(out, "|------|---------|--------|\n");
    let ghost head = out@;
    let mut i: usize = 0;
    while i < lines.len()
        invariant
            i <= lines@.len(),
            lines_wf(lines@),
            out@ == head + rows(lines@.subrange(0, i as int)),
        decreases lines@.len() - i,
    {
        assert(lines@.subrange(0, i + 1).drop_last() == lines@.subrange(0, i as int));
        assert(lines@[i as int].wf());
        push_row(out, &lines[i]);
        i += 1;
    }
    assert(lines@.subrange(0, lines@.len() as int) == lines@);
}

/// The transcript file contents for `lines`: appended after `existing`
/// when resuming, else after fresh frontmatter stamped `now`. `None` when
/// there are no lines and no earlier file.
pub fn render(lines: &[TranscriptLine], existing: Option<&str>, now: &LocalTime) -> (r: Option<String>)
    requires
        lines_wf(lines@),
        now.wf(),
    ensures
        r matches Some(s) ==> document(lines@, opt_str_view(existing), *now) == Some(s@),
        r is None ==> document(lines@, opt_str_view(existing), *now) is None,
{
    if lines.len() == 0 && existing.is_none() {
        return None;
    }
    let mut out: Vec<char> = Vec::new();
    match existing {
        Some(prev) => {
            let p = chars_of(prev);
            push_str(&mut out, prev);
            if !(p.len() > 0 && p[p.len() - 1] == '\n') {
                push_str(&mut out, "\n");
            }
            proof {
                reveal_strlit("\n");
                if p@.len() > 0 && p@[p@.len() - 1] == '\n' {
                    assert(p@.subrange(p@.len() - 1, p@.len() as int) =~= "\n"@);
                } else if p@.len() > 0 {
                    assert(p@.subrange(p@.len() - 1, p@.len() as int)[0] == p@[p@.len() - 1]);
                }
            }
            push_str(&mut out, "\n");
        },
        None => {
            let stamp = now.format("%Y-%m-%d %H:%M:%S");
            push_str(&mut out, "---\ntitle: Transcript\ncreated: ");
            push_str(&mut out, stamp.as_str());
            push_str(&mut out, "\n---\n\n");
        },
    }
    if lines.len() > 0 {
        push_session(&mut out, lines);
    }
    Some(string_of(&out))
}


// ---------------------------------------------------------------------------
// Laws
// ---------------------------------------------------------------------------

/// Resuming keeps the earlier file verbatim: the new contents start with it,
/// followed by a line break as needed, a blank line and the session block.
pub proof fn lemma_resume_preserves_existing(lines: Seq<TranscriptLine>, prev: Seq<char>, now: LocalTime)
    ensures
        document(lines, Some(prev), now) matches Some(d) && d.subrange(0, prev.len() as int) == prev,
{
    let d = document(lines, Some(prev), now)->0;
    let sep = if ends_with(prev, "\n"@) {
        Seq::<char>::empty()
    } else {
        "\n"@
    };
    assert(d == prev + (sep + "\n"@ + session_if_any(lines)));
    assert(d.subrange(0, prev.len() as int) =~= prev);
}

/// Saving again during a resumed session rewrites the same single block:
/// the contents depend on the snapshot and the lines only, not on when or
/// how often they are written.
pub proof fn lemma_resume_rewrites_same_block(lines: Seq<TranscriptLine>, prev: Seq<char>, t1: LocalTime, t2: LocalTime)
    ensures
        document(lines, Some(prev), t1) == document(lines, Some(prev), t2),
{
}

/// A new file begins with frontmatter.
pub proof fn lemma_new_file_starts_with_frontmatter(lines: Seq<TranscriptLine>, now: LocalTime)
    requires
        lines.len() > 0,
    ensures
        document(lines, None, now) matches Some(d) && d.subrange(0, frontmatter(now).len() as int)
            == frontmatter(now),
{
    let d = document(lines, None, now)->0;
    assert(d.subrange(0, frontmatter(now).len() as int) =~= frontmatter(now));
}

/// An escaped cell has no line break, and each `|` in it is escaped.
pub proof fn lemma_escaped_cell_is_safe(s: Seq<char>)
    ensures
        forall|i: int| 0 <= i < escaped(s).len() ==> #[trigger] escaped(s)[i] != '\n',
        forall|i: int| 0 <= i < escaped(s).len() && #[trigger] escaped(s)[i] == '|' ==> i > 0 && escaped(s)[i - 1] == '\\',
    decreases s.len(),
{
    if s.len() > 0 {
        lemma_escaped_cell_is_safe(s.drop_last());
        let p = escaped(s.drop_last());
        let q = escape_char(s.last());
        assert(escaped(s) == p + q);
        assert forall|i: int| 0 <= i < escaped(s).len() implies #[trigger] escaped(s)[i] != '\n' by {
            if i < p.len() {
                assert(escaped(s)[i] == p[i]);
            } else {
                assert(escaped(s)[i] == q[i - p.len()]);
            }
        }
        assert forall|i: int| 0 <= i < escaped(s).len() && #[trigger] escaped(s)[i] == '|' implies i > 0 && escaped(s)[i - 1] == '\\' by {
            if i < p.len() {
                assert(escaped(s)[i] == p[i]);
                assert(escaped(s)[i - 1] == p[i - 1]);
            } else {
                assert(escaped(s)[i] == q[i - p.len()]);
                if i - p.len() == 1 {
                    assert(escaped(s)[i - 1] == q[0]);
                }
            }
        }
    }
}

/// With no lines and no earlier file, nothing is written.
pub proof fn lemma_nothing_to_write(now: LocalTime)
    ensures
        document(Seq::<TranscriptLine>::empty(), None, now) is None,
{
}


/// A line's recognised text goes in the column of its own language, whether
/// or not a translation has arrived: the 日本語 (third) cell for a line
/// tagged "ja", the English (second) cell otherwise, with the translation
/// (or nothing) in the other cell.
pub proof fn lemma_row_language_column(line: TranscriptLine)
    ensures
        line.src_lang@ == "ja"@ ==> row(line) == "| "@ + line.started_at.formatted("%H:%M:%S"@) + " | "@
            + escaped(opt_text(line.translated)) + " | "@ + escaped(line.text@) + " |\n"@,
        line.src_lang@ != "ja"@ ==> row(line) == "| "@ + line.started_at.formatted("%H:%M:%S"@) + " | "@
            + escaped(line.text@) + " | "@ + escaped(opt_text(line.translated)) + " |\n"@,
{
}

} // verus!
