# kotoma

Live bilingual (English ↔ Japanese) voice transcription for the terminal,
with the decision-making core verified in Verus.

## Layout

- `src/` — the verified library (`kotoma`):
  - `text` — the character-level string model (whitespace, trimming, words,
    replacement) shared by everything else;
  - `filter` — cleanup of recogniser output: noise tags, bracketed captions,
    sign-off phrases, filler tails and repetition loops;
  - `vad` — segmentation of 30 ms frames into speech segments, with the
    WebRTC voice-activity detector;
  - `transcribe` — language selection, the rolling recogniser prompt and
    the assembly of transcript lines;
  - `translate` — the translator's context window, prompt, server
    arguments and handling of replies;
  - `markdown` — the transcript document (frontmatter, session header,
    two-language table, resume mode);
  - `clock` — local timestamps as calendar fields, rendered by chrono;
  - `paths` — Unix path rules on text: joining, `~/` and config-relative
    resolution, component counts, the log directory, and the output file's
    extension;
  - `app`, `ui`, `audio`, `config`, `msg` — key handling, interface texts,
    audio-source names, settings and the messages between threads.
- `app/` — the program: audio capture, the recogniser, HTTP to the local
  LLM server, threads, the terminal and file I/O, all driven by the library.
- `tests/` — tests of the library on concrete values.

Each public function states its result in its `ensures`; the properties that
relate several calls (idempotent tail stripping, resume keeping the earlier
file verbatim, the language cycle, segment ids numbered 0, 1, 2, … over a stream,
sign-off and filler tails, a normalised output path staying as it is, …) are proof
functions next to the code they are about.
