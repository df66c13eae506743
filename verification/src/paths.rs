//! Path rules for configuration and output files, on Unix paths held as
//! text: joining, `~/` expansion, counting components, and the file name's
//! extension.
use vstd::prelude::*;
use crate::config::{allowed_output_exts, ascii_lower, extension_rule, output_extension, OutputExtension, UnsupportedExtension};
use crate::text::{chars_of, slice_of, string_of, views};

verus! {

// ---------------------------------------------------------------------------
// Joining and resolving
// ---------------------------------------------------------------------------

/// A path that starts at the root.
pub open spec fn is_absolute(s: Seq<char>) -> bool {
    s.len() > 0 && s[0] == '/'
}

/// A path written relative to the home directory: it starts with `~/`.
pub open spec fn home_relative(s: Seq<char>) -> bool {
    s.len() >= 2 && s[0] == '~' && s[1] == '/'
}

/// `Path::join`: an absolute `rel` replaces `base`; otherwise `rel` follows
/// `base`, with a `/` between unless `base` is empty or already ends with one.
pub open spec fn joined(base: Seq<char>, rel: Seq<char>) -> Seq<char> {
    if is_absolute(rel) {
        rel
    } else if base.len() == 0 || base.last() == '/' {
        base + rel
    } else {
        base + seq!['/'] + rel
    }
}

pub open spec fn str_opt(o: Option<&str>) -> Option<Seq<char>> {
    match o {
        Some(s) => Some(s@),
        None => None,
    }
}

/// Where a path named in the configuration file points: `~/` plus the rest
/// under the home directory (when it is known), an absolute path as it is,
/// anything else under the configuration file's directory.
pub open spec fn resolved(p: Seq<char>, config_dir: Seq<char>, home: Option<Seq<char>>) -> Seq<char> {
    if home_relative(p) && home is Some {
        joined(home->0, p.subrange(2, p.len() as int))
    } else if is_absolute(p) {
        p
    } else {
        joined(config_dir, p)
    }
}

fn join_chars(base: &[char], rel: &[char]) -> (r: Vec<char>)
    ensures
        r@ == joined(base@, rel@),
{
    if rel.len() > 0 && rel[0] == '/' {
        assert(rel@.subrange(0, rel@.len() as int) == rel@);
        return slice_of(rel, 0, rel.len());
    }
    let mut out = slice_of(base, 0, base.len());
    assert(base@.subrange(0, base@.len() as int) == base@);
    if base.len() > 0 && base[base.len() - 1] != '/' {
        out.push('/');
    }
    let start = out.len();
    let ghost head = out@;
    let mut i: usize = 0;
    while i < rel.len()
        invariant
            i <= rel@.len(),
            start == head.len(),
            out@ == head + rel@.subrange(0, i as int),
        decreases rel@.len() - i,
    {
        out.push(rel[i]);
        i += 1;
        assert(out@ =~= head + rel@.subrange(0, i as int));
    }
    assert(rel@.subrange(0, rel@.len() as int) == rel@);
    assert(base.len() > 0 && base@.last() != '/' ==> head == base@ + seq!['/']);
    out
}

/// `base` joined with `rel`, as `Path::join` does it.
pub fn path_join(base: &str, rel: &str) -> (r: String)
    ensures
        r@ == joined(base@, rel@),
{
    let b = chars_of(base);
    let c = chars_of(rel);
    string_of(&join_chars(&b, &c))
}

/// Resolves a path read from the configuration file: `~/...` under `home`,
/// an absolute path unchanged, a relative one under `config_dir`.
pub fn resolve_config_path(p: &str, config_dir: &str, home: Option<&str>) -> (r: String)
    ensures
        r@ == resolved(p@, config_dir@, str_opt(home)),
{
    let s = chars_of(p);
    if s.len() >= 2 && s[0] == '~' && s[1] == '/' {
        if let Some(h) = home {
            let mut rest: Vec<char> = Vec::new();
            let mut i: usize = 2;
            while i < s.len()
                invariant
                    2 <= i <= s@.len(),
                    rest@ == s@.subrange(2, i as int),
                decreases s@.len() - i,
            {
                rest.push(s[i]);
                i += 1;
                assert(rest@ =~= s@.subrange(2, i as int));
            }
            let hc = chars_of(h);
            return string_of(&join_chars(&hc, &rest));
        }
    }
    if s.len() > 0 && s[0] == '/' {
        return string_of(&s);
    }
    let d = chars_of(config_dir);
    string_of(&join_chars(&d, &s))
}

// ---------------------------------------------------------------------------
// Log directory
// ---------------------------------------------------------------------------

/// The log directory under the home directory.
pub open spec fn new_log_dir(home: Seq<char>) -> Seq<char> {
    joined(home, ".config/kotoma/logs"@)
}

/// The log directory of earlier versions under the home directory.
pub open spec fn legacy_log_dir(home: Seq<char>) -> Seq<char> {
    joined(home, ".config/livemd/logs"@)
}

/// Where logs go: the `KOTOMA_LOG_DIR` setting, else the legacy
/// `LIVEMD_LOG_DIR` one, else under the home directory (the legacy directory
/// only while it exists and the new one does not), else the working
/// directory.
pub open spec fn log_dir_choice(
    kotoma_env: Option<Seq<char>>,
    livemd_env: Option<Seq<char>>,
    home: Option<Seq<char>>,
    new_exists: bool,
    legacy_exists: bool,
) -> Seq<char> {
    match kotoma_env {
        Some(v) => v,
        None => match livemd_env {
            Some(v) => v,
            None => match home {
                Some(h) => if !new_exists && legacy_exists {
                    legacy_log_dir(h)
                } else {
                    new_log_dir(h)
                },
                None => seq!['.'],
            },
        },
    }
}

/// The new and the legacy log directory under `home`, in that order.
pub fn log_dirs(home: &str) -> (r: (String, String))
    ensures
        r.0@ == new_log_dir(home@),
        r.1@ == legacy_log_dir(home@),
{
    proof {
        reveal_strlit(".config/kotoma/logs");
        reveal_strlit(".config/livemd/logs");
    }
    (path_join(home, ".config/kotoma/logs"), path_join(home, ".config/livemd/logs"))
}

/// Picks the log directory from the two environment settings, the home
/// directory and whether the new and legacy directories exist.
pub fn choose_log_dir(
    kotoma_env: Option<&str>,
    livemd_env: Option<&str>,
    home: Option<&str>,
    new_exists: bool,
    legacy_exists: bool,
) -> (r: String)
    ensures
        r@ == log_dir_choice(str_opt(kotoma_env), str_opt(livemd_env), str_opt(home), new_exists, legacy_exists),
{
    if let Some(v) = kotoma_env {
        return string_of(&chars_of(v));
    }
    if let Some(v) = livemd_env {
        return string_of(&chars_of(v));
    }
    match home {
        Some(h) => {
            let (new_dir, legacy) = log_dirs(h);
            if !new_exists && legacy_exists {
                legacy
            } else {
                new_dir
            }
        },
        None => {
            let mut d: Vec<char> = Vec::new();
            d.push('.');
            string_of(&d)
        },
    }
}


// ---------------------------------------------------------------------------
// Components
// ---------------------------------------------------------------------------

/// The non-empty runs of characters between `/` separators, in order.
pub open spec fn segments(s: Seq<char>) -> Seq<Seq<char>>
    decreases s.len(),
{
    if s.len() == 0 {
        seq![]
    } else {
        let w = segments(s.drop_last());
        let c = s.last();
        if c == '/' {
            w
        } else if s.len() >= 2 && s[s.len() - 2] != '/' {
            w.drop_last().push(w.last().push(c))
        } else {
            w.push(seq![c])
        }
    }
}

/// How many of `segs` are not `.`.
pub open spec fn named_count(segs: Seq<Seq<char>>) -> nat
    decreases segs.len(),
{
    if segs.len() == 0 {
        0
    } else {
        named_count(segs.drop_last()) + if segs.last() == seq!['.'] {
            0nat
        } else {
            1nat
        }
    }
}

/// How many components `Path::components` yields: the root, a `.` that
/// starts a relative path, and every other segment that is not `.`.
pub open spec fn component_count(s: Seq<char>) -> nat {
    let segs = segments(s);
    let root: nat = if is_absolute(s) {
        1
    } else {
        0
    };
    let lead: nat = if !is_absolute(s) && segs.len() > 0 && segs[0] == seq!['.'] {
        1
    } else {
        0
    };
    root + lead + named_count(segs)
}

proof fn lemma_segments_len(s: Seq<char>)
    ensures
        segments(s).len() + (if s.len() > 0 && s[0] == '/' { 1int } else { 0int }) <= s.len(),
        s.len() > 0 && s.last() != '/' ==> segments(s).len() > 0,
    decreases s.len(),
{
    if s.len() > 0 {
        lemma_segments_len(s.drop_last());
        if s.len() >= 2 {
            assert(s.drop_last()[0] == s[0]);
            assert(s.drop_last().last() == s[s.len() - 2]);
        }
    }
}

proof fn lemma_named_count_len(v: Seq<Seq<char>>)
    ensures
        named_count(v) <= v.len(),
        v.len() > 0 && v[0] == seq!['.'] ==> named_count(v) < v.len(),
    decreases v.len(),
{
    if v.len() > 0 {
        lemma_named_count_len(v.drop_last());
        if v.len() >= 2 {
            assert(v.drop_last()[0] == v[0]);
        }
    }
}

fn split_segments(s: &[char]) -> (r: Vec<Vec<char>>)
    ensures
        views(r@) == segments(s@),
{
    let mut out: Vec<Vec<char>> = Vec::new();
    let mut cur: Vec<char> = Vec::new();
    let mut in_seg = false;
    let mut i: usize = 0;
    while i < s.len()
        invariant
            i <= s@.len(),
            in_seg == (i > 0 && s@[i - 1] != '/'),
            in_seg ==> views(out@).push(cur@) == segments(s@.subrange(0, i as int)),
            !in_seg ==> views(out@) == segments(s@.subrange(0, i as int)),
        decreases s@.len() - i,
    {
        let c = s[i];
        let ghost p = s@.subrange(0, i + 1);
        assert(p.drop_last() == s@.subrange(0, i as int));
        assert(p.last() == c);
        if c == '/' {
            if in_seg {
                let w = cur;
                cur = Vec::new();
                proof {
                    assert(views(out@.push(w)) == views(out@).push(w@));
                }
                out.push(w);
            }
            in_seg = false;
        } else {
            if in_seg {
                proof {
                    assert(p[p.len() - 2] == s@[i - 1]);
                    let w = views(out@).push(cur@);
                    assert(w.drop_last() == views(out@));
                }
                cur.push(c);
            } else {
                cur = Vec::new();
                cur.push(c);
                assert(cur@ == seq![c]);
                proof {
                    if i > 0 {
                        assert(p[p.len() - 2] == s@[i - 1]);
                    }
                }
            }
            in_seg = true;
        }
        i += 1;
    }
    assert(s@.subrange(0, s@.len() as int) == s@);
    if in_seg {
        proof {
            assert(views(out@.push(cur)) == views(out@).push(cur@));
        }
        out.push(cur);
    }
    out
}

fn is_dot(w: &Vec<char>) -> (r: bool)
    ensures
        r == (w@ == seq!['.']),
{
    if w.len() == 1 && w[0] == '.' {
        assert(w@ =~= seq!['.']);
        true
    } else {
        false
    }
}

/// How many components `Path::components` yields for `s`.
pub fn components_in(s: &str) -> (r: usize)
    ensures
        r == component_count(s@),
{
    let c = chars_of(s);
    let segs = split_segments(&c);
    let ghost v = views(segs@);
    let mut n: usize = 0;
    let mut i: usize = 0;
    while i < segs.len()
        invariant
            i <= segs@.len(),
            v == views(segs@),
            v.len() == segs@.len(),
            n == named_count(v.subrange(0, i as int)),
            n <= i,
        decreases segs@.len() - i,
    {
        assert(v.subrange(0, i + 1).drop_last() == v.subrange(0, i as int));
        assert(v[i as int] == segs@[i as int]@);
        if !is_dot(&segs[i]) {
            n += 1;
        }
        i += 1;
    }
    assert(v.subrange(0, v.len() as int) == v);
    proof {
        lemma_segments_len(c@);
        lemma_named_count_len(v);
    }
    let root = c.len() > 0 && c[0] == '/';
    if root {
        n + 1
    } else if segs.len() > 0 && is_dot(&segs[0]) {
        assert(v[0] == segs@[0]@);
        n + 1
    } else {
        proof {
            if segs@.len() > 0 {
                assert(v[0] == segs@[0]@);
            }
        }
        n
    }
}

/// A translator binary named in the configuration is resolved like the other
/// paths when it has more than one component or starts with `~/`; a bare name
/// such as `llama-server` is left for the `PATH` lookup.
pub fn binary_needs_resolution(b: &str) -> (r: bool)
    ensures
        r == (component_count(b@) > 1 || home_relative(b@)),
{
    let c = chars_of(b);
    components_in(b) > 1 || (c.len() >= 2 && c[0] == '~' && c[1] == '/')
}


// ---------------------------------------------------------------------------
// File name and extension
// ---------------------------------------------------------------------------

/// `s` without trailing separators and trailing `.` components, which
/// `Path::components` skips.
pub open spec fn strip_dot_tail(s: Seq<char>) -> Seq<char>
    decreases s.len(),
{
    if s.len() > 0 && s.last() == '/' {
        strip_dot_tail(s.drop_last())
    } else if s.len() >= 2 && s.last() == '.' && s[s.len() - 2] == '/' {
        strip_dot_tail(s.drop_last())
    } else {
        s
    }
}

/// Where the last segment of `t` starts: just past its last separator.
pub open spec fn last_start(t: Seq<char>) -> int
    decreases t.len(),
{
    if t.len() == 0 || t.last() == '/' {
        t.len() as int
    } else {
        last_start(t.drop_last())
    }
}

/// Where `Path::file_name` lies in `s`: the last component, unless the path
/// has none, or it is a lone `.` or a `..`.
pub open spec fn name_span(s: Seq<char>) -> Option<(int, int)> {
    let t = strip_dot_tail(s);
    let b = last_start(t);
    let n = t.subrange(b, t.len() as int);
    if n.len() == 0 || n == seq!['.'] || n == seq!['.', '.'] {
        None
    } else {
        Some((b, t.len() as int))
    }
}

/// Position of the last `.` in `n`, or -1 when there is none.
pub open spec fn last_dot(n: Seq<char>) -> int
    decreases n.len(),
{
    if n.len() == 0 {
        -1
    } else if n.last() == '.' {
        n.len() - 1
    } else {
        last_dot(n.drop_last())
    }
}

/// `Path::extension`: what follows the last `.` of the file name, unless
/// that `.` is the name's first character.
pub open spec fn extension(s: Seq<char>) -> Option<Seq<char>> {
    match name_span(s) {
        Some((b, e)) => {
            let n = s.subrange(b, e);
            if last_dot(n) > 0 {
                Some(n.subrange(last_dot(n) + 1, n.len() as int))
            } else {
                None
            }
        },
        None => None,
    }
}

/// `Path::with_extension("md")`: the path up to the end of the file stem,
/// then `.md`; a path without a file name is left as it is.
pub open spec fn with_md_extension(s: Seq<char>) -> Seq<char> {
    match name_span(s) {
        Some((b, e)) => {
            let n = s.subrange(b, e);
            let stem_end = if last_dot(n) > 0 {
                b + last_dot(n)
            } else {
                e
            };
            s.subrange(0, stem_end) + seq!['.', 'm', 'd']
        },
        None => s,
    }
}

/// The transcript path that is used for a requested one: without an
/// extension it gets `.md`, with an accepted one it is kept, and any other
/// extension is refused (with its lowercase form).
pub open spec fn normalized(s: Seq<char>) -> Result<Seq<char>, Seq<char>> {
    match extension_rule(extension(s)) {
        Ok(OutputExtension::AddMarkdown) => Ok(with_md_extension(s)),
        Ok(OutputExtension::Keep) => Ok(s),
        Err(lower) => Err(lower),
    }
}

proof fn lemma_strip_dot_tail_prefix(s: Seq<char>)
    ensures
        strip_dot_tail(s).len() <= s.len(),
        strip_dot_tail(s) == s.subrange(0, strip_dot_tail(s).len() as int),
    decreases s.len(),
{
    if s.len() > 0 && (s.last() == '/' || (s.len() >= 2 && s.last() == '.' && s[s.len() - 2] == '/')) {
        lemma_strip_dot_tail_prefix(s.drop_last());
        let t = strip_dot_tail(s.drop_last());
        assert(t == s.subrange(0, t.len() as int));
    } else {
        assert(s.subrange(0, s.len() as int) == s);
    }
}

proof fn lemma_last_start_bounds(t: Seq<char>)
    ensures
        0 <= last_start(t) <= t.len(),
        forall|i: int| last_start(t) <= i < t.len() ==> #[trigger] t[i] != '/',
    decreases t.len(),
{
    if t.len() > 0 && t.last() != '/' {
        lemma_last_start_bounds(t.drop_last());
        assert forall|i: int| last_start(t) <= i < t.len() implies #[trigger] t[i] != '/' by {
            if i < t.len() - 1 {
                assert(t[i] == t.drop_last()[i]);
            }
        }
    }
}

/// Appending characters other than `/` keeps the last segment's start.
proof fn lemma_last_start_append(t: Seq<char>, x: Seq<char>)
    requires
        forall|i: int| 0 <= i < x.len() ==> #[trigger] x[i] != '/',
    ensures
        last_start(t + x) == last_start(t),
    decreases x.len(),
{
    if x.len() == 0 {
        assert(t + x == t);
    } else {
        assert((t + x).drop_last() == t + x.drop_last());
        assert((t + x).last() == x[x.len() - 1]);
        lemma_last_start_append(t, x.drop_last());
    }
}

/// A path that the rule accepts comes out of it unchanged: normalising
/// twice gives what normalising once gave.
pub proof fn lemma_normalize_idempotent(s: Seq<char>)
    ensures
        match normalized(s) {
            Ok(q) => normalized(q) == Ok::<Seq<char>, Seq<char>>(q),
            Err(_) => true,
        },
{
    if extension(s) is None {
        if let Some((b, e)) = name_span(s) {
            let t = strip_dot_tail(s);
            let n = s.subrange(b, e);
            let md = seq!['.', 'm', 'd'];
            let q = s.subrange(0, e) + md;
            lemma_strip_dot_tail_prefix(s);
            lemma_last_start_bounds(t);
            assert(s.subrange(0, e) == t);
            assert(with_md_extension(s) == q);
            assert(strip_dot_tail(q) == q);
            lemma_last_start_append(t, md);
            assert(t.subrange(b, t.len() as int) == n);
            let n2 = q.subrange(b, q.len() as int);
            assert(n2 == n + md);
            assert(n2 != seq!['.']);
            assert(n2 != seq!['.', '.']);
            assert(name_span(q) == Some((b, q.len() as int)));
            assert(n2.drop_last().drop_last().last() == '.');
            assert(last_dot(n2.drop_last().drop_last()) == n.len());
            assert(last_dot(n2.drop_last()) == n.len());
            assert(last_dot(n2) == n.len());
            assert(n2.subrange(n.len() + 1int, n2.len() as int) == seq!['m', 'd']);
            assert(extension(q) == Some(seq!['m', 'd']));
            reveal_strlit("md");
            assert(ascii_lower(seq!['m', 'd']) == seq!['m', 'd']);
            assert(allowed_output_exts()[0] == seq!['m', 'd']);
            assert(allowed_output_exts().contains(seq!['m', 'd']));
        }
    }
}

#[verifier::spinoff_prover]
fn name_span_exec(s: &[char]) -> (r: Option<(usize, usize)>)
    ensures
        match r {
            Some((b, e)) => name_span(s@) == Some((b as int, e as int)),
            None => name_span(s@) is None,
        },
{
    let mut e: usize = s.len();
    assert(s@.subrange(0, e as int) == s@);
    while e > 0 && (s[e - 1] == '/' || (e >= 2 && s[e - 1] == '.' && s[e - 2] == '/'))
        invariant
            e <= s@.len(),
            strip_dot_tail(s@) == strip_dot_tail(s@.subrange(0, e as int)),
        decreases e,
    {
        let ghost u = s@.subrange(0, e as int);
        assert(u.drop_last() == s@.subrange(0, e - 1));
        assert(u.last() == s@[e - 1]);
        if e >= 2 {
            assert(u[u.len() - 2] == s@[e - 2]);
        }
        e -= 1;
    }
    let ghost t = s@.subrange(0, e as int);
    proof {
        if e >= 2 {
            assert(t[t.len() - 2] == s@[e - 2]);
        }
        if e > 0 {
            assert(t.last() == s@[e - 1]);
        }
    }
    assert(strip_dot_tail(t) == t);
    let mut b: usize = e;
    assert(t.subrange(0, b as int) == t);
    while b > 0 && s[b - 1] != '/'
        invariant
            b <= e,
            e <= s@.len(),
            t == s@.subrange(0, e as int),
            last_start(t) == last_start(t.subrange(0, b as int)),
        decreases b,
    {
        let ghost u = t.subrange(0, b as int);
        assert(u.drop_last() == t.subrange(0, b - 1));
        assert(u.last() == s@[b - 1]);
        b -= 1;
    }
    proof {
        if b > 0 {
            assert(t.subrange(0, b as int).last() == s@[b - 1]);
        }
    }
    assert(last_start(t) == b);
    let ghost n = t.subrange(b as int, e as int);
    assert(forall|i: int| 0 <= i < n.len() ==> n[i] == s@[b + i]);
    let len = e - b;
    if len == 0 {
        return None;
    }
    if len == 1 && s[b] == '.' {
        assert(n =~= seq!['.']);
        return None;
    }
    if len == 2 && s[b] == '.' && s[b + 1] == '.' {
        assert(n =~= seq!['.', '.']);
        return None;
    }
    proof {
        if n == seq!['.'] {
            assert(n[0] == s@[b as int]);
        }
        if n == seq!['.', '.'] {
            assert(n[0] == s@[b as int]);
            assert(n[1] == s@[b + 1]);
        }
        assert(strip_dot_tail(s@) == t);
        assert(t.len() == e);
        assert(n.len() == len);
        assert(n.len() != 0 && n != seq!['.'] && n != seq!['.', '.']);
    }
    Some((b, e))
}

/// The last `.` in `s[b..e]`, counted from `b`.
fn last_dot_in(s: &[char], b: usize, e: usize) -> (r: Option<usize>)
    requires
        b <= e <= s@.len(),
    ensures
        match r {
            Some(d) => last_dot(s@.subrange(b as int, e as int)) == d && d < e - b,
            None => last_dot(s@.subrange(b as int, e as int)) == -1,
        },
{
    let ghost n = s@.subrange(b as int, e as int);
    let mut k: usize = e;
    assert(n.subrange(0, n.len() as int) == n);
    while k > b && s[k - 1] != '.'
        invariant
            b <= k <= e,
            e <= s@.len(),
            n == s@.subrange(b as int, e as int),
            last_dot(n) == last_dot(n.subrange(0, k - b)),
        decreases k,
    {
        let ghost u = n.subrange(0, k - b);
        assert(u.drop_last() == n.subrange(0, k - 1 - b));
        assert(u.last() == s@[k - 1]);
        k -= 1;
    }
    if k == b {
        None
    } else {
        assert(n.subrange(0, k - b).last() == s@[k - 1]);
        Some(k - 1 - b)
    }
}

fn extension_chars(s: &[char]) -> (r: Option<Vec<char>>)
    ensures
        match r {
            Some(x) => extension(s@) == Some(x@),
            None => extension(s@) is None,
        },
{
    match name_span_exec(s) {
        Some((b, e)) => {
            proof {
                lemma_strip_dot_tail_prefix(s@);
                lemma_last_start_bounds(strip_dot_tail(s@));
            }
            match last_dot_in(s, b, e) {
                Some(d) => {
                    if d > 0 {
                        let x = slice_of(s, b + d + 1, e);
                        assert(s@.subrange(b as int, e as int).subrange(d + 1, e - b) == x@);
                        Some(x)
                    } else {
                        None
                    }
                },
                None => None,
            }
        },
        None => None,
    }
}

fn with_md_chars(s: &[char]) -> (r: Vec<char>)
    ensures
        r@ == with_md_extension(s@),
{
    match name_span_exec(s) {
        Some((b, e)) => {
            proof {
                lemma_strip_dot_tail_prefix(s@);
                lemma_last_start_bounds(strip_dot_tail(s@));
            }
            let stem_end = match last_dot_in(s, b, e) {
                Some(d) => if d > 0 {
                    b + d
                } else {
                    e
                },
                None => e,
            };
            let mut out = slice_of(s, 0, stem_end);
            out.push('.');
            out.push('m');
            out.push('d');
            assert(out@ =~= s@.subrange(0, stem_end as int) + seq!['.', 'm', 'd']);
            out
        },
        None => {
            assert(s@.subrange(0, s@.len() as int) == s@);
            slice_of(s, 0, s.len())
        },
    }
}

/// Applies the output-path rule: without an extension the path gets `.md`,
/// with an accepted one (any ASCII case) it is kept, and any other extension
/// is refused.
pub fn normalize_output_path(path: &str) -> (r: Result<String, UnsupportedExtension>)
    ensures
        match r {
            Ok(q) => normalized(path@) == Ok::<Seq<char>, Seq<char>>(q@),
            Err(u) => normalized(path@) == Err::<Seq<char>, Seq<char>>(u.lower@),
        },
{
    let c = chars_of(path);
    let rule = match extension_chars(&c) {
        Some(x) => {
            let xs = string_of(&x);
            output_extension(Some(xs.as_str()))
        },
        None => output_extension(None),
    };
    match rule {
        Ok(OutputExtension::AddMarkdown) => Ok(string_of(&with_md_chars(&c))),
        Ok(OutputExtension::Keep) => Ok(string_of(&c)),
        Err(u) => Err(u),
    }
}

} // verus!
