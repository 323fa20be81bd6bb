//! Markdown rendering of decoded chat exports.
//!
//! Rendering is a pure function of the conversation and the options: its
//! whole output is specified, character for character, by
//! [`spec_render_chat`].  User- and assistant-authored text is made safe
//! for the host document in two ways: heading lines are shifted below the
//! document's own sections (fenced code left untouched), and tag-like
//! angle-bracket sequences are escaped to entity form.

use vstd::prelude::*;
use crate::parser::{
    ChatExport, ChatExportView, ContextItem, ContextItemView, Request, RequestView,
    ResponseElement, ResponseElementView,
};
use crate::text::{
    spec_lines, spec_line_count, spec_join_nl, spec_trim, spec_trim_start, split_lines,
    trim_chars, first_non_space, str_to_chars, chars_to_string, push_chars, copy_range,
    spec_dec, dec_to_string,
};
use vstd::string::{StrSliceExecFns, StringExecFns};

verus! {

/// Configuration options for rendering.
#[derive(Debug, Clone, PartialEq, Eq)]
pub struct RenderOptions {
    /// Whether tool invocation summaries are shown.
    pub show_tools: bool,
    /// Whether timestamps are shown in the exchange metadata.
    pub show_timestamps: bool,
    /// Whether model identifiers are shown in the exchange metadata.
    pub show_model: bool,
    /// Whether agent names are shown in the exchange metadata.
    pub show_agent: bool,
    /// Whether attached context is shown.
    pub show_context: bool,
    /// How many levels the document's headings are shifted down (0-5).
    pub heading_offset: u8,
}

impl Default for RenderOptions {
    /// Tools and timestamps off; model, agent and context on; no shift.
    fn default() -> (r: Self)
        ensures
            r == (RenderOptions {
                show_tools: false,
                show_timestamps: false,
                show_model: true,
                show_agent: true,
                show_context: true,
                heading_offset: 0u8,
            }),
    {
        RenderOptions {
            show_tools: false,
            show_timestamps: false,
            show_model: true,
            show_agent: true,
            show_context: true,
            heading_offset: 0,
        }
    }
}

/// `n` characters `'#'`.
pub open spec fn spec_hashes(n: nat) -> Seq<char>
    decreases n,
{
    if n == 0 {
        Seq::empty()
    } else {
        spec_hashes((n - 1) as nat).push('#')
    }
}

/// A heading marker for `level`, shifted by `offset` and capped at six.
pub open spec fn spec_heading(level: nat, offset: nat) -> Seq<char> {
    spec_hashes(
        if level + offset > 6 {
            6nat
        } else {
            level + offset
        },
    )
}

proof fn lemma_hashes_shape(n: nat)
    ensures
        spec_hashes(n).len() == n,
        forall|j: int| 0 <= j < n ==> spec_hashes(n)[j] == '#',
    decreases n,
{
    if n > 0 {
        lemma_hashes_shape((n - 1) as nat);
    }
}

/// Appends `n` characters `'#'` at the end of `r`.
fn push_hashes(r: &mut Vec<char>, n: usize)
    ensures
        final(r)@ == old(r)@ + spec_hashes(n as nat),
{
    let mut i: usize = 0;
    proof {
        assert(r@ =~= old(r)@ + spec_hashes(0));
    }
    while i < n
        invariant
            i <= n,
            r@ == old(r)@ + spec_hashes(i as nat),
        decreases n - i,
    {
        r.push('#');
        i += 1;
        proof {
            assert(old(r)@ + spec_hashes((i - 1) as nat) + seq!['#'] =~= old(r)@ + spec_hashes(
                i as nat,
            ));
        }
    }
}

/// A heading marker for `level`, shifted by `offset` and capped at six,
/// as an owned string.
pub fn heading(level: u8, offset: u8) -> (r: String)
    ensures
        r@ == spec_heading(level as nat, offset as nat),
{
    let n: usize = level as usize + offset as usize;
    let n = if n > 6 {
        6
    } else {
        n
    };
    let mut v: Vec<char> = Vec::new();
    push_hashes(&mut v, n);
    proof {
        assert(v@ =~= spec_heading(level as nat, offset as nat));
    }
    chars_to_string(&v)
}

/// The length of the run of `'#'` at the front of `line`.
pub open spec fn spec_hash_run(line: Seq<char>) -> nat
    decreases line.len(),
{
    if line.len() > 0 && line[0] == '#' {
        1 + spec_hash_run(line.drop_first())
    } else {
        0
    }
}

proof fn lemma_hash_run_at(line: Seq<char>, h: int)
    requires
        0 <= h <= line.len(),
        forall|j: int| 0 <= j < h ==> line[j] == '#',
        h < line.len() ==> line[h] != '#',
    ensures
        spec_hash_run(line) == h,
    decreases h,
{
    if h == 0 {
        if line.len() > 0 {
            assert(line[0] != '#');
        }
    } else {
        let t = line.drop_first();
        assert(forall|j: int| 0 <= j < t.len() ==> #[trigger] t[j] == line[j + 1]);
        lemma_hash_run_at(t, h - 1);
    }
}

/// The length of the run of `'#'` at the front of `v`.
fn hash_run(v: &Vec<char>) -> (h: usize)
    ensures
        h == spec_hash_run(v@),
        h <= v@.len(),
{
    let mut h: usize = 0;
    while h < v.len() && v[h] == '#'
        invariant
            h <= v.len(),
            forall|j: int| 0 <= j < h ==> v@[j] == '#',
        decreases v.len() - h,
    {
        h += 1;
    }
    proof {
        lemma_hash_run_at(v@, h as int);
    }
    h
}

/// Whether `line` is a markdown heading: one to six `'#'` directly
/// followed by a space.
pub open spec fn spec_is_heading(line: Seq<char>) -> bool {
    let h = spec_hash_run(line);
    1 <= h <= 6 && h < line.len() && line[h as int] == ' '
}

/// A heading line with its `'#'` run lengthened by `k`, capped at six;
/// any other line unchanged.
pub open spec fn spec_shift_line(line: Seq<char>, k: nat) -> Seq<char> {
    if spec_is_heading(line) {
        let h = spec_hash_run(line);
        spec_hashes(
            if h + k > 6 {
                6nat
            } else {
                h + k
            },
        ) + line.skip(h as int)
    } else {
        line
    }
}

/// Whether `line` opens or closes a fenced code block: after leading
/// white space it starts with three backticks or three tildes.
pub open spec fn spec_is_fence(line: Seq<char>) -> bool {
    let t = spec_trim_start(line);
    t.len() >= 3 && ((t[0] == '`' && t[1] == '`' && t[2] == '`') || (t[0] == '~' && t[1] == '~'
        && t[2] == '~'))
}

/// Runtime check for [`spec_is_fence`].
fn is_fence_line(v: &Vec<char>) -> (r: bool)
    ensures
        r == spec_is_fence(v@),
{
    let a = first_non_space(v);
    proof {
        assert(forall|j: int|
            0 <= j < v@.len() - a ==> #[trigger] spec_trim_start(v@)[j] == v@[j + a]);
    }
    if v.len() - a >= 3 {
        let c0 = v[a];
        let c1 = v[a + 1];
        let c2 = v[a + 2];
        (c0 == '`' && c1 == '`' && c2 == '`') || (c0 == '~' && c1 == '~' && c2 == '~')
    } else {
        false
    }
}

/// One pass of the line-by-line heading shift: a fence delimiter toggles
/// the fence state and passes through unchanged; inside a fence every
/// line passes through; outside, heading lines are shifted.
pub open spec fn spec_shift_lines(ls: Seq<Seq<char>>, k: nat, in_fence: bool) -> Seq<Seq<char>>
    decreases ls.len(),
{
    if ls.len() == 0 {
        Seq::empty()
    } else if spec_is_fence(ls[0]) {
        seq![ls[0]] + spec_shift_lines(ls.drop_first(), k, !in_fence)
    } else if in_fence {
        seq![ls[0]] + spec_shift_lines(ls.drop_first(), k, in_fence)
    } else {
        seq![spec_shift_line(ls[0], k)] + spec_shift_lines(ls.drop_first(), k, in_fence)
    }
}

/// The heading shift of a whole text.  A zero shift is the identity;
/// otherwise the text is split into lines, shifted line by line, and
/// joined back with `'\n'`.
pub open spec fn spec_shift_headings(s: Seq<char>, k: nat) -> Seq<char> {
    if k == 0 {
        s
    } else {
        spec_join_nl(spec_shift_lines(spec_lines(s), k, false))
    }
}

/// An owned copy of a line.
fn clone_line(l: &Vec<char>) -> (r: Vec<char>)
    ensures
        r@ == l@,
{
    let r = copy_range(l, 0, l.len());
    proof {
        assert(r@ =~= l@);
    }
    r
}

/// Shifts one heading line by `k`, capped at six; other lines unchanged.
fn shift_line(l: &Vec<char>, k: u8) -> (r: Vec<char>)
    ensures
        r@ == spec_shift_line(l@, k as nat),
{
    let h = hash_run(l);
    if 1 <= h && h <= 6 && h < l.len() && l[h] == ' ' {
        let t: usize = h + k as usize;
        let n = if t > 6 {
            6
        } else {
            t
        };
        let mut r: Vec<char> = Vec::new();
        push_hashes(&mut r, n);
        let mut rest = copy_range(l, h, l.len());
        r.append(&mut rest);
        proof {
            assert(r@ =~= spec_shift_line(l@, k as nat));
        }
        r
    } else {
        clone_line(l)
    }
}

/// Shifts markdown heading levels in `s` down by `levels`, capping the
/// depth at six.  Lines inside fenced code blocks, and the fence
/// delimiter lines themselves, pass through unchanged.  A zero shift
/// returns the text as it is.
pub fn shift_headings(s: &str, levels: u8) -> (r: String)
    ensures
        r@ == spec_shift_headings(s@, levels as nat),
{
    if levels == 0 {
        return s.to_owned();
    }
    let chars = str_to_chars(s);
    let lines = split_lines(&chars);
    let ghost lviews = lines@.map_values(|l: Vec<char>| l@);
    let mut out_lines: Vec<Vec<char>> = Vec::new();
    let mut in_fence = false;
    let mut i: usize = 0;
    proof {
        assert(lviews.skip(0) =~= lviews);
        assert(out_lines@.map_values(|l: Vec<char>| l@) + spec_shift_lines(
            lviews,
            levels as nat,
            false,
        ) =~= spec_shift_lines(lviews, levels as nat, false));
    }
    while i < lines.len()
        invariant
            i <= lines.len(),
            lviews == lines@.map_values(|l: Vec<char>| l@),
            spec_shift_lines(lviews, levels as nat, false) == out_lines@.map_values(
                |l: Vec<char>| l@,
            ) + spec_shift_lines(lviews.skip(i as int), levels as nat, in_fence),
        decreases lines.len() - i,
    {
        let ghost pre = out_lines@;
        proof {
            assert(lviews.skip(i as int)[0] == lviews[i as int]);
            assert(lviews.skip(i as int).drop_first() =~= lviews.skip(i + 1));
            assert(lviews[i as int] == lines@[i as int]@);
        }
        let line = &lines[i];
        let produced: Vec<char>;
        if is_fence_line(line) {
            produced = clone_line(line);
            in_fence = !in_fence;
        } else if in_fence {
            produced = clone_line(line);
        } else {
            produced = shift_line(line, levels);
        }
        proof {
            assert(pre.push(produced).map_values(|l: Vec<char>| l@) =~= pre.map_values(
                |l: Vec<char>| l@,
            ).push(produced@));
            assert(pre.map_values(|l: Vec<char>| l@) + (seq![produced@] + spec_shift_lines(
                lviews.skip(i + 1),
                levels as nat,
                in_fence,
            )) =~= pre.map_values(|l: Vec<char>| l@).push(produced@) + spec_shift_lines(
                lviews.skip(i + 1),
                levels as nat,
                in_fence,
            ));
        }
        out_lines.push(produced);
        i += 1;
    }
    proof {
        assert(lviews.skip(i as int) =~= Seq::<Seq<char>>::empty());
        assert(out_lines@.map_values(|l: Vec<char>| l@) + Seq::<Seq<char>>::empty()
            =~= out_lines@.map_values(|l: Vec<char>| l@));
    }
    let mut out = String::new();
    crate::text::append_joined(&mut out, &out_lines);
    out
}

/// Whether `c` can open a tag after `'<'`: an ASCII letter, `'/'` or
/// `'!'`.
pub open spec fn tag_start_char(c: char) -> bool {
    let u = c as u32;
    (97 <= u && u <= 122) || (65 <= u && u <= 90) || u == 47 || u == 33
}

/// Runtime check for [`tag_start_char`].
fn is_tag_start(c: char) -> (r: bool)
    ensures
        r == tag_start_char(c),
{
    let u = c as u32;
    (97 <= u && u <= 122) || (65 <= u && u <= 90) || u == 47 || u == 33
}

/// The escape of `s`, carrying the inside-a-tag state: a `'<'` directly
/// followed by a tag-opening character becomes `&lt;` and opens a tag;
/// the `'>'` closing an opened tag becomes `&gt;`; everything else
/// passes through.
pub open spec fn spec_escape(s: Seq<char>, in_tag: bool) -> Seq<char>
    decreases s.len(),
{
    if s.len() == 0 {
        Seq::empty()
    } else if s[0] == '<' && s.len() > 1 && tag_start_char(s[1]) {
        seq!['&', 'l', 't', ';'] + spec_escape(s.drop_first(), true)
    } else if s[0] == '>' && in_tag {
        seq!['&', 'g', 't', ';'] + spec_escape(s.drop_first(), false)
    } else {
        seq![s[0]] + spec_escape(s.drop_first(), in_tag)
    }
}

/// The escape of a whole text, started outside any tag.
pub open spec fn spec_escape_tags(s: Seq<char>) -> Seq<char> {
    spec_escape(s, false)
}

/// Escapes tag-like angle-bracket sequences to entity form, so that text
/// cannot inject markup into the rendered document.  A `'<'` not
/// followed by a letter, `'/'` or `'!'` (a mathematical comparison, say)
/// passes through untouched.
pub fn escape_xml_tags(s: &str) -> (r: String)
    ensures
        r@ == spec_escape_tags(s@),
{
    let chars = str_to_chars(s);
    let ghost sv = chars@;
    let n = chars.len();
    let mut out = String::new();
    let mut in_tag = false;
    let mut i: usize = 0;
    proof {
        assert(sv.skip(0) =~= sv);
        assert(out@ + spec_escape(sv, false) =~= spec_escape(sv, false));
        reveal_strlit("&lt;");
        reveal_strlit("&gt;");
        assert("&lt;"@ =~= seq!['&', 'l', 't', ';']);
        assert("&gt;"@ =~= seq!['&', 'g', 't', ';']);
    }
    while i < n
        invariant
            i <= n,
            n == sv.len(),
            chars@ == sv,
            "&lt;"@ =~= seq!['&', 'l', 't', ';'],
            "&gt;"@ =~= seq!['&', 'g', 't', ';'],
            spec_escape(sv, false) == out@ + spec_escape(sv.skip(i as int), in_tag),
        decreases n - i,
    {
        let ghost pre = out@;
        proof {
            assert(sv.skip(i as int)[0] == sv[i as int]);
            assert(sv.skip(i as int).drop_first() =~= sv.skip(i + 1));
            if i + 1 < n {
                assert(sv.skip(i as int)[1] == sv[i + 1]);
            }
        }
        let c = chars[i];
        if c == '<' && i + 1 < n && is_tag_start(chars[i + 1]) {
            out.append("&lt;");
            in_tag = true;
            proof {
                assert(pre + "&lt;"@ + spec_escape(sv.skip(i + 1), true) =~= pre + (seq![
                    '&',
                    'l',
                    't',
                    ';',
                ] + spec_escape(sv.skip(i + 1), true)));
            }
        } else if c == '>' && in_tag {
            out.append("&gt;");
            in_tag = false;
            proof {
                assert(pre + "&gt;"@ + spec_escape(sv.skip(i + 1), false) =~= pre + (seq![
                    '&',
                    'g',
                    't',
                    ';',
                ] + spec_escape(sv.skip(i + 1), false)));
            }
        } else {
            out.push(c);
            proof {
                assert(sv.skip(i as int).len() > 1 ==> sv.skip(i as int)[1] == sv[i + 1]);
                assert(pre.push(c) + spec_escape(sv.skip(i + 1), in_tag) =~= pre + (seq![c]
                    + spec_escape(sv.skip(i + 1), in_tag)));
            }
        }
        i += 1;
    }
    proof {
        assert(sv.skip(i as int) =~= Seq::<char>::empty());
        assert(out@ + Seq::<char>::empty() =~= out@);
    }
    out
}

/// Backticks replaced by single quotes, so that a name can stand inside
/// an inline code span.
pub open spec fn spec_tick_safe(s: Seq<char>) -> Seq<char> {
    s.map_values(
        |c: char|
            if c == '`' {
                '\''
            } else {
                c
            },
    )
}

/// Replaces backticks with single quotes for use inside inline code.
pub fn escape_for_inline_code(s: &str) -> (r: String)
    ensures
        r@ == spec_tick_safe(s@),
{
    let chars = str_to_chars(s);
    let safe = tick_safe_chars(&chars);
    chars_to_string(&safe)
}

/// Whether a line is blank or exactly a bare code-fence delimiter after
/// trimming.
pub open spec fn spec_blank_or_fence(l: Seq<char>) -> bool {
    spec_trim(l).len() == 0 || spec_trim(l) == seq!['`', '`', '`']
}

/// Whether `s` consists of nothing but blank lines and bare code-fence
/// delimiters: a streaming artifact that is not worth rendering.
pub open spec fn spec_only_code_fences(s: Seq<char>) -> bool {
    forall|i: int| 0 <= i < spec_lines(s).len() ==> spec_blank_or_fence(#[trigger] spec_lines(s)[i])
}

/// Runtime check for [`spec_only_code_fences`].
pub fn is_only_code_fences(s: &str) -> (r: bool)
    ensures
        r == spec_only_code_fences(s@),
{
    let chars = str_to_chars(s);
    let lines = split_lines(&chars);
    let ghost lviews = lines@.map_values(|l: Vec<char>| l@);
    let mut i: usize = 0;
    while i < lines.len()
        invariant
            i <= lines.len(),
            lviews == lines@.map_values(|l: Vec<char>| l@),
            lviews == spec_lines(s@),
            forall|j: int| 0 <= j < i ==> spec_blank_or_fence(#[trigger] lviews[j]),
        decreases lines.len() - i,
    {
        let t = trim_chars(&lines[i]);
        let ok = if t.len() == 0 {
            true
        } else if t.len() == 3 {
            t[0] == '`' && t[1] == '`' && t[2] == '`'
        } else {
            false
        };
        proof {
            assert(lviews[i as int] == lines@[i as int]@);
            if t@.len() == 3 && t@[0] == '`' && t@[1] == '`' && t@[2] == '`' {
                assert(t@ =~= seq!['`', '`', '`']);
            }
            if t@ == seq!['`', '`', '`'] {
                assert(t@.len() == 3);
            }
        }
        if !ok {
            proof {
                assert(!spec_blank_or_fence(lviews[i as int]));
            }
            return false;
        }
        i += 1;
    }
    true
}


/// The label of a timestamp: `YYYY-MM-DD HH:MM UTC` in the UTC timezone.
/// This names what chrono computes: the label is a function of the
/// millisecond value alone, and is absent exactly when the value lies
/// outside chrono's representable range.
pub uninterp spec fn timestamp_label(ms: i64) -> Option<Seq<char>>;

/// Relies on chrono's `DateTime::<Utc>::from_timestamp_millis` (absent
/// exactly for out-of-range values) and on its `format` with a fixed
/// pattern (a function of the date-time value alone, no locale or
/// environment).
#[verifier::external_body]
fn format_timestamp(ms: i64) -> (r: Option<String>)
    ensures
        match r {
            Some(s) => timestamp_label(ms) == Some(s@),
            None => timestamp_label(ms) is None,
        },
{
    chrono::DateTime::<chrono::Utc>::from_timestamp_millis(ms).map(
        |dt| dt.format("%Y-%m-%d %H:%M UTC").to_string(),
    )
}

/// Where the final path segment starts: just after the last `'/'`, or at
/// the front when there is none.
pub open spec fn spec_seg_start(s: Seq<char>) -> int
    decreases s.len(),
{
    if s.len() == 0 {
        0
    } else if s[s.len() - 1] == '/' {
        s.len() as int
    } else {
        spec_seg_start(s.drop_last())
    }
}

/// The text after the last path separator; the whole text when there is
/// none.
pub open spec fn spec_last_segment(s: Seq<char>) -> Seq<char> {
    s.skip(spec_seg_start(s))
}

proof fn lemma_seg_start_at(s: Seq<char>, j: int)
    requires
        0 <= j <= s.len(),
        j > 0 ==> s[j - 1] == '/',
        forall|m: int| j <= m < s.len() ==> s[m] != '/',
    ensures
        spec_seg_start(s) == j,
    decreases s.len(),
{
    if s.len() == 0 {
    } else if s[s.len() - 1] == '/' {
        assert(j == s.len());
    } else {
        let t = s.drop_last();
        assert(j < s.len());
        assert(forall|m: int| 0 <= m < t.len() ==> t[m] == s[m]);
        lemma_seg_start_at(t, j);
    }
}

/// The final segment of a path: the characters after its last `'/'`.
fn last_segment_chars(v: &Vec<char>) -> (r: Vec<char>)
    ensures
        r@ == spec_last_segment(v@),
{
    let mut j: usize = v.len();
    while j > 0 && v[j - 1] != '/'
        invariant
            j <= v.len(),
            forall|m: int| j <= m < v@.len() ==> v@[m] != '/',
        decreases j,
    {
        j -= 1;
    }
    proof {
        lemma_seg_start_at(v@, j as int);
    }
    copy_range(v, j, v.len())
}

/// Backticks of `v` replaced by single quotes.
fn tick_safe_chars(v: &Vec<char>) -> (r: Vec<char>)
    ensures
        r@ == spec_tick_safe(v@),
{
    let mut r: Vec<char> = Vec::new();
    let mut i: usize = 0;
    while i < v.len()
        invariant
            i <= v.len(),
            r@ == spec_tick_safe(v@).take(i as int),
        decreases v.len() - i,
    {
        let c = v[i];
        if c == '`' {
            r.push('\'');
        } else {
            r.push(c);
        }
        i += 1;
        proof {
            assert(r@ =~= spec_tick_safe(v@).take(i as int));
        }
    }
    proof {
        assert(r@ =~= spec_tick_safe(v@));
    }
    r
}

/// How an attachment's name and path are displayed: a short path (at most
/// thirty characters) or none at all shows the name in inline code; a
/// long one shows the name as a link whose target and hover title are the
/// full path.
pub open spec fn spec_path_display(name: Seq<char>, path: Seq<char>) -> Seq<char> {
    if path.len() == 0 || path.len() <= 30 {
        "`"@ + name + "`"@
    } else {
        "[`"@ + name + "`]("@ + path + " \""@ + path + "\")"@
    }
}

/// Formats a name and path for display, per [`spec_path_display`].
pub fn format_path_display(name: &str, path: &str) -> (r: String)
    ensures
        r@ == spec_path_display(name@, path@),
{
    let plen = path.unicode_len();
    let mut out = String::new();
    if plen == 0 || plen <= 30 {
        out.append("`");
        out.append(name);
        out.append("`");
        proof {
            assert(out@ =~= spec_path_display(name@, path@));
        }
    } else {
        out.append("[`");
        out.append(name);
        out.append("`](");
        out.append(path);
        out.append(" \"");
        out.append(path);
        out.append("\")");
        proof {
            assert(out@ =~= spec_path_display(name@, path@));
        }
    }
    out
}

/// The display line of one context item.
pub open spec fn spec_context_line(item: ContextItemView) -> Seq<char> {
    match item {
        ContextItemView::File { name, path } => spec_path_display(name, path) + " (file)"@,
        ContextItemView::Selection { name, path, start_line, end_line } => spec_path_display(
            name,
            path,
        ) + ":"@ + spec_dec(start_line as nat) + (if start_line == end_line {
            Seq::<char>::empty()
        } else {
            "-"@ + spec_dec(end_line as nat)
        }) + " (selection)"@,
        ContextItemView::Folder { name, path } => spec_path_display(name, path) + " (folder)"@,
        ContextItemView::Instructions { name } => "`"@ + name + "` (instructions)"@,
    }
}

/// Formats one context item, per [`spec_context_line`].
pub fn format_context_item(item: &ContextItem) -> (r: String)
    ensures
        r@ == spec_context_line(item@),
{
    match item {
        ContextItem::File { name, path } => {
            let mut out = format_path_display(name.as_str(), path.as_str());
            out.append(" (file)");
            out
        },
        ContextItem::Selection { name, path, start_line, end_line } => {
            let mut out = format_path_display(name.as_str(), path.as_str());
            out.append(":");
            let s = dec_to_string(*start_line as u128);
            out.append(s.as_str());
            if *start_line != *end_line {
                out.append("-");
                let e = dec_to_string(*end_line as u128);
                out.append(e.as_str());
            }
            out.append(" (selection)");
            proof {
                assert(out@ =~= spec_context_line(item@));
            }
            out
        },
        ContextItem::Folder { name, path } => {
            let mut out = format_path_display(name.as_str(), path.as_str());
            out.append(" (folder)");
            out
        },
        ContextItem::Instructions { name } => {
            let mut out = String::new();
            out.append("`");
            out.append(name.as_str());
            out.append("` (instructions)");
            out
        },
    }
}

/// The lines of the context block, one per item, in order.
pub open spec fn spec_context_lines(items: Seq<ContextItemView>) -> Seq<char>
    decreases items.len(),
{
    if items.len() == 0 {
        Seq::empty()
    } else {
        "- "@ + spec_context_line(items[0]) + "\n"@ + spec_context_lines(items.drop_first())
    }
}

/// The collapsible context block of one exchange.
pub open spec fn spec_context_block(items: Seq<ContextItemView>) -> Seq<char> {
    "<details>\n<summary>\u{1F4CE} Context</summary>\n\n"@ + spec_context_lines(items)
        + "\n</details>\n\n"@
}

/// Appends the context block for `context` at the end of `out`.
fn render_context(out: &mut String, context: &Vec<ContextItem>)
    ensures
        final(out)@ == old(out)@ + spec_context_block(
            context@.map_values(|c: ContextItem| c@),
        ),
{
    let ghost items = context@.map_values(|c: ContextItem| c@);
    out.append("<details>\n<summary>\u{1F4CE} Context</summary>\n\n");
    let mut i: usize = 0;
    proof {
        assert(items.skip(0) =~= items);
    }
    while i < context.len()
        invariant
            i <= context.len(),
            items == context@.map_values(|c: ContextItem| c@),
            old(out)@ + "<details>\n<summary>\u{1F4CE} Context</summary>\n\n"@
                + spec_context_lines(items) == out@ + spec_context_lines(items.skip(i as int)),
        decreases context.len() - i,
    {
        let ghost pre = out@;
        proof {
            assert(items.skip(i as int)[0] == items[i as int]);
            assert(items.skip(i as int).drop_first() =~= items.skip(i + 1));
            assert(items[i as int] == context@[i as int]@);
        }
        out.append("- ");
        let line = format_context_item(&context[i]);
        out.append(line.as_str());
        out.append("\n");
        i += 1;
        proof {
            assert(pre + ("- "@ + spec_context_line(items[i - 1]) + "\n"@ + spec_context_lines(
                items.skip(i as int),
            )) =~= pre + "- "@ + spec_context_line(items[i - 1]) + "\n"@ + spec_context_lines(
                items.skip(i as int),
            ));
        }
    }
    proof {
        assert(items.skip(i as int) =~= Seq::<ContextItemView>::empty());
    }
    out.append("\n</details>\n\n");
    proof {
        assert(spec_context_lines(items.skip(i as int)) =~= Seq::<char>::empty());
        assert(final(out)@ =~= old(out)@ + spec_context_block(items));
    }
}


/// The metadata parts of one exchange, in order: timestamp label, model
/// identifier, agent name with an `'@'` in front — each only when its
/// option is on and the value is there.
pub open spec fn spec_meta_parts(r: RequestView, opts: RenderOptions) -> Seq<Seq<char>> {
    (if opts.show_timestamps {
        match timestamp_label(r.timestamp) {
            Some(t) => seq![t],
            None => Seq::<Seq<char>>::empty(),
        }
    } else {
        Seq::<Seq<char>>::empty()
    }) + (if opts.show_model {
        match r.model_id {
            Some(m) => seq![m],
            None => Seq::<Seq<char>>::empty(),
        }
    } else {
        Seq::<Seq<char>>::empty()
    }) + (if opts.show_agent {
        match r.agent_name {
            Some(a) => seq!["@"@ + a],
            None => Seq::<Seq<char>>::empty(),
        }
    } else {
        Seq::<Seq<char>>::empty()
    })
}

/// The parts joined with `sep` between them.
pub open spec fn spec_join_sep(parts: Seq<Seq<char>>, sep: Seq<char>) -> Seq<char>
    decreases parts.len(),
{
    if parts.len() == 0 {
        Seq::empty()
    } else if parts.len() == 1 {
        parts[0]
    } else {
        parts[0] + sep + spec_join_sep(parts.drop_first(), sep)
    }
}

proof fn lemma_join_sep_push(parts: Seq<Seq<char>>, sep: Seq<char>, l: Seq<char>)
    ensures
        spec_join_sep(parts.push(l), sep) == if parts.len() == 0 {
            l
        } else {
            spec_join_sep(parts, sep) + sep + l
        },
    decreases parts.len(),
{
    if parts.len() == 0 {
        assert(parts.push(l) =~= seq![l]);
    } else {
        assert(parts.push(l).drop_first() =~= parts.drop_first().push(l));
        lemma_join_sep_push(parts.drop_first(), sep, l);
        if parts.len() == 1 {
            assert(spec_join_sep(parts.push(l), sep) == parts[0] + sep + l);
        } else {
            assert(spec_join_sep(parts.push(l), sep) == parts[0] + sep + (spec_join_sep(
                parts.drop_first(),
                sep,
            ) + sep + l));
            assert(parts[0] + sep + (spec_join_sep(parts.drop_first(), sep) + sep + l) =~= (
            parts[0] + sep + spec_join_sep(parts.drop_first(), sep)) + sep + l);
        }
    }
}

/// The metadata block of one exchange: the parts joined with a middle
/// dot, wrapped in emphasis, followed by a blank line — or nothing when
/// no part is there.
pub open spec fn spec_metadata_block(r: RequestView, opts: RenderOptions) -> Seq<char> {
    let parts = spec_meta_parts(r, opts);
    if parts.len() == 0 {
        Seq::empty()
    } else {
        "*"@ + spec_join_sep(parts, " \u{b7} "@) + "*"@ + "\n\n"@
    }
}

/// Builds the metadata parts of one exchange.
fn meta_parts(req: &Request, opts: &RenderOptions) -> (parts: Vec<String>)
    ensures
        parts@.map_values(|s: String| s@) == spec_meta_parts(req@, *opts),
{
    let mut parts: Vec<String> = Vec::new();
    if opts.show_timestamps {
        match format_timestamp(req.timestamp) {
            Some(t) => parts.push(t),
            None => {},
        }
    }
    let ghost after_ts = parts@.map_values(|s: String| s@);
    proof {
        assert(after_ts =~= (if opts.show_timestamps {
            match timestamp_label(req@.timestamp) {
                Some(t) => seq![t],
                None => Seq::<Seq<char>>::empty(),
            }
        } else {
            Seq::<Seq<char>>::empty()
        }));
    }
    if opts.show_model {
        match &req.model_id {
            Some(m) => {
                let c = m.clone();
                parts.push(c);
            },
            None => {},
        }
    }
    let ghost after_model = parts@.map_values(|s: String| s@);
    proof {
        assert(after_model =~= after_ts + (if opts.show_model {
            match req@.model_id {
                Some(m) => seq![m],
                None => Seq::<Seq<char>>::empty(),
            }
        } else {
            Seq::<Seq<char>>::empty()
        }));
    }
    if opts.show_agent {
        match &req.agent_name {
            Some(a) => {
                let mut s = String::new();
                s.append("@");
                s.append(a.as_str());
                parts.push(s);
            },
            None => {},
        }
    }
    proof {
        assert(parts@.map_values(|s: String| s@) =~= after_model + (if opts.show_agent {
            match req@.agent_name {
                Some(a) => seq!["@"@ + a],
                None => Seq::<Seq<char>>::empty(),
            }
        } else {
            Seq::<Seq<char>>::empty()
        }));
        assert(parts@.map_values(|s: String| s@) =~= spec_meta_parts(req@, *opts));
    }
    parts
}

/// Appends the parts, joined with `sep`, at the end of `out`.
fn append_join_sep(out: &mut String, parts: &Vec<String>, sep: &str)
    ensures
        final(out)@ == old(out)@ + spec_join_sep(parts@.map_values(|s: String| s@), sep@),
{
    let ghost views = parts@.map_values(|s: String| s@);
    let mut j: usize = 0;
    while j < parts.len()
        invariant
            j <= parts.len(),
            views == parts@.map_values(|s: String| s@),
            out@ == old(out)@ + spec_join_sep(views.take(j as int), sep@),
        decreases parts.len() - j,
    {
        if j > 0 {
            out.append(sep);
        }
        out.append(parts[j].as_str());
        j += 1;
        proof {
            assert(views.take(j - 1).push(views[j - 1]) =~= views.take(j as int));
            lemma_join_sep_push(views.take(j - 1), sep@, views[j - 1]);
            if j > 1 {
                assert(old(out)@ + spec_join_sep(views.take(j - 1), sep@) + sep@ + views[j - 1]
                    =~= old(out)@ + (spec_join_sep(views.take(j - 1), sep@) + sep@ + views[j
                    - 1]));
            } else {
                assert(old(out)@ + spec_join_sep(views.take(0), sep@) =~= old(out)@);
            }
        }
    }
    proof {
        assert(views.take(views.len() as int) =~= views);
    }
}

/// The tool invocation lines of a response: one blockquoted line for each
/// tool call that carries a summary, in order.
pub open spec fn spec_tool_lines(es: Seq<ResponseElementView>) -> Seq<char>
    decreases es.len(),
{
    if es.len() == 0 {
        Seq::empty()
    } else {
        (match es[0] {
            ResponseElementView::ToolInvocation { past_tense: Some(m) } => "> \u{1F527} "@
                + spec_escape_tags(m) + "\n"@,
            _ => Seq::empty(),
        }) + spec_tool_lines(es.drop_first())
    }
}

/// The tool block: the lines, then one blank line — only when at least
/// one line was rendered.
pub open spec fn spec_tool_block(es: Seq<ResponseElementView>) -> Seq<char> {
    let lines = spec_tool_lines(es);
    if lines.len() == 0 {
        lines
    } else {
        lines + "\n"@
    }
}

/// Appends the tool block of `elements` at the end of `out`.
fn render_tool_invocations(out: &mut String, elements: &Vec<ResponseElement>)
    ensures
        final(out)@ == old(out)@ + spec_tool_block(
            elements@.map_values(|e: ResponseElement| e@),
        ),
{
    let ghost es = elements@.map_values(|e: ResponseElement| e@);
    let mut any_rendered = false;
    let mut i: usize = 0;
    proof {
        assert(es.skip(0) =~= es);
        reveal_strlit("\n");
    }
    while i < elements.len()
        invariant
            i <= elements.len(),
            es == elements@.map_values(|e: ResponseElement| e@),
            "\n"@.len() == 1,
            out@.len() >= old(out)@.len(),
            old(out)@ + spec_tool_lines(es) == out@ + spec_tool_lines(es.skip(i as int)),
            any_rendered <==> out@.len() > old(out)@.len(),
        decreases elements.len() - i,
    {
        let ghost pre = out@;
        proof {
            assert(es.skip(i as int)[0] == es[i as int]);
            assert(es.skip(i as int).drop_first() =~= es.skip(i + 1));
            assert(es[i as int] == elements@[i as int]@);
        }
        match &elements[i] {
            ResponseElement::ToolInvocation { past_tense: Some(msg) } => {
                out.append("> \u{1F527} ");
                let escaped = escape_xml_tags(msg.as_str());
                out.append(escaped.as_str());
                out.append("\n");
                any_rendered = true;
                proof {
                    assert(pre + ("> \u{1F527} "@ + spec_escape_tags(msg@) + "\n"@
                        + spec_tool_lines(es.skip(i + 1))) =~= pre + "> \u{1F527} "@
                        + spec_escape_tags(msg@) + "\n"@ + spec_tool_lines(es.skip(i + 1)));
                }
            },
            _ => {
                proof {
                    assert(pre + (Seq::<char>::empty() + spec_tool_lines(es.skip(i + 1))) =~= pre
                        + spec_tool_lines(es.skip(i + 1)));
                }
            },
        }
        i += 1;
    }
    proof {
        assert(es.skip(i as int) =~= Seq::<ResponseElementView>::empty());
        assert(spec_tool_lines(es.skip(i as int)) =~= Seq::<char>::empty());
        assert(out@ =~= old(out)@ + spec_tool_lines(es));
    }
    if any_rendered {
        out.push('\n');
        proof {
            assert(old(out)@ + spec_tool_lines(es) + seq!['\n'] =~= old(out)@ + (spec_tool_lines(
                es,
            ) + "\n"@));
        }
    }
}

/// What an inline reference displays: the name when there is one, else
/// the final segment of a non-empty path, else the raw (empty) path.
pub open spec fn spec_ref_display(name: Option<Seq<char>>, path: Seq<char>) -> Seq<char> {
    match name {
        Some(n) => n,
        None => if path.len() > 0 {
            spec_last_segment(path)
        } else {
            path
        },
    }
}

/// The total line count of a group of edit texts.
pub open spec fn spec_sum_lines(edits: Seq<Seq<char>>) -> nat
    decreases edits.len(),
{
    if edits.len() == 0 {
        0
    } else {
        spec_line_count(edits[0]) + spec_sum_lines(edits.drop_first())
    }
}

/// Sums the line counts of the edit texts.
fn edit_line_total(edits: &Vec<String>) -> (n: u128)
    ensures
        n as nat == spec_sum_lines(edits@.map_values(|e: String| e@)),
{
    let ghost views = edits@.map_values(|e: String| e@);
    let mut acc: u128 = 0;
    let mut i: usize = 0;
    proof {
        assert(views.skip(0) =~= views);
    }
    while i < edits.len()
        invariant
            i <= edits.len(),
            views == edits@.map_values(|e: String| e@),
            acc as nat <= (i as nat) * 0xffff_ffff_ffff_ffff,
            spec_sum_lines(views) == acc as nat + spec_sum_lines(views.skip(i as int)),
        decreases edits.len() - i,
    {
        proof {
            assert(views.skip(i as int)[0] == views[i as int]);
            assert(views.skip(i as int).drop_first() =~= views.skip(i + 1));
            assert(views[i as int] == edits@[i as int]@);
        }
        let chars = str_to_chars(edits[i].as_str());
        let lines = split_lines(&chars);
        let c: usize = lines.len();
        proof {
            assert(lines@.map_values(|l: Vec<char>| l@).len() == lines@.len());
            assert(c as nat == spec_line_count(views[i as int]));
            assert(c as nat <= 0xffff_ffff_ffff_ffff);
            assert((i as nat) * 0xffff_ffff_ffff_ffff + 0xffff_ffff_ffff_ffff == ((i + 1) as nat)
                * 0xffff_ffff_ffff_ffff) by (nonlinear_arith);
            assert(((i + 1) as nat) * 0xffff_ffff_ffff_ffff <= 0xffff_ffff_ffff_ffff_ffff_ffff_ffff_ffff)
                by (nonlinear_arith)
                requires (i + 1) as nat <= 0xffff_ffff_ffff_ffff + 1;
        }
        acc = acc + c as u128;
        i += 1;
    }
    proof {
        assert(views.skip(i as int) =~= Seq::<char>::empty().map_values(|c: char| seq![c]));
        assert(spec_sum_lines(views.skip(i as int)) == 0);
    }
    acc
}

/// What one response element contributes to the response body.
pub open spec fn spec_response_piece(e: ResponseElementView, k: nat) -> Seq<char> {
    match e {
        ResponseElementView::Text(t) => if spec_trim(t).len() == 0 || spec_only_code_fences(
            spec_trim(t),
        ) {
            Seq::<char>::empty()
        } else {
            spec_escape_tags(spec_shift_headings(t, k))
        },
        ResponseElementView::InlineReference { name, path } => "`"@ + spec_tick_safe(
            spec_ref_display(name, path),
        ) + "`"@,
        ResponseElementView::TextEditGroup { path, edits } => if edits.len() == 0 {
            Seq::<char>::empty()
        } else {
            "\n*Modified `"@ + spec_tick_safe(spec_last_segment(path)) + "` ("@ + spec_dec(
                spec_sum_lines(edits),
            ) + " lines)*\n\n"@
        },
        _ => Seq::<char>::empty(),
    }
}

/// The response body: the pieces of the elements in order, closed by one
/// blank line.
pub open spec fn spec_response_pieces(es: Seq<ResponseElementView>, k: nat) -> Seq<char>
    decreases es.len(),
{
    if es.len() == 0 {
        Seq::empty()
    } else {
        spec_response_piece(es[0], k) + spec_response_pieces(es.drop_first(), k)
    }
}

/// Appends the response body of `elements`, closed by one blank line.
fn render_response(out: &mut String, elements: &Vec<ResponseElement>, levels: u8)
    ensures
        final(out)@ == old(out)@ + spec_response_pieces(
            elements@.map_values(|e: ResponseElement| e@),
            levels as nat,
        ) + "\n\n"@,
{
    let ghost es = elements@.map_values(|e: ResponseElement| e@);
    let ghost k = levels as nat;
    let mut i: usize = 0;
    proof {
        assert(es.skip(0) =~= es);
    }
    while i < elements.len()
        invariant
            i <= elements.len(),
            es == elements@.map_values(|e: ResponseElement| e@),
            k == levels as nat,
            old(out)@ + spec_response_pieces(es, k) == out@ + spec_response_pieces(
                es.skip(i as int),
                k,
            ),
        decreases elements.len() - i,
    {
        let ghost pre = out@;
        proof {
            assert(es.skip(i as int)[0] == es[i as int]);
            assert(es.skip(i as int).drop_first() =~= es.skip(i + 1));
            assert(es[i as int] == elements@[i as int]@);
        }
        match &elements[i] {
            ResponseElement::Text(text) => {
                let chars = str_to_chars(text.as_str());
                let trimmed = trim_chars(&chars);
                let mut skip_piece = trimmed.len() == 0;
                if !skip_piece {
                    let trimmed_str = chars_to_string(&trimmed);
                    if is_only_code_fences(trimmed_str.as_str()) {
                        skip_piece = true;
                    }
                }
                if !skip_piece {
                    let shifted = shift_headings(text.as_str(), levels);
                    let escaped = escape_xml_tags(shifted.as_str());
                    out.append(escaped.as_str());
                }
                proof {
                    if skip_piece {
                        assert(spec_response_piece(es[i as int], k) =~= Seq::<char>::empty());
                        assert(pre + (Seq::<char>::empty() + spec_response_pieces(
                            es.skip(i + 1),
                            k,
                        )) =~= pre + spec_response_pieces(es.skip(i + 1), k));
                    } else {
                        assert(pre + (spec_response_piece(es[i as int], k)
                            + spec_response_pieces(es.skip(i + 1), k)) =~= pre
                            + spec_response_piece(es[i as int], k) + spec_response_pieces(
                            es.skip(i + 1),
                            k,
                        ));
                    }
                }
            },
            ResponseElement::InlineReference { name, path } => {
                let display: Vec<char> = match name {
                    Some(n) => str_to_chars(n.as_str()),
                    None => {
                        let p = str_to_chars(path.as_str());
                        if p.len() > 0 {
                            last_segment_chars(&p)
                        } else {
                            p
                        }
                    },
                };
                let safe = tick_safe_chars(&display);
                out.append("`");
                push_chars(out, &safe);
                out.append("`");
                proof {
                    assert(display@ == spec_ref_display(crate::parser::opt_view(*name), path@));
                    assert(pre + ("`"@ + spec_tick_safe(display@) + "`"@
                        + spec_response_pieces(es.skip(i + 1), k)) =~= pre + "`"@
                        + spec_tick_safe(display@) + "`"@ + spec_response_pieces(
                        es.skip(i + 1),
                        k,
                    ));
                }
            },
            ResponseElement::TextEditGroup { path, edits } => {
                if edits.len() > 0 {
                    let p = str_to_chars(path.as_str());
                    let seg = last_segment_chars(&p);
                    let safe = tick_safe_chars(&seg);
                    let total = edit_line_total(edits);
                    let num = dec_to_string(total);
                    out.append("\n*Modified `");
                    push_chars(out, &safe);
                    out.append("` (");
                    out.append(num.as_str());
                    out.append(" lines)*\n\n");
                    proof {
                        assert(pre + ("\n*Modified `"@ + spec_tick_safe(
                            spec_last_segment(path@),
                        ) + "` ("@ + spec_dec(spec_sum_lines(edits@.map_values(|e: String| e@)))
                            + " lines)*\n\n"@ + spec_response_pieces(es.skip(i + 1), k)) =~= pre
                            + "\n*Modified `"@ + spec_tick_safe(spec_last_segment(path@)) + "` ("@
                            + spec_dec(spec_sum_lines(edits@.map_values(|e: String| e@)))
                            + " lines)*\n\n"@ + spec_response_pieces(es.skip(i + 1), k));
                    }
                } else {
                    proof {
                        assert(pre + (Seq::<char>::empty() + spec_response_pieces(
                            es.skip(i + 1),
                            k,
                        )) =~= pre + spec_response_pieces(es.skip(i + 1), k));
                    }
                }
            },
            _ => {
                proof {
                    assert(spec_response_piece(es[i as int], k) =~= Seq::<char>::empty());
                    assert(pre + (Seq::<char>::empty() + spec_response_pieces(es.skip(i + 1), k))
                        =~= pre + spec_response_pieces(es.skip(i + 1), k));
                }
            },
        }
        i += 1;
    }
    proof {
        assert(es.skip(i as int) =~= Seq::<ResponseElementView>::empty());
        assert(spec_response_pieces(es.skip(i as int), k) =~= Seq::<char>::empty());
        assert(out@ =~= old(out)@ + spec_response_pieces(es, k));
    }
    out.append("\n\n");
}

/// The rendering of one exchange: the user section with its metadata,
/// context and escaped message, then the assistant section with its
/// response body.
pub open spec fn spec_render_request(r: RequestView, opts: RenderOptions) -> Seq<char> {
    let off = opts.heading_offset as nat;
    let k = 2 + opts.heading_offset as nat;
    spec_heading(2, off) + " User\n\n"@ + spec_metadata_block(r, opts) + (if opts.show_context
        && r.context.len() > 0 {
        spec_context_block(r.context)
    } else {
        Seq::<char>::empty()
    }) + spec_escape_tags(spec_shift_headings(r.message.text, k)) + "\n\n"@ + (
    if opts.show_tools {
        spec_tool_block(r.response)
    } else {
        Seq::<char>::empty()
    }) + spec_heading(2, off) + " Assistant\n\n"@ + spec_response_pieces(r.response, k)
        + "\n\n"@
}

/// Appends the rendering of one exchange at the end of `out`.
#[verifier::rlimit(100)]
fn render_request(out: &mut String, req: &Request, opts: &RenderOptions)
    requires
        opts.heading_offset <= 5,
    ensures
        final(out)@ == old(out)@ + spec_render_request(req@, *opts),
{
    let h2 = heading(2, opts.heading_offset);
    out.append(h2.as_str());
    out.append(" User\n\n");
    let parts = meta_parts(req, opts);
    if parts.len() > 0 {
        out.append("*");
        append_join_sep(out, &parts, " \u{b7} ");
        out.append("*");
        out.append("\n\n");
    }
    let ghost o_meta = out@;
    proof {
        assert(o_meta =~= old(out)@ + spec_heading(2, opts.heading_offset as nat) + " User\n\n"@
            + spec_metadata_block(req@, *opts));
    }
    if opts.show_context && req.context.len() > 0 {
        render_context(out, &req.context);
    }
    let ghost o_ctx = out@;
    proof {
        assert(o_ctx =~= o_meta + (if opts.show_context && req@.context.len() > 0 {
            spec_context_block(req@.context)
        } else {
            Seq::<char>::empty()
        }));
    }
    let levels: u8 = 2 + opts.heading_offset;
    let shifted = shift_headings(req.message.text.as_str(), levels);
    let escaped = escape_xml_tags(shifted.as_str());
    out.append(escaped.as_str());
    out.append("\n\n");
    if opts.show_tools {
        render_tool_invocations(out, &req.response);
    }
    let ghost o_tools = out@;
    proof {
        assert(o_tools =~= o_ctx + spec_escape_tags(
            spec_shift_headings(req@.message.text, levels as nat),
        ) + "\n\n"@ + (if opts.show_tools {
            spec_tool_block(req@.response)
        } else {
            Seq::<char>::empty()
        }));
    }
    out.append(h2.as_str());
    out.append(" Assistant\n\n");
    render_response(out, &req.response, levels);
    proof {
        assert(final(out)@ =~= old(out)@ + spec_render_request(req@, *opts));
    }
}

/// The rendering of a sequence of exchanges, in order.
pub open spec fn spec_render_requests(rs: Seq<RequestView>, opts: RenderOptions) -> Seq<char>
    decreases rs.len(),
{
    if rs.len() == 0 {
        Seq::empty()
    } else {
        spec_render_request(rs[0], opts) + spec_render_requests(rs.drop_first(), opts)
    }
}

/// The rendering of a whole conversation: the document title, then each
/// exchange in order.
pub open spec fn spec_render_chat(c: ChatExportView, opts: RenderOptions) -> Seq<char> {
    spec_heading(1, opts.heading_offset as nat) + " Copilot Chat\n\n"@ + spec_render_requests(
        c.requests,
        opts,
    )
}

/// Renders a decoded chat export as a Markdown document.
///
/// Pure and deterministic: the output is exactly
/// [`spec_render_chat`]`(chat@, *opts)`, a function of the conversation's
/// model and the options alone.
pub fn render_chat(chat: &ChatExport, opts: &RenderOptions) -> (r: String)
    requires
        opts.heading_offset <= 5,
    ensures
        r@ == spec_render_chat(chat@, *opts),
{
    let ghost rs = chat@.requests;
    let mut out = String::new();
    let h1 = heading(1, opts.heading_offset);
    out.append(h1.as_str());
    out.append(" Copilot Chat\n\n");
    let mut i: usize = 0;
    proof {
        assert(rs.skip(0) =~= rs);
        assert(out@ =~= Seq::<char>::empty() + spec_heading(1, opts.heading_offset as nat)
            + " Copilot Chat\n\n"@);
        assert(spec_render_chat(chat@, *opts) =~= out@ + spec_render_requests(rs, *opts));
    }
    while i < chat.requests.len()
        invariant
            i <= chat.requests.len(),
            rs == chat@.requests,
            opts.heading_offset <= 5,
            spec_render_chat(chat@, *opts) == out@ + spec_render_requests(
                rs.skip(i as int),
                *opts,
            ),
        decreases chat.requests.len() - i,
    {
        let ghost pre = out@;
        proof {
            assert(rs.skip(i as int)[0] == rs[i as int]);
            assert(rs.skip(i as int).drop_first() =~= rs.skip(i + 1));
            assert(rs[i as int] == chat.requests@[i as int]@);
        }
        render_request(&mut out, &chat.requests[i], opts);
        i += 1;
        proof {
            assert(pre + (spec_render_request(rs[i - 1], *opts) + spec_render_requests(
                rs.skip(i as int),
                *opts,
            )) =~= pre + spec_render_request(rs[i - 1], *opts) + spec_render_requests(
                rs.skip(i as int),
                *opts,
            ));
        }
    }
    proof {
        assert(rs.skip(i as int) =~= Seq::<RequestView>::empty());
        assert(spec_render_requests(rs.skip(i as int), *opts) =~= Seq::<char>::empty());
        assert(out@ =~= spec_render_chat(chat@, *opts));
    }
    out
}


/// Law: a zero heading shift is the identity on any text.
pub proof fn lemma_shift_zero_identity(s: Seq<char>)
    ensures
        spec_shift_headings(s, 0) == s,
{
}

proof fn lemma_hash_run_prefix(n: nat, rest: Seq<char>)
    requires
        rest.len() > 0,
        rest[0] != '#',
    ensures
        spec_hash_run(spec_hashes(n) + rest) == n,
    decreases n,
{
    lemma_hashes_shape(n);
    if n == 0 {
        assert(spec_hashes(0) + rest =~= rest);
    } else {
        let s = spec_hashes(n) + rest;
        assert(s[0] == '#');
        lemma_hashes_shape((n - 1) as nat);
        assert(s.drop_first() =~= spec_hashes((n - 1) as nat) + rest);
        lemma_hash_run_prefix((n - 1) as nat, rest);
    }
}

/// Law: shifting a valid heading line, by any amount, never yields more
/// than six leading `'#'`.
pub proof fn lemma_shift_caps_hashes(line: Seq<char>, k: nat)
    requires
        spec_is_heading(line),
    ensures
        spec_hash_run(spec_shift_line(line, k)) <= 6,
{
    let h = spec_hash_run(line);
    let n = if h + k > 6 {
        6nat
    } else {
        h + k
    };
    let rest = line.skip(h as int);
    assert(rest[0] == line[h as int]);
    lemma_hash_run_prefix(n, rest);
}

/// The fence state after `ls` has been walked, starting from `st`: each
/// fence delimiter line toggles it.
pub open spec fn spec_fence_state(ls: Seq<Seq<char>>, st: bool) -> bool
    decreases ls.len(),
{
    if ls.len() == 0 {
        st
    } else {
        spec_fence_state(
            ls.drop_first(),
            if spec_is_fence(ls[0]) {
                !st
            } else {
                st
            },
        )
    }
}

proof fn lemma_shift_lines_pointwise(ls: Seq<Seq<char>>, k: nat, st: bool)
    ensures
        spec_shift_lines(ls, k, st).len() == ls.len(),
        forall|i: int|
            0 <= i < ls.len() ==> #[trigger] spec_shift_lines(ls, k, st)[i] == (if spec_is_fence(
                ls[i],
            ) {
                ls[i]
            } else if spec_fence_state(ls.take(i), st) {
                ls[i]
            } else {
                spec_shift_line(ls[i], k)
            }),
    decreases ls.len(),
{
    if ls.len() > 0 {
        let st1 = if spec_is_fence(ls[0]) {
            !st
        } else {
            st
        };
        let d = ls.drop_first();
        lemma_shift_lines_pointwise(d, k, st1);
        assert forall|i: int|
            0 <= i < ls.len() implies #[trigger] spec_shift_lines(ls, k, st)[i] == (
        if spec_is_fence(ls[i]) {
            ls[i]
        } else if spec_fence_state(ls.take(i), st) {
            ls[i]
        } else {
            spec_shift_line(ls[i], k)
        }) by {
            if i == 0 {
                assert(ls.take(0) =~= Seq::<Seq<char>>::empty());
            } else {
                assert(spec_shift_lines(ls, k, st)[i] == spec_shift_lines(d, k, st1)[i - 1]);
                assert(d[i - 1] == ls[i]);
                assert(ls.take(i)[0] == ls[0]);
                assert(ls.take(i).drop_first() =~= d.take(i - 1));
                assert(spec_fence_state(ls.take(i), st) == spec_fence_state(d.take(i - 1), st1));
            }
        }
    }
}

/// Law: the heading shift leaves every fence delimiter line, and every
/// line standing while a fence is open, exactly as it was.
pub proof fn lemma_shift_protects_fenced(ls: Seq<Seq<char>>, k: nat, i: int)
    requires
        0 <= i < ls.len(),
        spec_is_fence(ls[i]) || spec_fence_state(ls.take(i), false),
    ensures
        spec_shift_lines(ls, k, false).len() == ls.len(),
        spec_shift_lines(ls, k, false)[i] == ls[i],
{
    lemma_shift_lines_pointwise(ls, k, false);
}

/// Law: text without a tag opener — no `'<'` directly followed by a
/// letter, `'/'` or `'!'` — passes through the escape unchanged.  In
/// particular mathematical comparisons, and fenced code that holds no
/// tag-like text, come out byte-identical.
pub proof fn lemma_escape_identity(s: Seq<char>)
    requires
        forall|i: int|
            0 <= i < s.len() && #[trigger] s[i] == '<' ==> !(i + 1 < s.len() && tag_start_char(
                s[i + 1],
            )),
    ensures
        spec_escape_tags(s) == s,
    decreases s.len(),
{
    if s.len() > 0 {
        assert(!(s[0] == '<' && s.len() > 1 && tag_start_char(s[1])));
        let t = s.drop_first();
        assert(forall|i: int| 0 <= i < t.len() ==> #[trigger] t[i] == s[i + 1]);
        assert forall|i: int|
            0 <= i < t.len() && #[trigger] t[i] == '<' implies !(i + 1 < t.len() && tag_start_char(
            t[i + 1],
        )) by {
            assert(t[i] == s[i + 1]);
            if i + 1 < t.len() {
                assert(t[i + 1] == s[i + 2]);
            }
        }
        lemma_escape_identity(t);
        assert(seq![s[0]] + t =~= s);
    }
}

proof fn lemma_escape_head(s: Seq<char>, t: bool)
    requires
        s.len() > 0,
    ensures
        spec_escape(s, t).len() > 0,
        spec_escape(s, t)[0] == s[0] || spec_escape(s, t)[0] == '&',
{
}

/// Law: escaped text holds no tag opener: wherever a `'<'` stands in the
/// output, the character after it (if any) is no letter, `'/'` or `'!'`.
pub proof fn lemma_escape_no_tag_opener(s: Seq<char>, t: bool)
    ensures
        forall|i: int|
            0 <= i < spec_escape(s, t).len() && #[trigger] spec_escape(s, t)[i] == '<' ==> !(i + 1
                < spec_escape(s, t).len() && tag_start_char(spec_escape(s, t)[i + 1])),
    decreases s.len(),
{
    if s.len() == 0 {
        return ;
    }
    let out = spec_escape(s, t);
    let d = s.drop_first();
    if s[0] == '<' && s.len() > 1 && tag_start_char(s[1]) {
        let rec = spec_escape(d, true);
        lemma_escape_no_tag_opener(d, true);
        assert forall|i: int|
            0 <= i < out.len() && #[trigger] out[i] == '<' implies !(i + 1 < out.len()
            && tag_start_char(out[i + 1])) by {
            assert(out == seq!['&', 'l', 't', ';'] + rec);
            if i < 4 {
                assert(out[i] != '<');
            } else {
                assert(out[i] == rec[i - 4]);
                if i + 1 < out.len() {
                    assert(out[i + 1] == rec[i - 3]);
                }
            }
        }
    } else if s[0] == '>' && t {
        let rec = spec_escape(d, false);
        lemma_escape_no_tag_opener(d, false);
        assert forall|i: int|
            0 <= i < out.len() && #[trigger] out[i] == '<' implies !(i + 1 < out.len()
            && tag_start_char(out[i + 1])) by {
            assert(out == seq!['&', 'g', 't', ';'] + rec);
            if i < 4 {
                assert(out[i] != '<');
            } else {
                assert(out[i] == rec[i - 4]);
                if i + 1 < out.len() {
                    assert(out[i + 1] == rec[i - 3]);
                }
            }
        }
    } else {
        let rec = spec_escape(d, t);
        lemma_escape_no_tag_opener(d, t);
        assert forall|i: int|
            0 <= i < out.len() && #[trigger] out[i] == '<' implies !(i + 1 < out.len()
            && tag_start_char(out[i + 1])) by {
            assert(out == seq![s[0]] + rec);
            if i == 0 {
                if s[0] == '<' && 1 < out.len() {
                    assert(d.len() > 0);
                    lemma_escape_head(d, t);
                    assert(out[1] == rec[0]);
                    assert(rec[0] == d[0] || rec[0] == '&');
                    assert(d[0] == s[1]);
                    assert(!tag_start_char(s[1]));
                    assert(!tag_start_char('&'));
                }
            } else {
                assert(out[i] == rec[i - 1]);
                if i + 1 < out.len() {
                    assert(out[i + 1] == rec[i]);
                }
            }
        }
    }
}

/// Law: rendering is deterministic.  The output is a function of the
/// conversation's mathematical model and the options alone: two
/// conversations with equal models render to the same text, on any run.
pub proof fn lemma_render_deterministic(a: &ChatExport, b: &ChatExport, opts: RenderOptions)
    requires
        a@ == b@,
    ensures
        spec_render_chat(a@, opts) == spec_render_chat(b@, opts),
{
}

} // verus!
