//! The mechanical checks on the documentation: the lines of a Markdown
//! file, the `rigg …` command lines in its shell fences, the relative link
//! targets on a line, and the heading anchors a file offers.
use vstd::prelude::*;
use vstd::string::StrSliceExecFns;

use crate::ask::known_id_prefixes;
use crate::auth::{is_alpha, is_alphabetic, lowercase, to_lowercase};
use crate::text::{
    chars_of, copy_str, decimal, decimal_string, has_prefix, is_digit, is_ws, is_ws_exec, push_char,
    push_str, slice_of, string_of, string_of_range, trim, trim_start, trim_start_char, trim_str,
    trim_vec, views,
};

verus! {

// ---------------------------------------------------------------------------
// Lines
// ---------------------------------------------------------------------------

/// The index of the first `\n` of `s` at or after `from`, or `s.len()`.
pub open spec fn newline_at(s: Seq<char>, from: int) -> int
    decreases s.len() - from,
{
    if from >= s.len() {
        s.len() as int
    } else if s[from] == '\n' {
        from
    } else {
        newline_at(s, from + 1)
    }
}

pub proof fn lemma_newline_at(s: Seq<char>, from: int)
    requires
        0 <= from <= s.len(),
    ensures
        from <= newline_at(s, from) <= s.len(),
        newline_at(s, from) < s.len() ==> s[newline_at(s, from)] == '\n',
        forall|k: int| from <= k < newline_at(s, from) ==> s[k] != '\n',
    decreases s.len() - from,
{
    if from < s.len() && s[from] != '\n' {
        lemma_newline_at(s, from + 1);
    }
}

/// A line without the `\r` of a `\r\n` ending.
pub open spec fn strip_cr(line: Seq<char>) -> Seq<char> {
    if line.len() > 0 && line.last() == '\r' {
        line.drop_last()
    } else {
        line
    }
}

/// The lines of `s[from..]`, as `str::lines` gives them: split at `\n`,
/// a `\r` before the `\n` dropped, no empty line after a final `\n`.
pub open spec fn lines_from(s: Seq<char>, from: int) -> Seq<Seq<char>>
    decreases s.len() - from,
{
    if from < 0 || from >= s.len() {
        Seq::empty()
    } else {
        let e = newline_at(s, from);
        proof {
            lemma_newline_at(s, from);
        }
        if e >= s.len() {
            seq![s.subrange(from, s.len() as int)]
        } else {
            seq![strip_cr(s.subrange(from, e))] + lines_from(s, e + 1)
        }
    }
}

/// The lines of `s`.
pub open spec fn lines_spec(s: Seq<char>) -> Seq<Seq<char>> {
    lines_from(s, 0)
}

/// The lines of `text` (`str::lines`).
pub fn lines(text: &str) -> (out: Vec<String>)
    ensures
        views(out@) == lines_spec(text@),
{
    let v = chars_of(text);
    let mut out: Vec<String> = Vec::new();
    let mut from: usize = 0;
    while from < v.len()
        invariant
            v@ == text@,
            0 <= from <= v@.len(),
            views(out@) + lines_from(v@, from as int) == lines_spec(v@),
        decreases v@.len() - from,
    {
        let mut e = from;
        while e < v.len() && v[e] != '\n'
            invariant
                from <= e <= v@.len(),
                newline_at(v@, from as int) == newline_at(v@, e as int),
            decreases v@.len() - e,
        {
            e += 1;
        }
        proof {
            lemma_newline_at(v@, from as int);
        }
        let ghost before = views(out@);
        if e == v.len() {
            out.push(string_of_range(&v, from, e));
            assert(views(out@) =~= before.push(v@.subrange(from as int, e as int)));
            assert(lines_from(v@, e as int) =~= Seq::<Seq<char>>::empty());
            from = e;
        } else {
            let mut line_end = e;
            if line_end > from && v[line_end - 1] == '\r' {
                line_end = line_end - 1;
            }
            out.push(string_of_range(&v, from, line_end));
            assert(v@.subrange(from as int, line_end as int) == strip_cr(v@.subrange(from as int, e as int))) by {
                if e > from && v@[e - 1] == '\r' {
                    assert(v@.subrange(from as int, e as int).drop_last() =~= v@.subrange(from as int, e - 1));
                }
            }
            assert(views(out@) =~= before.push(strip_cr(v@.subrange(from as int, e as int))));
            from = e + 1;
        }
    }
    assert(lines_from(v@, from as int) =~= Seq::<Seq<char>>::empty());
    assert(views(out@) =~= views(out@) + lines_from(v@, from as int));
    out
}

// ---------------------------------------------------------------------------
// Heading anchors
// ---------------------------------------------------------------------------

/// A character an anchor keeps as it is.
pub open spec fn anchor_char(c: char) -> bool {
    is_alpha(c) || is_digit(c) || c == '-' || c == '_'
}

/// GitHub-style anchor of lowercased heading text: spaces become `-`,
/// letters, digits, `-` and `_` stay, anything else is dropped.
pub open spec fn slug_of_lower(l: Seq<char>) -> Seq<char>
    decreases l.len(),
{
    if l.len() == 0 {
        Seq::empty()
    } else {
        let rest = slug_of_lower(l.drop_last());
        let c = l.last();
        if c == ' ' {
            rest.push('-')
        } else if anchor_char(c) {
            rest.push(c)
        } else {
            rest
        }
    }
}

/// The anchor of a heading title.
pub open spec fn slug_spec(title: Seq<char>) -> Seq<char> {
    slug_of_lower(lowercase(title))
}

/// The anchor of a heading title.
pub fn slug(title: &str) -> (r: String)
    ensures
        r@ == slug_spec(title@),
{
    let l = chars_of(to_lowercase(title).as_str());
    let mut r = String::new();
    let mut i: usize = 0;
    while i < l.len()
        invariant
            l@ == lowercase(title@),
            0 <= i <= l@.len(),
            r@ == slug_of_lower(l@.subrange(0, i as int)),
        decreases l@.len() - i,
    {
        let c = l[i];
        assert(l@.subrange(0, i + 1).drop_last() =~= l@.subrange(0, i as int));
        if c == ' ' {
            push_char(&mut r, '-');
        } else if is_alphabetic(c) || ('0' <= c && c <= '9') || c == '-' || c == '_' {
            push_char(&mut r, c);
        }
        i += 1;
    }
    assert(l@.subrange(0, l@.len() as int) =~= l@);
    r
}

/// A letter or a digit.
pub open spec fn alnum() -> spec_fn(char) -> bool {
    |c: char| is_alpha(c) || is_digit(c)
}

proof fn lemma_slug_of_lower(l: Seq<char>)
    ensures
        slug_of_lower(l).filter(alnum()) == l.filter(alnum()),
        forall|i: int| 0 <= i < slug_of_lower(l).len() ==> {
            let c = #[trigger] slug_of_lower(l)[i];
            is_alpha(c) || is_digit(c) || c == '-' || c == '_'
        },
    decreases l.len(),
{
    if l.len() > 0 {
        let p = l.drop_last();
        let c = l.last();
        lemma_slug_of_lower(p);
        let rest = slug_of_lower(p);
        assert(p.push(c) =~= l);
        p.lemma_filter_push(c, alnum());
        if c == ' ' {
            rest.lemma_filter_push('-', alnum());
            assert(!is_alpha(' ') && !is_alpha('-'));
        } else if anchor_char(c) {
            rest.lemma_filter_push(c, alnum());
        }
        let out = slug_of_lower(l);
        assert forall|i: int| 0 <= i < out.len() implies {
            let d = #[trigger] out[i];
            is_alpha(d) || is_digit(d) || d == '-' || d == '_'
        } by {
            if i < rest.len() {
                assert(out[i] == rest[i]);
            }
        }
    }
}

/// Law: a heading's anchor keeps every letter and digit of the lowercased
/// title, in order (`Step 2: Install` anchors as `step-2-install`), and
/// holds nothing but letters, digits, `-` and `_`.
pub proof fn law_slug_keeps_letters_and_digits(title: Seq<char>)
    ensures
        slug_spec(title).filter(alnum()) == lowercase(title).filter(alnum()),
        forall|i: int| 0 <= i < slug_spec(title).len() ==> {
            let c = #[trigger] slug_spec(title)[i];
            is_alpha(c) || is_digit(c) || c == '-' || c == '_'
        },
{
    lemma_slug_of_lower(lowercase(title));
}

/// How many times `x` occurs in `xs`.
pub open spec fn count_of(xs: Seq<Seq<char>>, x: Seq<char>) -> nat
    decreases xs.len(),
{
    if xs.len() == 0 {
        0
    } else {
        count_of(xs.drop_last(), x) + if xs.last() == x {
            1nat
        } else {
            0nat
        }
    }
}

/// The scan over the first `k` lines: inside a fence, the anchor bases
/// seen, and the anchors offered.
pub open spec fn heading_scan(ls: Seq<Seq<char>>, k: int) -> (bool, Seq<Seq<char>>, Seq<Seq<char>>)
    decreases k,
{
    if k <= 0 {
        (false, Seq::empty(), Seq::empty())
    } else {
        let (in_fence, seen, out) = heading_scan(ls, k - 1);
        let t = trim_start(ls[k - 1]);
        if has_prefix(t, "```"@) {
            (!in_fence, seen, out)
        } else if in_fence || !has_prefix(t, "#"@) {
            (in_fence, seen, out)
        } else {
            let title = trim_start_char(t, '#');
            if !has_prefix(title, " "@) && title.len() > 0 {
                (in_fence, seen, out)
            } else {
                let base = slug_spec(trim(title));
                let n = count_of(seen, base);
                let anchor = if n == 0 {
                    base
                } else {
                    base + "-"@ + decimal(n)
                };
                (in_fence, seen.push(base), out.push(anchor))
            }
        }
    }
}

/// Every heading anchor a Markdown text offers, in heading order, with
/// GitHub's duplicate suffixes (`title`, `title-1`, ...). Fenced blocks
/// are skipped.
pub open spec fn heading_slugs_spec(text: Seq<char>) -> Seq<Seq<char>> {
    let ls = lines_spec(text);
    heading_scan(ls, ls.len() as int).2
}

/// How many of `xs` equal `x`.
fn count_equal(xs: &Vec<String>, x: &str) -> (n: usize)
    ensures
        n == count_of(views(xs@), x@),
{
    let mut n: usize = 0;
    let mut i: usize = 0;
    while i < xs.len()
        invariant
            0 <= i <= xs@.len(),
            n == count_of(views(xs@).subrange(0, i as int), x@),
            n <= i,
        decreases xs@.len() - i,
    {
        assert(views(xs@).subrange(0, i + 1).drop_last() =~= views(xs@).subrange(0, i as int));
        if crate::text::str_eq(xs[i].as_str(), x) {
            n += 1;
        }
        i += 1;
    }
    assert(views(xs@).subrange(0, xs@.len() as int) =~= views(xs@));
    n
}

/// Every heading anchor a Markdown file offers (see `heading_slugs_spec`).
pub fn heading_slugs(text: &str) -> (out: Vec<String>)
    ensures
        views(out@) == heading_slugs_spec(text@),
{
    let ls = lines(text);
    let ghost lv = views(ls@);
    let mut seen: Vec<String> = Vec::new();
    let mut out: Vec<String> = Vec::new();
    let mut in_fence = false;
    let mut i: usize = 0;
    let fence = chars_of("```");
    let hash = chars_of("#");
    let space = chars_of(" ");
    while i < ls.len()
        invariant
            lv == views(ls@),
            lv == lines_spec(text@),
            fence@ == "```"@,
            hash@ == "#"@,
            space@ == " "@,
            0 <= i <= ls@.len(),
            heading_scan(lv, i as int) == (in_fence, views(seen@), views(out@)),
        decreases ls@.len() - i,
    {
        let lc = chars_of(ls[i].as_str());
        let (a, _) = crate::text::trim_bounds(&lc);
        let t = slice_of(&lc, a, lc.len());
        assert(t@ == trim_start(lv[i as int]));
        if crate::text::starts_with(&t, &fence) {
            in_fence = !in_fence;
        } else if in_fence || !crate::text::starts_with(&t, &hash) {
        } else {
            let title = crate::text::trim_start_char_vec(&t, '#');
            if !crate::text::starts_with(&title, &space) && title.len() > 0 {
            } else {
                let tt = trim_vec(&title);
                let base = slug(string_of(&tt).as_str());
                let n = count_equal(&seen, base.as_str());
                let anchor = if n == 0 {
                    base.clone()
                } else {
                    let mut s = base.clone();
                    push_str(&mut s, "-");
                    let d = decimal_string(n);
                    push_str(&mut s, d.as_str());
                    s
                };
                let ghost seen_before = views(seen@);
                let ghost out_before = views(out@);
                seen.push(base);
                out.push(anchor);
                assert(views(seen@) =~= seen_before.push(base@));
                assert(views(out@) =~= out_before.push(anchor@));
            }
        }
        i += 1;
    }
    out
}

// ---------------------------------------------------------------------------
// Command lines in shell fences
// ---------------------------------------------------------------------------

/// The index of the first whitespace character of `s` at or after `from`,
/// or `s.len()`.
pub open spec fn ws_at(s: Seq<char>, from: int) -> int
    decreases s.len() - from,
{
    if from >= s.len() {
        s.len() as int
    } else if is_ws(s[from]) {
        from
    } else {
        ws_at(s, from + 1)
    }
}

proof fn lemma_ws_at(s: Seq<char>, from: int)
    requires
        0 <= from <= s.len(),
    ensures
        from <= ws_at(s, from) <= s.len(),
    decreases s.len() - from,
{
    if from < s.len() && !is_ws(s[from]) {
        lemma_ws_at(s, from + 1);
    }
}

/// The first whitespace-separated word of `s` (`split_whitespace().next()`).
pub open spec fn first_token_spec(s: Seq<char>) -> Option<Seq<char>> {
    let t = trim_start(s);
    if t.len() == 0 {
        None
    } else {
        Some(t.subrange(0, ws_at(t, 0)))
    }
}

/// The first whitespace-separated word of `v`.
fn first_token(v: &Vec<char>) -> (r: Option<Vec<char>>)
    ensures
        match (r, first_token_spec(v@)) {
            (Some(a), Some(b)) => a@ == b,
            (None, None) => true,
            _ => false,
        },
{
    let (a, _) = crate::text::trim_bounds(v);
    let t = slice_of(v, a, v.len());
    assert(t@ == trim_start(v@));
    if t.len() == 0 {
        return None;
    }
    let mut e: usize = 0;
    proof {
        lemma_ws_at(t@, 0);
    }
    while e < t.len() && !is_ws_exec(t[e])
        invariant
            e <= t@.len(),
            ws_at(t@, 0) == ws_at(t@, e as int),
        decreases t@.len() - e,
    {
        e += 1;
    }
    Some(slice_of(&t, 0, e))
}

/// Where a trailing `# comment` starts in `s[i..]` (`s.len()` when there is
/// none): a `#` outside quotes that follows whitespace or starts the line.
pub open spec fn comment_at(s: Seq<char>, i: int, quote: Option<char>, prev_space: bool) -> int
    decreases s.len() - i,
{
    if i < 0 || i >= s.len() {
        s.len() as int
    } else {
        let c = s[i];
        if c == '\'' || c == '"' {
            let q = match quote {
                Some(q) => if q == c {
                    None
                } else {
                    quote
                },
                None => Some(c),
            };
            comment_at(s, i + 1, q, is_ws(c))
        } else if c == '#' && quote is None && prev_space {
            i
        } else {
            comment_at(s, i + 1, quote, is_ws(c))
        }
    }
}

proof fn lemma_comment_at(s: Seq<char>, i: int, quote: Option<char>, prev_space: bool)
    requires
        0 <= i <= s.len(),
    ensures
        i <= comment_at(s, i, quote, prev_space) <= s.len(),
    decreases s.len() - i,
{
    if i < s.len() {
        let c = s[i];
        if c == '\'' || c == '"' {
            let q = match quote {
                Some(q) => if q == c {
                    None
                } else {
                    quote
                },
                None => Some(c),
            };
            lemma_comment_at(s, i + 1, q, is_ws(c));
        } else if c == '#' && quote is None && prev_space {
        } else {
            lemma_comment_at(s, i + 1, quote, is_ws(c));
        }
    }
}

/// A command without a trailing `# comment` (ignoring `#` inside quotes),
/// and without trailing whitespace.
pub open spec fn strip_comment_spec(s: Seq<char>) -> Seq<char> {
    crate::text::trim_end(s.subrange(0, comment_at(s, 0, None, true)))
}

/// Drop a trailing `# comment`, ignoring `#` inside quotes.
pub fn strip_comment(line: &str) -> (r: String)
    ensures
        r@ == strip_comment_spec(line@),
{
    let v = chars_of(line);
    let mut quote: Option<char> = None;
    let mut prev_space = true;
    let mut i: usize = 0;
    proof {
        lemma_comment_at(v@, 0, None, true);
    }
    while i < v.len()
        invariant
            v@ == line@,
            0 <= i <= v@.len(),
            comment_at(v@, 0, None, true) == comment_at(v@, i as int, quote, prev_space),
        decreases v@.len() - i,
    {
        let c = v[i];
        if c == '\'' || c == '"' {
            quote = match quote {
                Some(q) => if q == c {
                    None
                } else {
                    Some(q)
                },
                None => Some(c),
            };
        } else if c == '#' && quote.is_none() && prev_space {
            let head = slice_of(&v, 0, i);
            return string_of(&crate::text::trim_end_vec(&head));
        }
        prev_space = is_ws_exec(c);
        i += 1;
    }
    assert(v@.subrange(0, v@.len() as int) =~= v@);
    string_of(&crate::text::trim_end_vec(&v))
}

/// A fence tag that opens a shell fence.
pub open spec fn shell_tag(tag: Seq<char>) -> bool {
    tag.len() == 0 || tag == "bash"@ || tag == "sh"@ || tag == "shell"@
}

/// The tag of a fence line (the first word after the backticks).
pub open spec fn fence_tag(trimmed: Seq<char>) -> Seq<char> {
    match first_token_spec(trim_start_char(trimmed, '`')) {
        Some(t) => t,
        None => Seq::empty(),
    }
}

/// A command that elides part of itself is prose, not a command.
pub open spec fn elided(c: Seq<char>) -> bool {
    crate::text::contains(c, seq!['\u{2026}']) || crate::text::contains(c, "..."@)
}

/// A fence-scan state: in a shell fence, in another fence, and a
/// `\`-continued command with the line it started on.
pub type FenceState = (bool, bool, Option<(int, Seq<char>)>);

/// The scan over the first `k` lines: the state after them, and the
/// `rigg …` commands found, each with the line it starts on.
pub open spec fn command_scan(ls: Seq<Seq<char>>, k: int) -> (FenceState, Seq<(int, Seq<char>)>)
    decreases k,
{
    if k <= 0 {
        ((false, false, None), Seq::empty())
    } else {
        let ((in_shell, in_other, pending), out) = command_scan(ls, k - 1);
        let line_no = k;
        let trimmed = trim(ls[k - 1]);
        if has_prefix(trimmed, "```"@) {
            if in_shell || in_other {
                ((false, false, None), out)
            } else if shell_tag(fence_tag(trimmed)) {
                ((true, false, None), out)
            } else {
                ((false, true, None), out)
            }
        } else if !in_shell {
            ((in_shell, in_other, pending), out)
        } else {
            let line = match crate::text::strip_prefix(trimmed, "$ "@) {
                Some(rest) => trim(rest),
                None => trimmed,
            };
            let started: Option<(int, Seq<char>)> = match pending {
                Some((start, acc)) => Some((start, acc + " "@ + line)),
                None => if first_token_spec(line) == Some("rigg"@) {
                    Some((line_no, line))
                } else {
                    None
                },
            };
            match started {
                None => ((in_shell, in_other, None), out),
                Some((start, command)) => if crate::text::has_suffix(command, "\\"@) {
                    (
                        (in_shell, in_other, Some((start, crate::text::trim_end(command.drop_last())))),
                        out,
                    )
                } else {
                    let c = strip_comment_spec(command);
                    if trim(c).len() == 0 || elided(c) {
                        ((in_shell, in_other, None), out)
                    } else {
                        ((in_shell, in_other, None), out.push((start, c)))
                    }
                },
            }
        }
    }
}

/// Every `rigg …` command line in the shell fences of a Markdown text,
/// with the (1-based) line it starts on.
pub open spec fn command_lines_spec(text: Seq<char>) -> Seq<(int, Seq<char>)> {
    let ls = lines_spec(text);
    command_scan(ls, ls.len() as int).1
}

/// The commands found, as plain values.
pub open spec fn command_views(v: Seq<(usize, String)>) -> Seq<(int, Seq<char>)> {
    v.map_values(|x: (usize, String)| (x.0 as int, x.1@))
}

/// Every `rigg …` command line in the shell fences of a Markdown text: `$ `
/// prompts dropped, `\`-continuations joined, comments stripped, elided
/// commands skipped.
pub fn command_lines(text: &str) -> (out: Vec<(usize, String)>)
    ensures
        command_views(out@) == command_lines_spec(text@),
{
    let ls = lines(text);
    let ghost lv = views(ls@);
    let fence = chars_of("```");
    let prompt = chars_of("$ ");
    let rigg = chars_of("rigg");
    let mut in_shell = false;
    let mut in_other = false;
    let mut pending: Option<(usize, String)> = None;
    let mut out: Vec<(usize, String)> = Vec::new();
    let mut i: usize = 0;
    while i < ls.len()
        invariant
            lv == views(ls@),
            lv == lines_spec(text@),
            fence@ == "```"@,
            prompt@ == "$ "@,
            rigg@ == "rigg"@,
            0 <= i <= ls@.len(),
            command_scan(lv, i as int) == (
                (
                    in_shell,
                    in_other,
                    match pending {
                        Some((s, a)) => Some((s as int, a@)),
                        None => None,
                    },
                ),
                command_views(out@),
            ),
            pending matches Some((s, _)) ==> s <= i,
        decreases ls@.len() - i,
    {
        let line_no = i + 1;
        let trimmed = trim_vec(&chars_of(ls[i].as_str()));
        if crate::text::starts_with(&trimmed, &fence) {
            if in_shell || in_other {
                in_shell = false;
                in_other = false;
            } else {
                let after = crate::text::trim_start_char_vec(&trimmed, '`');
                let tag: Vec<char> = match first_token(&after) {
                    Some(t) => t,
                    None => Vec::new(),
                };
                let ts = string_of(&tag);
                let t = ts.as_str();
                if tag.len() == 0 || crate::text::str_eq(t, "bash") || crate::text::str_eq(t, "sh")
                    || crate::text::str_eq(t, "shell") {
                    in_shell = true;
                } else {
                    in_other = true;
                }
            }
            pending = None;
        } else if in_shell {
            let line: Vec<char> = if crate::text::starts_with(&trimmed, &prompt) {
                trim_vec(&slice_of(&trimmed, prompt.len(), trimmed.len()))
            } else {
                trimmed
            };
            let started: Option<(usize, String)> = match pending {
                Some((start, acc)) => {
                    let mut c = acc;
                    push_str(&mut c, " ");
                    push_str(&mut c, string_of(&line).as_str());
                    Some((start, c))
                },
                None => {
                    let is_rigg = match first_token(&line) {
                        Some(t) => crate::text::seq_eq(&t, &rigg),
                        None => false,
                    };
                    if is_rigg {
                        Some((line_no, string_of(&line)))
                    } else {
                        None
                    }
                },
            };
            pending = None;
            match started {
                None => {},
                Some((start, command)) => {
                    let cv = chars_of(command.as_str());
                    let bs = vec!['\\'];
                    assert(bs@ =~= "\\"@) by {
                        reveal_strlit("\\");
                    }
                    if crate::text::ends_with(&cv, &bs) {
                        let head = slice_of(&cv, 0, cv.len() - 1);
                        assert(head@ =~= cv@.drop_last());
                        pending = Some((start, string_of(&crate::text::trim_end_vec(&head))));
                    } else {
                        let c = strip_comment(command.as_str());
                        let cc = chars_of(c.as_str());
                        let tc = trim_vec(&cc);
                        let ell = vec!['\u{2026}'];
                        assert(ell@ =~= seq!['\u{2026}']);
                        let dots = chars_of("...");
                        let skip = tc.len() == 0 || crate::text::find_exec(&cc, &ell).is_some()
                            || crate::text::find_exec(&cc, &dots).is_some();
                        if !skip {
                            let ghost before = command_views(out@);
                            out.push((start, c));
                            assert(command_views(out@) =~= before.push((start as int, cc@)));
                        }
                    }
                },
            }
        }
        i += 1;
    }
    out
}

/// Shell plumbing: everything from the first such token on belongs to the
/// shell, not to rigg.
pub open spec fn is_shell_operator_spec(t: Seq<char>) -> bool {
    t == "|"@ || t == "||"@ || t == "&&"@ || t == ";"@ || t == ">"@ || t == ">>"@ || t == "<"@ || t == "2>"@
        || t == "2>&1"@ || t == "&"@
}

/// Whether a token is shell plumbing.
pub fn is_shell_operator(token: &str) -> (r: bool)
    ensures
        r == is_shell_operator_spec(token@),
{
    crate::text::str_eq(token, "|") || crate::text::str_eq(token, "||") || crate::text::str_eq(token, "&&")
        || crate::text::str_eq(token, ";") || crate::text::str_eq(token, ">") || crate::text::str_eq(
        token,
        ">>",
    ) || crate::text::str_eq(token, "<") || crate::text::str_eq(token, "2>") || crate::text::str_eq(
        token,
        "2>&1",
    ) || crate::text::str_eq(token, "&")
}

/// `<placeholder>`s replaced by `x`: any value parses.
pub open spec fn substitute_spec(s: Seq<char>) -> Seq<char>
    decreases s.len(),
{
    match crate::text::find(s, "<"@) {
        None => s,
        Some(o) => {
            proof {
                crate::text::lemma_find_spec(s, "<"@, 0);
                reveal_strlit("<");
            }
            let tail = s.subrange(o, s.len() as int);
            match crate::text::find(tail, ">"@) {
                None => s,
                Some(r) => {
                    proof {
                        crate::text::lemma_find_spec(tail, ">"@, 0);
                        reveal_strlit(">");
                    }
                    s.subrange(0, o) + "x"@ + substitute_spec(s.subrange(o + r + 1, s.len() as int))
                },
            }
        },
    }
}

/// `<placeholder>` stands for a value the reader supplies: replace each by
/// `x`.
pub fn substitute_placeholders(line: &str) -> (r: String)
    ensures
        r@ == substitute_spec(line@),
{
    let lt = chars_of("<");
    let gt = chars_of(">");
    proof {
        reveal_strlit("<");
        reveal_strlit(">");
    }
    let mut out = String::new();
    let mut rest = chars_of(line);
    loop
        invariant
            lt@ == "<"@,
            gt@ == ">"@,
            lt@.len() == 1,
            gt@.len() == 1,
            out@ + substitute_spec(rest@) == substitute_spec(line@),
        ensures
            out@ + rest@ == substitute_spec(line@),
        decreases rest@.len(),
    {
        let open = match crate::text::find_exec(&rest, &lt) {
            Some(o) => o,
            None => break,
        };
        proof {
            crate::text::lemma_find_spec(rest@, lt@, 0);
            assert(crate::text::occurs_at(rest@, lt@, open as int));
        }
        let tail = slice_of(&rest, open, rest.len());
        let rel = match crate::text::find_exec(&tail, &gt) {
            Some(r) => r,
            None => break,
        };
        proof {
            crate::text::lemma_find_spec(tail@, gt@, 0);
            assert(crate::text::occurs_at(tail@, gt@, rel as int));
        }
        push_str(&mut out, string_of_range(&rest, 0, open).as_str());
        push_char(&mut out, 'x');
        let next = slice_of(&rest, open + rel + 1, rest.len());
        proof {
            reveal_strlit("x");
        }
        rest = next;
    }
    push_str(&mut out, string_of(&rest).as_str());
    out
}

/// The words `shlex::split` finds in a text, or `None` when the text is
/// not valid shell syntax (an unbalanced quote, or a backslash at the
/// very end).
pub uninterp spec fn shlex_words(s: Seq<char>) -> Option<Seq<Seq<char>>>;

/// `shlex::split`: POSIX shell word splitting.
#[verifier::external_body]
fn shlex_split(s: &str) -> (r: Option<Vec<String>>)
    ensures
        match (r, shlex_words(s@)) {
            (Some(v), Some(w)) => views(v@) == w,
            (None, None) => true,
            _ => false,
        },
{
    shlex::split(s)
}

/// The index of the first shell operator among `ws[i..]`, or `ws.len()`.
pub open spec fn operator_at(ws: Seq<Seq<char>>, i: int) -> int
    decreases ws.len() - i,
{
    if i >= ws.len() {
        ws.len() as int
    } else if is_shell_operator_spec(ws[i]) {
        i
    } else {
        operator_at(ws, i + 1)
    }
}

proof fn lemma_operator_at(ws: Seq<Seq<char>>, i: int)
    requires
        0 <= i <= ws.len(),
    ensures
        i <= operator_at(ws, i) <= ws.len(),
    decreases ws.len() - i,
{
    if i < ws.len() && !is_shell_operator_spec(ws[i]) {
        lemma_operator_at(ws, i + 1);
    }
}

/// The tokens rigg's parser sees for a documented command: placeholders
/// replaced, split as the shell would, up to the first shell operator; or
/// the refusal for unbalanced quotes.
pub open spec fn command_tokens_spec(command: Seq<char>) -> Result<Seq<Seq<char>>, Seq<char>> {
    match shlex_words(substitute_spec(command)) {
        None => Err("unbalanced quotes in `"@ + command + "`"@),
        Some(ws) => Ok(ws.subrange(0, operator_at(ws, 0))),
    }
}

/// The tokens of a documented command (see `command_tokens_spec`).
pub fn command_tokens(command: &str) -> (r: Result<Vec<String>, String>)
    ensures
        match (r, command_tokens_spec(command@)) {
            (Ok(v), Ok(w)) => views(v@) == w,
            (Err(e), Err(m)) => e@ == m,
            _ => false,
        },
{
    let line = substitute_placeholders(command);
    let words = match shlex_split(line.as_str()) {
        Some(w) => w,
        None => {
            let mut e = copy_str("unbalanced quotes in `");
            push_str(&mut e, command);
            push_str(&mut e, "`");
            return Err(e);
        },
    };
    let ghost ws = views(words@);
    let mut out: Vec<String> = Vec::new();
    let mut i: usize = 0;
    proof {
        lemma_operator_at(ws, 0);
    }
    while i < words.len() && !is_shell_operator(words[i].as_str())
        invariant
            ws == views(words@),
            0 <= i <= words@.len(),
            operator_at(ws, 0) == operator_at(ws, i as int),
            out@.len() == i,
            forall|k: int| 0 <= k < i ==> #[trigger] out@[k]@ == ws[k],
        decreases words@.len() - i,
    {
        out.push(words[i].clone());
        i += 1;
    }
    assert(views(out@) =~= ws.subrange(0, operator_at(ws, 0)));
    Ok(out)
}

/// The first non-empty trimmed line of a message, or `could not be parsed`.
pub open spec fn first_nonempty(ls: Seq<Seq<char>>, i: int) -> Seq<char>
    decreases ls.len() - i,
{
    if i < 0 || i >= ls.len() {
        "could not be parsed"@
    } else if trim(ls[i]).len() > 0 {
        trim(ls[i])
    } else {
        first_nonempty(ls, i + 1)
    }
}

/// The first non-empty line of a (parser) message, trimmed.
pub fn one_line(message: &str) -> (r: String)
    ensures
        r@ == first_nonempty(lines_spec(message@), 0),
{
    let ls = lines(message);
    let ghost lv = views(ls@);
    let mut i: usize = 0;
    while i < ls.len()
        invariant
            lv == views(ls@),
            lv == lines_spec(message@),
            0 <= i <= ls@.len(),
            first_nonempty(lv, 0) == first_nonempty(lv, i as int),
        decreases ls@.len() - i,
    {
        let t = trim_str(ls[i].as_str());
        if t.as_str().unicode_len() > 0 {
            return t;
        }
        i += 1;
    }
    copy_str("could not be parsed")
}

/// `file` relative to `base`, as `Path::strip_prefix` computes it
/// (component by component), or `None` when `base` is not a prefix.
pub uninterp spec fn path_relative(file: Seq<char>, base: Seq<char>) -> Option<Seq<char>>;

/// `Path::strip_prefix`, displayed.
#[verifier::external_body]
fn strip_path_prefix(file: &str, base: &str) -> (r: Option<String>)
    ensures
        match (r, path_relative(file@, base@)) {
            (Some(a), Some(b)) => a@ == b,
            (None, None) => true,
            _ => false,
        },
{
    std::path::Path::new(file).strip_prefix(base).ok().map(|p| p.display().to_string())
}

/// How a documentation file is named in findings: relative to the
/// documentation root when it lies under it.
pub fn display_path(root: &str, file: &str) -> (r: String)
    ensures
        r@ == match path_relative(file@, root@) {
            Some(rel) => rel,
            None => file@,
        },
{
    match strip_path_prefix(file, root) {
        Some(rel) => rel,
        None => copy_str(file),
    }
}

// ---------------------------------------------------------------------------
// Link targets
// ---------------------------------------------------------------------------

/// From `cs[j]` on, at parenthesis depth `depth`, find the `)` that closes
/// a link target: its index and the target text collected on the way.
pub open spec fn paren_scan(cs: Seq<char>, j: int, depth: int, acc: Seq<char>) -> Option<(int, Seq<char>)>
    decreases cs.len() - j,
{
    if j < 0 || j >= cs.len() {
        None
    } else if cs[j] == '(' {
        paren_scan(cs, j + 1, depth + 1, acc.push('('))
    } else if cs[j] == ')' {
        if depth - 1 == 0 {
            Some((j, acc))
        } else {
            paren_scan(cs, j + 1, depth - 1, acc.push(')'))
        }
    } else {
        paren_scan(cs, j + 1, depth, acc.push(cs[j]))
    }
}

pub proof fn lemma_paren_scan_after(cs: Seq<char>, j: int, depth: int, acc: Seq<char>)
    ensures
        paren_scan(cs, j, depth, acc) matches Some((k, _)) ==> j <= k < cs.len(),
    decreases cs.len() - j,
{
    if 0 <= j < cs.len() {
        if cs[j] == '(' {
            lemma_paren_scan_after(cs, j + 1, depth + 1, acc.push('('));
        } else if cs[j] == ')' {
            if depth - 1 != 0 {
                lemma_paren_scan_after(cs, j + 1, depth - 1, acc.push(')'));
            }
        } else {
            lemma_paren_scan_after(cs, j + 1, depth, acc.push(cs[j]));
        }
    }
}

/// An angle bracket, trimmed from the ends of a target.
pub open spec fn is_angle(c: char) -> bool {
    c == '<' || c == '>'
}

/// `s` without leading angle brackets.
pub open spec fn trim_angle_start(s: Seq<char>) -> Seq<char>
    decreases s.len(),
{
    if s.len() > 0 && is_angle(s[0]) {
        trim_angle_start(s.drop_first())
    } else {
        s
    }
}

/// `s` without trailing angle brackets.
pub open spec fn trim_angle_end(s: Seq<char>) -> Seq<char>
    decreases s.len(),
{
    if s.len() > 0 && is_angle(s.last()) {
        trim_angle_end(s.drop_last())
    } else {
        s
    }
}

/// A link target without its title (`path "Title"`) and angle brackets.
pub open spec fn clean_target(t: Seq<char>) -> Seq<char> {
    let p = match crate::text::split_once(t, " \""@) {
        Some((p, _)) => p,
        None => t,
    };
    trim_angle_end(trim_angle_start(p))
}

/// The targets of `[text](target)` / `![alt](target)` links from `cs[i]` on.
pub open spec fn targets_from(cs: Seq<char>, i: int) -> Seq<Seq<char>>
    decreases cs.len() - i,
{
    if i < 0 || i + 1 >= cs.len() {
        Seq::empty()
    } else if cs[i] == ']' && cs[i + 1] == '(' {
        proof {
            lemma_paren_scan_after(cs, i + 2, 1, Seq::empty());
        }
        match paren_scan(cs, i + 2, 1, Seq::empty()) {
            Some((j, t)) => seq![clean_target(t)] + targets_from(cs, j + 1),
            None => targets_from(cs, i + 1),
        }
    } else {
        targets_from(cs, i + 1)
    }
}

/// The `(target)` of every link on a line.
pub open spec fn link_targets_spec(line: Seq<char>) -> Seq<Seq<char>> {
    targets_from(line, 0)
}

/// Scan for the closing `)` (see `paren_scan`).
fn scan_parens(cs: &Vec<char>, start: usize) -> (r: Option<(usize, Vec<char>)>)
    requires
        start >= 1,
    ensures
        match (r, paren_scan(cs@, start as int, 1, Seq::empty())) {
            (Some((j, t)), Some((k, u))) => j == k && t@ == u,
            (None, None) => true,
            _ => false,
        },
{
    let mut depth: usize = 1;
    let mut j = start;
    let mut target: Vec<char> = Vec::new();
    let n = cs.len();
    while j < n
        invariant
            n == cs@.len(),
            start >= 1,
            start <= j,
            1 <= depth <= j - start + 1,
            paren_scan(cs@, start as int, 1, Seq::empty()) == paren_scan(cs@, j as int, depth as int, target@),
        decreases cs@.len() - j,
    {
        let c = cs[j];
        if c == '(' {
            depth += 1;
            target.push('(');
        } else if c == ')' {
            if depth == 1 {
                return Some((j, target));
            }
            depth -= 1;
            target.push(')');
        } else {
            target.push(c);
        }
        j += 1;
    }
    None
}

/// `v` without leading or trailing angle brackets.
fn trim_angles(v: &Vec<char>) -> (r: Vec<char>)
    ensures
        r@ == trim_angle_end(trim_angle_start(v@)),
{
    let mut a: usize = 0;
    assert(v@.subrange(0, v@.len() as int) =~= v@);
    while a < v.len() && (v[a] == '<' || v[a] == '>')
        invariant
            a <= v@.len(),
            trim_angle_start(v@.subrange(a as int, v@.len() as int)) == trim_angle_start(v@),
        decreases v@.len() - a,
    {
        assert(v@.subrange(a as int, v@.len() as int).drop_first() =~= v@.subrange(a + 1, v@.len() as int));
        a += 1;
    }
    let ghost m = v@.subrange(a as int, v@.len() as int);
    assert(trim_angle_start(m) == m);
    let mut b: usize = v.len();
    assert(v@.subrange(a as int, b as int) =~= m);
    while b > a && (v[b - 1] == '<' || v[b - 1] == '>')
        invariant
            a <= b <= v@.len(),
            m == v@.subrange(a as int, v@.len() as int),
            trim_angle_end(v@.subrange(a as int, b as int)) == trim_angle_end(m),
        decreases b - a,
    {
        assert(v@.subrange(a as int, b as int).drop_last() =~= v@.subrange(a as int, b - 1));
        b -= 1;
    }
    slice_of(v, a, b)
}

/// The `(target)` of every `[text](target)` / `![alt](target)` on a line,
/// without titles.
pub fn link_targets(line: &str) -> (out: Vec<String>)
    ensures
        views(out@) == link_targets_spec(line@),
{
    let cs = chars_of(line);
    let sep = chars_of(" \"");
    let mut out: Vec<String> = Vec::new();
    let mut i: usize = 0;
    let n = cs.len();
    while n > 0 && i < n - 1
        invariant
            n == cs@.len(),
            i <= n,
            cs@ == line@,
            sep@ == " \""@,
            views(out@) + targets_from(cs@, i as int) == link_targets_spec(line@),
        decreases cs@.len() - i,
    {
        if cs[i] == ']' && cs[i + 1] == '(' {
            proof {
                lemma_paren_scan_after(cs@, i + 2, 1, Seq::empty());
            }
            match scan_parens(&cs, i + 2) {
                Some((j, target)) => {
                    let p = match crate::text::find_exec(&target, &sep) {
                        Some(k) => {
                            proof {
                                crate::text::lemma_find_spec(target@, sep@, 0);
                                assert(crate::text::occurs_at(target@, sep@, k as int));
                            }
                            slice_of(&target, 0, k)
                        },
                        None => target,
                    };
                    let t = trim_angles(&p);
                    let ghost before = views(out@);
                    out.push(string_of(&t));
                    assert(views(out@) =~= before.push(t@));
                    i = j + 1;
                    continue;
                },
                None => {},
            }
        }
        i += 1;
    }
    assert(targets_from(cs@, i as int) =~= Seq::<Seq<char>>::empty());
    assert(views(out@) =~= views(out@) + targets_from(cs@, i as int));
    out
}

// ---------------------------------------------------------------------------
// Which links are checked
// ---------------------------------------------------------------------------

/// What the link check does with one target.
#[derive(Debug, PartialEq, Eq)]
pub enum LinkCheck {
    /// Empty, external (`http(s)://`, `mailto:`, `tel:`, `//`): not checked.
    Skip,
    /// A relative path (empty for the same file) and its `#anchor`, if any.
    Check { path: String, anchor: Option<String> },
}

/// A target the link check leaves alone.
pub open spec fn skipped_target(t: Seq<char>) -> bool {
    t.len() == 0 || has_prefix(t, "http://"@) || has_prefix(t, "https://"@) || has_prefix(t, "mailto:"@)
        || has_prefix(t, "tel:"@) || has_prefix(t, "//"@)
}

/// How a link target is checked: skipped, or a path and optional anchor
/// split at the first `#`.
pub open spec fn link_check_spec(target: Seq<char>) -> Option<(Seq<char>, Option<Seq<char>>)> {
    let t = trim(target);
    if skipped_target(t) {
        None
    } else {
        match crate::text::split_once(t, "#"@) {
            Some((p, a)) => Some((p, Some(a))),
            None => Some((t, None)),
        }
    }
}

/// How a link target is checked.
pub fn link_check(target: &str) -> (r: LinkCheck)
    ensures
        match (r, link_check_spec(target@)) {
            (LinkCheck::Skip, None) => true,
            (LinkCheck::Check { path, anchor }, Some((p, a))) => path@ == p && match (anchor, a) {
                (Some(x), Some(y)) => x@ == y,
                (None, None) => true,
                _ => false,
            },
            _ => false,
        },
{
    let t = trim_vec(&chars_of(target));
    let starts = |p: &str| -> (b: bool)
        ensures
            b == has_prefix(t@, p@),
        { crate::text::starts_with(&t, &chars_of(p)) };
    if t.len() == 0 || starts("http://") || starts("https://") || starts("mailto:") || starts("tel:")
        || starts("//") {
        return LinkCheck::Skip;
    }
    let hash = chars_of("#");
    match crate::text::find_exec(&t, &hash) {
        Some(i) => {
            proof {
                crate::text::lemma_find_spec(t@, hash@, 0);
                assert(crate::text::occurs_at(t@, hash@, i as int));
            }
            let tl: usize = t.len();
            let hl: usize = hash.len();
            LinkCheck::Check {
                path: string_of_range(&t, 0, i),
                anchor: Some(string_of_range(&t, i + hl, tl)),
            }
        },
        None => LinkCheck::Check { path: string_of(&t), anchor: None },
    }
}

// ---------------------------------------------------------------------------
// Environment variable names in source text
// ---------------------------------------------------------------------------

/// A character of an environment variable name: ASCII uppercase, digit, `_`.
pub open spec fn env_name_char(c: char) -> bool {
    crate::text::is_upper(c) || is_digit(c) || c == '_'
}

/// The end of the name starting at `s[i]`.
pub open spec fn name_end(s: Seq<char>, i: int) -> int
    decreases s.len() - i,
{
    if i >= s.len() {
        s.len() as int
    } else if !env_name_char(s[i]) {
        i
    } else {
        name_end(s, i + 1)
    }
}

pub proof fn lemma_name_end(s: Seq<char>, i: int)
    requires
        0 <= i <= s.len(),
    ensures
        i <= name_end(s, i) <= s.len(),
    decreases s.len() - i,
{
    if i < s.len() && env_name_char(s[i]) {
        lemma_name_end(s, i + 1);
    }
}

/// The names that start with `prefix` in `s`: a prefixed run of uppercase
/// letters, digits and `_`, longer than the prefix and not ending in `_`.
pub open spec fn names_with_prefix(s: Seq<char>, prefix: Seq<char>) -> Seq<Seq<char>>
    decreases s.len(),
{
    match crate::text::find(s, prefix) {
        None => Seq::empty(),
        Some(at) => {
            proof {
                crate::text::lemma_find_spec(s, prefix, 0);
            }
            let tail = s.subrange(at, s.len() as int);
            proof {
                lemma_name_end(tail, 0);
            }
            let end = name_end(tail, 0);
            let name = tail.subrange(0, end);
            let step = if end > 1 {
                end
            } else {
                1
            };
            let more = if step <= tail.len() {
                names_with_prefix(tail.subrange(step, tail.len() as int), prefix)
            } else {
                Seq::empty()
            };
            if name.len() > prefix.len() && name.last() != '_' {
                seq![name] + more
            } else {
                more
            }
        },
    }
}

/// The `RIGG_*` and `AZURE_*` names a source text mentions.
pub open spec fn env_var_names_spec(text: Seq<char>) -> Seq<Seq<char>> {
    names_with_prefix(text, "RIGG_"@) + names_with_prefix(text, "AZURE_"@)
}

fn scan_prefix(text: &Vec<char>, prefix: &Vec<char>, out: &mut Vec<String>)
    requires
        prefix@.len() > 0,
    ensures
        views(final(out)@) == views(old(out)@) + names_with_prefix(text@, prefix@),
{
    let mut rest = text.clone();
    assert(rest@ =~= text@);
    loop
        invariant
            prefix@.len() > 0,
            views(out@) + names_with_prefix(rest@, prefix@) == views(old(out)@) + names_with_prefix(text@, prefix@),
        ensures
            views(out@) == views(old(out)@) + names_with_prefix(text@, prefix@),
        decreases rest@.len(),
    {
        let at = match crate::text::find_exec(&rest, prefix) {
            Some(a) => a,
            None => {
                assert(views(out@) + names_with_prefix(rest@, prefix@) =~= views(out@));
                break;
            },
        };
        proof {
            crate::text::lemma_find_spec(rest@, prefix@, 0);
            assert(crate::text::occurs_at(rest@, prefix@, at as int));
        }
        let rl: usize = rest.len();
        let tail = slice_of(&rest, at, rl);
        let mut end: usize = 0;
        proof {
            lemma_name_end(tail@, 0);
        }
        while end < tail.len() && (('A' <= tail[end] && tail[end] <= 'Z') || ('0' <= tail[end] && tail[end] <= '9') || tail[end] == '_')
            invariant
                end <= tail@.len(),
                name_end(tail@, 0) == name_end(tail@, end as int),
            decreases tail@.len() - end,
        {
            end += 1;
        }
        let name = slice_of(&tail, 0, end);
        let ghost more_start = views(out@);
        if name.len() > prefix.len() && name[name.len() - 1] != '_' {
            let ghost before = views(out@);
            out.push(string_of(&name));
            assert(views(out@) =~= before.push(name@));
        }
        let step = if end > 1 {
            end
        } else {
            1
        };
        let tl: usize = tail.len();
        assert(step <= tl);
        let next = slice_of(&tail, step, tl);
        proof {
            let more = names_with_prefix(next@, prefix@);
            if name@.len() > prefix@.len() && name@.last() != '_' {
                assert(names_with_prefix(rest@, prefix@) == seq![name@] + more);
                assert(views(out@) + more =~= more_start + names_with_prefix(rest@, prefix@));
            } else {
                assert(names_with_prefix(rest@, prefix@) == more);
            }
        }
        rest = next;
    }
}

/// The `RIGG_*` and `AZURE_*` identifiers a source text mentions (in order
/// of appearance per prefix; the same name may appear more than once).
pub fn env_var_names(text: &str) -> (r: Vec<String>)
    ensures
        views(r@) == env_var_names_spec(text@),
{
    let t = chars_of(text);
    let mut out: Vec<String> = Vec::new();
    let p1 = chars_of("RIGG_");
    let p2 = chars_of("AZURE_");
    proof {
        reveal_strlit("RIGG_");
        reveal_strlit("AZURE_");
    }
    scan_prefix(&t, &p1, &mut out);
    scan_prefix(&t, &p2, &mut out);
    assert(views(out@) =~= env_var_names_spec(text@));
    out
}

// ---------------------------------------------------------------------------
// Reference pages: what they fail to mention
// ---------------------------------------------------------------------------

/// The names a reference page's text does not mention, in order.
pub open spec fn undocumented(text: Seq<char>, names: Seq<Seq<char>>) -> Seq<Seq<char>>
    decreases names.len(),
{
    if names.len() == 0 {
        Seq::empty()
    } else {
        let rest = undocumented(text, names.drop_last());
        if crate::text::contains(text, names.last()) {
            rest
        } else {
            rest.push(names.last())
        }
    }
}

/// The finding for an environment variable the page does not document.
pub open spec fn env_var_finding(page: Seq<char>, name: Seq<char>) -> Seq<char> {
    page + ": `"@ + name + "` is read by the code but not documented"@
}

/// The finding for a question id prefix the page does not document.
pub open spec fn prefix_finding(page: Seq<char>, prefix: Seq<char>) -> Seq<char> {
    page + ": question id prefix `"@ + prefix + "` is not documented"@
}

/// Whether `text` mentions `name`.
fn mentions(text: &Vec<char>, name: &str) -> (r: bool)
    ensures
        r == crate::text::contains(text@, name@),
{
    crate::text::find_exec(text, &chars_of(name)).is_some()
}

/// One finding per environment variable the reference page's text does
/// not mention, in the order of `names`.
pub fn env_var_findings(page: &str, text: &str, names: &Vec<String>) -> (r: Vec<String>)
    ensures
        views(r@) == undocumented(text@, views(names@)).map_values(|n: Seq<char>| env_var_finding(page@, n)),
{
    let t = chars_of(text);
    let ghost ns = views(names@);
    let mut out: Vec<String> = Vec::new();
    let mut i: usize = 0;
    while i < names.len()
        invariant
            i <= names@.len(),
            t@ == text@,
            ns == views(names@),
            views(out@) == undocumented(text@, ns.take(i as int)).map_values(|n: Seq<char>| env_var_finding(page@, n)),
        decreases names@.len() - i,
    {
        assert(ns.take(i + 1).drop_last() =~= ns.take(i as int));
        assert(ns.take(i + 1).last() == names@[i as int]@);
        let ghost before = out@;
        if !mentions(&t, names[i].as_str()) {
            let mut f = copy_str(page);
            push_str(&mut f, ": `");
            push_str(&mut f, names[i].as_str());
            push_str(&mut f, "` is read by the code but not documented");
            out.push(f);
            assert(views(out@) =~= views(before).push(env_var_finding(page@, names@[i as int]@)));
        }
        assert(views(out@) =~= undocumented(text@, ns.take(i + 1)).map_values(|n: Seq<char>| env_var_finding(page@, n)));
        i = i + 1;
    }
    assert(ns.take(names@.len() as int) =~= ns);
    out
}

/// One finding per known question id prefix the reference page's text does
/// not mention.
pub fn question_prefix_findings(page: &str, text: &str) -> (r: Vec<String>)
    ensures
        views(r@) == undocumented(text@, known_id_prefixes()).map_values(|p: Seq<char>| prefix_finding(page@, p)),
{
    let t = chars_of(text);
    let ghost ps = known_id_prefixes();
    let mut out: Vec<String> = Vec::new();
    proof {
        assert(ps.drop_last() =~= Seq::<Seq<char>>::empty());
        assert(undocumented(text@, ps.drop_last()) =~= Seq::<Seq<char>>::empty());
        assert(ps.last() == "confirm.protected."@);
    }
    if !mentions(&t, "confirm.protected.") {
        let mut f = copy_str(page);
        push_str(&mut f, ": question id prefix `");
        push_str(&mut f, "confirm.protected.");
        push_str(&mut f, "` is not documented");
        out.push(f);
    }
    assert(views(out@) =~= undocumented(text@, ps).map_values(|p: Seq<char>| prefix_finding(page@, p)));
    out
}

} // verus!
