//! What an indexer's run shows of its problems: its errors and warnings,
//! at most twenty of each, with the document each is about.
use vstd::prelude::*;

use crate::diff_output::JsonValue;
use crate::json::{Json, jv, member, as_str, get, str_member, array_member, items_of};
use crate::text::{copy_str, decimal, decimal_string, push_str};

verus! {

/// How a line of a run report is shown.
#[derive(Clone, Copy, Debug, PartialEq, Eq, Structural)]
pub enum Tone {
    Plain,
    Error,
    Warning,
}

/// The most problems of one kind a report lists.
pub open spec fn shown_limit() -> nat {
    20
}

/// A problem's message: `errorMessage` when the problem has one (`?` when
/// that is not a string), else `message`, else `?`.
pub open spec fn problem_message(it: Json) -> Seq<char> {
    match member(it, "errorMessage"@) {
        Some(Json::Str(s)) => s,
        Some(_) => "?"@,
        None => match as_str(member(it, "message"@)) {
            Some(s) => s,
            None => "?"@,
        },
    }
}

/// A problem's line: its message, behind the key of the document it is
/// about when it names one.
pub open spec fn problem_line(it: Json) -> Seq<char> {
    let doc = match as_str(member(it, "key"@)) {
        Some(s) => s,
        None => Seq::empty(),
    };
    if doc.len() == 0 {
        "    - "@ + problem_message(it)
    } else {
        "    - ["@ + doc + "] "@ + problem_message(it)
    }
}

/// The problems listed under member `key` of a run: a count line, the first
/// twenty in `tone`, and how many more there are; nothing when the member
/// is missing, is not an array, or is empty.
pub open spec fn problem_section(run: Json, label: Seq<char>, key: Seq<char>, tone: Tone) -> Seq<(Tone, Seq<char>)> {
    match member(run, key) {
        Some(Json::Arr(items)) => if items.len() == 0 {
            Seq::empty()
        } else {
            let n = if items.len() <= shown_limit() { items.len() } else { shown_limit() };
            seq![(Tone::Plain, "  "@ + decimal(items.len()) + " "@ + label + "(s):"@)] + items.take(n as int).map_values(
                |it: Json| (tone, problem_line(it)),
            ) + (if items.len() > shown_limit() {
                seq![(Tone::Plain, "    … and "@ + decimal((items.len() - shown_limit()) as nat) + " more"@)]
            } else {
                Seq::empty()
            })
        },
        _ => Seq::empty(),
    }
}

/// A run's errors, then its warnings.
pub open spec fn run_problem_lines(run: Json) -> Seq<(Tone, Seq<char>)> {
    problem_section(run, "error"@, "errors"@, Tone::Error) + problem_section(run, "warning"@, "warnings"@, Tone::Warning)
}

/// The lines as plain values.
pub open spec fn toned(v: Seq<(Tone, String)>) -> Seq<(Tone, Seq<char>)> {
    v.map_values(|l: (Tone, String)| (l.0, l.1@))
}

fn problem_message_of(it: &JsonValue) -> (r: String)
    ensures
        r@ == problem_message(jv(*it)),
{
    match get(it, "errorMessage") {
        Some(x) => match x {
            JsonValue::Str(s) => s.clone(),
            _ => copy_str("?"),
        },
        None => match str_member(it, "message") {
            Some(s) => copy_str(s),
            None => copy_str("?"),
        },
    }
}

fn problem_line_of(it: &JsonValue) -> (r: String)
    ensures
        r@ == problem_line(jv(*it)),
{
    let m = problem_message_of(it);
    let doc = match str_member(it, "key") {
        Some(s) => copy_str(s),
        None => String::new(),
    };
    if doc.as_str().is_empty() {
        let mut r = copy_str("    - ");
        push_str(&mut r, m.as_str());
        r
    } else {
        let mut r = copy_str("    - [");
        push_str(&mut r, doc.as_str());
        push_str(&mut r, "] ");
        push_str(&mut r, m.as_str());
        r
    }
}

fn problem_section_of(run: &JsonValue, label: &str, key: &str, tone: Tone) -> (r: Vec<(Tone, String)>)
    ensures
        toned(r@) == problem_section(jv(*run), label@, key@, tone),
{
    let mut out: Vec<(Tone, String)> = Vec::new();
    let items = match array_member(run, key) {
        Some(a) => a,
        None => {
            assert(toned(out@) =~= problem_section(jv(*run), label@, key@, tone));
            return out;
        },
    };
    let ghost xs = items_of(items@);
    if items.len() == 0 {
        assert(toned(out@) =~= problem_section(jv(*run), label@, key@, tone));
        return out;
    }
    let mut h = copy_str("  ");
    let d = decimal_string(items.len());
    push_str(&mut h, d.as_str());
    push_str(&mut h, " ");
    push_str(&mut h, label);
    push_str(&mut h, "(s):");
    out.push((Tone::Plain, h));
    let ghost head = toned(out@);
    let n: usize = if items.len() <= 20 { items.len() } else { 20 };
    let mut j: usize = 0;
    while j < n
        invariant
            n <= items@.len(),
            j <= n,
            xs == items_of(items@),
            toned(out@) == head + xs.take(j as int).map_values(|it: Json| (tone, problem_line(it))),
        decreases n - j,
    {
        let ghost before = toned(out@);
        out.push((tone, problem_line_of(&items[j])));
        proof {
            assert(toned(out@) =~= before.push((tone, problem_line(xs[j as int]))));
            assert(xs.take(j + 1).map_values(|it: Json| (tone, problem_line(it))) =~= xs.take(j as int).map_values(
                |it: Json| (tone, problem_line(it)),
            ).push((tone, problem_line(xs[j as int]))));
        }
        j += 1;
    }
    let ghost body = toned(out@);
    if items.len() > 20 {
        let mut t = copy_str("    … and ");
        let d = decimal_string(items.len() - 20);
        push_str(&mut t, d.as_str());
        push_str(&mut t, " more");
        out.push((Tone::Plain, t));
    }
    proof {
        let tail: Seq<(Tone, Seq<char>)> = if xs.len() > shown_limit() {
            seq![(Tone::Plain, "    … and "@ + decimal((xs.len() - shown_limit()) as nat) + " more"@)]
        } else {
            Seq::empty()
        };
        assert(toned(out@) =~= body + tail);
        assert(toned(out@) =~= problem_section(jv(*run), label@, key@, tone));
    }
    out
}

/// The problems of an indexer run (its `errors`, then its `warnings`), as
/// the lines that show them: each kind under a count, twenty at most, each
/// as `- [document key] message`, then how many more there are.
pub fn run_problems(run: &JsonValue) -> (r: Vec<(Tone, String)>)
    ensures
        toned(r@) == run_problem_lines(jv(*run)),
{
    let mut out = problem_section_of(run, "error", "errors", Tone::Error);
    let ghost a = toned(out@);
    let mut w = problem_section_of(run, "warning", "warnings", Tone::Warning);
    let ghost b = toned(w@);
    out.append(&mut w);
    assert(toned(out@) =~= a + b);
    out
}

} // verus!
