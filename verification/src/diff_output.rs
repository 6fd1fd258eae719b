//! Human-readable diff output: one line per change, previews of JSON
//! values, and a report over many resources.
use vstd::prelude::*;
use vstd::string::StringSliceAdditionalSpecFns;
use vstd::utf8::{decode_utf8, encode_utf8, is_char_boundary};

use crate::text::{copy_str, decimal, decimal_string, join, join_strings, push_str, views};

verus! {

/// A JSON value, as the diff engine compares it. Numbers are carried as
/// their display text; an object's keys are distinct.
#[derive(Debug, PartialEq)]
pub enum JsonValue {
    Null,
    Bool(bool),
    Number(String),
    Str(String),
    Array(Vec<JsonValue>),
    Object(Vec<(String, JsonValue)>),
}

/// How a value changed at a path.
#[derive(Clone, Copy, Debug, PartialEq, Eq, Structural)]
pub enum ChangeKind {
    Added,
    Removed,
    Modified,
}

/// One difference between two documents.
#[derive(Debug, PartialEq)]
pub struct Change {
    /// Dotted path of the value that differs.
    pub path: String,
    pub kind: ChangeKind,
    pub old_value: Option<JsonValue>,
    pub new_value: Option<JsonValue>,
    /// A higher layer's description, used verbatim when set.
    pub description: Option<String>,
}

/// The outcome of comparing two documents.
#[derive(Debug, PartialEq)]
pub struct DiffResult {
    pub is_equal: bool,
    pub changes: Vec<Change>,
}

/// Output format options.
#[derive(Clone, Copy, Debug, PartialEq, Eq, Structural)]
pub enum OutputFormat {
    Text,
    Json,
}

/// A scalar: not an array or object.
pub open spec fn is_simple_spec(v: JsonValue) -> bool {
    !(v is Array) && !(v is Object)
}

/// Byte length above which a string preview is truncated.
pub open spec fn long_string_bytes() -> nat {
    500
}

/// A string can be previewed: when it is long, the cut after 497 bytes
/// falls on a character boundary.
pub open spec fn str_previewable(s: Seq<char>) -> bool {
    byte_len(s) > 500 ==> is_char_boundary(encode_utf8(s), 497)
}

/// The UTF-8 length of a string, as `str::len` reports it.
pub open spec fn byte_len(s: Seq<char>) -> usize {
    encode_utf8(s).len() as usize
}

/// The preview of a string.
pub open spec fn str_preview(s: Seq<char>) -> Seq<char> {
    let b = encode_utf8(s);
    if byte_len(s) > 500 {
        "\""@ + decode_utf8(b.subrange(0, 497)) + "...\" ("@ + decimal(byte_len(s) as nat) + " chars)"@
    } else {
        "\""@ + s + "\""@
    }
}

/// The preview of a scalar.
pub open spec fn simple_preview(v: JsonValue) -> Seq<char> {
    match v {
        JsonValue::Null => "null"@,
        JsonValue::Bool(b) => if b {
            "true"@
        } else {
            "false"@
        },
        JsonValue::Number(n) => n@,
        JsonValue::Str(s) => str_preview(s@),
        _ => Seq::empty(),
    }
}

/// An array short and simple enough to show its items.
pub open spec fn shows_items(a: Seq<JsonValue>) -> bool {
    a.len() <= 3 && forall|i: int| 0 <= i < a.len() ==> is_simple_spec(#[trigger] a[i])
}

/// The preview of a value.
pub open spec fn value_preview(v: JsonValue) -> Seq<char> {
    match v {
        JsonValue::Array(a) => if a@.len() == 0 {
            "[]"@
        } else if shows_items(a@) {
            "["@ + join(a@.map_values(|e: JsonValue| simple_preview(e)), ", "@) + "]"@
        } else {
            "["@ + decimal(a@.len()) + " items]"@
        },
        JsonValue::Object(o) => "{...} ("@ + decimal(o@.len()) + " keys)"@,
        _ => simple_preview(v),
    }
}

/// The preview of an optional value.
pub open spec fn option_preview(v: Option<JsonValue>) -> Seq<char> {
    match v {
        None => "(none)"@,
        Some(x) => value_preview(x),
    }
}

/// A value whose preview is defined (see `str_previewable`).
pub open spec fn previewable(v: JsonValue) -> bool {
    match v {
        JsonValue::Str(s) => str_previewable(s@),
        JsonValue::Array(a) => shows_items(a@) ==> forall|i: int|
            0 <= i < a@.len() ==> (#[trigger] a@[i] matches JsonValue::Str(s) ==> str_previewable(s@)),
        _ => true,
    }
}

/// An optional value whose preview is defined.
pub open spec fn option_previewable(v: Option<JsonValue>) -> bool {
    match v {
        None => true,
        Some(x) => previewable(x),
    }
}

/// Check if a value is a simple scalar (not array or object).
pub fn is_simple_value(v: &JsonValue) -> (b: bool)
    ensures
        b == is_simple_spec(*v),
{
    match v {
        JsonValue::Array(_) | JsonValue::Object(_) => false,
        _ => true,
    }
}

/// The preview of a string.
fn preview_str(s: &String) -> (r: String)
    requires
        str_previewable(s@),
    ensures
        r@ == str_preview(s@),
{
    let t = s.as_str();
    let n = t.len();
    if n > 500 {
        let (head, _) = t.split_at(497);
        proof {
            vstd::utf8::encode_utf8_decode_utf8(head@);
            assert(t@ == s@);
            assert(head.spec_bytes() == encode_utf8(s@).subrange(0, 497));
            assert(head@ == decode_utf8(encode_utf8(s@).subrange(0, 497)));
        }
        let mut r = copy_str("\"");
        push_str(&mut r, head);
        push_str(&mut r, "...\" (");
        let d = decimal_string(n);
        push_str(&mut r, d.as_str());
        push_str(&mut r, " chars)");
        r
    } else {
        let mut r = copy_str("\"");
        push_str(&mut r, t);
        push_str(&mut r, "\"");
        r
    }
}

/// The preview of a scalar.
fn preview_simple(v: &JsonValue) -> (r: String)
    requires
        is_simple_spec(*v),
        previewable(*v),
    ensures
        r@ == simple_preview(*v),
{
    match v {
        JsonValue::Null => copy_str("null"),
        JsonValue::Bool(b) => if *b {
            copy_str("true")
        } else {
            copy_str("false")
        },
        JsonValue::Number(n) => n.clone(),
        JsonValue::Str(s) => preview_str(s),
        _ => String::new(),
    }
}

/// Create a human-readable preview of a JSON value.
pub fn format_value_preview(value: Option<&JsonValue>) -> (r: String)
    requires
        match value {
            None => true,
            Some(v) => previewable(*v),
        },
    ensures
        r@ == match value {
            None => "(none)"@,
            Some(v) => value_preview(*v),
        },
{
    match value {
        None => copy_str("(none)"),
        Some(JsonValue::Array(a)) => {
            if a.len() == 0 {
                copy_str("[]")
            } else {
                let mut simple = a.len() <= 3;
                let mut i: usize = 0;
                while i < a.len()
                    invariant
                        0 <= i <= a@.len(),
                        simple == (a@.len() <= 3 && forall|k: int| 0 <= k < i ==> is_simple_spec(#[trigger] a@[k])),
                    decreases a@.len() - i,
                {
                    if !is_simple_value(&a[i]) {
                        simple = false;
                    }
                    i += 1;
                }
                if simple {
                    let mut items: Vec<String> = Vec::new();
                    let mut j: usize = 0;
                    while j < a.len()
                        invariant
                            0 <= j <= a@.len(),
                            shows_items(a@),
                            previewable(JsonValue::Array(*a)),
                            items@.len() == j,
                            forall|k: int| 0 <= k < j ==> #[trigger] items@[k]@ == simple_preview(a@[k]),
                        decreases a@.len() - j,
                    {
                        assert(is_simple_spec(a@[j as int]));
                        items.push(preview_simple(&a[j]));
                        j += 1;
                    }
                    assert(views(items@) =~= a@.map_values(|e: JsonValue| simple_preview(e)));
                    let mut r = copy_str("[");
                    let joined = join_strings(&items, ", ");
                    push_str(&mut r, joined.as_str());
                    push_str(&mut r, "]");
                    r
                } else {
                    let mut r = copy_str("[");
                    let d = decimal_string(a.len());
                    push_str(&mut r, d.as_str());
                    push_str(&mut r, " items]");
                    r
                }
            }
        },
        Some(JsonValue::Object(o)) => {
            let mut r = copy_str("{...} (");
            let d = decimal_string(o.len());
            push_str(&mut r, d.as_str());
            push_str(&mut r, " keys)");
            r
        },
        Some(v) => preview_simple(v),
    }
}

/// A change whose values can be previewed.
pub open spec fn change_previewable(c: Change) -> bool {
    option_previewable(c.old_value) && option_previewable(c.new_value)
}

/// The line a change reads as.
pub open spec fn change_text(c: Change) -> Seq<char> {
    match c.description {
        Some(d) => "  "@ + d@ + "\n"@,
        None => match c.kind {
            ChangeKind::Added => "  + "@ + c.path@ + ": "@ + option_preview(c.new_value) + "\n"@,
            ChangeKind::Removed => "  - "@ + c.path@ + ": "@ + option_preview(c.old_value) + "\n"@,
            ChangeKind::Modified => "  ~ "@ + c.path@ + ": was "@ + option_preview(c.old_value) + ", now "@
                + option_preview(c.new_value) + "\n"@,
        },
    }
}

/// The preview of an optional value (reference form).
fn preview_option(v: &Option<JsonValue>) -> (r: String)
    requires
        option_previewable(*v),
    ensures
        r@ == option_preview(*v),
{
    match v {
        None => format_value_preview(None),
        Some(x) => format_value_preview(Some(x)),
    }
}

/// The line a change reads as: the description when a higher layer set
/// one, else `+`, `-` or `~` with previews of the values.
pub fn format_change_text(change: &Change) -> (r: String)
    requires
        change.description is None ==> change_previewable(*change),
    ensures
        r@ == change_text(*change),
{
    if let Some(d) = &change.description {
        let mut r = copy_str("  ");
        push_str(&mut r, d.as_str());
        push_str(&mut r, "\n");
        return r;
    }
    match change.kind {
        ChangeKind::Added => {
            let v = preview_option(&change.new_value);
            let mut r = copy_str("  + ");
            push_str(&mut r, change.path.as_str());
            push_str(&mut r, ": ");
            push_str(&mut r, v.as_str());
            push_str(&mut r, "\n");
            r
        },
        ChangeKind::Removed => {
            let v = preview_option(&change.old_value);
            let mut r = copy_str("  - ");
            push_str(&mut r, change.path.as_str());
            push_str(&mut r, ": ");
            push_str(&mut r, v.as_str());
            push_str(&mut r, "\n");
            r
        },
        ChangeKind::Modified => {
            let o = preview_option(&change.old_value);
            let n = preview_option(&change.new_value);
            let mut r = copy_str("  ~ ");
            push_str(&mut r, change.path.as_str());
            push_str(&mut r, ": was ");
            push_str(&mut r, o.as_str());
            push_str(&mut r, ", now ");
            push_str(&mut r, n.as_str());
            push_str(&mut r, "\n");
            r
        },
    }
}

/// Every change of a result can be rendered.
pub open spec fn result_renderable(r: DiffResult) -> bool {
    forall|i: int| 0 <= i < r.changes@.len() ==> (#[trigger] r.changes@[i]).description is None ==> change_previewable(
        r.changes@[i],
    )
}

/// The lines of the first `k` changes.
pub open spec fn changes_text(cs: Seq<Change>, k: int) -> Seq<char>
    decreases k,
{
    if k <= 0 {
        Seq::empty()
    } else {
        changes_text(cs, k - 1) + change_text(cs[k - 1])
    }
}

/// The text of one resource's diff.
pub open spec fn result_text(r: DiffResult, name: Seq<char>) -> Seq<char> {
    if r.is_equal {
        name + ": no changes\n"@
    } else {
        name + ": "@ + decimal(r.changes@.len()) + " change(s)\n"@ + changes_text(r.changes@, r.changes@.len() as int)
    }
}

/// Format a diff result as human-readable text.
pub fn format_text(result: &DiffResult, resource_name: &str) -> (r: String)
    requires
        result_renderable(*result),
    ensures
        r@ == result_text(*result, resource_name@),
{
    if result.is_equal {
        let mut r = copy_str(resource_name);
        push_str(&mut r, ": no changes\n");
        return r;
    }
    let mut out = copy_str(resource_name);
    push_str(&mut out, ": ");
    let d = decimal_string(result.changes.len());
    push_str(&mut out, d.as_str());
    push_str(&mut out, " change(s)\n");
    let ghost head = out@;
    let mut i: usize = 0;
    while i < result.changes.len()
        invariant
            0 <= i <= result.changes@.len(),
            result_renderable(*result),
            out@ == head + changes_text(result.changes@, i as int),
        decreases result.changes@.len() - i,
    {
        let line = format_change_text(&result.changes[i]);
        push_str(&mut out, line.as_str());
        i += 1;
    }
    out
}

/// Every diff of a report can be rendered.
pub open spec fn report_renderable(diffs: Seq<(String, DiffResult)>) -> bool {
    forall|i: int| 0 <= i < diffs.len() ==> result_renderable(#[trigger] diffs[i].1)
}

/// The changed resources among the first `k` diffs, in order.
pub open spec fn changed_upto(diffs: Seq<(String, DiffResult)>, k: int) -> Seq<(String, DiffResult)>
    decreases k,
{
    if k <= 0 {
        Seq::empty()
    } else if !diffs[k - 1].1.is_equal {
        changed_upto(diffs, k - 1).push(diffs[k - 1])
    } else {
        changed_upto(diffs, k - 1)
    }
}

/// The texts of the first `k` changed resources, each followed by a blank
/// line.
pub open spec fn changed_texts(changed: Seq<(String, DiffResult)>, k: int) -> Seq<char>
    decreases k,
{
    if k <= 0 {
        Seq::empty()
    } else {
        changed_texts(changed, k - 1) + result_text(changed[k - 1].1, changed[k - 1].0@) + "\n"@
    }
}

/// The text report over many resources.
pub open spec fn report_text(diffs: Seq<(String, DiffResult)>) -> Seq<char> {
    let changed = changed_upto(diffs, diffs.len() as int);
    let unchanged = diffs.len() - changed.len();
    if changed.len() == 0 {
        "No changes detected.\n"@
    } else {
        "Found "@ + decimal(changed.len()) + " resource(s) with changes:\n\n"@ + changed_texts(
            changed,
            changed.len() as int,
        ) + if unchanged > 0 {
            decimal(unchanged as nat) + " resource(s) unchanged.\n"@
        } else {
            Seq::empty()
        }
    }
}

proof fn lemma_changed_len(diffs: Seq<(String, DiffResult)>, k: int)
    requires
        0 <= k <= diffs.len(),
    ensures
        changed_upto(diffs, k).len() <= k,
        forall|i: int| 0 <= i < changed_upto(diffs, k).len() ==> report_renderable(diffs) ==> result_renderable(
            #[trigger] changed_upto(diffs, k)[i].1,
        ),
    decreases k,
{
    if k > 0 {
        lemma_changed_len(diffs, k - 1);
        let prev = changed_upto(diffs, k - 1);
        if !diffs[k - 1].1.is_equal {
            assert forall|i: int| 0 <= i < changed_upto(diffs, k).len() implies report_renderable(diffs) ==> result_renderable(
                #[trigger] changed_upto(diffs, k)[i].1,
            ) by {
                if i < prev.len() {
                    assert(changed_upto(diffs, k)[i] == prev[i]);
                }
            }
        }
    }
}

/// The text report over many resources: the changed ones in order, then a
/// count of the unchanged.
pub fn format_report_text(diffs: &[(String, DiffResult)]) -> (r: String)
    requires
        report_renderable(diffs@),
    ensures
        r@ == report_text(diffs@),
{
    let mut n_changed: usize = 0;
    let mut i: usize = 0;
    while i < diffs.len()
        invariant
            0 <= i <= diffs@.len(),
            n_changed == changed_upto(diffs@, i as int).len(),
            n_changed <= i,
        decreases diffs@.len() - i,
    {
        proof {
            lemma_changed_len(diffs@, i + 1);
        }
        if !diffs[i].1.is_equal {
            n_changed += 1;
        }
        i += 1;
    }
    if n_changed == 0 {
        return copy_str("No changes detected.\n");
    }
    let mut out = copy_str("Found ");
    let d = decimal_string(n_changed);
    push_str(&mut out, d.as_str());
    push_str(&mut out, " resource(s) with changes:\n\n");
    let ghost head = out@;
    let ghost changed = changed_upto(diffs@, diffs@.len() as int);
    proof {
        lemma_changed_len(diffs@, diffs@.len() as int);
    }
    let mut j: usize = 0;
    let mut seen: usize = 0;
    while j < diffs.len()
        invariant
            0 <= j <= diffs@.len(),
            report_renderable(diffs@),
            changed == changed_upto(diffs@, diffs@.len() as int),
            seen == changed_upto(diffs@, j as int).len(),
            seen <= j,
            changed_upto(diffs@, j as int) == changed.subrange(0, seen as int),
            seen <= changed.len(),
            out@ == head + changed_texts(changed, seen as int),
        decreases diffs@.len() - j,
    {
        proof {
            lemma_changed_prefix(diffs@, j as int + 1, diffs@.len() as int);
            lemma_changed_len(diffs@, j + 1);
        }
        if !diffs[j].1.is_equal {
            proof {
                let cj = changed_upto(diffs@, j + 1);
                assert(cj == changed_upto(diffs@, j as int).push(diffs@[j as int]));
                assert(cj[seen as int] == diffs@[j as int]);
                assert(cj == changed.subrange(0, cj.len() as int));
                assert(cj.len() == seen + 1);
                assert(changed.subrange(0, cj.len() as int)[seen as int] == changed[seen as int]);
                assert(changed[seen as int] == diffs@[j as int]);
            }
            let t = format_text(&diffs[j].1, diffs[j].0.as_str());
            push_str(&mut out, t.as_str());
            push_str(&mut out, "\n");
            seen += 1;
        }
        j += 1;
    }
    assert(changed.subrange(0, seen as int) =~= changed);
    let unchanged = diffs.len() - n_changed;
    if unchanged > 0 {
        let u = decimal_string(unchanged);
        push_str(&mut out, u.as_str());
        push_str(&mut out, " resource(s) unchanged.\n");
    }
    out
}

/// The changed resources of a prefix are a prefix of the changed resources.
proof fn lemma_changed_prefix(diffs: Seq<(String, DiffResult)>, k: int, n: int)
    requires
        0 <= k <= n <= diffs.len(),
    ensures
        changed_upto(diffs, k).len() <= changed_upto(diffs, n).len(),
        changed_upto(diffs, k) == changed_upto(diffs, n).subrange(0, changed_upto(diffs, k).len() as int),
    decreases n - k,
{
    if k < n {
        lemma_changed_prefix(diffs, k, n - 1);
        let a = changed_upto(diffs, n - 1);
        let b = changed_upto(diffs, n);
        if !diffs[n - 1].1.is_equal {
            assert(b.subrange(0, changed_upto(diffs, k).len() as int) =~= a.subrange(
                0,
                changed_upto(diffs, k).len() as int,
            ));
        }
    } else {
        assert(changed_upto(diffs, k).subrange(0, changed_upto(diffs, k).len() as int) =~= changed_upto(diffs, k));
    }
}

/// One row of the JSON report: a resource, whether it changed, and its
/// changes.
#[derive(Debug)]
pub struct ReportRow<'a> {
    pub resource: &'a String,
    pub changed: bool,
    pub changes: &'a Vec<Change>,
}

/// A formatted report: text, or the rows a JSON report serializes.
#[derive(Debug)]
pub enum ReportOutput<'a> {
    Text(String),
    Json(Vec<ReportRow<'a>>),
}

/// Format a full diff report for multiple resources. JSON rows are handed
/// back for the caller to serialize.
pub fn format_report<'a>(diffs: &'a [(String, DiffResult)], format: OutputFormat) -> (r: ReportOutput<'a>)
    requires
        format == OutputFormat::Text ==> report_renderable(diffs@),
    ensures
        format == OutputFormat::Text ==> (r matches ReportOutput::Text(t) && t@ == report_text(diffs@)),
        format == OutputFormat::Json ==> (r matches ReportOutput::Json(rows) && rows@.len() == diffs@.len()
            && forall|i: int| 0 <= i < rows@.len() ==> {
                &&& *(#[trigger] rows@[i]).resource == diffs@[i].0
                &&& rows@[i].changed == !diffs@[i].1.is_equal
                &&& *rows@[i].changes == diffs@[i].1.changes
            }),
{
    match format {
        OutputFormat::Text => ReportOutput::Text(format_report_text(diffs)),
        OutputFormat::Json => {
            let mut rows: Vec<ReportRow<'a>> = Vec::new();
            let mut i: usize = 0;
            while i < diffs.len()
                invariant
                    0 <= i <= diffs@.len(),
                    rows@.len() == i,
                    forall|k: int| 0 <= k < i ==> {
                        &&& *(#[trigger] rows@[k]).resource == diffs@[k].0
                        &&& rows@[k].changed == !diffs@[k].1.is_equal
                        &&& *rows@[k].changes == diffs@[k].1.changes
                    },
                decreases diffs@.len() - i,
            {
                let d = &diffs[i];
                rows.push(ReportRow { resource: &d.0, changed: !d.1.is_equal, changes: &d.1.changes });
                i += 1;
            }
            ReportOutput::Json(rows)
        },
    }
}

} // verus!
