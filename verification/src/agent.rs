//! Reading the reply text out of an agent's response.
use vstd::prelude::*;

use crate::diff_output::JsonValue;
use crate::json::{Json, jv, member, as_str, str_member, array_member, items_of};
use crate::text::{copy_str, join, join_strings, str_eq, views};

verus! {

/// A content part that carries text: its `type` is `output_text` or
/// `text`, or it has no string `type`.
pub open spec fn is_text_part(c: Json) -> bool {
    match as_str(member(c, "type"@)) {
        Some(t) => t == "output_text"@ || t == "text"@,
        None => true,
    }
}

/// The texts of a list of content parts, in order.
pub open spec fn part_texts(cs: Seq<Json>) -> Seq<Seq<char>>
    decreases cs.len(),
{
    if cs.len() == 0 {
        Seq::empty()
    } else {
        let rest = part_texts(cs.drop_last());
        match as_str(member(cs.last(), "text"@)) {
            Some(t) => if is_text_part(cs.last()) {
                rest.push(t)
            } else {
                rest
            },
            None => rest,
        }
    }
}

/// The texts of the content of one output item.
pub open spec fn item_content_texts(item: Json) -> Seq<Seq<char>> {
    match member(item, "content"@) {
        Some(Json::Arr(cs)) => part_texts(cs),
        _ => Seq::empty(),
    }
}

/// The texts of a list of output items, in order.
pub open spec fn item_texts(items: Seq<Json>) -> Seq<Seq<char>>
    decreases items.len(),
{
    if items.len() == 0 {
        Seq::empty()
    } else {
        item_texts(items.drop_last()) + item_content_texts(items.last())
    }
}

/// The reply text of an OpenAI-shaped responses object: the convenience
/// `output_text` when present, else the text parts of `output[].content[]`
/// joined with newlines; `None` when there is none.
pub open spec fn reply_spec(result: Json) -> Option<Seq<char>> {
    match as_str(member(result, "output_text"@)) {
        Some(t) => Some(t),
        None => match member(result, "output"@) {
            Some(Json::Arr(items)) => {
                let parts = item_texts(items);
                if parts.len() == 0 {
                    None
                } else {
                    Some(join(parts, "\n"@))
                }
            },
            _ => None,
        },
    }
}

/// Append the text parts of one output item.
fn push_item_texts(item: &JsonValue, parts: &mut Vec<String>)
    ensures
        views(final(parts)@) == views(old(parts)@) + item_content_texts(jv(*item)),
{
    let ghost start = views(parts@);
    match array_member(item, "content") {
        Some(cs) => {
            let ghost xs = items_of(cs@);
            let mut k: usize = 0;
            while k < cs.len()
                invariant
                    k <= cs@.len(),
                    xs == items_of(cs@),
                    views(parts@) == start + part_texts(xs.take(k as int)),
                decreases cs@.len() - k,
            {
                assert(xs.take(k + 1).drop_last() =~= xs.take(k as int));
                assert(xs.take(k + 1).last() == jv(cs@[k as int]));
                let c = &cs[k];
                let is_text = match str_member(c, "type") {
                    Some(t) => str_eq(t, "output_text") || str_eq(t, "text"),
                    None => true,
                };
                let ghost before = parts@;
                if is_text {
                    match str_member(c, "text") {
                        Some(t) => {
                            parts.push(copy_str(t));
                            assert(views(parts@) =~= views(before).push(t@));
                        },
                        None => {},
                    }
                }
                assert(views(parts@) =~= start + part_texts(xs.take(k + 1)));
                k = k + 1;
            }
            assert(xs.take(cs@.len() as int) =~= xs);
        },
        None => {
            assert(views(parts@) =~= start + Seq::<Seq<char>>::empty());
        },
    }
}

/// Pull the reply text out of an OpenAI-shaped responses object: prefer
/// the convenience `output_text`, else collect the `output_text` entries
/// of `output[] → content[]`.
pub fn extract_reply(result: &JsonValue) -> (r: Option<String>)
    ensures
        match (r, reply_spec(jv(*result))) {
            (Some(s), Some(t)) => s@ == t,
            (None, None) => true,
            _ => false,
        },
{
    match str_member(result, "output_text") {
        Some(t) => return Some(copy_str(t)),
        None => {},
    }
    let items = match array_member(result, "output") {
        Some(a) => a,
        None => return None,
    };
    let ghost xs = items_of(items@);
    let mut parts: Vec<String> = Vec::new();
    let mut i: usize = 0;
    while i < items.len()
        invariant
            i <= items@.len(),
            xs == items_of(items@),
            views(parts@) == item_texts(xs.take(i as int)),
        decreases items@.len() - i,
    {
        assert(xs.take(i + 1).drop_last() =~= xs.take(i as int));
        assert(xs.take(i + 1).last() == jv(items@[i as int]));
        push_item_texts(&items[i], &mut parts);
        i = i + 1;
    }
    assert(xs.take(items@.len() as int) =~= xs);
    if parts.len() == 0 {
        None
    } else {
        Some(join_strings(&parts, "\n"))
    }
}

} // verus!
