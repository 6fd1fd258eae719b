//! Renaming inside copied definitions: when a knowledge source is copied
//! under a new name, the names of the sub-resources it manages
//! (`createdResources`) and the index its skillset projects into follow.
use vstd::prelude::*;

use crate::commands::{renamed_managed, replace_first_spec};
use crate::diff_output::JsonValue;
use crate::json::{
    Json, jv, member, with_member, as_str, get, set_member, deep_copy, members_of, items_of,
    lemma_jv_unfold, string_value, lemma_member_of_with,
};
use crate::project_graph::name_of;
use crate::resources::{ResourceKind, kind_for_dir};
use crate::text::{copy_str, push_str, split_once, split_once_str};

verus! {

/// A string member value renamed; any other value as it is.
pub open spec fn renamed_entry(v: Json, source: Seq<char>, target: Seq<char>) -> Json {
    match v {
        Json::Str(x) => Json::Str(replace_first_spec(x, source, target)),
        _ => v,
    }
}

/// A `createdResources` block with every string value renamed (the first
/// `source` in it becomes `target`); anything but an object is left alone.
pub open spec fn cr_entries_spec(cr: Json, source: Seq<char>, target: Seq<char>) -> Json {
    match cr {
        Json::Obj(es) => Json::Obj(
            es.map_values(|e: (Seq<char>, Json)| (e.0, renamed_entry(e.1, source, target))),
        ),
        _ => cr,
    }
}

/// The parameter blocks that may carry a nested `createdResources`, in the
/// order they are tried.
pub open spec fn param_keys() -> Seq<Seq<char>> {
    seq![
        "azureBlobParameters"@,
        "azureTableParameters"@,
        "sharePointParameters"@,
        "indexedSharePointParameters"@,
        "indexedOneLakeParameters"@,
    ]
}

/// The nested rewrite, trying the parameter blocks from index `i` on: the
/// first block with a `createdResources` member is rewritten, and only it.
pub open spec fn rewrite_nested_spec(ks: Json, i: int, source: Seq<char>, target: Seq<char>) -> Json
    decreases param_keys().len() - i,
{
    if i < 0 || i >= param_keys().len() {
        ks
    } else {
        let key = param_keys()[i];
        match member(ks, key) {
            Some(params) => match member(params, "createdResources"@) {
                Some(cr) => with_member(
                    ks,
                    key,
                    with_member(params, "createdResources"@, cr_entries_spec(cr, source, target)),
                ),
                None => rewrite_nested_spec(ks, i + 1, source, target),
            },
            None => rewrite_nested_spec(ks, i + 1, source, target),
        }
    }
}

/// A knowledge source's definition with its `createdResources` renamed:
/// the top-level block when there is one, else the first parameter block's.
pub open spec fn rewrite_created_spec(ks: Json, source: Seq<char>, target: Seq<char>) -> Json {
    match member(ks, "createdResources"@) {
        Some(cr) => with_member(ks, "createdResources"@, cr_entries_spec(cr, source, target)),
        None => rewrite_nested_spec(ks, 0, source, target),
    }
}

/// The parameter block name at index `i`.
fn param_key(i: usize) -> (k: &'static str)
    requires
        i < 5,
    ensures
        k@ == param_keys()[i as int],
{
    if i == 0 {
        "azureBlobParameters"
    } else if i == 1 {
        "azureTableParameters"
    } else if i == 2 {
        "sharePointParameters"
    } else if i == 3 {
        "indexedSharePointParameters"
    } else {
        "indexedOneLakeParameters"
    }
}

/// Rename every string value of a `createdResources` block.
pub fn rewrite_cr_entries(cr: &JsonValue, source: &str, target: &str) -> (r: JsonValue)
    ensures
        jv(r) == cr_entries_spec(jv(*cr), source@, target@),
{
    proof {
        lemma_jv_unfold(*cr);
    }
    match cr {
        JsonValue::Object(o) => {
            let mut out: Vec<(String, JsonValue)> = Vec::new();
            let mut i: usize = 0;
            while i < o.len()
                invariant
                    i <= o@.len(),
                    out@.len() == i,
                    forall|j: int| 0 <= j < i ==> (#[trigger] out@[j]).0@ == o@[j].0@
                        && jv(out@[j].1) == renamed_entry(jv(o@[j].1), source@, target@),
                decreases o@.len() - i,
            {
                let k = copy_str(o[i].0.as_str());
                proof {
                    lemma_jv_unfold(o@[i as int].1);
                }
                let v = match &o[i].1 {
                    JsonValue::Str(x) => JsonValue::Str(renamed_managed(x.as_str(), source, target)),
                    other => deep_copy(other),
                };
                out.push((k, v));
                i = i + 1;
            }
            let r = JsonValue::Object(out);
            proof {
                lemma_jv_unfold(r);
                assert(members_of(out@) =~= members_of(o@).map_values(
                    |e: (Seq<char>, Json)| (e.0, renamed_entry(e.1, source@, target@)),
                ));
            }
            r
        },
        _ => deep_copy(cr),
    }
}

/// The nested rewrite from parameter block `i` on.
fn rewrite_nested(ks: JsonValue, i: usize, source: &str, target: &str) -> (r: JsonValue)
    requires
        i <= 5,
    ensures
        jv(r) == rewrite_nested_spec(jv(ks), i as int, source@, target@),
    decreases 5 - i,
{
    if i >= 5 {
        return ks;
    }
    let key = param_key(i);
    let found = match get(&ks, key) {
        Some(params) => match get(params, "createdResources") {
            Some(cr) => {
                let renamed = rewrite_cr_entries(cr, source, target);
                proof {
                    lemma_jv_unfold(*params);
                }
                let p = set_member(deep_copy(params), "createdResources", renamed);
                Some(p)
            },
            None => None,
        },
        None => None,
    };
    match found {
        Some(p) => {
            proof {
                lemma_jv_unfold(ks);
            }
            set_member(ks, key, p)
        },
        None => rewrite_nested(ks, i + 1, source, target),
    }
}

/// Rewrite the values of a knowledge source's `createdResources` block,
/// replacing the source name in each with the target name. The top-level
/// block is used when present, else the first parameter block that has one.
pub fn rewrite_created_resources(ks_def: &mut JsonValue, source: &str, target: &str)
    ensures
        jv(*final(ks_def)) == rewrite_created_spec(jv(*old(ks_def)), source@, target@),
{
    let mut ks = JsonValue::Null;
    std::mem::swap(&mut ks, ks_def);
    let top = match get(&ks, "createdResources") {
        Some(cr) => Some(rewrite_cr_entries(cr, source, target)),
        None => None,
    };
    *ks_def = match top {
        Some(renamed) => {
            proof {
                lemma_jv_unfold(ks);
            }
            set_member(ks, "createdResources", renamed)
        },
        None => rewrite_nested(ks, 0, source, target),
    };
}

/// A projection selector with its `targetIndexName` renamed, when it is an
/// object naming one.
pub open spec fn renamed_selector(x: Json, source: Seq<char>, target: Seq<char>) -> Json {
    match as_str(member(x, "targetIndexName"@)) {
        Some(n) => with_member(x, "targetIndexName"@, Json::Str(replace_first_spec(n, source, target))),
        None => x,
    }
}

/// A skillset with the target index of each of its projection selectors
/// renamed; a skillset without `indexProjections.selectors` as an array is
/// left alone.
pub open spec fn rewrite_projections_spec(sk: Json, source: Seq<char>, target: Seq<char>) -> Json {
    match member(sk, "indexProjections"@) {
        Some(ip) => match member(ip, "selectors"@) {
            Some(Json::Arr(xs)) => with_member(
                sk,
                "indexProjections"@,
                with_member(
                    ip,
                    "selectors"@,
                    Json::Arr(xs.map_values(|x: Json| renamed_selector(x, source, target))),
                ),
            ),
            _ => sk,
        },
        None => sk,
    }
}

/// One selector renamed.
fn rename_selector(x: &JsonValue, source: &str, target: &str) -> (r: JsonValue)
    ensures
        jv(r) == renamed_selector(jv(*x), source@, target@),
{
    match get(x, "targetIndexName") {
        Some(n) => {
            proof {
                lemma_jv_unfold(*n);
                lemma_jv_unfold(*x);
            }
            match n {
                JsonValue::Str(name) => {
                    let renamed = JsonValue::Str(renamed_managed(name.as_str(), source, target));
                    set_member(deep_copy(x), "targetIndexName", renamed)
                },
                _ => deep_copy(x),
            }
        },
        None => deep_copy(x),
    }
}

/// Rewrite `indexProjections.selectors[].targetIndexName` in a skillset
/// definition, replacing the source name in each with the target name.
pub fn rewrite_index_projections(skillset_def: &mut JsonValue, source: &str, target: &str)
    ensures
        jv(*final(skillset_def)) == rewrite_projections_spec(jv(*old(skillset_def)), source@, target@),
{
    let mut sk = JsonValue::Null;
    std::mem::swap(&mut sk, skillset_def);
    let mut new_ip: Option<JsonValue> = None;
    match get(&sk, "indexProjections") {
        Some(ip) => match get(ip, "selectors") {
            Some(sel) => {
                proof {
                    lemma_jv_unfold(*sel);
                    lemma_jv_unfold(*ip);
                }
                match sel {
                    JsonValue::Array(xs) => {
                        let mut out: Vec<JsonValue> = Vec::new();
                        let mut i: usize = 0;
                        while i < xs.len()
                            invariant
                                i <= xs@.len(),
                                out@.len() == i,
                                forall|j: int| 0 <= j < i ==> jv(#[trigger] out@[j])
                                    == renamed_selector(jv(xs@[j]), source@, target@),
                            decreases xs@.len() - i,
                        {
                            out.push(rename_selector(&xs[i], source, target));
                            i = i + 1;
                        }
                        let arr = JsonValue::Array(out);
                        proof {
                            lemma_jv_unfold(arr);
                            assert(items_of(out@) =~= items_of(xs@).map_values(
                                |x: Json| renamed_selector(x, source@, target@),
                            ));
                        }
                        new_ip = Some(set_member(deep_copy(ip), "selectors", arr));
                    },
                    _ => {},
                }
            },
            None => {},
        },
        None => {},
    }
    *skillset_def = match new_ip {
        Some(ip2) => {
            proof {
                lemma_jv_unfold(sk);
            }
            set_member(sk, "indexProjections", ip2)
        },
        None => sk,
    };
}

// ---------------------------------------------------------------------------
// rigg copy: naming the source, the target and the copy
// ---------------------------------------------------------------------------

/// What a copy source `[project:]<kind-dir>/<name>` names: the project
/// when given, the kind and the name; or why it is refused.
pub open spec fn copy_source_spec(source: Seq<char>) -> Result<(Option<Seq<char>>, ResourceKind, Seq<char>), Seq<char>> {
    let (hint, rest) = match split_once(source, ":"@) {
        Some((p, r)) => (Some(p), r),
        None => (None, source),
    };
    match split_once(rest, "/"@) {
        None => Err("source must be <kind-dir>/<name> (e.g. indexes/my-index)"@),
        Some((dir, name)) => match kind_for_dir(dir) {
            None => Err("unknown resource kind directory '"@ + dir + "'"@),
            Some(k) => Ok((hint, k, name)),
        },
    }
}

/// Parse a copy source `[project:]<kind-dir>/<name>`. Without a project
/// the caller looks for the project that holds the resource.
pub fn parse_copy_source(source: &str) -> (r: Result<(Option<String>, ResourceKind, String), String>)
    ensures
        match (r, copy_source_spec(source@)) {
            (Ok((h, k, n)), Ok((h2, k2, n2))) => k == k2 && n@ == n2 && match (h, h2) {
                (Some(a), Some(b)) => a@ == b,
                (None, None) => true,
                _ => false,
            },
            (Err(e), Err(m)) => e@ == m,
            _ => false,
        },
{
    let (hint, rest) = match split_once_str(source, ":") {
        Some((p, r)) => (Some(p), r),
        None => (None, copy_str(source)),
    };
    match split_once_str(rest.as_str(), "/") {
        None => Err(copy_str("source must be <kind-dir>/<name> (e.g. indexes/my-index)")),
        Some((dir, name)) => match ResourceKind::from_directory_name(dir.as_str()) {
            None => {
                let mut e = copy_str("unknown resource kind directory '");
                push_str(&mut e, dir.as_str());
                push_str(&mut e, "'");
                Err(e)
            },
            Some(k) => Ok((hint, k, name)),
        },
    }
}

/// What a copy target `[project:]<name>` names: the project when given,
/// and the new name.
pub fn parse_copy_target(target: &str) -> (r: (Option<String>, String))
    ensures
        match split_once(target@, ":"@) {
            Some((p, n)) => r.0 matches Some(q) && q@ == p && r.1@ == n,
            None => r.0 is None && r.1@ == target@,
        },
{
    match split_once_str(target, ":") {
        Some((p, n)) => (Some(p), n),
        None => (None, copy_str(target)),
    }
}

/// A copied definition takes its new name: an object's `name` member is
/// set; anything else is kept as it is.
pub open spec fn renamed_definition(def: Json, name: Seq<char>) -> Json {
    if def is Obj {
        with_member(def, "name"@, Json::Str(name))
    } else {
        def
    }
}

/// A copy reads back its new name: the name of a renamed definition is the
/// new name, and every other member reads as it did before.
pub proof fn law_renamed_copy_reads_its_name(def: Json, name: Seq<char>, k: Seq<char>)
    requires
        def is Obj,
    ensures
        name_of(renamed_definition(def, name)) == name,
        k != "name"@ ==> member(renamed_definition(def, name), k) == member(def, k),
{
    lemma_member_of_with(def, "name"@, Json::Str(name), "name"@);
    lemma_member_of_with(def, "name"@, Json::Str(name), k);
}

/// Give a copied definition its new name.
pub fn rename_definition(def: &mut JsonValue, name: &str)
    ensures
        jv(*final(def)) == renamed_definition(jv(*old(def)), name@),
{
    proof {
        lemma_jv_unfold(*def);
    }
    let is_object = match def {
        JsonValue::Object(_) => true,
        _ => false,
    };
    if is_object {
        let mut cur = JsonValue::Null;
        std::mem::swap(&mut cur, def);
        *def = set_member(cur, "name", string_value(name));
    }
}

} // verus!
