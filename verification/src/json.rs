//! A mathematical model of JSON documents and the document operations the
//! commands perform on resource definitions: reading a member, setting one,
//! and copying a value.
//!
//! `Json` is the model: objects are sequences of `(key, value)` members,
//! looked up by the first member with the key (a document read from disk has
//! distinct keys, so that is the only one). `jv` views an executable
//! `JsonValue` as its model.
use vstd::prelude::*;

use crate::diff_output::JsonValue;
use crate::text::{copy_str, str_eq};

verus! {

broadcast use vstd::std_specs::vec::axiom_vec_index_decreases;

/// A JSON document as a mathematical value.
#[verifier::ext_equal]
pub enum Json {
    Null,
    Bool(bool),
    Num(Seq<char>),
    Str(Seq<char>),
    Arr(Seq<Json>),
    Obj(Seq<(Seq<char>, Json)>),
}

/// The model of an executable JSON value.
pub open spec fn jv(v: JsonValue) -> Json
    decreases v,
{
    match v {
        JsonValue::Null => Json::Null,
        JsonValue::Bool(b) => Json::Bool(b),
        JsonValue::Number(n) => Json::Num(n@),
        JsonValue::Str(s) => Json::Str(s@),
        JsonValue::Array(a) => Json::Arr(
            Seq::new(a@.len(), |i: int| if 0 <= i < a@.len() { jv(a@[i]) } else { Json::Null }),
        ),
        JsonValue::Object(o) => Json::Obj(
            Seq::new(
                o@.len(),
                |i: int| if 0 <= i < o@.len() { (o@[i].0@, jv(o@[i].1)) } else { (Seq::empty(), Json::Null) },
            ),
        ),
    }
}

/// The first index at or after `from` of a member keyed `k`, or -1.
pub open spec fn find_key(es: Seq<(Seq<char>, Json)>, k: Seq<char>, from: int) -> int
    decreases es.len() - from,
{
    if from < 0 || from >= es.len() {
        -1
    } else if es[from].0 == k {
        from
    } else {
        find_key(es, k, from + 1)
    }
}

/// The value of member `k` of an object (`value.get(k)`); `None` for a
/// missing member or a value that is not an object.
pub open spec fn member(j: Json, k: Seq<char>) -> Option<Json> {
    match j {
        Json::Obj(es) => {
            let i = find_key(es, k, 0);
            if i >= 0 {
                Some(es[i].1)
            } else {
                None
            }
        },
        _ => None,
    }
}

/// `j` with member `k` set to `v` (`value[k] = v`): an existing member is
/// replaced where it stands, a new one is added at the end, and `null`
/// becomes an object first.
pub open spec fn with_member(j: Json, k: Seq<char>, v: Json) -> Json {
    match j {
        Json::Obj(es) => {
            let i = find_key(es, k, 0);
            if i >= 0 {
                Json::Obj(es.update(i, (k, v)))
            } else {
                Json::Obj(es.push((k, v)))
            }
        },
        _ => Json::Obj(seq![(k, v)]),
    }
}

/// A string value's text.
pub open spec fn as_str(j: Option<Json>) -> Option<Seq<char>> {
    match j {
        Some(Json::Str(s)) => Some(s),
        _ => None,
    }
}

/// What `find_key` returns.
pub proof fn lemma_find_key(es: Seq<(Seq<char>, Json)>, k: Seq<char>, from: int)
    requires
        0 <= from,
    ensures
        find_key(es, k, from) == -1 || (from <= find_key(es, k, from) < es.len()
            && es[find_key(es, k, from)].0 == k),
        find_key(es, k, from) == -1 ==> forall|j: int| from <= j < es.len() ==> es[j].0 != k,
        find_key(es, k, from) >= 0 ==> forall|j: int| from <= j < find_key(es, k, from) ==> es[j].0 != k,
    decreases es.len() - from,
{
    if from < es.len() && es[from].0 != k {
        lemma_find_key(es, k, from + 1);
    }
}

/// The first index of a member keyed `k` is `i` when earlier keys differ.
pub proof fn lemma_find_key_at(es: Seq<(Seq<char>, Json)>, k: Seq<char>, i: int)
    requires
        0 <= i <= es.len(),
        forall|j: int| 0 <= j < i ==> es[j].0 != k,
        i < es.len() ==> es[i].0 == k,
    ensures
        find_key(es, k, 0) == if i < es.len() { i } else { -1 },
{
    lemma_find_key(es, k, 0);
    let r = find_key(es, k, 0);
    if r >= 0 && r < i {
        assert(es[r].0 != k);
    }
    if i < es.len() && r == -1 {
        assert(es[i].0 != k);
    }
}

/// The members of an object, as the model sees them.
pub open spec fn members_of(o: Seq<(String, JsonValue)>) -> Seq<(Seq<char>, Json)> {
    Seq::new(o.len(), |i: int| (o[i].0@, jv(o[i].1)))
}

/// The items of an array, as the model sees them.
pub open spec fn items_of(a: Seq<JsonValue>) -> Seq<Json> {
    Seq::new(a.len(), |i: int| jv(a[i]))
}

/// Unfolds the model of an object or an array one level.
pub proof fn lemma_jv_unfold(v: JsonValue)
    ensures
        v matches JsonValue::Object(o) ==> jv(v) == Json::Obj(members_of(o@)),
        v matches JsonValue::Array(a) ==> jv(v) == Json::Arr(items_of(a@)),
{
    match v {
        JsonValue::Object(o) => {
            if let Json::Obj(es) = jv(v) {
                assert(es =~= members_of(o@));
            }
        },
        JsonValue::Array(a) => {
            if let Json::Arr(xs) = jv(v) {
                assert(xs =~= items_of(a@));
            }
        },
        _ => {},
    }
}

/// A copy of a value (`Value::clone`).
#[verifier::loop_isolation(false)]
pub fn deep_copy(v: &JsonValue) -> (r: JsonValue)
    ensures
        jv(r) == jv(*v),
    decreases v,
{
    proof {
        lemma_jv_unfold(*v);
    }
    match v {
        JsonValue::Null => JsonValue::Null,
        JsonValue::Bool(b) => JsonValue::Bool(*b),
        JsonValue::Number(n) => JsonValue::Number(copy_str(n.as_str())),
        JsonValue::Str(s) => JsonValue::Str(copy_str(s.as_str())),
        JsonValue::Array(a) => {
            let mut out: Vec<JsonValue> = Vec::new();
            let mut i: usize = 0;
            while i < a.len()
                invariant
                    i <= a@.len(),
                    out@.len() == i,
                    forall|j: int| 0 <= j < i ==> jv(#[trigger] out@[j]) == jv(a@[j]),
                decreases a@.len() - i,
            {
                proof {
                    assert(decreases_to!(*v => a@[i as int]));
                }
                let c = deep_copy(&a[i]);
                out.push(c);
                i = i + 1;
            }
            let r = JsonValue::Array(out);
            proof {
                lemma_jv_unfold(r);
                assert(items_of(out@) =~= items_of(a@));
            }
            r
        },
        JsonValue::Object(o) => {
            let mut out: Vec<(String, JsonValue)> = Vec::new();
            let mut i: usize = 0;
            while i < o.len()
                invariant
                    i <= o@.len(),
                    out@.len() == i,
                    forall|j: int| 0 <= j < i ==> (#[trigger] out@[j]).0@ == o@[j].0@ && jv(out@[j].1) == jv(o@[j].1),
                decreases o@.len() - i,
            {
                let k = copy_str(o[i].0.as_str());
                proof {
                    assert(decreases_to!(*v => o@[i as int].1));
                }
                let c = deep_copy(&o[i].1);
                out.push((k, c));
                i = i + 1;
            }
            let r = JsonValue::Object(out);
            proof {
                lemma_jv_unfold(r);
                assert(members_of(out@) =~= members_of(o@));
            }
            r
        },
    }
}

/// The position of member `key` in an object's members, or their count.
fn key_position(o: &Vec<(String, JsonValue)>, key: &str) -> (i: usize)
    ensures
        i <= o@.len(),
        find_key(members_of(o@), key@, 0) == if i < o@.len() { i as int } else { -1 },
{
    let mut i: usize = 0;
    while i < o.len()
        invariant
            i <= o@.len(),
            forall|j: int| 0 <= j < i ==> o@[j].0@ != key@,
        ensures
            i <= o@.len(),
            forall|j: int| 0 <= j < i ==> o@[j].0@ != key@,
            i < o@.len() ==> o@[i as int].0@ == key@,
        decreases o@.len() - i,
    {
        if str_eq(o[i].0.as_str(), key) {
            break;
        }
        i = i + 1;
    }
    proof {
        lemma_find_key_at(members_of(o@), key@, i as int);
    }
    i
}

/// Member `key` of `v` (`value.get(key)`).
pub fn get<'a>(v: &'a JsonValue, key: &str) -> (r: Option<&'a JsonValue>)
    ensures
        match r {
            Some(x) => member(jv(*v), key@) == Some(jv(*x)),
            None => member(jv(*v), key@) is None,
        },
{
    proof {
        lemma_jv_unfold(*v);
    }
    match v {
        JsonValue::Object(o) => {
            let i = key_position(o, key);
            if i < o.len() {
                Some(&o[i].1)
            } else {
                None
            }
        },
        _ => None,
    }
}

/// `v` with member `key` set to `val` (`value[key] = val`).
pub fn set_member(v: JsonValue, key: &str, val: JsonValue) -> (r: JsonValue)
    requires
        v is Object || v is Null,
    ensures
        jv(r) == with_member(jv(v), key@, jv(val)),
        r is Object,
{
    proof {
        lemma_jv_unfold(v);
    }
    let ghost jval = jv(val);
    match v {
        JsonValue::Object(o) => {
            let mut o = o;
            let ghost before = o@;
            let i = key_position(&o, key);
            if i < o.len() {
                o.set(i, (copy_str(key), val));
            } else {
                o.push((copy_str(key), val));
            }
            let r = JsonValue::Object(o);
            proof {
                lemma_jv_unfold(r);
                if (i as int) < before.len() {
                    assert(members_of(o@) =~= members_of(before).update(i as int, (key@, jval)));
                } else {
                    assert(members_of(o@) =~= members_of(before).push((key@, jval)));
                }
            }
            r
        },
        _ => {
            let mut o: Vec<(String, JsonValue)> = Vec::new();
            o.push((copy_str(key), val));
            let r = JsonValue::Object(o);
            proof {
                lemma_jv_unfold(r);
                assert(members_of(o@) =~= seq![(key@, jval)]);
            }
            r
        },
    }
}

/// Member `k` when it is an object, else an empty object (what
/// `ensure_object` leaves there before the member is filled in).
pub open spec fn obj_member(j: Json, k: Seq<char>) -> Json {
    match member(j, k) {
        Some(Json::Obj(es)) => Json::Obj(es),
        _ => Json::Obj(Seq::empty()),
    }
}

/// The string items of an array, in order; other items are skipped.
pub open spec fn strings_in(xs: Seq<Json>) -> Seq<Seq<char>>
    decreases xs.len(),
{
    if xs.len() == 0 {
        Seq::empty()
    } else {
        let rest = strings_in(xs.drop_last());
        match xs.last() {
            Json::Str(s) => rest.push(s),
            _ => rest,
        }
    }
}

/// The string items of an optional array value (none for anything else).
pub open spec fn string_items(j: Option<Json>) -> Seq<Seq<char>> {
    match j {
        Some(Json::Arr(xs)) => strings_in(xs),
        _ => Seq::empty(),
    }
}

/// An array of strings.
pub open spec fn str_array(ss: Seq<Seq<char>>) -> Json {
    Json::Arr(ss.map_values(|s: Seq<char>| Json::Str(s)))
}

/// An empty object.
pub fn empty_object() -> (r: JsonValue)
    ensures
        jv(r) == Json::Obj(Seq::empty()),
        r is Object,
{
    let o: Vec<(String, JsonValue)> = Vec::new();
    let r = JsonValue::Object(o);
    proof {
        lemma_jv_unfold(r);
        assert(members_of(o@) =~= Seq::empty());
    }
    r
}

/// A string value.
pub fn string_value(s: &str) -> (r: JsonValue)
    ensures
        jv(r) == Json::Str(s@),
{
    JsonValue::Str(copy_str(s))
}

/// A copy of member `key` when it is an object, else an empty object.
pub fn object_member(v: &JsonValue, key: &str) -> (r: JsonValue)
    ensures
        jv(r) == obj_member(jv(*v), key@),
        r is Object,
{
    match get(v, key) {
        Some(x) => {
            proof {
                lemma_jv_unfold(*x);
            }
            match x {
                JsonValue::Object(_) => deep_copy(x),
                _ => empty_object(),
            }
        },
        None => empty_object(),
    }
}

/// The string items of member `key` of `v` when it is an array.
pub fn member_strings(v: &JsonValue, key: &str) -> (r: Vec<String>)
    ensures
        r@.map_values(|s: String| s@) == string_items(member(jv(*v), key@)),
{
    match get(v, key) {
        Some(x) => {
            proof {
                lemma_jv_unfold(*x);
            }
            match x {
                JsonValue::Array(a) => {
                    let mut out: Vec<String> = Vec::new();
                    let mut i: usize = 0;
                    while i < a.len()
                        invariant
                            i <= a@.len(),
                            jv(*x) == Json::Arr(items_of(a@)),
                            out@.map_values(|s: String| s@) == strings_in(items_of(a@).take(i as int)),
                        decreases a@.len() - i,
                    {
                        let ghost xs = items_of(a@);
                        assert(xs.take(i + 1).drop_last() =~= xs.take(i as int));
                        proof {
                            lemma_jv_unfold(a@[i as int]);
                        }
                        match &a[i] {
                            JsonValue::Str(s) => {
                                out.push(copy_str(s.as_str()));
                            },
                            _ => {},
                        }
                        assert(out@.map_values(|s: String| s@) =~= strings_in(xs.take(i + 1)));
                        i = i + 1;
                    }
                    assert(items_of(a@).take(a@.len() as int) =~= items_of(a@));
                    out
                },
                _ => Vec::new(),
            }
        },
        None => Vec::new(),
    }
}

/// An array value of the given strings.
pub fn string_array(ss: &Vec<String>) -> (r: JsonValue)
    ensures
        jv(r) == str_array(ss@.map_values(|s: String| s@)),
{
    let mut out: Vec<JsonValue> = Vec::new();
    let mut i: usize = 0;
    while i < ss.len()
        invariant
            i <= ss@.len(),
            out@.len() == i,
            forall|j: int| 0 <= j < i ==> jv(#[trigger] out@[j]) == Json::Str(ss@[j]@),
        decreases ss@.len() - i,
    {
        out.push(string_value(ss[i].as_str()));
        i = i + 1;
    }
    let r = JsonValue::Array(out);
    proof {
        lemma_jv_unfold(r);
        assert(items_of(out@) =~= ss@.map_values(|s: String| s@).map_values(|s: Seq<char>| Json::Str(s)));
    }
    r
}

/// Reading member `k` after setting it gives what was set.
pub proof fn lemma_member_of_with(j: Json, k: Seq<char>, v: Json, k2: Seq<char>)
    requires
        j is Obj || j is Null,
    ensures
        member(with_member(j, k, v), k2) == if k2 == k { Some(v) } else { member(j, k2) },
{
    match j {
        Json::Obj(es) => {
            lemma_find_key(es, k, 0);
            lemma_find_key(es, k2, 0);
            let i = find_key(es, k, 0);
            let es2 = if i >= 0 { es.update(i, (k, v)) } else { es.push((k, v)) };
            lemma_find_key(es2, k2, 0);
            let i2 = find_key(es2, k2, 0);
            if k2 == k {
                if i >= 0 {
                    lemma_find_key_at(es2, k2, i);
                } else {
                    lemma_find_key_at(es2, k2, es.len() as int);
                }
            } else {
                let r = find_key(es, k2, 0);
                if r >= 0 {
                    lemma_find_key_at(es2, k2, r);
                } else {
                    if i2 >= 0 {
                        assert(es2[i2].0 == k2);
                        if i2 < es.len() {
                            assert(es[i2].0 == k2 || i2 == i);
                        }
                    }
                }
            }
        },
        _ => {
            let es2 = seq![(k, v)];
            lemma_find_key(es2, k2, 0);
            if k2 == k {
                lemma_find_key_at(es2, k2, 0);
            }
        },
    }
}

/// Setting a member to the value it already has changes nothing.
pub proof fn lemma_with_same(j: Json, k: Seq<char>, v: Json)
    requires
        j is Obj,
        member(j, k) == Some(v),
    ensures
        with_member(j, k, v) == j,
{
    if let Json::Obj(es) = j {
        lemma_find_key(es, k, 0);
        let i = find_key(es, k, 0);
        assert(es.update(i, (k, v)) =~= es);
    }
}

/// The string items of an array of strings are those strings.
pub proof fn lemma_strings_of_str_array(ss: Seq<Seq<char>>)
    ensures
        string_items(Some(str_array(ss))) == ss,
    decreases ss.len(),
{
    let xs = ss.map_values(|s: Seq<char>| Json::Str(s));
    if ss.len() > 0 {
        lemma_strings_of_str_array(ss.drop_last());
        assert(xs.drop_last() =~= ss.drop_last().map_values(|s: Seq<char>| Json::Str(s)));
        assert(strings_in(xs) =~= ss);
    } else {
        assert(strings_in(xs) =~= ss);
    }
}

/// Setting a member whose key is new appends it.
pub proof fn lemma_with_new_key(es: Seq<(Seq<char>, Json)>, k: Seq<char>, v: Json)
    requires
        forall|j: int| 0 <= j < es.len() ==> (#[trigger] es[j]).0 != k,
    ensures
        with_member(Json::Obj(es), k, v) == Json::Obj(es.push((k, v))),
        member(Json::Obj(es), k) is None,
{
    lemma_find_key_at(es, k, es.len() as int);
}

/// The text of member `key` of `v` when it is a string.
pub fn str_member<'a>(v: &'a JsonValue, key: &str) -> (r: Option<&'a str>)
    ensures
        match (r, as_str(member(jv(*v), key@))) {
            (Some(s), Some(t)) => s@ == t,
            (None, None) => true,
            _ => false,
        },
{
    match get(v, key) {
        Some(x) => {
            proof {
                lemma_jv_unfold(*x);
            }
            match x {
                JsonValue::Str(s) => Some(s.as_str()),
                _ => None,
            }
        },
        None => None,
    }
}

/// The items of member `key` of `v` when it is an array.
pub fn array_member<'a>(v: &'a JsonValue, key: &str) -> (r: Option<&'a Vec<JsonValue>>)
    ensures
        match (r, member(jv(*v), key@)) {
            (Some(a), Some(Json::Arr(xs))) => items_of(a@) == xs,
            (None, Some(Json::Arr(_))) => false,
            (Some(_), _) => false,
            _ => true,
        },
{
    match get(v, key) {
        Some(x) => {
            proof {
                lemma_jv_unfold(*x);
            }
            match x {
                JsonValue::Array(a) => Some(a),
                _ => None,
            }
        },
        None => None,
    }
}

/// The text of an optional string.
pub open spec fn str_opt(o: Option<String>) -> Option<Seq<char>> {
    match o {
        Some(s) => Some(s@),
        None => None,
    }
}

/// A boolean value's truth.
pub open spec fn as_bool(j: Option<Json>) -> Option<bool> {
    match j {
        Some(Json::Bool(b)) => Some(b),
        _ => None,
    }
}

/// The text of member `key` when it is a string, else `default`.
pub open spec fn str_or(j: Json, key: Seq<char>, default: Seq<char>) -> Seq<char> {
    match as_str(member(j, key)) {
        Some(s) => s,
        None => default,
    }
}

/// Member `k` of an optional value.
pub open spec fn member_in(j: Option<Json>, k: Seq<char>) -> Option<Json> {
    match j {
        Some(x) => member(x, k),
        None => None,
    }
}

/// The text of member `key` when it is a string, else `default`, copied.
pub fn string_or(v: &JsonValue, key: &str, default: &str) -> (r: String)
    ensures
        r@ == str_or(jv(*v), key@, default@),
{
    match str_member(v, key) {
        Some(s) => copy_str(s),
        None => copy_str(default),
    }
}

/// The text of member `key` when it is a string, copied.
pub fn opt_string(v: &JsonValue, key: &str) -> (r: Option<String>)
    ensures
        str_opt(r) == as_str(member(jv(*v), key@)),
{
    match str_member(v, key) {
        Some(s) => Some(copy_str(s)),
        None => None,
    }
}

/// The truth of member `key` when it is a boolean.
pub fn bool_member(v: &JsonValue, key: &str) -> (r: Option<bool>)
    ensures
        r == as_bool(member(jv(*v), key@)),
{
    match get(v, key) {
        Some(x) => {
            proof {
                lemma_jv_unfold(*x);
            }
            match x {
                JsonValue::Bool(b) => Some(*b),
                _ => None,
            }
        },
        None => None,
    }
}

} // verus!
