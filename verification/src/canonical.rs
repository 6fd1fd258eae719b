//! The forms a stored document takes: its order-canonical form, which makes
//! two documents that differ only in member order or in the order of
//! name-keyed arrays compare equal, and setting a value at a dot path.
use vstd::prelude::*;

use crate::diff_output::JsonValue;
use crate::json::{
    Json, jv, member, with_member, as_str, get, set_member, deep_copy, members_of, items_of,
    lemma_jv_unfold, str_member, empty_object, find_key, lemma_find_key, lemma_member_of_with,
};
use crate::sorting::{
    Ranked, insert_ranked, ranked, sort_ranked, text_less, text_less_exec, lemma_text_order,
    lemma_text_less_irreflexive, lemma_text_less_asymmetric, lemma_text_less_total, lemma_text_less_transitive,
};
use crate::text::{chars_of, has_prefix, starts_with, str_eq, views};

verus! {

broadcast use vstd::std_specs::vec::axiom_vec_index_decreases;

// ---------------------------------------------------------------------------
// Sorting members by key and items by name
// ---------------------------------------------------------------------------

/// `x` put after every entry of the `key`-ordered `xs` that it does not
/// come before.
pub open spec fn insert_keyed<A>(xs: Seq<A>, x: A, key: spec_fn(A) -> Seq<char>) -> Seq<A>
    decreases xs.len(),
{
    if xs.len() == 0 {
        seq![x]
    } else if text_less(key(x), key(xs.last())) {
        insert_keyed(xs.drop_last(), x, key).push(xs.last())
    } else {
        xs.push(x)
    }
}

/// `xs` ordered by `key`, entries with equal keys kept in their order.
pub open spec fn sort_keyed<A>(xs: Seq<A>, key: spec_fn(A) -> Seq<char>) -> Seq<A>
    decreases xs.len(),
{
    if xs.len() == 0 {
        Seq::empty()
    } else {
        insert_keyed(sort_keyed(xs.drop_last(), key), xs.last(), key)
    }
}

/// A member's key.
pub open spec fn member_key() -> spec_fn((Seq<char>, Json)) -> Seq<char> {
    |e: (Seq<char>, Json)| e.0
}

/// The `name` of an array item when it is a string, else nothing.
pub open spec fn item_name(j: Json) -> Seq<char> {
    match as_str(member(j, "name"@)) {
        Some(s) => s,
        None => Seq::empty(),
    }
}

/// An item's name, as a sort key.
pub open spec fn name_key() -> spec_fn(Json) -> Seq<char> {
    |j: Json| item_name(j)
}

/// Members ordered by key, stably.
pub open spec fn sort_members(es: Seq<(Seq<char>, Json)>) -> Seq<(Seq<char>, Json)> {
    sort_keyed(es, member_key())
}

/// Items ordered by name, stably.
pub open spec fn sort_items(xs: Seq<Json>) -> Seq<Json> {
    sort_keyed(xs, name_key())
}

/// Every item has a string `name`.
pub open spec fn all_named(xs: Seq<Json>) -> bool {
    forall|i: int| 0 <= i < xs.len() ==> (#[trigger] as_str(member(xs[i], "name"@))) is Some
}

/// The order-canonical form of a document: members whose value is `null`
/// dropped, members ordered by key, an array whose items all have a string
/// `name` ordered by it, all the way down.
pub open spec fn canonical(j: Json) -> Json
    decreases j, 1int,
{
    match j {
        Json::Obj(es) => Json::Obj(sort_members(canonical_members(es))),
        Json::Arr(xs) => {
            let ys = canonical_items(xs);
            if ys.len() > 0 && all_named(ys) {
                Json::Arr(sort_items(ys))
            } else {
                Json::Arr(ys)
            }
        },
        _ => j,
    }
}

/// The members whose value is not `null`, each value in canonical form.
pub open spec fn canonical_members(es: Seq<(Seq<char>, Json)>) -> Seq<(Seq<char>, Json)>
    decreases es, 0int,
{
    if es.len() == 0 {
        Seq::empty()
    } else {
        proof {
            assert(decreases_to!(es => es[es.len() - 1]));
        }
        canonical_members(es.drop_last()) + (if es.last().1 != Json::Null {
            seq![(es.last().0, canonical(es.last().1))]
        } else {
            Seq::empty()
        })
    }
}

/// The items, each in canonical form.
pub open spec fn canonical_items(xs: Seq<Json>) -> Seq<Json>
    decreases xs, 0int,
{
    if xs.len() == 0 {
        Seq::empty()
    } else {
        proof {
            assert(decreases_to!(xs => xs[xs.len() - 1]));
        }
        canonical_items(xs.drop_last()).push(canonical(xs.last()))
    }
}

impl Ranked for (String, JsonValue) {
    open spec fn precedes(&self, other: &Self) -> bool {
        text_less(self.0@, other.0@)
    }

    proof fn lemma_order(a: Self, b: Self, c: Self) {
        lemma_text_order(a.0@, b.0@, c.0@);
    }

    fn precedes_exec(&self, other: &Self) -> (r: bool) {
        text_less_exec(self.0.as_str(), other.0.as_str())
    }
}

impl Ranked for JsonValue {
    open spec fn precedes(&self, other: &Self) -> bool {
        text_less(item_name(jv(*self)), item_name(jv(*other)))
    }

    proof fn lemma_order(a: Self, b: Self, c: Self) {
        lemma_text_order(item_name(jv(a)), item_name(jv(b)), item_name(jv(c)));
    }

    fn precedes_exec(&self, other: &Self) -> (r: bool) {
        let a = match str_member(self, "name") {
            Some(s) => s,
            None => "",
        };
        let b = match str_member(other, "name") {
            Some(s) => s,
            None => "",
        };
        proof {
            assert(""@ =~= Seq::<char>::empty()) by {
                reveal_strlit("");
            }
        }
        text_less_exec(a, b)
    }
}

proof fn lemma_insert_member_views(ss: Seq<(String, JsonValue)>, x: (String, JsonValue))
    ensures
        members_of(insert_ranked(ss, x)) == insert_keyed(members_of(ss), (x.0@, jv(x.1)), member_key()),
    decreases ss.len(),
{
    if ss.len() == 0 {
        assert(members_of(seq![x]) =~= seq![(x.0@, jv(x.1))]);
    } else {
        assert(members_of(ss).drop_last() =~= members_of(ss.drop_last()));
        assert(members_of(ss).last() == (ss.last().0@, jv(ss.last().1)));
        if x.precedes(&ss.last()) {
            lemma_insert_member_views(ss.drop_last(), x);
            assert(members_of(insert_ranked(ss.drop_last(), x).push(ss.last())) =~= members_of(
                insert_ranked(ss.drop_last(), x),
            ).push(members_of(ss).last()));
        } else {
            assert(members_of(ss.push(x)) =~= members_of(ss).push((x.0@, jv(x.1))));
        }
    }
}

proof fn lemma_sort_members_views(v: Seq<(String, JsonValue)>)
    ensures
        members_of(ranked(v)) == sort_members(members_of(v)),
    decreases v.len(),
{
    if v.len() == 0 {
        assert(members_of(Seq::<(String, JsonValue)>::empty()) =~= Seq::<(Seq<char>, Json)>::empty());
    } else {
        lemma_sort_members_views(v.drop_last());
        lemma_insert_member_views(ranked(v.drop_last()), v.last());
        assert(members_of(v).drop_last() =~= members_of(v.drop_last()));
    }
}

proof fn lemma_insert_item_views(ss: Seq<JsonValue>, x: JsonValue)
    ensures
        items_of(insert_ranked(ss, x)) == insert_keyed(items_of(ss), jv(x), name_key()),
    decreases ss.len(),
{
    if ss.len() == 0 {
        assert(items_of(seq![x]) =~= seq![jv(x)]);
    } else {
        assert(items_of(ss).drop_last() =~= items_of(ss.drop_last()));
        assert(items_of(ss).last() == jv(ss.last()));
        if x.precedes(&ss.last()) {
            lemma_insert_item_views(ss.drop_last(), x);
            assert(items_of(insert_ranked(ss.drop_last(), x).push(ss.last())) =~= items_of(
                insert_ranked(ss.drop_last(), x),
            ).push(items_of(ss).last()));
        } else {
            assert(items_of(ss.push(x)) =~= items_of(ss).push(jv(x)));
        }
    }
}

proof fn lemma_sort_items_views(v: Seq<JsonValue>)
    ensures
        items_of(ranked(v)) == sort_items(items_of(v)),
    decreases v.len(),
{
    if v.len() == 0 {
        assert(items_of(Seq::<JsonValue>::empty()) =~= Seq::<Json>::empty());
    } else {
        lemma_sort_items_views(v.drop_last());
        lemma_insert_item_views(ranked(v.drop_last()), v.last());
        assert(items_of(v).drop_last() =~= items_of(v.drop_last()));
    }
}

fn has_string_names(xs: &Vec<JsonValue>) -> (b: bool)
    ensures
        b == all_named(items_of(xs@)),
{
    let mut i: usize = 0;
    while i < xs.len()
        invariant
            i <= xs@.len(),
            forall|k: int| 0 <= k < i ==> (#[trigger] as_str(member(items_of(xs@)[k], "name"@))) is Some,
        decreases xs@.len() - i,
    {
        assert(items_of(xs@)[i as int] == jv(xs@[i as int]));
        match str_member(&xs[i], "name") {
            Some(_) => {},
            None => {
                return false;
            },
        }
        i += 1;
    }
    true
}

/// The order-canonical form of a document: `null` members dropped, members
/// sorted by key, arrays whose items all carry a string `name` sorted by
/// it, recursively.
#[verifier::loop_isolation(false)]
#[verifier::spinoff_prover]
pub fn canonical_form(v: &JsonValue) -> (r: JsonValue)
    ensures
        jv(r) == canonical(jv(*v)),
    decreases v,
{
    proof {
        lemma_jv_unfold(*v);
    }
    match v {
        JsonValue::Object(o) => {
            let ghost es = members_of(o@);
            let mut out: Vec<(String, JsonValue)> = Vec::new();
            let mut i: usize = 0;
            while i < o.len()
                invariant
                    i <= o@.len(),
                    es == members_of(o@),
                    members_of(out@) == canonical_members(es.take(i as int)),
                decreases o@.len() - i,
            {
                proof {
                    assert(es.take(i + 1).drop_last() =~= es.take(i as int));
                    assert(es.take(i + 1).last() == es[i as int]);
                    assert(es[i as int] == (o@[i as int].0@, jv(o@[i as int].1)));
                    lemma_jv_unfold(o@[i as int].1);
                }
                let ghost before = members_of(out@);
                match &o[i].1 {
                    JsonValue::Null => {},
                    _ => {
                        proof {
                            assert(decreases_to!(*v => o@[i as int].1));
                        }
                        let c = canonical_form(&o[i].1);
                        out.push((o[i].0.clone(), c));
                        assert(members_of(out@) =~= before.push((o@[i as int].0@, canonical(jv(o@[i as int].1)))));
                    },
                }
                assert(members_of(out@) =~= canonical_members(es.take(i + 1)));
                i += 1;
            }
            assert(es.take(es.len() as int) =~= es);
            let ghost pre = out@;
            sort_ranked(&mut out);
            proof {
                lemma_sort_members_views(pre);
            }
            let r = JsonValue::Object(out);
            proof {
                lemma_jv_unfold(r);
            }
            r
        },
        JsonValue::Array(a) => {
            let ghost xs = items_of(a@);
            let mut out: Vec<JsonValue> = Vec::new();
            let mut i: usize = 0;
            while i < a.len()
                invariant
                    i <= a@.len(),
                    xs == items_of(a@),
                    items_of(out@) == canonical_items(xs.take(i as int)),
                decreases a@.len() - i,
            {
                proof {
                    assert(xs.take(i + 1).drop_last() =~= xs.take(i as int));
                    assert(xs.take(i + 1).last() == xs[i as int]);
                    assert(decreases_to!(*v => a@[i as int]));
                }
                let ghost before = items_of(out@);
                let c = canonical_form(&a[i]);
                out.push(c);
                assert(items_of(out@) =~= before.push(canonical(xs[i as int])));
                i += 1;
            }
            assert(xs.take(xs.len() as int) =~= xs);
            if out.len() > 0 && has_string_names(&out) {
                let ghost pre = out@;
                sort_ranked(&mut out);
                proof {
                    lemma_sort_items_views(pre);
                }
            }
            let r = JsonValue::Array(out);
            proof {
                lemma_jv_unfold(r);
            }
            r
        },
        JsonValue::Null => JsonValue::Null,
        JsonValue::Bool(b) => JsonValue::Bool(*b),
        JsonValue::Number(n) => JsonValue::Number(n.clone()),
        JsonValue::Str(t) => JsonValue::Str(t.clone()),
    }
}

// ---------------------------------------------------------------------------
// Setting a value at a dot path
// ---------------------------------------------------------------------------

/// `j` with `v` set at the path `segs`, creating the intermediate objects
/// that are missing; a path that runs into a value that is not an object
/// changes nothing.
pub open spec fn path_set(j: Json, segs: Seq<Seq<char>>, v: Json) -> Json
    decreases segs.len(),
{
    if segs.len() == 0 || !(j is Obj) {
        j
    } else if segs.len() == 1 {
        with_member(j, segs[0], v)
    } else {
        let child = match member(j, segs[0]) {
            Some(c) => c,
            None => Json::Obj(Seq::empty()),
        };
        with_member(j, segs[0], path_set(child, segs.drop_first(), v))
    }
}

fn set_path_from(value: JsonValue, segs: &Vec<String>, from: usize, new_value: JsonValue) -> (r: JsonValue)
    requires
        from <= segs@.len(),
    ensures
        jv(r) == path_set(jv(value), views(segs@).skip(from as int), jv(new_value)),
    decreases segs@.len() - from,
{
    proof {
        lemma_jv_unfold(value);
    }
    let ghost sv = views(segs@).skip(from as int);
    if from == segs.len() {
        return value;
    }
    let is_object = match &value {
        JsonValue::Object(_) => true,
        _ => false,
    };
    if !is_object {
        return value;
    }
    assert(sv[0] == segs@[from as int]@);
    if from + 1 == segs.len() {
        return set_member(value, segs[from].as_str(), new_value);
    }
    let child = match get(&value, segs[from].as_str()) {
        Some(c) => deep_copy(c),
        None => empty_object(),
    };
    let nc = set_path_from(child, segs, from + 1, new_value);
    assert(sv.drop_first() =~= views(segs@).skip(from + 1));
    set_member(value, segs[from].as_str(), nc)
}

/// Set the value at a dot path, creating intermediate objects as needed.
pub fn set_path(value: &mut JsonValue, segments: &Vec<String>, new_value: JsonValue)
    ensures
        jv(*final(value)) == path_set(jv(*old(value)), views(segments@), jv(new_value)),
{
    let mut cur = JsonValue::Null;
    std::mem::swap(&mut cur, value);
    assert(views(segments@).skip(0) =~= views(segments@));
    *value = set_path_from(cur, segments, 0, new_value);
}

// ---------------------------------------------------------------------------
// Order does not matter to the canonical form
// ---------------------------------------------------------------------------

/// No two entries share a key.
pub open spec fn distinct_by<A>(xs: Seq<A>, key: spec_fn(A) -> Seq<char>) -> bool {
    forall|i: int, j: int| 0 <= i < j < xs.len() ==> key(#[trigger] xs[i]) != key(#[trigger] xs[j])
}

/// Keys ascend strictly.
pub open spec fn ascending_by<A>(xs: Seq<A>, key: spec_fn(A) -> Seq<char>) -> bool {
    forall|i: int, j: int| 0 <= i < j < xs.len() ==> text_less(key(#[trigger] xs[i]), key(#[trigger] xs[j]))
}

/// No two members share a key.
pub open spec fn keys_distinct(es: Seq<(Seq<char>, Json)>) -> bool {
    distinct_by(es, member_key())
}

#[verifier::spinoff_prover]
proof fn lemma_insert_keyed_contains<A>(ss: Seq<A>, x: A, key: spec_fn(A) -> Seq<char>)
    ensures
        forall|y: A| #[trigger] insert_keyed(ss, x, key).contains(y) <==> (ss.contains(y) || y == x),
    decreases ss.len(),
{
    let r = insert_keyed(ss, x, key);
    if ss.len() == 0 {
        assert forall|y: A| #[trigger] r.contains(y) <==> (ss.contains(y) || y == x) by {
            if y == x {
                assert(r[0] == y);
            }
        }
    } else if text_less(key(x), key(ss.last())) {
        let t = ss.drop_last();
        lemma_insert_keyed_contains(t, x, key);
        let rt = insert_keyed(t, x, key);
        assert forall|y: A| #[trigger] r.contains(y) <==> (ss.contains(y) || y == x) by {
            if r.contains(y) {
                let k = choose|k: int| 0 <= k < r.len() && r[k] == y;
                if k < rt.len() {
                    assert(rt.contains(y));
                    if t.contains(y) {
                        let m = choose|m: int| 0 <= m < t.len() && t[m] == y;
                        assert(ss[m] == y);
                    }
                } else {
                    assert(ss[ss.len() - 1] == y);
                }
            }
            if ss.contains(y) {
                let k = choose|k: int| 0 <= k < ss.len() && ss[k] == y;
                if k < ss.len() - 1 {
                    assert(t[k] == y);
                    assert(rt.contains(y));
                    let m = choose|m: int| 0 <= m < rt.len() && rt[m] == y;
                    assert(r[m] == y);
                } else {
                    assert(r[r.len() - 1] == y);
                }
            }
            if y == x {
                assert(rt.contains(y));
                let m = choose|m: int| 0 <= m < rt.len() && rt[m] == y;
                assert(r[m] == y);
            }
        }
    } else {
        assert forall|y: A| #[trigger] r.contains(y) <==> (ss.contains(y) || y == x) by {
            if r.contains(y) {
                let k = choose|k: int| 0 <= k < r.len() && r[k] == y;
                if k < ss.len() {
                    assert(ss[k] == y);
                }
            }
            if ss.contains(y) {
                let k = choose|k: int| 0 <= k < ss.len() && ss[k] == y;
                assert(r[k] == y);
            }
            if y == x {
                assert(r[ss.len() as int] == y);
            }
        }
    }
}

#[verifier::spinoff_prover]
proof fn lemma_insert_keyed_ascending<A>(ss: Seq<A>, x: A, key: spec_fn(A) -> Seq<char>)
    requires
        ascending_by(ss, key),
        forall|k: int| 0 <= k < ss.len() ==> key(#[trigger] ss[k]) != key(x),
    ensures
        ascending_by(insert_keyed(ss, x, key), key),
    decreases ss.len(),
{
    let r = insert_keyed(ss, x, key);
    if ss.len() == 0 {
    } else if text_less(key(x), key(ss.last())) {
        let t = ss.drop_last();
        assert(ascending_by(t, key)) by {
            assert forall|i: int, j: int| 0 <= i < j < t.len() implies text_less(key(#[trigger] t[i]), key(#[trigger] t[j])) by {
                assert(t[i] == ss[i] && t[j] == ss[j]);
            }
        }
        assert forall|k: int| 0 <= k < t.len() implies key(#[trigger] t[k]) != key(x) by {
            assert(t[k] == ss[k]);
        }
        lemma_insert_keyed_ascending(t, x, key);
        lemma_insert_keyed_contains(t, x, key);
        let rt = insert_keyed(t, x, key);
        let l = ss.last();
        assert forall|i: int, j: int| 0 <= i < j < r.len() implies text_less(key(#[trigger] r[i]), key(#[trigger] r[j])) by {
            if j == r.len() - 1 {
                assert(r[j] == l);
                assert(r[i] == rt[i]);
                assert(rt.contains(rt[i]));
                if rt[i] == x {
                } else {
                    assert(t.contains(rt[i]));
                    let m = choose|m: int| 0 <= m < t.len() && t[m] == rt[i];
                    assert(ss[m] == t[m]);
                    assert(ss[ss.len() - 1] == l);
                }
            } else {
                assert(r[i] == rt[i] && r[j] == rt[j]);
            }
        }
    } else {
        let l = ss.last();
        assert(ss[ss.len() - 1] == l);
        lemma_text_less_total(key(x), key(l));
        assert forall|i: int, j: int| 0 <= i < j < r.len() implies text_less(key(#[trigger] r[i]), key(#[trigger] r[j])) by {
            if j == ss.len() {
                assert(r[j] == x);
                assert(r[i] == ss[i]);
                if i < ss.len() - 1 {
                    lemma_text_less_transitive(key(ss[i]), key(l), key(x));
                }
            } else {
                assert(r[i] == ss[i] && r[j] == ss[j]);
            }
        }
    }
}

/// Sorting entries with distinct keys gives the same entries, keys ascending.
#[verifier::spinoff_prover]
pub proof fn lemma_sort_keyed<A>(xs: Seq<A>, key: spec_fn(A) -> Seq<char>)
    requires
        distinct_by(xs, key),
    ensures
        ascending_by(sort_keyed(xs, key), key),
        forall|y: A| #[trigger] sort_keyed(xs, key).contains(y) <==> xs.contains(y),
    decreases xs.len(),
{
    if xs.len() > 0 {
        let t = xs.drop_last();
        let l = xs.last();
        assert(distinct_by(t, key)) by {
            assert forall|i: int, j: int| 0 <= i < j < t.len() implies key(#[trigger] t[i]) != key(#[trigger] t[j]) by {
                assert(t[i] == xs[i] && t[j] == xs[j]);
            }
        }
        lemma_sort_keyed(t, key);
        let st = sort_keyed(t, key);
        assert forall|k: int| 0 <= k < st.len() implies key(#[trigger] st[k]) != key(l) by {
            assert(st.contains(st[k]));
            let m = choose|m: int| 0 <= m < t.len() && t[m] == st[k];
            assert(xs[m] == t[m]);
            assert(xs[xs.len() - 1] == l);
        }
        lemma_insert_keyed_ascending(st, l, key);
        lemma_insert_keyed_contains(st, l, key);
        assert forall|y: A| #[trigger] sort_keyed(xs, key).contains(y) <==> xs.contains(y) by {
            if xs.contains(y) {
                let k = choose|k: int| 0 <= k < xs.len() && xs[k] == y;
                if k < xs.len() - 1 {
                    assert(t[k] == y);
                }
            }
            if t.contains(y) {
                let k = choose|k: int| 0 <= k < t.len() && t[k] == y;
                assert(xs[k] == y);
            }
        }
    }
}

/// Two listings with keys ascending and the same entries are equal.
#[verifier::spinoff_prover]
pub proof fn lemma_ascending_unique<A>(a: Seq<A>, b: Seq<A>, key: spec_fn(A) -> Seq<char>)
    requires
        ascending_by(a, key),
        ascending_by(b, key),
        forall|y: A| #![trigger a.contains(y)] #![trigger b.contains(y)] a.contains(y) <==> b.contains(y),
    ensures
        a == b,
    decreases a.len(),
{
    if a.len() == 0 {
        if b.len() > 0 {
            assert(b.contains(b[0]));
        }
        assert(a =~= b);
    } else {
        assert(a.contains(a[0]));
        assert(b.len() > 0);
        assert(b.contains(b[0]));
        let k = choose|k: int| 0 <= k < b.len() && b[k] == a[0];
        let m = choose|m: int| 0 <= m < a.len() && a[m] == b[0];
        lemma_text_less_irreflexive(key(a[0]));
        lemma_text_less_asymmetric(key(a[0]), key(b[0]));
        if m > 0 {
            assert(text_less(key(a[0]), key(a[m])));
            if k > 0 {
                assert(text_less(key(b[0]), key(b[k])));
            }
        }
        assert(m == 0);
        assert(a[0] == b[0]);
        let a2 = a.drop_first();
        let b2 = b.drop_first();
        assert(ascending_by(a2, key)) by {
            assert forall|i: int, j: int| 0 <= i < j < a2.len() implies text_less(key(#[trigger] a2[i]), key(#[trigger] a2[j])) by {
                assert(a2[i] == a[i + 1] && a2[j] == a[j + 1]);
            }
        }
        assert(ascending_by(b2, key)) by {
            assert forall|i: int, j: int| 0 <= i < j < b2.len() implies text_less(key(#[trigger] b2[i]), key(#[trigger] b2[j])) by {
                assert(b2[i] == b[i + 1] && b2[j] == b[j + 1]);
            }
        }
        assert forall|y: A| #![trigger a2.contains(y)] #![trigger b2.contains(y)] a2.contains(y) <==> b2.contains(y) by {
            if a2.contains(y) {
                let i = choose|i: int| 0 <= i < a2.len() && a2[i] == y;
                assert(a[i + 1] == y);
                assert(a.contains(y));
                let j = choose|j: int| 0 <= j < b.len() && b[j] == y;
                if j == 0 {
                    assert(text_less(key(a[0]), key(a[i + 1])));
                }
                assert(b2[j - 1] == y);
            }
            if b2.contains(y) {
                let i = choose|i: int| 0 <= i < b2.len() && b2[i] == y;
                assert(b[i + 1] == y);
                assert(b.contains(y));
                let j = choose|j: int| 0 <= j < a.len() && a[j] == y;
                if j == 0 {
                    assert(text_less(key(b[0]), key(b[i + 1])));
                }
                assert(a2[j - 1] == y);
            }
        }
        lemma_ascending_unique(a2, b2, key);
        assert(a =~= seq![a[0]] + a2);
        assert(b =~= seq![b[0]] + b2);
    }
}

/// What `canonical_members` keeps: the members with a value other than
/// `null`, their values in canonical form.
#[verifier::spinoff_prover]
pub proof fn lemma_canonical_members_contains(es: Seq<(Seq<char>, Json)>)
    ensures
        forall|y: (Seq<char>, Json)| #[trigger] canonical_members(es).contains(y) <==> exists|k: int|
            0 <= k < es.len() && (#[trigger] es[k]).1 != Json::Null && y == (es[k].0, canonical(es[k].1)),
    decreases es.len(),
{
    if es.len() > 0 {
        let t = es.drop_last();
        let l = es.last();
        lemma_canonical_members_contains(t);
        let ct = canonical_members(t);
        let tail: Seq<(Seq<char>, Json)> = if l.1 != Json::Null { seq![(l.0, canonical(l.1))] } else { Seq::empty() };
        assert(canonical_members(es) == ct + tail);
        assert forall|y: (Seq<char>, Json)| #[trigger] canonical_members(es).contains(y) <==> exists|k: int|
            0 <= k < es.len() && (#[trigger] es[k]).1 != Json::Null && y == (es[k].0, canonical(es[k].1)) by {
            let c = ct + tail;
            if c.contains(y) {
                let i = choose|i: int| 0 <= i < c.len() && c[i] == y;
                if i < ct.len() {
                    assert(ct[i] == y);
                    assert(ct.contains(y));
                    let k = choose|k: int| 0 <= k < t.len() && (#[trigger] t[k]).1 != Json::Null && y == (t[k].0, canonical(t[k].1));
                    assert(es[k] == t[k]);
                } else {
                    assert(es[es.len() - 1] == l);
                }
            }
            if exists|k: int| 0 <= k < es.len() && (#[trigger] es[k]).1 != Json::Null && y == (es[k].0, canonical(es[k].1)) {
                let k = choose|k: int| 0 <= k < es.len() && (#[trigger] es[k]).1 != Json::Null && y == (es[k].0, canonical(es[k].1));
                if k < es.len() - 1 {
                    assert(t[k] == es[k]);
                    assert(ct.contains(y));
                    let i = choose|i: int| 0 <= i < ct.len() && ct[i] == y;
                    assert(c[i] == y);
                } else {
                    assert(c[c.len() - 1] == y);
                }
            }
        }
    }
}

#[verifier::spinoff_prover]
proof fn lemma_canonical_members_keys(es: Seq<(Seq<char>, Json)>)
    requires
        keys_distinct(es),
    ensures
        keys_distinct(canonical_members(es)),
    decreases es.len(),
{
    if es.len() > 0 {
        let t = es.drop_last();
        let l = es.last();
        assert(keys_distinct(t)) by {
            assert forall|i: int, j: int| 0 <= i < j < t.len() implies (#[trigger] t[i]).0 != (#[trigger] t[j]).0 by {
                assert(t[i] == es[i] && t[j] == es[j]);
            }
        }
        lemma_canonical_members_keys(t);
        lemma_canonical_members_contains(t);
        let ct = canonical_members(t);
        let c = canonical_members(es);
        if l.1 != Json::Null {
            assert(c == ct.push((l.0, canonical(l.1))));
            assert forall|i: int, j: int| 0 <= i < j < c.len() implies (#[trigger] c[i]).0 != (#[trigger] c[j]).0 by {
                if j == c.len() - 1 {
                    assert(c[i] == ct[i]);
                    assert(ct.contains(ct[i]));
                    let k = choose|k: int| 0 <= k < t.len() && (#[trigger] t[k]).1 != Json::Null && ct[i] == (t[k].0, canonical(t[k].1));
                    assert(es[k] == t[k]);
                    assert(es[es.len() - 1] == l);
                } else {
                    assert(c[i] == ct[i] && c[j] == ct[j]);
                }
            }
        } else {
            assert(c =~= ct);
        }
    }
}

/// Member order does not matter: two objects holding the same members, each
/// key once, have the same canonical form.
#[verifier::spinoff_prover]
pub proof fn law_canonical_ignores_member_order(es1: Seq<(Seq<char>, Json)>, es2: Seq<(Seq<char>, Json)>)
    requires
        keys_distinct(es1),
        keys_distinct(es2),
        forall|e: (Seq<char>, Json)| #![trigger es1.contains(e)] #![trigger es2.contains(e)] es1.contains(e) <==> es2.contains(e),
    ensures
        canonical(Json::Obj(es1)) == canonical(Json::Obj(es2)),
{
    let c1 = canonical_members(es1);
    let c2 = canonical_members(es2);
    lemma_canonical_members_contains(es1);
    lemma_canonical_members_contains(es2);
    lemma_canonical_members_keys(es1);
    lemma_canonical_members_keys(es2);
    lemma_sort_keyed(c1, member_key());
    lemma_sort_keyed(c2, member_key());
    assert forall|y: (Seq<char>, Json)| #![trigger c1.contains(y)] #![trigger c2.contains(y)] c1.contains(y) <==> c2.contains(y) by {
        if c1.contains(y) {
            let k = choose|k: int| 0 <= k < es1.len() && (#[trigger] es1[k]).1 != Json::Null && y == (es1[k].0, canonical(es1[k].1));
            assert(es1.contains(es1[k]));
            let m = choose|m: int| 0 <= m < es2.len() && es2[m] == es1[k];
        }
        if c2.contains(y) {
            let k = choose|k: int| 0 <= k < es2.len() && (#[trigger] es2[k]).1 != Json::Null && y == (es2[k].0, canonical(es2[k].1));
            assert(es2.contains(es2[k]));
            let m = choose|m: int| 0 <= m < es1.len() && es1[m] == es2[k];
        }
    }
    assert forall|y: (Seq<char>, Json)| #![trigger sort_members(c1).contains(y)] #![trigger sort_members(c2).contains(y)]
        sort_members(c1).contains(y) <==> sort_members(c2).contains(y) by {
        assert(sort_members(c1).contains(y) == c1.contains(y));
        assert(sort_members(c2).contains(y) == c2.contains(y));
    }
    lemma_ascending_unique(sort_members(c1), sort_members(c2), member_key());
}

/// In an object whose keys are distinct, the member keyed `k` is the one
/// paired with it.
proof fn lemma_member_distinct(es: Seq<(Seq<char>, Json)>, k: Seq<char>, v: Json)
    requires
        keys_distinct(es),
        es.contains((k, v)),
    ensures
        member(Json::Obj(es), k) == Some(v),
{
    let m = choose|m: int| 0 <= m < es.len() && es[m] == (k, v);
    lemma_find_key(es, k, 0);
    let r = find_key(es, k, 0);
    if r == -1 {
        assert(es[m].0 == k);
    } else if r != m {
        if r < m {
            assert(es[r].0 != es[m].0);
        } else {
            assert(es[m].0 != es[r].0);
        }
    }
}

/// A named item: an object, each key once, whose `name` is a string.
pub open spec fn named_item(x: Json) -> bool {
    &&& x matches Json::Obj(es) && keys_distinct(es)
    &&& as_str(member(x, "name"@)) is Some
}

/// The canonical form of a named item keeps its name.
#[verifier::spinoff_prover]
proof fn lemma_canonical_keeps_name(x: Json)
    requires
        named_item(x),
    ensures
        as_str(member(canonical(x), "name"@)) == as_str(member(x, "name"@)),
{
    if let Json::Obj(es) = x {
        let s = as_str(member(x, "name"@))->Some_0;
        lemma_find_key(es, "name"@, 0);
        let i = find_key(es, "name"@, 0);
        assert(es[i] == ("name"@, Json::Str(s)));
        let cm = canonical_members(es);
        lemma_canonical_members_contains(es);
        assert(canonical(Json::Str(s)) == Json::Str(s));
        assert(es[i].1 != Json::Null);
        assert(cm.contains(("name"@, Json::Str(s))));
        lemma_canonical_members_keys(es);
        lemma_sort_keyed(cm, member_key());
        let sm = sort_members(cm);
        assert(sm.contains(("name"@, Json::Str(s))));
        assert(keys_distinct(sm)) by {
            assert forall|a: int, b: int| 0 <= a < b < sm.len() implies (#[trigger] sm[a]).0 != (#[trigger] sm[b]).0 by {
                lemma_text_less_irreflexive(sm[a].0);
            }
        }
        lemma_member_distinct(sm, "name"@, Json::Str(s));
    }
}

/// The items' canonical forms, one for one.
proof fn lemma_canonical_items_index(xs: Seq<Json>)
    ensures
        canonical_items(xs).len() == xs.len(),
        forall|k: int| 0 <= k < xs.len() ==> #[trigger] canonical_items(xs)[k] == canonical(xs[k]),
    decreases xs.len(),
{
    if xs.len() > 0 {
        lemma_canonical_items_index(xs.drop_last());
    }
}

/// Item order does not matter among named items: two arrays holding the
/// same named items, each name once, have the same canonical form.
#[verifier::spinoff_prover]
pub proof fn law_canonical_ignores_named_item_order(xs1: Seq<Json>, xs2: Seq<Json>)
    requires
        forall|i: int| 0 <= i < xs1.len() ==> named_item(#[trigger] xs1[i]),
        forall|i: int| 0 <= i < xs2.len() ==> named_item(#[trigger] xs2[i]),
        distinct_by(xs1, name_key()),
        distinct_by(xs2, name_key()),
        forall|x: Json| #![trigger xs1.contains(x)] #![trigger xs2.contains(x)] xs1.contains(x) <==> xs2.contains(x),
    ensures
        canonical(Json::Arr(xs1)) == canonical(Json::Arr(xs2)),
{
    let ys1 = canonical_items(xs1);
    let ys2 = canonical_items(xs2);
    lemma_canonical_items_index(xs1);
    lemma_canonical_items_index(xs2);
    if xs1.len() == 0 {
        if xs2.len() > 0 {
            assert(xs2.contains(xs2[0]));
        }
        assert(ys1 =~= ys2);
        return;
    }
    assert(xs1.contains(xs1[0]));
    assert(xs2.len() > 0);
    assert forall|k: int| 0 <= k < xs1.len() implies item_name(#[trigger] ys1[k]) == item_name(xs1[k])
        && as_str(member(ys1[k], "name"@)) is Some by {
        lemma_canonical_keeps_name(xs1[k]);
    }
    assert forall|k: int| 0 <= k < xs2.len() implies item_name(#[trigger] ys2[k]) == item_name(xs2[k])
        && as_str(member(ys2[k], "name"@)) is Some by {
        lemma_canonical_keeps_name(xs2[k]);
    }
    assert(all_named(ys1));
    assert(all_named(ys2));
    assert(distinct_by(ys1, name_key())) by {
        assert forall|i: int, j: int| 0 <= i < j < ys1.len() implies name_key()(#[trigger] ys1[i]) != name_key()(#[trigger] ys1[j]) by {
            assert(name_key()(xs1[i]) != name_key()(xs1[j]));
        }
    }
    assert(distinct_by(ys2, name_key())) by {
        assert forall|i: int, j: int| 0 <= i < j < ys2.len() implies name_key()(#[trigger] ys2[i]) != name_key()(#[trigger] ys2[j]) by {
            assert(name_key()(xs2[i]) != name_key()(xs2[j]));
        }
    }
    assert forall|y: Json| #![trigger ys1.contains(y)] #![trigger ys2.contains(y)] ys1.contains(y) <==> ys2.contains(y) by {
        if ys1.contains(y) {
            let k = choose|k: int| 0 <= k < ys1.len() && ys1[k] == y;
            assert(xs1.contains(xs1[k]));
            let m = choose|m: int| 0 <= m < xs2.len() && xs2[m] == xs1[k];
            assert(ys2[m] == y);
        }
        if ys2.contains(y) {
            let k = choose|k: int| 0 <= k < ys2.len() && ys2[k] == y;
            assert(xs2.contains(xs2[k]));
            let m = choose|m: int| 0 <= m < xs1.len() && xs1[m] == xs2[k];
            assert(ys1[m] == y);
        }
    }
    lemma_sort_keyed(ys1, name_key());
    lemma_sort_keyed(ys2, name_key());
    assert forall|y: Json| #![trigger sort_items(ys1).contains(y)] #![trigger sort_items(ys2).contains(y)]
        sort_items(ys1).contains(y) <==> sort_items(ys2).contains(y) by {
        assert(sort_items(ys1).contains(y) == ys1.contains(y));
        assert(sort_items(ys2).contains(y) == ys2.contains(y));
    }
    lemma_ascending_unique(sort_items(ys1), sort_items(ys2), name_key());
}

// ---------------------------------------------------------------------------
// Equality of documents
// ---------------------------------------------------------------------------

/// Two documents are equal as JSON values: scalars by value, arrays item by
/// item, objects of the same size whose every member is matched, by key, by
/// an equal value (member order does not matter).
pub open spec fn same_json(a: Json, b: Json) -> bool
    decreases a, 1int,
{
    match (a, b) {
        (Json::Null, Json::Null) => true,
        (Json::Bool(x), Json::Bool(y)) => x == y,
        (Json::Num(x), Json::Num(y)) => x == y,
        (Json::Str(x), Json::Str(y)) => x == y,
        (Json::Arr(xs), Json::Arr(ys)) => xs.len() == ys.len() && same_items(xs, ys),
        (Json::Obj(es), Json::Obj(fs)) => es.len() == fs.len() && members_in(es, fs),
        _ => false,
    }
}

/// Items equal pairwise (for sequences of one length).
pub open spec fn same_items(xs: Seq<Json>, ys: Seq<Json>) -> bool
    decreases xs, 0int,
{
    if xs.len() == 0 || ys.len() == 0 {
        true
    } else {
        proof {
            assert(decreases_to!(xs => xs[xs.len() - 1]));
        }
        same_items(xs.drop_last(), ys.drop_last()) && same_json(xs.last(), ys.last())
    }
}

/// Every member of `es` is matched in `fs` by key with an equal value.
pub open spec fn members_in(es: Seq<(Seq<char>, Json)>, fs: Seq<(Seq<char>, Json)>) -> bool
    decreases es, 0int,
{
    if es.len() == 0 {
        true
    } else {
        proof {
            assert(decreases_to!(es => es[es.len() - 1]));
        }
        members_in(es.drop_last(), fs) && match member(Json::Obj(fs), es.last().0) {
            Some(v) => same_json(es.last().1, v),
            None => false,
        }
    }
}

/// Whether two documents are equal as JSON values (`Value == Value`).
#[verifier::loop_isolation(false)]
#[verifier::spinoff_prover]
pub fn json_equal(a: &JsonValue, b: &JsonValue) -> (r: bool)
    ensures
        r == same_json(jv(*a), jv(*b)),
    decreases a,
{
    proof {
        lemma_jv_unfold(*a);
        lemma_jv_unfold(*b);
    }
    match (a, b) {
        (JsonValue::Null, JsonValue::Null) => true,
        (JsonValue::Bool(x), JsonValue::Bool(y)) => *x == *y,
        (JsonValue::Number(x), JsonValue::Number(y)) => str_eq(x.as_str(), y.as_str()),
        (JsonValue::Str(x), JsonValue::Str(y)) => str_eq(x.as_str(), y.as_str()),
        (JsonValue::Array(xs), JsonValue::Array(ys)) => {
            if xs.len() != ys.len() {
                return false;
            }
            let ghost xv = items_of(xs@);
            let ghost yv = items_of(ys@);
            let mut i: usize = 0;
            while i < xs.len()
                invariant
                    i <= xs@.len(),
                    xs@.len() == ys@.len(),
                    xv == items_of(xs@),
                    yv == items_of(ys@),
                    same_items(xv.take(i as int), yv.take(i as int)),
                decreases xs@.len() - i,
            {
                proof {
                    assert(xv.take(i + 1).drop_last() =~= xv.take(i as int));
                    assert(yv.take(i + 1).drop_last() =~= yv.take(i as int));
                    assert(decreases_to!(*a => xs@[i as int]));
                }
                if !json_equal(&xs[i], &ys[i]) {
                    proof {
                        if same_items(xv, yv) {
                            lemma_same_items_prefix(xv, yv, i + 1);
                            assert(xv.take(i + 1).last() == xv[i as int]);
                            assert(yv.take(i + 1).last() == yv[i as int]);
                        }
                    }
                    return false;
                }
                i += 1;
            }
            assert(xv.take(xv.len() as int) =~= xv);
            assert(yv.take(yv.len() as int) =~= yv);
            true
        },
        (JsonValue::Object(es), JsonValue::Object(fs)) => {
            if es.len() != fs.len() {
                return false;
            }
            let ghost ev = members_of(es@);
            let ghost fv = members_of(fs@);
            let mut i: usize = 0;
            while i < es.len()
                invariant
                    i <= es@.len(),
                    ev == members_of(es@),
                    fv == members_of(fs@),
                    jv(*b) == Json::Obj(fv),
                    members_in(ev.take(i as int), fv),
                decreases es@.len() - i,
            {
                proof {
                    assert(ev.take(i + 1).drop_last() =~= ev.take(i as int));
                    assert(decreases_to!(*a => es@[i as int].1));
                }
                let ok = match get(b, es[i].0.as_str()) {
                    Some(v) => json_equal(&es[i].1, v),
                    None => false,
                };
                if !ok {
                    proof {
                        if members_in(ev, fv) {
                            lemma_members_in_prefix(ev, fv, i + 1);
                            assert(ev.take(i + 1).last() == ev[i as int]);
                        }
                    }
                    return false;
                }
                i += 1;
            }
            assert(ev.take(ev.len() as int) =~= ev);
            true
        },
        _ => false,
    }
}

proof fn lemma_same_items_prefix(xs: Seq<Json>, ys: Seq<Json>, n: int)
    requires
        0 <= n <= xs.len(),
        xs.len() == ys.len(),
        same_items(xs, ys),
    ensures
        same_items(xs.take(n), ys.take(n)),
    decreases xs.len() - n,
{
    if n < xs.len() {
        lemma_same_items_prefix(xs, ys, n + 1);
        assert(xs.take(n + 1).drop_last() =~= xs.take(n));
        assert(ys.take(n + 1).drop_last() =~= ys.take(n));
    } else {
        assert(xs.take(n) =~= xs);
        assert(ys.take(n) =~= ys);
    }
}

proof fn lemma_members_in_prefix(es: Seq<(Seq<char>, Json)>, fs: Seq<(Seq<char>, Json)>, n: int)
    requires
        0 <= n <= es.len(),
        members_in(es, fs),
    ensures
        members_in(es.take(n), fs),
    decreases es.len() - n,
{
    if n < es.len() {
        lemma_members_in_prefix(es, fs, n + 1);
        assert(es.take(n + 1).drop_last() =~= es.take(n));
    } else {
        assert(es.take(n) =~= es);
    }
}

// ---------------------------------------------------------------------------
// Carrying annotations over
// ---------------------------------------------------------------------------

/// What an array item is matched by: its `name`, else its `type`.
pub open spec fn item_key(j: Json) -> Option<Json> {
    match member(j, "name"@) {
        Some(v) => Some(v),
        None => member(j, "type"@),
    }
}

/// Whether item `d` is matched by `key`.
pub open spec fn matches_key(d: Json, key: Json) -> bool {
    match item_key(d) {
        Some(k) => same_json(k, key),
        None => false,
    }
}

/// The first item of `d` at or after `from` matched by `key`, or -1.
pub open spec fn first_match(d: Seq<Json>, key: Json, from: int) -> int
    decreases d.len() - from,
{
    if from < 0 || from >= d.len() {
        -1
    } else if matches_key(d[from], key) {
        from
    } else {
        first_match(d, key, from + 1)
    }
}

/// `to` with the `x-rigg-` annotations of `from` carried over: at the top
/// of an object an annotation `to` lacks is added; a member both have is
/// carried into; in arrays, each item of `from` with a `name` (else a
/// `type`) is carried into the first item of `to` with an equal one.
pub open spec fn carry(from: Json, to: Json) -> Json
    decreases from, 1int,
{
    match (from, to) {
        (Json::Obj(src), Json::Obj(_)) => carry_members(src, to),
        (Json::Arr(src), Json::Arr(dst)) => Json::Arr(carry_items(src, dst)),
        _ => to,
    }
}

/// The members of `src` carried over into the object `to`, in order.
pub open spec fn carry_members(src: Seq<(Seq<char>, Json)>, to: Json) -> Json
    decreases src, 0int,
{
    if src.len() == 0 {
        to
    } else {
        proof {
            assert(decreases_to!(src => src[src.len() - 1]));
        }
        let t = carry_members(src.drop_last(), to);
        let k = src.last().0;
        let v = src.last().1;
        if has_prefix(k, "x-rigg-"@) {
            if member(t, k) is Some {
                t
            } else {
                with_member(t, k, v)
            }
        } else {
            match member(t, k) {
                Some(dv) => with_member(t, k, carry(v, dv)),
                None => t,
            }
        }
    }
}

/// The items of `src` carried over into the items `dst`, in order.
pub open spec fn carry_items(src: Seq<Json>, dst: Seq<Json>) -> Seq<Json>
    decreases src, 0int,
{
    if src.len() == 0 {
        dst
    } else {
        proof {
            assert(decreases_to!(src => src[src.len() - 1]));
        }
        let d = carry_items(src.drop_last(), dst);
        let sv = src.last();
        match item_key(sv) {
            Some(key) => {
                let i = first_match(d, key, 0);
                if i >= 0 {
                    d.update(i, carry(sv, d[i]))
                } else {
                    d
                }
            },
            None => d,
        }
    }
}

fn item_key_of(j: &JsonValue) -> (r: Option<&JsonValue>)
    ensures
        match r {
            Some(x) => item_key(jv(*j)) == Some(jv(*x)),
            None => item_key(jv(*j)) is None,
        },
{
    match get(j, "name") {
        Some(x) => Some(x),
        None => get(j, "type"),
    }
}

fn find_match(d: &Vec<JsonValue>, key: &JsonValue) -> (r: Option<usize>)
    ensures
        match r {
            Some(i) => first_match(items_of(d@), jv(*key), 0) == i as int && i < d@.len(),
            None => first_match(items_of(d@), jv(*key), 0) == -1,
        },
{
    let ghost dv = items_of(d@);
    let mut i: usize = 0;
    while i < d.len()
        invariant
            i <= d@.len(),
            dv == items_of(d@),
            first_match(dv, jv(*key), 0) == first_match(dv, jv(*key), i as int),
        decreases d@.len() - i,
    {
        assert(dv[i as int] == jv(d@[i as int]));
        let hit = match item_key_of(&d[i]) {
            Some(k) => json_equal(k, key),
            None => false,
        };
        if hit {
            return Some(i);
        }
        i += 1;
    }
    None
}

#[verifier::loop_isolation(false)]
#[verifier::spinoff_prover]
fn carry_value(from: &JsonValue, to: JsonValue) -> (r: JsonValue)
    ensures
        jv(r) == carry(jv(*from), jv(to)),
    decreases from,
{
    proof {
        lemma_jv_unfold(*from);
        lemma_jv_unfold(to);
    }
    let ghost to0 = jv(to);
    match from {
        JsonValue::Object(src) => {
            let is_object = match &to {
                JsonValue::Object(_) => true,
                _ => false,
            };
            if !is_object {
                return to;
            }
            let ghost sv = members_of(src@);
            let prefix = chars_of("x-rigg-");
            let mut t = to;
            let mut i: usize = 0;
            assert(sv.take(0) =~= Seq::<(Seq<char>, Json)>::empty());
            while i < src.len()
                invariant
                    i <= src@.len(),
                    sv == members_of(src@),
                    prefix@ == "x-rigg-"@,
                    t is Object,
                    jv(t) == carry_members(sv.take(i as int), to0),
                decreases src@.len() - i,
            {
                proof {
                    assert(sv.take(i + 1).drop_last() =~= sv.take(i as int));
                    assert(sv.take(i + 1).last() == sv[i as int]);
                    assert(sv[i as int] == (src@[i as int].0@, jv(src@[i as int].1)));
                    lemma_jv_unfold(t);
                }
                let k = src[i].0.as_str();
                let kv = chars_of(k);
                if starts_with(&kv, &prefix) {
                    let present = match get(&t, k) {
                        Some(_) => true,
                        None => false,
                    };
                    if !present {
                        t = set_member(t, k, deep_copy(&src[i].1));
                    }
                } else {
                    let cur = match get(&t, k) {
                        Some(dv) => Some(deep_copy(dv)),
                        None => None,
                    };
                    match cur {
                        Some(dv) => {
                            proof {
                                assert(decreases_to!(*from => src@[i as int].1));
                            }
                            let nv = carry_value(&src[i].1, dv);
                            t = set_member(t, k, nv);
                        },
                        None => {},
                    }
                }
                i += 1;
            }
            assert(sv.take(sv.len() as int) =~= sv);
            t
        },
        JsonValue::Array(src) => {
            let mut dst = match to {
                JsonValue::Array(d) => d,
                other => {
                    return other;
                },
            };
            let ghost srcv = items_of(src@);
            let ghost dst0 = items_of(dst@);
            let mut j: usize = 0;
            assert(srcv.take(0) =~= Seq::<Json>::empty());
            while j < src.len()
                invariant
                    j <= src@.len(),
                    srcv == items_of(src@),
                    to0 == Json::Arr(dst0),
                    items_of(dst@) == carry_items(srcv.take(j as int), dst0),
                decreases src@.len() - j,
            {
                proof {
                    assert(srcv.take(j + 1).drop_last() =~= srcv.take(j as int));
                    assert(srcv.take(j + 1).last() == srcv[j as int]);
                    assert(srcv[j as int] == jv(src@[j as int]));
                }
                let ghost d0 = items_of(dst@);
                match item_key_of(&src[j]) {
                    Some(key) => {
                        match find_match(&dst, key) {
                            Some(i) => {
                                let cur = deep_copy(&dst[i]);
                                proof {
                                    assert(decreases_to!(*from => src@[j as int]));
                                    assert(d0[i as int] == jv(dst@[i as int]));
                                }
                                let nv = carry_value(&src[j], cur);
                                dst.set(i, nv);
                                assert(items_of(dst@) =~= d0.update(i as int, carry(srcv[j as int], d0[i as int])));
                            },
                            None => {},
                        }
                    },
                    None => {},
                }
                j += 1;
            }
            assert(srcv.take(srcv.len() as int) =~= srcv);
            let r = JsonValue::Array(dst);
            proof {
                lemma_jv_unfold(r);
            }
            r
        },
        _ => to,
    }
}

/// Copy the `x-rigg-` annotations of `from` into `to` at the same places:
/// at the top of objects, and into the array items matched by `name` (else
/// `type`).
pub fn carry_over_x_rigg(from: &JsonValue, to: &mut JsonValue)
    ensures
        jv(*final(to)) == carry(jv(*from), jv(*old(to))),
{
    let mut cur = JsonValue::Null;
    std::mem::swap(&mut cur, to);
    *to = carry_value(from, cur);
}

proof fn lemma_carry_members_keeps(src: Seq<(Seq<char>, Json)>, to: Json, k: Seq<char>)
    requires
        to is Obj,
        has_prefix(k, "x-rigg-"@),
    ensures
        carry_members(src, to) is Obj,
        (exists|m: int| 0 <= m < src.len() && (#[trigger] src[m]).0 == k) || member(to, k) is Some ==> member(
            carry_members(src, to),
            k,
        ) is Some,
        member(to, k) is Some ==> member(carry_members(src, to), k) == member(to, k),
    decreases src.len(),
{
    if src.len() > 0 {
        let p = src.drop_last();
        lemma_carry_members_keeps(p, to, k);
        let t = carry_members(p, to);
        let key = src.last().0;
        let v = src.last().1;
        lemma_member_of_with(t, key, v, k);
        if has_prefix(key, "x-rigg-"@) {
        } else {
            match member(t, key) {
                Some(dv) => {
                    lemma_member_of_with(t, key, carry(v, dv), k);
                },
                None => {},
            }
        }
        if exists|m: int| 0 <= m < src.len() && (#[trigger] src[m]).0 == k {
            let m = choose|m: int| 0 <= m < src.len() && (#[trigger] src[m]).0 == k;
            if m < src.len() - 1 {
                assert(p[m] == src[m]);
            } else {
                assert(src[src.len() - 1] == src.last());
            }
        }
    }
}

/// Annotations survive a write: after carrying `from`'s annotations into
/// an object, every top-level `x-rigg-` member of `from` is there, and one
/// the object already had keeps the object's own value.
pub proof fn law_annotations_survive(src: Seq<(Seq<char>, Json)>, to: Seq<(Seq<char>, Json)>, k: Seq<char>)
    requires
        has_prefix(k, "x-rigg-"@),
    ensures
        member(Json::Obj(src), k) is Some ==> member(carry(Json::Obj(src), Json::Obj(to)), k) is Some,
        member(Json::Obj(to), k) is Some ==> member(carry(Json::Obj(src), Json::Obj(to)), k) == member(
            Json::Obj(to),
            k,
        ),
{
    lemma_carry_members_keeps(src, Json::Obj(to), k);
    lemma_find_key(src, k, 0);
    if member(Json::Obj(src), k) is Some {
        let i = find_key(src, k, 0);
        assert(src[i].0 == k);
    }
}

/// Carrying into a member that already holds an annotation keeps it, and
/// carrying into an object gives an object.
proof fn lemma_carry_keeps_annotation(v: Json, r: Json, a: Seq<char>)
    requires
        r is Obj,
        has_prefix(a, "x-rigg-"@),
    ensures
        carry(v, r) is Obj,
        member(r, a) is Some ==> member(carry(v, r), a) is Some,
        (v matches Json::Obj(_) && member(v, a) is Some) ==> member(carry(v, r), a) is Some,
{
    if let Json::Obj(vs) = v {
        lemma_carry_members_keeps(vs, r, a);
        lemma_find_key(vs, a, 0);
        if member(v, a) is Some {
            let i = find_key(vs, a, 0);
            assert(vs[i].0 == a);
        }
    }
}

/// Within the members `src` carried into `to`, a member `k` that is not an
/// annotation and that `to` holds as an object stays an object, and it
/// gains every annotation `a` that some member `k` of `src` holds.
proof fn lemma_carry_members_nested(src: Seq<(Seq<char>, Json)>, to: Json, k: Seq<char>, a: Seq<char>)
    requires
        to is Obj,
        !has_prefix(k, "x-rigg-"@),
        has_prefix(a, "x-rigg-"@),
        member(to, k) matches Some(tv) && tv is Obj,
    ensures
        carry_members(src, to) is Obj,
        member(carry_members(src, to), k) matches Some(r) && r is Obj && ((member(member(to, k).unwrap(), a) is Some
            || (exists|m: int|
            0 <= m < src.len() && (#[trigger] src[m]).0 == k && src[m].1 is Obj && member(src[m].1, a) is Some))
            ==> member(r, a) is Some),
    decreases src.len(),
{
    if src.len() > 0 {
        let p = src.drop_last();
        lemma_carry_members_nested(p, to, k, a);
        lemma_carry_members_keeps(p, to, a);
        let t = carry_members(p, to);
        let r0 = member(t, k).unwrap();
        let key = src.last().0;
        let v = src.last().1;
        lemma_member_of_with(t, key, v, k);
        if has_prefix(key, "x-rigg-"@) {
            assert(key != k);
        } else {
            match member(t, key) {
                Some(dv) => {
                    lemma_member_of_with(t, key, carry(v, dv), k);
                    if key == k {
                        lemma_carry_keeps_annotation(v, r0, a);
                    }
                },
                None => {},
            }
        }
        if exists|m: int|
            0 <= m < src.len() && (#[trigger] src[m]).0 == k && src[m].1 is Obj && member(src[m].1, a) is Some {
            let m = choose|m: int|
                0 <= m < src.len() && (#[trigger] src[m]).0 == k && src[m].1 is Obj && member(src[m].1, a) is Some;
            if m < src.len() - 1 {
                assert(p[m] == src[m]);
            } else {
                assert(src[src.len() - 1] == src.last());
            }
        }
    }
}

/// Law: annotations survive below the top level too. When both documents
/// hold an object under the same (non-annotation) member `k`, every
/// `x-rigg-` annotation of `from`'s member `k` is in the result's member
/// `k`, which is still an object.
pub proof fn law_nested_annotations_survive(
    src: Seq<(Seq<char>, Json)>,
    to: Seq<(Seq<char>, Json)>,
    k: Seq<char>,
    a: Seq<char>,
)
    requires
        !has_prefix(k, "x-rigg-"@),
        has_prefix(a, "x-rigg-"@),
        member(Json::Obj(src), k) matches Some(fv) && fv is Obj && member(fv, a) is Some,
        member(Json::Obj(to), k) matches Some(tv) && tv is Obj,
    ensures
        member(carry(Json::Obj(src), Json::Obj(to)), k) matches Some(r) && r is Obj && member(r, a) is Some,
{
    lemma_carry_members_nested(src, Json::Obj(to), k, a);
    lemma_find_key(src, k, 0);
    let i = find_key(src, k, 0);
    assert(src[i].0 == k);
    assert(member(Json::Obj(src), k) == Some(src[i].1));
    assert(src[i].1 is Obj && member(src[i].1, a) is Some);
    assert(carry(Json::Obj(src), Json::Obj(to)) == carry_members(src, Json::Obj(to)));
}

} // verus!
