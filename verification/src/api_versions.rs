//! Comparing Azure api-versions (`YYYY-MM-DD[-preview]`) and picking the
//! newest from a listing.
use vstd::prelude::*;
use vstd::string::StringSliceAdditionalSpecFns;
use vstd::utf8::{encode_utf8, is_char_boundary};

verus! {

/// `a` sorts strictly before `b` byte by byte (`str`'s order).
pub open spec fn bytes_lt(a: Seq<u8>, b: Seq<u8>) -> bool
    decreases a.len(),
{
    if a.len() == 0 {
        b.len() > 0
    } else if b.len() == 0 {
        false
    } else if a[0] != b[0] {
        a[0] < b[0]
    } else {
        bytes_lt(a.drop_first(), b.drop_first())
    }
}

/// The date part of a version: its first ten bytes when they end on a
/// character boundary, else the whole text.
pub open spec fn date_part(s: Seq<char>) -> Seq<u8> {
    let b = encode_utf8(s);
    if b.len() >= 10 && is_char_boundary(b, 10) {
        b.subrange(0, 10)
    } else {
        b
    }
}

/// `a` is a newer api-version than `b`: its date part sorts after.
pub open spec fn version_newer_spec(a: Seq<char>, b: Seq<char>) -> bool {
    bytes_lt(date_part(b), date_part(a))
}

/// Whether `a[i..]` sorts before `b[j..]`.
fn lt_from(a: &[u8], i: usize, ai: usize, b: &[u8], j: usize, bj: usize) -> (r: bool)
    requires
        i <= ai <= a@.len(),
        j <= bj <= b@.len(),
    ensures
        r == bytes_lt(a@.subrange(i as int, ai as int), b@.subrange(j as int, bj as int)),
    decreases ai - i,
{
    if i == ai {
        return j < bj;
    }
    if j == bj {
        return false;
    }
    assert(a@.subrange(i as int, ai as int).drop_first() =~= a@.subrange(i + 1, ai as int));
    assert(b@.subrange(j as int, bj as int).drop_first() =~= b@.subrange(j + 1, bj as int));
    if a[i] != b[j] {
        return a[i] < b[j];
    }
    lt_from(a, i + 1, ai, b, j + 1, bj)
}

/// The length of a version's date part.
fn date_len(s: &str) -> (n: usize)
    ensures
        n <= s.spec_bytes().len(),
        s.spec_bytes().subrange(0, n as int) == date_part(s@),
{
    let bytes = s.as_bytes();
    let l = bytes.len();
    let n = if l >= 10 && s.is_char_boundary(10) {
        10
    } else {
        l
    };
    assert(s.spec_bytes().subrange(0, s.spec_bytes().len() as int) =~= s.spec_bytes());
    n
}

/// Is `a` a newer api-version than `b`? Date-prefix comparison; a dated
/// version with a `-preview` suffix compares by date first.
pub fn version_newer(a: &str, b: &str) -> (r: bool)
    ensures
        r == version_newer_spec(a@, b@),
{
    let na = date_len(a);
    let nb = date_len(b);
    let ab = a.as_bytes();
    let bb = b.as_bytes();
    lt_from(bb, 0, nb, ab, 0, na)
}

/// A listing entry that looks like an api-version: at least ten bytes,
/// with `-` as its fifth byte.
pub open spec fn version_shaped(s: Seq<char>) -> bool {
    encode_utf8(s).len() >= 10 && encode_utf8(s)[4] == 45u8
}

/// Byte order is a strict order: irreflexive and transitive.
proof fn lemma_bytes_lt_strict(a: Seq<u8>, b: Seq<u8>, c: Seq<u8>)
    ensures
        !bytes_lt(a, a),
        bytes_lt(a, b) ==> !bytes_lt(b, a),
        bytes_lt(a, b) && bytes_lt(b, c) ==> bytes_lt(a, c),
    decreases a.len(),
{
    if a.len() > 0 && b.len() > 0 && c.len() > 0 {
        lemma_bytes_lt_strict(a.drop_first(), b.drop_first(), c.drop_first());
    } else if a.len() > 0 && b.len() > 0 {
        lemma_bytes_lt_strict(a.drop_first(), b.drop_first(), b.drop_first());
    } else if a.len() > 0 {
        lemma_bytes_lt_strict(a.drop_first(), a.drop_first(), a.drop_first());
    }
}

/// Whether a listing name is version-shaped.
fn is_version_shaped(s: &String) -> (r: bool)
    ensures
        r == version_shaped(s@),
{
    let t = s.as_str();
    let bytes = t.as_bytes();
    bytes.len() >= 10 && bytes[4] == 45u8
}

/// The newest api-version-shaped name of a listing (the greatest in byte
/// order), or nothing when no name is version-shaped.
pub fn latest_from_entries(names: &Vec<String>) -> (r: Option<String>)
    ensures
        r is None <==> forall|i: int| 0 <= i < names@.len() ==> !version_shaped(#[trigger] names@[i]@),
        r matches Some(best) ==> {
            &&& encode_utf8(best@).len() >= 10 && encode_utf8(best@)[4] == 45u8
            &&& version_shaped(best@)
            &&& exists|i: int| 0 <= i < names@.len() && names@[i]@ == best@
            &&& forall|i: int| 0 <= i < names@.len() && version_shaped(#[trigger] names@[i]@) ==> !bytes_lt(
                encode_utf8(best@),
                encode_utf8(names@[i]@),
            )
        },
{
    let mut best: Option<usize> = None;
    let mut i: usize = 0;
    while i < names.len()
        invariant
            0 <= i <= names@.len(),
            best is None <==> forall|k: int| 0 <= k < i ==> !version_shaped(#[trigger] names@[k]@),
            best matches Some(b) ==> b < i && version_shaped(names@[b as int]@) && forall|k: int|
                0 <= k < i && version_shaped(#[trigger] names@[k]@) ==> !bytes_lt(
                    encode_utf8(names@[b as int]@),
                    encode_utf8(names@[k]@),
                ),
        decreases names@.len() - i,
    {
        if is_version_shaped(&names[i]) {
            match best {
                None => {
                    proof {
                        lemma_bytes_lt_strict(encode_utf8(names@[i as int]@), encode_utf8(names@[i as int]@), encode_utf8(names@[i as int]@));
                    }
                    best = Some(i);
                },
                Some(b) => {
                    let x = names[b].as_str().as_bytes();
                    let y = names[i].as_str().as_bytes();
                    let xl = x.len();
                    let yl = y.len();
                    assert(x@.subrange(0, xl as int) =~= x@);
                    assert(y@.subrange(0, yl as int) =~= y@);
                    if lt_from(x, 0, xl, y, 0, yl) {
                        proof {
                            let cur = encode_utf8(names@[i as int]@);
                            let old_best = encode_utf8(names@[b as int]@);
                            assert forall|k: int| 0 <= k < i + 1 && version_shaped(#[trigger] names@[k]@) implies !bytes_lt(
                                cur,
                                encode_utf8(names@[k]@),
                            ) by {
                                lemma_bytes_lt_strict(old_best, cur, encode_utf8(names@[k]@));
                                lemma_bytes_lt_strict(cur, encode_utf8(names@[k]@), cur);
                                lemma_bytes_lt_strict(old_best, encode_utf8(names@[k]@), cur);
                                lemma_bytes_lt_strict(cur, cur, cur);
                            }
                        }
                        best = Some(i);
                    } else {
                        proof {
                            lemma_bytes_lt_strict(encode_utf8(names@[b as int]@), encode_utf8(names@[b as int]@), encode_utf8(names@[b as int]@));
                        }
                    }
                },
            }
        }
        i += 1;
    }
    match best {
        None => None,
        Some(b) => Some(names[b].clone()),
    }
}

/// Of two different byte strings, one sorts before the other.
proof fn lemma_bytes_lt_total(a: Seq<u8>, b: Seq<u8>)
    ensures
        a != b ==> bytes_lt(a, b) || bytes_lt(b, a),
    decreases a.len(),
{
    if a.len() == 0 {
        if b.len() == 0 {
            assert(a =~= b);
        }
    } else if b.len() > 0 && a[0] == b[0] {
        lemma_bytes_lt_total(a.drop_first(), b.drop_first());
        if a.drop_first() == b.drop_first() {
            assert(a =~= seq![a[0]] + a.drop_first());
            assert(b =~= seq![b[0]] + b.drop_first());
        }
    }
}

/// Byte strings of one length that agree before index `k` are ordered by
/// their bytes at `k`.
proof fn lemma_bytes_lt_at(x: Seq<u8>, y: Seq<u8>, k: int)
    requires
        x.len() == y.len(),
        0 <= k < x.len(),
        forall|i: int| 0 <= i < k ==> x[i] == y[i],
        x[k] < y[k],
    ensures
        bytes_lt(x, y),
    decreases k,
{
    if k > 0 {
        lemma_bytes_lt_at(x.drop_first(), y.drop_first(), k - 1);
    }
}

/// A version text with a ten-byte date prefix (`YYYY-MM-DD`): at least ten
/// bytes, the tenth ending a character.
pub open spec fn has_date_prefix(s: Seq<char>) -> bool {
    encode_utf8(s).len() >= 10 && is_char_boundary(encode_utf8(s), 10)
}

/// Law: versions with a date prefix are compared by all ten bytes of it
/// (year, month and day) and by nothing else: with equal dates neither is
/// newer, whatever follows; with different dates exactly one is newer; and
/// when the dates first differ in their last byte (the day), the greater
/// byte is the newer version.
pub proof fn law_versions_compare_whole_dates(a: Seq<char>, b: Seq<char>)
    requires
        has_date_prefix(a),
        has_date_prefix(b),
    ensures
        encode_utf8(a).subrange(0, 10) == encode_utf8(b).subrange(0, 10) ==> !version_newer_spec(a, b)
            && !version_newer_spec(b, a),
        encode_utf8(a).subrange(0, 10) != encode_utf8(b).subrange(0, 10) ==> version_newer_spec(a, b)
            != version_newer_spec(b, a),
        (forall|i: int| 0 <= i < 9 ==> encode_utf8(a)[i] == encode_utf8(b)[i]) && encode_utf8(a)[9] > encode_utf8(b)[9]
            ==> version_newer_spec(a, b),
{
    let da = encode_utf8(a).subrange(0, 10);
    let db = encode_utf8(b).subrange(0, 10);
    assert(date_part(a) == da);
    assert(date_part(b) == db);
    lemma_bytes_lt_strict(da, db, da);
    lemma_bytes_lt_strict(db, da, db);
    lemma_bytes_lt_total(da, db);
    if (forall|i: int| 0 <= i < 9 ==> encode_utf8(a)[i] == encode_utf8(b)[i]) && encode_utf8(a)[9] > encode_utf8(b)[9] {
        lemma_bytes_lt_at(db, da, 9);
    }
}

/// Law: only version-shaped names are taken for versions: a name whose
/// fifth byte is not `-`, or that is shorter than ten bytes, is never
/// version-shaped, so `latest_from_entries` never returns it.
pub proof fn law_versions_have_a_dash_at_byte_four(s: Seq<char>)
    ensures
        encode_utf8(s).len() < 10 || encode_utf8(s)[4] != 45u8 ==> !version_shaped(s),
{
}

} // verus!
