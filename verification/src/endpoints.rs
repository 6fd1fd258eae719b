//! Reading names out of service URLs and identifiers: an AI services
//! account from its subdomain URL, the host of an `https` URI, an app id
//! from an audience.
use vstd::prelude::*;
use vstd::string::StrSliceExecFns;

use crate::text::{chars_of, has_prefix, strip_prefix, last_segment, last_segment_start};

verus! {

/// The index of the first character of `s` at or after `from` that is in
/// `stops`, or `s.len()`.
pub open spec fn stop_at(s: Seq<char>, stops: Seq<char>, from: int) -> int
    decreases s.len() - from,
{
    if from >= s.len() {
        s.len() as int
    } else if stops.contains(s[from]) {
        from
    } else {
        stop_at(s, stops, from + 1)
    }
}

/// The first piece of `s` split at any of `stops`.
pub open spec fn first_piece(s: Seq<char>, stops: Seq<char>) -> Seq<char> {
    s.subrange(0, stop_at(s, stops, 0))
}

proof fn lemma_stop_at_bounds(s: Seq<char>, stops: Seq<char>, from: int)
    requires
        0 <= from,
    ensures
        from <= s.len() ==> from <= stop_at(s, stops, from) <= s.len(),
        from > s.len() ==> stop_at(s, stops, from) == s.len(),
    decreases s.len() - from,
{
    if from < s.len() {
        lemma_stop_at_bounds(s, stops, from + 1);
    }
}

/// The end of the first piece of `v`.
fn stop_index(v: &Vec<char>, stops: &Vec<char>) -> (i: usize)
    ensures
        i == stop_at(v@, stops@, 0),
        i <= v@.len(),
{
    let mut i: usize = 0;
    proof {
        lemma_stop_at_bounds(v@, stops@, 0);
    }
    while i < v.len()
        invariant
            0 <= i <= v@.len(),
            stop_at(v@, stops@, 0) == stop_at(v@, stops@, i as int),
        decreases v@.len() - i,
    {
        let c = v[i];
        let mut hit = false;
        let mut k: usize = 0;
        while k < stops.len()
            invariant
                0 <= k <= stops@.len(),
                hit == exists|m: int| 0 <= m < k && stops@[m] == c,
            decreases stops@.len() - k,
        {
            if stops[k] == c {
                hit = true;
            }
            k += 1;
        }
        if hit {
            return i;
        }
        i += 1;
    }
    i
}

/// The account name in an AI services subdomain URL
/// (`https://<name>.cognitiveservices.azure.com/` gives `<name>`).
pub open spec fn ai_services_account_spec(url: Seq<char>) -> Option<Seq<char>> {
    match strip_prefix(url, "https://"@) {
        None => None,
        Some(rest) => {
            let name = first_piece(rest, seq!['.']);
            if name.len() > 0 {
                Some(name)
            } else {
                None
            }
        },
    }
}

/// The account name in an AI services subdomain URL.
pub fn ai_services_account_name(subdomain_url: &str) -> (r: Option<&str>)
    ensures
        match (r, ai_services_account_spec(subdomain_url@)) {
            (Some(a), Some(b)) => a@ == b,
            (None, None) => true,
            _ => false,
        },
{
    let v = chars_of(subdomain_url);
    let p = chars_of("https://");
    if !crate::text::starts_with(&v, &p) {
        return None;
    }
    let pl = p.len();
    let rest = subdomain_url.substring_char(pl, v.len());
    let rv = chars_of(rest);
    let dot = vec!['.'];
    assert(dot@ =~= seq!['.']);
    let e = stop_index(&rv, &dot);
    if e == 0 {
        return None;
    }
    assert(rv@.subrange(0, e as int) == first_piece(rest@, seq!['.']));
    Some(subdomain_url.substring_char(pl, pl + e))
}

/// The host of an `https://` or `http://` URI: up to the first `/` or
/// `?`, and not empty.
pub open spec fn uri_host_spec(uri: Seq<char>) -> Option<Seq<char>> {
    let rest = match strip_prefix(uri, "https://"@) {
        Some(r) => Some(r),
        None => strip_prefix(uri, "http://"@),
    };
    match rest {
        None => None,
        Some(r) => {
            let host = first_piece(r, seq!['/', '?']);
            if host.len() > 0 {
                Some(host)
            } else {
                None
            }
        },
    }
}

/// The host of an `https://` or `http://` URI.
pub fn uri_host(uri: &str) -> (r: Option<&str>)
    ensures
        match (r, uri_host_spec(uri@)) {
            (Some(a), Some(b)) => a@ == b,
            (None, None) => true,
            _ => false,
        },
{
    let v = chars_of(uri);
    let https = chars_of("https://");
    let http = chars_of("http://");
    let start: usize = if crate::text::starts_with(&v, &https) {
        https.len()
    } else if crate::text::starts_with(&v, &http) {
        http.len()
    } else {
        return None;
    };
    let rest = uri.substring_char(start, v.len());
    let rv = chars_of(rest);
    let stops = vec!['/', '?'];
    assert(stops@ =~= seq!['/', '?']);
    let e = stop_index(&rv, &stops);
    if e == 0 {
        return None;
    }
    assert(rv@.subrange(0, e as int) == first_piece(rest@, seq!['/', '?']));
    Some(uri.substring_char(start, start + e))
}

/// The client id an audience names: without an `api://` prefix, its last
/// `/`-segment; nothing when that is empty.
pub open spec fn app_id_spec(audience: Seq<char>) -> Option<Seq<char>> {
    let id = match strip_prefix(audience, "api://"@) {
        Some(rest) => rest,
        None => audience,
    };
    let last = last_segment(id);
    if last.len() > 0 {
        Some(last)
    } else {
        None
    }
}

/// The client id an audience names.
pub fn app_id_of(audience: &str) -> (r: Option<&str>)
    ensures
        match (r, app_id_spec(audience@)) {
            (Some(a), Some(b)) => a@ == b,
            (None, None) => true,
            _ => false,
        },
{
    let v = chars_of(audience);
    let p = chars_of("api://");
    let start: usize = if crate::text::starts_with(&v, &p) {
        p.len()
    } else {
        0
    };
    let id = audience.substring_char(start, v.len());
    assert(start == 0 ==> id@ =~= audience@);
    let iv = chars_of(id);
    let a = last_segment_start(&iv, iv.len());
    assert(iv@.subrange(0, iv@.len() as int) =~= iv@);
    if a == iv.len() {
        assert(iv@.subrange(a as int, iv@.len() as int) =~= Seq::<char>::empty());
        return None;
    }
    let r = audience.substring_char(start + a, v.len());
    assert(r@ =~= iv@.subrange(a as int, iv@.len() as int));
    Some(r)
}

/// What wiring Entra authentication in front of a function app did.
#[derive(Debug)]
pub struct Wiring {
    /// The function app's ARM resource name.
    pub site: String,
    /// The identifier URI a Web API skill now asks tokens for.
    pub audience: String,
    /// Workspace-relative paths of the skillset files that were rewritten.
    pub touched: Vec<String>,
    /// False when the user declined the confirmation: nothing was changed.
    pub applied: bool,
}

} // verus!
