//! Keyless connections in resource definitions: noticing a data source or a
//! skillset that arrived without a usable credential (Azure never returns
//! secrets on GET), and rewriting them to the identity-based form.
use vstd::prelude::*;

use crate::diff_output::JsonValue;
use crate::json::{
    Json, jv, member, with_member, as_str, get, set_member, string_value, empty_object,
    lemma_jv_unfold, lemma_with_new_key, member_in,
};
use crate::text::{chars_of, copy_str, ends_with, has_suffix, str_eq, trim, trim_vec};

verus! {

/// A data source whose `credentials.connectionString` is missing, not a
/// string, or blank.
pub open spec fn missing_credentials_spec(doc: Json) -> bool {
    match as_str(member_in(member(doc, "credentials"@), "connectionString"@)) {
        Some(s) => trim(s).len() == 0,
        None => true,
    }
}

/// The string at `v.k1.k2`, when there is one.
fn str_at<'a>(v: &'a JsonValue, k1: &str, k2: &str) -> (r: Option<&'a str>)
    ensures
        match (r, as_str(member_in(member(jv(*v), k1@), k2@))) {
            (Some(s), Some(t)) => s@ == t,
            (None, None) => true,
            _ => false,
        },
{
    match get(v, k1) {
        Some(inner) => match get(inner, k2) {
            Some(x) => {
                proof {
                    lemma_jv_unfold(*x);
                }
                match x {
                    JsonValue::Str(s) => Some(s.as_str()),
                    _ => None,
                }
            },
            None => None,
        },
        None => None,
    }
}

/// A data source with no usable connection (missing, null or blank
/// `credentials.connectionString`).
pub fn missing_credentials(doc: &JsonValue) -> (r: bool)
    ensures
        r == missing_credentials_spec(jv(*doc)),
{
    match str_at(doc, "credentials", "connectionString") {
        Some(s) => trim_vec(&chars_of(s)).len() == 0,
        None => true,
    }
}

/// The blob container a data source reads from, when declared.
pub fn container_name(doc: &JsonValue) -> (r: Option<&str>)
    ensures
        match (r, as_str(member_in(member(jv(*doc), "container"@), "name"@))) {
            (Some(s), Some(t)) => s@ == t,
            (None, None) => true,
            _ => false,
        },
{
    str_at(doc, "container", "name")
}

/// The `credentials` block holding a connection string.
pub open spec fn credentials_block(connection: Seq<char>) -> Json {
    Json::Obj(seq![("connectionString"@, Json::Str(connection))])
}

/// Set `credentials.connectionString` on a data-source document (the whole
/// `credentials` block is replaced).
pub fn set_connection(doc: &mut JsonValue, connection: &str)
    requires
        *old(doc) is Object || *old(doc) is Null,
    ensures
        jv(*final(doc)) == with_member(jv(*old(doc)), "credentials"@, credentials_block(connection@)),
{
    let block = set_member(empty_object(), "connectionString", string_value(connection));
    proof {
        lemma_with_new_key(Seq::empty(), "connectionString"@, Json::Str(connection@));
        assert(Seq::<(Seq<char>, Json)>::empty().push(("connectionString"@, Json::Str(connection@)))
            =~= seq![("connectionString"@, Json::Str(connection@))]);
    }
    let mut cur = JsonValue::Null;
    std::mem::swap(&mut cur, doc);
    *doc = set_member(cur, "credentials", block);
}

/// What `skillset_missing_ai_services_key` reports for a skillset: `None`
/// unless its `cognitiveServices` is key-based (`@odata.type` ends in
/// `ByKey`) with no real key (missing, blank or `<redacted>`); then the
/// declared subdomain URL, when there is one.
pub open spec fn missing_ai_services_key_spec(doc: Json) -> Option<Option<Seq<char>>> {
    match member(doc, "cognitiveServices"@) {
        Some(Json::Obj(es)) => {
            let cs = Json::Obj(es);
            let odata = match as_str(member(cs, "@odata.type"@)) {
                Some(t) => t,
                None => Seq::empty(),
            };
            let key = match as_str(member(cs, "key"@)) {
                Some(k) => k,
                None => Seq::empty(),
            };
            if !has_suffix(odata, "ByKey"@) {
                None
            } else if trim(key).len() > 0 && key != "<redacted>"@ {
                None
            } else {
                Some(as_str(member(cs, "subdomainUrl"@)))
            }
        },
        _ => None,
    }
}

/// The string of member `k` of `v`, or `""`.
fn str_or_empty<'a>(v: &'a JsonValue, k: &str) -> (r: &'a str)
    ensures
        r@ == match as_str(member(jv(*v), k@)) {
            Some(s) => s,
            None => Seq::empty(),
        },
{
    proof {
        reveal_strlit("");
    }
    match get(v, k) {
        Some(x) => {
            proof {
                lemma_jv_unfold(*x);
            }
            match x {
                JsonValue::Str(s) => s.as_str(),
                _ => "",
            }
        },
        None => "",
    }
}

/// A skillset whose `cognitiveServices` connection is key-based but carries
/// no usable key (copied definitions arrive with a null or `<redacted>`
/// placeholder). Gives the subdomain URL when one is declared: the
/// ingredient of the identity-based rewrite.
pub fn skillset_missing_ai_services_key(doc: &JsonValue) -> (r: Option<Option<String>>)
    ensures
        match (r, missing_ai_services_key_spec(jv(*doc))) {
            (None, None) => true,
            (Some(None), Some(None)) => true,
            (Some(Some(u)), Some(Some(t))) => u@ == t,
            _ => false,
        },
{
    let cs = match get(doc, "cognitiveServices") {
        Some(x) => x,
        None => return None,
    };
    proof {
        lemma_jv_unfold(*cs);
    }
    match cs {
        JsonValue::Object(_) => {},
        _ => return None,
    }
    let odata = str_or_empty(cs, "@odata.type");
    let suffix = chars_of("ByKey");
    if !ends_with(&chars_of(odata), &suffix) {
        return None;
    }
    let key = str_or_empty(cs, "key");
    if trim_vec(&chars_of(key)).len() > 0 && !str_eq(key, "<redacted>") {
        return None;
    }
    match get(cs, "subdomainUrl") {
        Some(x) => {
            proof {
                lemma_jv_unfold(*x);
            }
            match x {
                JsonValue::Str(s) => Some(Some(copy_str(s.as_str()))),
                _ => Some(None),
            }
        },
        None => Some(None),
    }
}

/// The identity-based AI services connection for a subdomain URL.
pub open spec fn identity_connection(url: Seq<char>) -> Json {
    Json::Obj(
        seq![
            ("@odata.type"@, Json::Str("#Microsoft.Azure.Search.AIServicesByIdentity"@)),
            ("subdomainUrl"@, Json::Str(url)),
            ("identity"@, Json::Null),
        ],
    )
}

/// Rewrite a skillset's AI services connection to the keyless
/// identity-based form: the search service's managed identity
/// authenticates and nothing secret is on disk.
pub fn set_ai_services_identity(doc: &mut JsonValue, subdomain_url: &str)
    requires
        *old(doc) is Object || *old(doc) is Null,
    ensures
        jv(*final(doc)) == with_member(jv(*old(doc)), "cognitiveServices"@, identity_connection(subdomain_url@)),
{
    let c0 = set_member(empty_object(), "@odata.type", string_value("#Microsoft.Azure.Search.AIServicesByIdentity"));
    let c1 = set_member(c0, "subdomainUrl", string_value(subdomain_url));
    let c2 = set_member(c1, "identity", JsonValue::Null);
    proof {
        reveal_strlit("@odata.type");
        reveal_strlit("subdomainUrl");
        reveal_strlit("identity");
        assert("@odata.type"@ != "subdomainUrl"@ && "@odata.type"@ != "identity"@) by {
            assert("@odata.type"@[0] != "subdomainUrl"@[0]);
            assert("@odata.type"@[0] != "identity"@[0]);
        }
        assert("subdomainUrl"@ != "identity"@) by {
            assert("subdomainUrl"@[0] != "identity"@[0]);
        }
        let e0: Seq<(Seq<char>, Json)> = Seq::empty();
        lemma_with_new_key(e0, "@odata.type"@, Json::Str("#Microsoft.Azure.Search.AIServicesByIdentity"@));
        let e1 = e0.push(("@odata.type"@, Json::Str("#Microsoft.Azure.Search.AIServicesByIdentity"@)));
        lemma_with_new_key(e1, "subdomainUrl"@, Json::Str(subdomain_url@));
        let e2 = e1.push(("subdomainUrl"@, Json::Str(subdomain_url@)));
        lemma_with_new_key(e2, "identity"@, Json::Null);
        assert(e2.push(("identity"@, Json::Null)) =~= seq![
            ("@odata.type"@, Json::Str("#Microsoft.Azure.Search.AIServicesByIdentity"@)),
            ("subdomainUrl"@, Json::Str(subdomain_url@)),
            ("identity"@, Json::Null),
        ]);
    }
    let mut cur = JsonValue::Null;
    std::mem::swap(&mut cur, doc);
    *doc = set_member(cur, "cognitiveServices", c2);
}

} // verus!
