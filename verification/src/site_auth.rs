//! Merging rigg's Microsoft Entra settings into a function app's
//! `authsettingsV2` document.
//!
//! The document is written back whole, so everything the app already has is
//! carried over: other identity providers, login and HTTP settings. Only the
//! fields rigg needs are set, and the two list fields (accepted audiences,
//! admitted applications) are unioned with what is there, never replaced.
use vstd::prelude::*;

use crate::diff_output::JsonValue;
use crate::json::{
    Json, jv, member, with_member, obj_member, string_items, str_array, set_member, object_member,
    member_strings, string_array, string_value, empty_object, deep_copy, lemma_member_of_with,
    lemma_with_same, lemma_jv_unfold, lemma_strings_of_str_array,
};
use crate::binding::BindingType;
use crate::environments::{dep_find, dep_position};
use crate::text::{copy_str, push_str, str_eq};
use crate::workspace::ResolvedEnv;

verus! {

/// `items ∪ {entry}`, order-preserving: `entry` is appended unless present.
pub open spec fn union_spec(items: Seq<Seq<char>>, entry: Seq<char>) -> Seq<Seq<char>> {
    if items.contains(entry) {
        items
    } else {
        items.push(entry)
    }
}

/// The token issuer of a tenant.
pub open spec fn issuer(tenant: Seq<char>) -> Seq<char> {
    "https://login.microsoftonline.com/"@ + tenant + "/v2.0"@
}

/// The Entra provider settings after the merge.
pub open spec fn merged_aad(aad: Json, client_id: Seq<char>, tenant: Seq<char>, audience: Seq<char>, app: Seq<char>) -> Json {
    let aad0 = with_member(aad, "enabled"@, Json::Bool(true));
    let reg = with_member(
        with_member(obj_member(aad0, "registration"@), "clientId"@, Json::Str(client_id)),
        "openIdIssuer"@,
        Json::Str(issuer(tenant)),
    );
    let aad1 = with_member(aad0, "registration"@, reg);
    let val0 = obj_member(aad1, "validation"@);
    let val1 = with_member(
        val0,
        "allowedAudiences"@,
        str_array(union_spec(string_items(member(val0, "allowedAudiences"@)), audience)),
    );
    let dap = obj_member(val1, "defaultAuthorizationPolicy"@);
    let dap1 = with_member(
        dap,
        "allowedApplications"@,
        str_array(union_spec(string_items(member(dap, "allowedApplications"@)), app)),
    );
    let val2 = with_member(val1, "defaultAuthorizationPolicy"@, dap1);
    with_member(aad1, "validation"@, val2)
}

/// The `properties` block after the merge.
pub open spec fn merged_props(props: Json, client_id: Seq<char>, tenant: Seq<char>, audience: Seq<char>, app: Seq<char>) -> Json {
    let platform = with_member(obj_member(props, "platform"@), "enabled"@, Json::Bool(true));
    let gv = with_member(
        with_member(obj_member(props, "globalValidation"@), "requireAuthentication"@, Json::Bool(true)),
        "unauthenticatedClientAction"@,
        Json::Str("Return401"@),
    );
    let ip = obj_member(props, "identityProviders"@);
    let aad = merged_aad(obj_member(ip, "azureActiveDirectory"@), client_id, tenant, audience, app);
    let ip2 = with_member(ip, "azureActiveDirectory"@, aad);
    with_member(
        with_member(with_member(props, "platform"@, platform), "globalValidation"@, gv),
        "identityProviders"@,
        ip2,
    )
}

/// The whole document after the merge (a value that is not an object
/// starts over as an empty one).
pub open spec fn merged_settings(current: Json, client_id: Seq<char>, tenant: Seq<char>, audience: Seq<char>, app: Seq<char>) -> Json {
    let root = if current is Obj {
        current
    } else {
        Json::Obj(Seq::empty())
    };
    with_member(
        root,
        "properties"@,
        merged_props(obj_member(root, "properties"@), client_id, tenant, audience, app),
    )
}

/// `existing ∪ {entry}` over the string items of member `key` of `v`,
/// as an array value.
fn union_with(v: &JsonValue, key: &str, entry: &str) -> (r: JsonValue)
    ensures
        jv(r) == str_array(union_spec(string_items(member(jv(*v), key@)), entry@)),
{
    let mut items = member_strings(v, key);
    let ghost before = items@.map_values(|s: String| s@);
    let mut present = false;
    let mut i: usize = 0;
    while i < items.len()
        invariant
            i <= items@.len(),
            before == items@.map_values(|s: String| s@),
            present == exists|j: int| 0 <= j < i && items@[j]@ == entry@,
        decreases items@.len() - i,
    {
        if str_eq(items[i].as_str(), entry) {
            present = true;
        }
        i = i + 1;
    }
    proof {
        if present {
            let j = choose|j: int| 0 <= j < items@.len() && items@[j]@ == entry@;
            assert(before[j] == entry@);
        } else {
            assert forall|j: int| 0 <= j < before.len() implies before[j] != entry@ by {
                assert(before[j] == items@[j]@);
            }
        }
    }
    if !present {
        items.push(copy_str(entry));
        assert(items@.map_values(|s: String| s@) =~= before.push(entry@));
    }
    string_array(&items)
}

/// The Entra provider settings merged.
fn merge_aad(aad: JsonValue, client_id: &str, tenant: &str, audience: &str, app: &str) -> (r: JsonValue)
    requires
        aad is Object,
    ensures
        jv(r) == merged_aad(jv(aad), client_id@, tenant@, audience@, app@),
        r is Object,
{
    let aad0 = set_member(aad, "enabled", JsonValue::Bool(true));
    let reg0 = object_member(&aad0, "registration");
    let reg1 = set_member(reg0, "clientId", string_value(client_id));
    let mut iss = copy_str("https://login.microsoftonline.com/");
    push_str(&mut iss, tenant);
    push_str(&mut iss, "/v2.0");
    let reg = set_member(reg1, "openIdIssuer", JsonValue::Str(iss));
    let aad1 = set_member(aad0, "registration", reg);
    let val0 = object_member(&aad1, "validation");
    let audiences = union_with(&val0, "allowedAudiences", audience);
    let val1 = set_member(val0, "allowedAudiences", audiences);
    let dap = object_member(&val1, "defaultAuthorizationPolicy");
    let allowed = union_with(&dap, "allowedApplications", app);
    let dap1 = set_member(dap, "allowedApplications", allowed);
    let val2 = set_member(val1, "defaultAuthorizationPolicy", dap1);
    set_member(aad1, "validation", val2)
}

/// Merge rigg's Entra settings into a site's current `authsettingsV2`
/// document: the platform is switched on, authentication is required
/// (unauthenticated calls get 401), the Entra provider is enabled with the
/// app's client id and the tenant's issuer, and `audience` and
/// `allowed_application` are added to the accepted audiences and admitted
/// applications. Everything else is kept.
pub fn merge_auth_settings(
    current: &JsonValue,
    client_id: &str,
    tenant: &str,
    audience: &str,
    allowed_application: &str,
) -> (r: JsonValue)
    ensures
        jv(r) == merged_settings(jv(*current), client_id@, tenant@, audience@, allowed_application@),
{
    proof {
        lemma_jv_unfold(*current);
    }
    let root = match current {
        JsonValue::Object(_) => deep_copy(current),
        _ => empty_object(),
    };
    let props = object_member(&root, "properties");
    let platform0 = object_member(&props, "platform");
    let platform = set_member(platform0, "enabled", JsonValue::Bool(true));
    let gv0 = object_member(&props, "globalValidation");
    let gv1 = set_member(gv0, "requireAuthentication", JsonValue::Bool(true));
    let gv = set_member(gv1, "unauthenticatedClientAction", string_value("Return401"));
    let ip = object_member(&props, "identityProviders");
    let aad0 = object_member(&ip, "azureActiveDirectory");
    let aad = merge_aad(aad0, client_id, tenant, audience, allowed_application);
    let ip2 = set_member(ip, "azureActiveDirectory", aad);
    let props1 = set_member(props, "platform", platform);
    let props2 = set_member(props1, "globalValidation", gv);
    let props3 = set_member(props2, "identityProviders", ip2);
    set_member(root, "properties", props3)
}

// ---------------------------------------------------------------------------
// Laws
// ---------------------------------------------------------------------------

/// Reading an object member after setting one.
proof fn lemma_obj_member_of_with(j: Json, k: Seq<char>, v: Json, k2: Seq<char>)
    requires
        j is Obj,
        v is Obj,
    ensures
        obj_member(with_member(j, k, v), k2) == if k2 == k { v } else { obj_member(j, k2) },
        member(with_member(j, k, v), k2) == if k2 == k { Some(v) } else { member(j, k2) },
{
    lemma_member_of_with(j, k, v, k2);
}

/// A union that already holds the entry is unchanged by adding it again.
proof fn lemma_union_again(items: Seq<Seq<char>>, entry: Seq<char>)
    ensures
        union_spec(union_spec(items, entry), entry) == union_spec(items, entry),
        union_spec(items, entry).contains(entry),
{
    if !items.contains(entry) {
        assert(items.push(entry)[items.len() as int] == entry);
    }
}

/// Merging the Entra provider settings twice is merging them once.
proof fn lemma_aad_idempotent(a: Json, c: Seq<char>, t: Seq<char>, au: Seq<char>, ap: Seq<char>)
    requires
        a is Obj,
    ensures
        merged_aad(merged_aad(a, c, t, au, ap), c, t, au, ap) == merged_aad(a, c, t, au, ap),
        merged_aad(a, c, t, au, ap) is Obj,
{
    reveal_strlit("enabled");
    reveal_strlit("registration");
    reveal_strlit("validation");
    reveal_strlit("clientId");
    reveal_strlit("openIdIssuer");
    reveal_strlit("allowedAudiences");
    reveal_strlit("defaultAuthorizationPolicy");
    reveal_strlit("allowedApplications");
    assert("enabled"@ != "validation"@ && "enabled"@ != "registration"@) by {
        assert("enabled"@.len() != "validation"@.len());
        assert("enabled"@.len() != "registration"@.len());
    }
    assert("clientId"@ != "openIdIssuer"@) by {
        assert("clientId"@.len() != "openIdIssuer"@.len());
    }
    assert("registration"@ != "validation"@) by {
        assert("registration"@[0] != "validation"@[0]);
    }
    assert("allowedAudiences"@ != "defaultAuthorizationPolicy"@) by {
        assert("allowedAudiences"@[0] != "defaultAuthorizationPolicy"@[0]);
    }
    let aad0 = with_member(a, "enabled"@, Json::Bool(true));
    let r0 = obj_member(aad0, "registration"@);
    let r1 = with_member(r0, "clientId"@, Json::Str(c));
    let reg = with_member(r1, "openIdIssuer"@, Json::Str(issuer(t)));
    let aad1 = with_member(aad0, "registration"@, reg);
    let val0 = obj_member(aad1, "validation"@);
    let u = union_spec(string_items(member(val0, "allowedAudiences"@)), au);
    let val1 = with_member(val0, "allowedAudiences"@, str_array(u));
    let dap = obj_member(val1, "defaultAuthorizationPolicy"@);
    let u2 = union_spec(string_items(member(dap, "allowedApplications"@)), ap);
    let dap1 = with_member(dap, "allowedApplications"@, str_array(u2));
    let val2 = with_member(val1, "defaultAuthorizationPolicy"@, dap1);
    let a2 = with_member(aad1, "validation"@, val2);
    assert(a2 == merged_aad(a, c, t, au, ap));

    // enabled
    lemma_member_of_with(a, "enabled"@, Json::Bool(true), "enabled"@);
    lemma_member_of_with(aad0, "registration"@, reg, "enabled"@);
    lemma_obj_member_of_with(aad1, "validation"@, val2, "enabled"@);
    lemma_with_same(a2, "enabled"@, Json::Bool(true));
    // registration
    lemma_member_of_with(r0, "clientId"@, Json::Str(c), "clientId"@);
    lemma_member_of_with(r1, "openIdIssuer"@, Json::Str(issuer(t)), "clientId"@);
    lemma_member_of_with(r1, "openIdIssuer"@, Json::Str(issuer(t)), "openIdIssuer"@);
    lemma_obj_member_of_with(aad0, "registration"@, reg, "registration"@);
    lemma_obj_member_of_with(aad1, "validation"@, val2, "registration"@);
    lemma_with_same(reg, "clientId"@, Json::Str(c));
    lemma_with_same(reg, "openIdIssuer"@, Json::Str(issuer(t)));
    lemma_with_same(a2, "registration"@, reg);
    // validation
    lemma_obj_member_of_with(aad1, "validation"@, val2, "validation"@);
    lemma_strings_of_str_array(u);
    lemma_union_again(string_items(member(val0, "allowedAudiences"@)), au);
    lemma_member_of_with(val0, "allowedAudiences"@, str_array(u), "allowedAudiences"@);
    lemma_obj_member_of_with(val1, "defaultAuthorizationPolicy"@, dap1, "allowedAudiences"@);
    lemma_with_same(val2, "allowedAudiences"@, str_array(u));
    lemma_strings_of_str_array(u2);
    lemma_union_again(string_items(member(dap, "allowedApplications"@)), ap);
    lemma_member_of_with(dap, "allowedApplications"@, str_array(u2), "allowedApplications"@);
    lemma_obj_member_of_with(val1, "defaultAuthorizationPolicy"@, dap1, "defaultAuthorizationPolicy"@);
    lemma_with_same(dap1, "allowedApplications"@, str_array(u2));
    lemma_with_same(val2, "defaultAuthorizationPolicy"@, dap1);
    lemma_with_same(a2, "validation"@, val2);
}

/// Merging the `properties` block twice is merging it once.
proof fn lemma_props_idempotent(p: Json, c: Seq<char>, t: Seq<char>, au: Seq<char>, ap: Seq<char>)
    requires
        p is Obj,
    ensures
        merged_props(merged_props(p, c, t, au, ap), c, t, au, ap) == merged_props(p, c, t, au, ap),
        merged_props(p, c, t, au, ap) is Obj,
{
    reveal_strlit("platform");
    reveal_strlit("globalValidation");
    reveal_strlit("identityProviders");
    reveal_strlit("enabled");
    reveal_strlit("requireAuthentication");
    reveal_strlit("unauthenticatedClientAction");
    reveal_strlit("azureActiveDirectory");
    assert("platform"@ != "globalValidation"@ && "platform"@ != "identityProviders"@
        && "globalValidation"@ != "identityProviders"@) by {
        assert("platform"@[0] != "globalValidation"@[0]);
        assert("platform"@[0] != "identityProviders"@[0]);
        assert("globalValidation"@[0] != "identityProviders"@[0]);
    }
    assert("requireAuthentication"@ != "unauthenticatedClientAction"@) by {
        assert("requireAuthentication"@[0] != "unauthenticatedClientAction"@[0]);
    }
    let platform = with_member(obj_member(p, "platform"@), "enabled"@, Json::Bool(true));
    let g1 = with_member(obj_member(p, "globalValidation"@), "requireAuthentication"@, Json::Bool(true));
    let gv = with_member(g1, "unauthenticatedClientAction"@, Json::Str("Return401"@));
    let ip = obj_member(p, "identityProviders"@);
    let a = obj_member(ip, "azureActiveDirectory"@);
    let aad = merged_aad(a, c, t, au, ap);
    let ip2 = with_member(ip, "azureActiveDirectory"@, aad);
    let p1 = with_member(p, "platform"@, platform);
    let p2 = with_member(p1, "globalValidation"@, gv);
    let p3 = with_member(p2, "identityProviders"@, ip2);
    assert(p3 == merged_props(p, c, t, au, ap));
    lemma_aad_idempotent(a, c, t, au, ap);

    // platform
    lemma_obj_member_of_with(p, "platform"@, platform, "platform"@);
    lemma_obj_member_of_with(p1, "globalValidation"@, gv, "platform"@);
    lemma_obj_member_of_with(p2, "identityProviders"@, ip2, "platform"@);
    lemma_member_of_with(obj_member(p, "platform"@), "enabled"@, Json::Bool(true), "enabled"@);
    lemma_with_same(platform, "enabled"@, Json::Bool(true));
    lemma_with_same(p3, "platform"@, platform);
    // global validation
    lemma_obj_member_of_with(p1, "globalValidation"@, gv, "globalValidation"@);
    lemma_obj_member_of_with(p2, "identityProviders"@, ip2, "globalValidation"@);
    lemma_member_of_with(obj_member(p, "globalValidation"@), "requireAuthentication"@, Json::Bool(true), "requireAuthentication"@);
    lemma_member_of_with(g1, "unauthenticatedClientAction"@, Json::Str("Return401"@), "requireAuthentication"@);
    lemma_member_of_with(g1, "unauthenticatedClientAction"@, Json::Str("Return401"@), "unauthenticatedClientAction"@);
    lemma_with_same(gv, "requireAuthentication"@, Json::Bool(true));
    lemma_with_same(gv, "unauthenticatedClientAction"@, Json::Str("Return401"@));
    lemma_with_same(p3, "globalValidation"@, gv);
    // identity providers
    lemma_obj_member_of_with(p2, "identityProviders"@, ip2, "identityProviders"@);
    lemma_obj_member_of_with(ip, "azureActiveDirectory"@, aad, "azureActiveDirectory"@);
    lemma_with_same(ip2, "azureActiveDirectory"@, aad);
    lemma_with_same(p3, "identityProviders"@, ip2);
}

/// Merging is idempotent: merging the result again with the same
/// arguments gives the same document.
pub proof fn law_merge_idempotent(current: Json, client_id: Seq<char>, tenant: Seq<char>, audience: Seq<char>, app: Seq<char>)
    ensures
        merged_settings(merged_settings(current, client_id, tenant, audience, app), client_id, tenant, audience, app)
            == merged_settings(current, client_id, tenant, audience, app),
{
    let root = if current is Obj {
        current
    } else {
        Json::Obj(Seq::empty())
    };
    let p = obj_member(root, "properties"@);
    let p3 = merged_props(p, client_id, tenant, audience, app);
    let m = with_member(root, "properties"@, p3);
    lemma_props_idempotent(p, client_id, tenant, audience, app);
    lemma_obj_member_of_with(root, "properties"@, p3, "properties"@);
    lemma_with_same(m, "properties"@, p3);
}

/// The `properties` block of a settings document.
pub open spec fn props_of(doc: Json) -> Json {
    obj_member(doc, "properties"@)
}

/// The identity providers of a settings document.
pub open spec fn providers_of(doc: Json) -> Json {
    obj_member(props_of(doc), "identityProviders"@)
}

/// The Entra provider settings of a settings document.
pub open spec fn aad_of(doc: Json) -> Json {
    obj_member(providers_of(doc), "azureActiveDirectory"@)
}

/// The token validation settings of the Entra provider.
pub open spec fn validation_of(doc: Json) -> Json {
    obj_member(aad_of(doc), "validation"@)
}

/// The default authorization policy of the Entra provider.
pub open spec fn policy_of(doc: Json) -> Json {
    obj_member(validation_of(doc), "defaultAuthorizationPolicy"@)
}

/// The accepted audiences of a settings document.
pub open spec fn audiences_of(doc: Json) -> Seq<Seq<char>> {
    string_items(member(validation_of(doc), "allowedAudiences"@))
}

/// The admitted applications of a settings document.
pub open spec fn applications_of(doc: Json) -> Seq<Seq<char>> {
    string_items(member(policy_of(doc), "allowedApplications"@))
}

/// `old` comes first in `new`, and `new` adds at most `entry`, which it holds.
pub open spec fn extends_with(new: Seq<Seq<char>>, old: Seq<Seq<char>>, entry: Seq<char>) -> bool {
    &&& old.len() <= new.len() <= old.len() + 1
    &&& new.subrange(0, old.len() as int) == old
    &&& new.contains(entry)
}

proof fn lemma_merge_lists(current: Json, client_id: Seq<char>, tenant: Seq<char>, audience: Seq<char>, app: Seq<char>)
    requires
        current is Obj,
    ensures
        audiences_of(merged_settings(current, client_id, tenant, audience, app)) == union_spec(
            audiences_of(current),
            audience,
        ),
        applications_of(merged_settings(current, client_id, tenant, audience, app)) == union_spec(
            applications_of(current),
            app,
        ),
        extends_with(
            audiences_of(merged_settings(current, client_id, tenant, audience, app)),
            audiences_of(current),
            audience,
        ),
        extends_with(
            applications_of(merged_settings(current, client_id, tenant, audience, app)),
            applications_of(current),
            app,
        ),
{
    reveal_strlit("properties");
    reveal_strlit("platform");
    reveal_strlit("globalValidation");
    reveal_strlit("identityProviders");
    reveal_strlit("azureActiveDirectory");
    reveal_strlit("enabled");
    reveal_strlit("registration");
    reveal_strlit("validation");
    reveal_strlit("allowedAudiences");
    reveal_strlit("defaultAuthorizationPolicy");
    reveal_strlit("allowedApplications");
    assert("platform"@ != "identityProviders"@ && "globalValidation"@ != "identityProviders"@
        && "platform"@ != "globalValidation"@) by {
        assert("platform"@[0] != "identityProviders"@[0]);
        assert("globalValidation"@[0] != "identityProviders"@[0]);
        assert("platform"@[0] != "globalValidation"@[0]);
    }
    assert("enabled"@ != "validation"@ && "registration"@ != "validation"@) by {
        assert("enabled"@.len() != "validation"@.len());
        assert("registration"@[0] != "validation"@[0]);
    }
    assert("allowedAudiences"@ != "defaultAuthorizationPolicy"@) by {
        assert("allowedAudiences"@[0] != "defaultAuthorizationPolicy"@[0]);
    }
    let c = client_id;
    let t = tenant;
    let p = props_of(current);
    let platform = with_member(obj_member(p, "platform"@), "enabled"@, Json::Bool(true));
    let gv = with_member(
        with_member(obj_member(p, "globalValidation"@), "requireAuthentication"@, Json::Bool(true)),
        "unauthenticatedClientAction"@,
        Json::Str("Return401"@),
    );
    let ip = obj_member(p, "identityProviders"@);
    let a = obj_member(ip, "azureActiveDirectory"@);
    let aad0 = with_member(a, "enabled"@, Json::Bool(true));
    let reg = with_member(
        with_member(obj_member(aad0, "registration"@), "clientId"@, Json::Str(c)),
        "openIdIssuer"@,
        Json::Str(issuer(t)),
    );
    let aad1 = with_member(aad0, "registration"@, reg);
    let val0 = obj_member(aad1, "validation"@);
    let u = union_spec(string_items(member(val0, "allowedAudiences"@)), audience);
    let val1 = with_member(val0, "allowedAudiences"@, str_array(u));
    let dap = obj_member(val1, "defaultAuthorizationPolicy"@);
    let u2 = union_spec(string_items(member(dap, "allowedApplications"@)), app);
    let dap1 = with_member(dap, "allowedApplications"@, str_array(u2));
    let val2 = with_member(val1, "defaultAuthorizationPolicy"@, dap1);
    let a2 = with_member(aad1, "validation"@, val2);
    let ip2 = with_member(ip, "azureActiveDirectory"@, a2);
    let p1 = with_member(p, "platform"@, platform);
    let p2 = with_member(p1, "globalValidation"@, gv);
    let p3 = with_member(p2, "identityProviders"@, ip2);
    let m = with_member(current, "properties"@, p3);
    assert(m == merged_settings(current, c, t, audience, app));
    // the path down to the validation settings of the result
    lemma_obj_member_of_with(current, "properties"@, p3, "properties"@);
    lemma_obj_member_of_with(p2, "identityProviders"@, ip2, "identityProviders"@);
    lemma_obj_member_of_with(ip, "azureActiveDirectory"@, a2, "azureActiveDirectory"@);
    lemma_obj_member_of_with(aad1, "validation"@, val2, "validation"@);
    assert(validation_of(m) == val2);
    // the validation settings the merge started from are the document's own
    lemma_obj_member_of_with(aad0, "registration"@, reg, "validation"@);
    lemma_member_of_with(a, "enabled"@, Json::Bool(true), "validation"@);
    assert(val0 == validation_of(current));
    // audiences
    lemma_obj_member_of_with(val1, "defaultAuthorizationPolicy"@, dap1, "allowedAudiences"@);
    lemma_member_of_with(val0, "allowedAudiences"@, str_array(u), "allowedAudiences"@);
    lemma_strings_of_str_array(u);
    lemma_union_again(string_items(member(val0, "allowedAudiences"@)), audience);
    assert(audiences_of(m) == u);
    assert(u.subrange(0, audiences_of(current).len() as int) =~= audiences_of(current));
    // applications
    lemma_obj_member_of_with(val1, "defaultAuthorizationPolicy"@, dap1, "defaultAuthorizationPolicy"@);
    lemma_member_of_with(val0, "allowedAudiences"@, str_array(u), "defaultAuthorizationPolicy"@);
    assert(dap == policy_of(current));
    lemma_member_of_with(dap, "allowedApplications"@, str_array(u2), "allowedApplications"@);
    lemma_strings_of_str_array(u2);
    lemma_union_again(string_items(member(dap, "allowedApplications"@)), app);
    assert(applications_of(m) == u2);
    assert(u2.subrange(0, applications_of(current).len() as int) =~= applications_of(current));
}

/// The merge unions the two lists, for any document: the accepted
/// audiences become the old ones, in order, with `audience` appended unless
/// present, and the admitted applications likewise with `app`; so nothing is
/// dropped and each entry is added once.
pub proof fn law_merge_unions_lists(current: Json, client_id: Seq<char>, tenant: Seq<char>, audience: Seq<char>, app: Seq<char>)
    ensures
        audiences_of(merged_settings(current, client_id, tenant, audience, app)) == union_spec(
            audiences_of(current),
            audience,
        ),
        applications_of(merged_settings(current, client_id, tenant, audience, app)) == union_spec(
            applications_of(current),
            app,
        ),
        extends_with(
            audiences_of(merged_settings(current, client_id, tenant, audience, app)),
            audiences_of(current),
            audience,
        ),
        extends_with(
            applications_of(merged_settings(current, client_id, tenant, audience, app)),
            applications_of(current),
            app,
        ),
{
    let root = if current is Obj {
        current
    } else {
        Json::Obj(Seq::empty())
    };
    lemma_merge_lists(root, client_id, tenant, audience, app);
    assert(merged_settings(current, client_id, tenant, audience, app) == merged_settings(root, client_id, tenant, audience, app));
    if !(current is Obj) {
        assert(props_of(current) == props_of(root));
    }
    let au = audiences_of(current);
    let ap = applications_of(current);
    assert(union_spec(au, audience).subrange(0, au.len() as int) =~= au);
    assert(union_spec(ap, app).subrange(0, ap.len() as int) =~= ap);
    if !au.contains(audience) {
        assert(union_spec(au, audience)[au.len() as int] == audience);
    }
    if !ap.contains(app) {
        assert(union_spec(ap, app)[ap.len() as int] == app);
    }
}

/// The merge keeps every setting it does not own: members of the document
/// other than `properties`, of `properties` other than the three blocks it
/// sets, identity providers other than Entra, platform settings other than
/// `enabled`, Entra settings other than the three it sets, and policy
/// members other than the admitted applications.
pub proof fn law_merge_keeps_other_settings(
    current: Json,
    client_id: Seq<char>,
    tenant: Seq<char>,
    audience: Seq<char>,
    app: Seq<char>,
    key: Seq<char>,
)
    requires
        current is Obj,
    ensures
        ({
            let m = merged_settings(current, client_id, tenant, audience, app);
            &&& key != "properties"@ ==> member(m, key) == member(current, key)
            &&& (key != "platform"@ && key != "globalValidation"@ && key != "identityProviders"@)
                ==> member(props_of(m), key) == member(props_of(current), key)
            &&& key != "azureActiveDirectory"@ ==> member(providers_of(m), key) == member(providers_of(current), key)
            &&& key != "enabled"@ ==> member(obj_member(props_of(m), "platform"@), key)
                == member(obj_member(props_of(current), "platform"@), key)
            &&& (key != "enabled"@ && key != "registration"@ && key != "validation"@)
                ==> member(aad_of(m), key) == member(aad_of(current), key)
            &&& key != "allowedApplications"@ ==> member(policy_of(m), key) == member(policy_of(current), key)
        }),
{
    reveal_strlit("properties");
    reveal_strlit("platform");
    reveal_strlit("globalValidation");
    reveal_strlit("identityProviders");
    reveal_strlit("azureActiveDirectory");
    reveal_strlit("enabled");
    reveal_strlit("registration");
    reveal_strlit("validation");
    reveal_strlit("allowedAudiences");
    reveal_strlit("defaultAuthorizationPolicy");
    reveal_strlit("allowedApplications");
    assert("platform"@ != "identityProviders"@ && "globalValidation"@ != "identityProviders"@
        && "platform"@ != "globalValidation"@) by {
        assert("platform"@[0] != "identityProviders"@[0]);
        assert("globalValidation"@[0] != "identityProviders"@[0]);
        assert("platform"@[0] != "globalValidation"@[0]);
    }
    assert("enabled"@ != "validation"@ && "registration"@ != "validation"@) by {
        assert("enabled"@.len() != "validation"@.len());
        assert("registration"@[0] != "validation"@[0]);
    }
    assert("allowedAudiences"@ != "defaultAuthorizationPolicy"@) by {
        assert("allowedAudiences"@[0] != "defaultAuthorizationPolicy"@[0]);
    }
    let c = client_id;
    let t = tenant;
    let p = props_of(current);
    let platform = with_member(obj_member(p, "platform"@), "enabled"@, Json::Bool(true));
    let gv = with_member(
        with_member(obj_member(p, "globalValidation"@), "requireAuthentication"@, Json::Bool(true)),
        "unauthenticatedClientAction"@,
        Json::Str("Return401"@),
    );
    let ip = obj_member(p, "identityProviders"@);
    let a = obj_member(ip, "azureActiveDirectory"@);
    let aad0 = with_member(a, "enabled"@, Json::Bool(true));
    let reg = with_member(
        with_member(obj_member(aad0, "registration"@), "clientId"@, Json::Str(c)),
        "openIdIssuer"@,
        Json::Str(issuer(t)),
    );
    let aad1 = with_member(aad0, "registration"@, reg);
    let val0 = obj_member(aad1, "validation"@);
    let u = union_spec(string_items(member(val0, "allowedAudiences"@)), audience);
    let val1 = with_member(val0, "allowedAudiences"@, str_array(u));
    let dap = obj_member(val1, "defaultAuthorizationPolicy"@);
    let u2 = union_spec(string_items(member(dap, "allowedApplications"@)), app);
    let dap1 = with_member(dap, "allowedApplications"@, str_array(u2));
    let val2 = with_member(val1, "defaultAuthorizationPolicy"@, dap1);
    let a2 = with_member(aad1, "validation"@, val2);
    let ip2 = with_member(ip, "azureActiveDirectory"@, a2);
    let p1 = with_member(p, "platform"@, platform);
    let p2 = with_member(p1, "globalValidation"@, gv);
    let p3 = with_member(p2, "identityProviders"@, ip2);
    let m = with_member(current, "properties"@, p3);
    assert(m == merged_settings(current, c, t, audience, app));
    lemma_obj_member_of_with(current, "properties"@, p3, "properties"@);
    lemma_member_of_with(current, "properties"@, p3, key);
    lemma_member_of_with(p2, "identityProviders"@, ip2, key);
    lemma_member_of_with(p1, "globalValidation"@, gv, key);
    lemma_member_of_with(p, "platform"@, platform, key);
    // platform
    lemma_obj_member_of_with(p2, "identityProviders"@, ip2, "platform"@);
    lemma_obj_member_of_with(p1, "globalValidation"@, gv, "platform"@);
    lemma_obj_member_of_with(p, "platform"@, platform, "platform"@);
    lemma_member_of_with(obj_member(p, "platform"@), "enabled"@, Json::Bool(true), key);
    // providers
    lemma_obj_member_of_with(p2, "identityProviders"@, ip2, "identityProviders"@);
    lemma_member_of_with(ip, "azureActiveDirectory"@, a2, key);
    // Entra settings
    lemma_obj_member_of_with(ip, "azureActiveDirectory"@, a2, "azureActiveDirectory"@);
    lemma_member_of_with(aad1, "validation"@, val2, key);
    lemma_member_of_with(aad0, "registration"@, reg, key);
    lemma_member_of_with(a, "enabled"@, Json::Bool(true), key);
    // policy
    lemma_obj_member_of_with(aad1, "validation"@, val2, "validation"@);
    lemma_obj_member_of_with(aad0, "registration"@, reg, "validation"@);
    lemma_member_of_with(a, "enabled"@, Json::Bool(true), "validation"@);
    lemma_obj_member_of_with(val1, "defaultAuthorizationPolicy"@, dap1, "defaultAuthorizationPolicy"@);
    lemma_member_of_with(val0, "allowedAudiences"@, str_array(u), "defaultAuthorizationPolicy"@);
    lemma_member_of_with(dap, "allowedApplications"@, str_array(u2), key);
}

/// The refusal when `env` declares no dependency named `binding`.
pub open spec fn no_dependency_msg(env: Seq<char>, binding: Seq<char>) -> Seq<char> {
    "environment '"@ + env + "' has no dependency named '"@ + binding
        + "' — declare the function app first: `rigg env bind "@ + env + " "@ + binding
        + " function-app:<app-name>`"@
}

/// The refusal when `binding` is declared with another type.
pub open spec fn not_function_app_msg(binding: Seq<char>, kind: BindingType) -> Seq<char> {
    "'"@ + binding + "' is a "@ + kind.name_spec()
        + " binding, not a function-app binding — easy-auth wires Entra authentication onto a function app"@
}

/// The refusal when `env` names no tenant.
pub open spec fn no_tenant_msg(env: Seq<char>) -> Seq<char> {
    "environment '"@ + env
        + "' declares no `tenant:` — Easy Auth's OpenID issuer (https://login.microsoftonline.com/<tenant>/v2.0) needs it; add it to rigg.yaml"@
}

/// What easy-auth needs before it touches Azure: `binding` is a declared
/// function-app dependency of `env`, and `env` names its tenant. The
/// result is the tenant, or the first refusal in that order.
pub open spec fn wiring_spec(env: ResolvedEnv, binding: Seq<char>) -> Result<Seq<char>, Seq<char>> {
    let ds = env.env.dependencies@;
    let i = dep_find(ds, binding, 0);
    if i < 0 {
        Err(no_dependency_msg(env.name@, binding))
    } else if ds[i].binding.kind != BindingType::FunctionApp {
        Err(not_function_app_msg(binding, ds[i].binding.kind))
    } else {
        match env.env.tenant {
            Some(t) => Ok(t@),
            None => Err(no_tenant_msg(env.name@)),
        }
    }
}

/// Check what easy-auth needs before any call to Azure: the tenant to
/// wire in, or the refusal to report.
pub fn wiring_preconditions(env: &ResolvedEnv, binding: &str) -> (r: Result<String, String>)
    ensures
        match (r, wiring_spec(*env, binding@)) {
            (Ok(t), Ok(w)) => t@ == w,
            (Err(e), Err(w)) => e@ == w,
            _ => false,
        },
{
    let ds = &env.env.dependencies;
    let i = dep_position(ds, binding);
    let name = env.name.as_str();
    if i >= ds.len() {
        let mut m = copy_str("environment '");
        push_str(&mut m, name);
        push_str(&mut m, "' has no dependency named '");
        push_str(&mut m, binding);
        push_str(&mut m, "' — declare the function app first: `rigg env bind ");
        push_str(&mut m, name);
        push_str(&mut m, " ");
        push_str(&mut m, binding);
        push_str(&mut m, " function-app:<app-name>`");
        return Err(m);
    }
    let kind = ds[i].binding.kind;
    if kind != BindingType::FunctionApp {
        let mut m = copy_str("'");
        push_str(&mut m, binding);
        push_str(&mut m, "' is a ");
        push_str(&mut m, kind.as_str());
        push_str(
            &mut m,
            " binding, not a function-app binding — easy-auth wires Entra authentication onto a function app",
        );
        return Err(m);
    }
    match &env.env.tenant {
        Some(t) => Ok(copy_str(t.as_str())),
        None => {
            let mut m = copy_str("environment '");
            push_str(&mut m, name);
            push_str(
                &mut m,
                "' declares no `tenant:` — Easy Auth's OpenID issuer (https://login.microsoftonline.com/<tenant>/v2.0) needs it; add it to rigg.yaml",
            );
            Err(m)
        },
    }
}

} // verus!
