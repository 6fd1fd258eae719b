use rigg::auth::{
    contains_word, looks_like_auth, role_description, search_service_contributor,
    storage_blob_data_reader, Check, CheckKind, Edge, EdgeKind, Fix, Principal, Provider, Report,
    ReportItem, Scope, Status, Summary, What, summarize,
};
use rigg::auth::{
    judge_ai_services_kind, judge_can_grant, judge_deployment_availability, judge_search_rbac,
    judge_search_sku, judge_shared_key, SearchServiceInfo,
};
use rigg::diff_output::JsonValue;

#[test]
fn auth_shaped_errors_are_recognised_case_insensitively() {
    assert!(looks_like_auth("Credential provided is not valid (403)"));
    assert!(looks_like_auth("AuthorizationPermissionMismatch"));
    assert!(looks_like_auth("AADSTS700016: application not found"));
    assert!(looks_like_auth("this request is not authorized"));
    assert!(!looks_like_auth("could not parse document at line 4"));
}

#[test]
fn auth_markers_match_on_word_boundaries() {
    assert!(!looks_like_auth("indexed 4031 documents"));
    assert!(!looks_like_auth("4010 documents failed to parse"));
    assert!(looks_like_auth("HTTP 403 Forbidden"));
    assert!(looks_like_auth("AADSTS50076"));
    assert!(contains_word("container 'docs' is empty", "docs"));
    assert!(!contains_word("the docsearch index", "docs"));
}

#[test]
fn az_commands_name_the_principal_role_and_scope() {
    let fix = Fix::RoleAssignment {
        scope: "/subscriptions/s/rg/acct".into(),
        principal_id: "pid".into(),
        principal_type: "ServicePrincipal".into(),
        role: storage_blob_data_reader(),
        description: "rigg:ws:dev:because".into(),
    };
    let cmd = fix.command();
    assert!(cmd.contains("--assignee pid"));
    assert!(
        cmd.contains(&format!("--role {}", storage_blob_data_reader().id)),
        "{cmd}"
    );
    assert!(!cmd.contains("--role \"Storage Blob Data Reader\""), "{cmd}");
    assert!(cmd.ends_with("# Storage Blob Data Reader"), "{cmd}");
    assert!(cmd.contains("--scope \"/subscriptions/s/rg/acct\""));
}

fn operator_item() -> ReportItem {
    ReportItem::new(
        What::Edge(Box::new(Edge {
            id: "operator|ssc|srch".into(),
            principal: Principal::Operator,
            role: search_service_contributor(),
            alternatives: Vec::new(),
            scope: Scope::Resolved("/subscriptions/s/srch".into()),
            reason: String::new(),
            sources: Vec::new(),
            constraints: Vec::new(),
            kind: EdgeKind::Rbac,
        })),
        Status::Missing,
        "the caller lacks it",
    )
    .with_fix(Fix::RoleAssignment {
        scope: "/subscriptions/s/srch".into(),
        principal_id: "operator-oid".into(),
        principal_type: "User".into(),
        role: search_service_contributor(),
        description: "rigg:ws:dev:because".into(),
    })
}

#[test]
fn fixes_never_include_the_callers_own_roles() {
    let item = operator_item();
    let report = Report {
        env: "dev".into(),
        targets: Vec::new(),
        items: vec![item.clone()],
        operator: vec![item],
        operator_label: String::new(),
        live: Vec::new(),
        summary: Summary::default(),
    };
    assert!(report.fixes().is_empty());
    assert_eq!(report.unfixable().len(), 2);
}

fn check_item(id: &str, fix: Fix) -> ReportItem {
    ReportItem {
        id: id.to_string(),
        what: What::Check(Box::new(Check {
            id: id.to_string(),
            kind: CheckKind::SearchRbacEnabled,
            reason: String::new(),
            sources: Vec::new(),
        })),
        status: Status::Missing,
        detail: String::new(),
        fix: Some(fix),
    }
}

#[test]
fn a_report_deduplicates_identical_fixes() {
    let fix = Fix::EnableRbac {
        search_id: "/s".into(),
    };
    let report = Report {
        env: "dev".into(),
        targets: Vec::new(),
        items: vec![check_item("a", fix.clone()), check_item("b", fix.clone())],
        operator: Vec::new(),
        operator_label: String::new(),
        live: Vec::new(),
        summary: Summary::default(),
    };
    assert_eq!(report.fixes().len(), 1);
}

#[test]
fn fix_keys_and_descriptions_name_the_change() {
    let f = Fix::BlobSoftDelete {
        account_id: "/subscriptions/s/acct".into(),
        days: 7,
    };
    assert_eq!(f.key(), "blob-soft-delete|/subscriptions/s/acct|7");
    assert_eq!(f.describe(), "enable blob soft delete (7 days) on /subscriptions/s/acct");
    let r = Fix::StorageResourceRule {
        account_id: "/subscriptions/s/providers/x/storageAccounts/acct".into(),
        tenant: "t".into(),
        search_id: "/srch".into(),
    };
    assert!(r.command().starts_with("az storage account network-rule add --account-name acct "));
    let u = Fix::AttachUserAssignedIdentity {
        resource_id: "/r".into(),
        provider: Provider::SearchArm,
        uami_id: "/u".into(),
        binding: "b".into(),
    };
    assert_eq!(u.kind(), "attach-user-assigned-identity");
}

#[test]
fn a_clean_summary_has_nothing_missing_unresolved_or_live() {
    assert!(Summary::default().clean());
    let s = Summary { ok: 3, missing: 0, unresolved: 1, live: 0 };
    assert!(!s.clean());
}

#[test]
fn unresolved_items_are_listed_service_items_first() {
    let mut a = check_item("a", Fix::EnableRbac { search_id: "/s".into() });
    a.status = Status::Unresolved;
    let mut b = operator_item();
    b.status = Status::Unresolved;
    let report = Report {
        env: "dev".into(),
        targets: Vec::new(),
        items: vec![a],
        operator: vec![b],
        operator_label: String::new(),
        live: Vec::new(),
        summary: Summary::default(),
    };
    let u = report.unresolved();
    assert_eq!(u.len(), 2);
    assert_eq!(u[0].id, "a");
}

#[test]
fn role_descriptions_join_prefix_and_reason() {
    assert_eq!(role_description("rigg:ws:dev", "indexer reads blobs"), "rigg:ws:dev:indexer reads blobs");
}

#[test]
fn status_names_match_the_json_output() {
    assert_eq!(Status::Satisfied.as_str(), "ok");
    assert_eq!(Status::Skipped("x".into()).as_str(), "skipped");
}

fn to_serde(v: &JsonValue) -> serde_json::Value {
    match v {
        JsonValue::Null => serde_json::Value::Null,
        JsonValue::Bool(b) => serde_json::Value::Bool(*b),
        JsonValue::Number(n) => serde_json::from_str(n).unwrap(),
        JsonValue::Str(s) => serde_json::Value::String(s.clone()),
        JsonValue::Array(a) => serde_json::Value::Array(a.iter().map(to_serde).collect()),
        JsonValue::Object(o) => serde_json::Value::Object(
            o.iter().map(|(k, v)| (k.clone(), to_serde(v))).collect(),
        ),
    }
}

#[test]
fn verdicts_are_counted_by_status() {
    let fix = Fix::EnableRbac { search_id: "/s".into() };
    let mut ok = check_item("ok", fix.clone());
    ok.status = Status::Satisfied;
    let mut skipped = check_item("skip", fix.clone());
    skipped.status = Status::Skipped("no access".into());
    let items = vec![ok, check_item("m1", fix.clone()), check_item("m2", fix), skipped, operator_item()];
    let s = summarize(&items);
    assert_eq!(s, Summary { ok: 1, missing: 3, unresolved: 0, live: 0 });
    assert!(!s.clean());
}

#[test]
fn fixes_render_as_json() {
    let f = Fix::BlobSoftDelete { account_id: "/acct".into(), days: 7 };
    let doc = to_serde(&f.to_json());
    assert_eq!(doc["kind"], "blob-soft-delete");
    assert_eq!(doc["resource"], "/acct");
    assert_eq!(doc["days"].as_u64(), Some(7));
    assert_eq!(doc["command"].as_str().unwrap(), f.command());
    let r = Fix::RoleAssignment {
        scope: "/s".into(),
        principal_id: "p".into(),
        principal_type: "User".into(),
        role: search_service_contributor(),
        description: "d".into(),
    };
    let doc = to_serde(&r.to_json());
    assert_eq!(doc["role"]["name"], "Search Service Contributor");
    assert_eq!(doc["principal_type"], "User");
}

#[test]
fn whole_word_match_ignores_letter_case() {
    assert!(contains_word("HTTP 403.", "403"));
    assert!(!contains_word("4031 documents", "403"));
    assert!(contains_word("http FORBIDDEN", "Forbidden"));
    assert!(contains_word("HTTP FORBIDDEN", "forbidden"));
    assert!(contains_word("aadsts700016", "AADSTS"));
    assert!(!contains_word("anything", ""));
    assert!(!contains_word("", "403"));
}

fn check_what(id: &str, kind: CheckKind) -> What {
    What::Check(Box::new(Check { id: id.into(), kind, reason: "r".into(), sources: vec![] }))
}

fn search_info(sku: &str, mode: &str, rbac: bool) -> Option<SearchServiceInfo> {
    Some(SearchServiceInfo {
        sku: sku.into(),
        hosting_mode: mode.into(),
        rbac_enabled: rbac,
        disable_local_auth: false,
    })
}

#[test]
fn search_sku_verdicts() {
    let w = || check_what("search-sku", CheckKind::SearchSku);
    let free = judge_search_sku(w(), &search_info("FREE", "default", true), false, "dev");
    assert_eq!(free.status, Status::Missing);
    assert!(free.detail.starts_with("the Free SKU has no managed identity"));
    assert_eq!(free.id, "search-sku");
    let hd = judge_search_sku(w(), &search_info("standard3", "HighDensity", true), true, "dev");
    assert_eq!(hd.status, Status::Missing);
    assert!(hd.detail.starts_with("SKU 'standard3' in high-density hosting mode"));
    let hd_no_kb = judge_search_sku(w(), &search_info("standard3", "highDensity", true), false, "dev");
    assert_eq!(hd_no_kb.status, Status::Satisfied);
    assert_eq!(hd_no_kb.detail, "SKU 'standard3'");
    let none = judge_search_sku(w(), &None, true, "dev");
    assert_eq!(none.status, Status::Unresolved);
    assert_eq!(none.detail, "environment 'dev' has no reachable search service");
}

#[test]
fn search_rbac_verdicts() {
    let w = || check_what("search-rbac", CheckKind::SearchRbacEnabled);
    let keys_only = judge_search_rbac(w(), &search_info("basic", "default", false), Some("/s".into()), "dev");
    assert_eq!(keys_only.status, Status::Missing);
    assert_eq!(keys_only.fix, Some(Fix::EnableRbac { search_id: "/s".into() }));
    let ok = judge_search_rbac(w(), &search_info("basic", "default", true), Some("/s".into()), "dev");
    assert_eq!(ok.status, Status::Satisfied);
    assert_eq!(ok.detail, "the service accepts Entra tokens");
    assert!(ok.fix.is_none());
    let no_id = judge_search_rbac(w(), &search_info("basic", "default", true), None, "dev");
    assert_eq!(no_id.status, Status::Unresolved);
}

#[test]
fn storage_and_account_verdicts() {
    let acct = || Scope::Resolved("/acct".into());
    let sk = |a| judge_shared_key(check_what("sk", CheckKind::StorageSharedKey { account: acct() }), a);
    assert_eq!(sk(Ok(Some(false))).detail, "shared-key access is disabled — identity-based access is unaffected");
    assert_eq!(sk(Ok(None)).status, Status::Satisfied);
    assert_eq!(sk(Err("denied".into())).status, Status::Unresolved);
    let kind = |k| judge_ai_services_kind(check_what("k", CheckKind::AiServicesKind { account: acct() }), k);
    assert_eq!(kind(Ok("aiservices".into())).status, Status::Satisfied);
    let other = kind(Ok("OpenAI".into()));
    assert_eq!(other.status, Status::Missing);
    assert!(other.detail.starts_with("account kind is 'OpenAI' — "));
    let grant = |c| judge_can_grant(check_what("g", CheckKind::CanGrant { scope: acct() }), c);
    assert_eq!(grant(Ok(true)).status, Status::Satisfied);
    assert_eq!(grant(Ok(false)).status, Status::Missing);
    assert_eq!(grant(Err("no arm".into())).detail, "no arm");
    let d = judge_deployment_availability(check_what(
        "d",
        CheckKind::DeploymentAvailability { deployment: "gpt".into() },
    ));
    assert_eq!(d.status, Status::Skipped("checked by promote/push".into()));
}
