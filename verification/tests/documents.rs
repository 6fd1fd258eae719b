use rigg::agent::extract_reply;
use rigg::canonical::{canonical_form, carry_over_x_rigg, json_equal, set_path};
use rigg::long_text::{indent_lines, is_long_text_property};
use rigg::auth::last_result_error;
use rigg::credentials::{
    container_name, missing_credentials, set_ai_services_identity, set_connection,
    skillset_missing_ai_services_key,
};
use rigg::diff_output::JsonValue;
use rigg::ordering::order_by_dependencies;
use rigg::project_graph::{
    get_name, parse_agent, parse_alias, parse_data_source, parse_field, parse_index, parse_indexer,
    parse_knowledge_base, parse_knowledge_source, parse_skillset, parse_synonym_map,
};
use rigg::resources::ResourceKind;
use rigg::rewrite::{
    parse_copy_source, parse_copy_target, rename_definition, rewrite_created_resources,
    rewrite_index_projections,
};
use rigg::site_auth::merge_auth_settings;

fn from_serde(v: serde_json::Value) -> JsonValue {
    match v {
        serde_json::Value::Null => JsonValue::Null,
        serde_json::Value::Bool(b) => JsonValue::Bool(b),
        serde_json::Value::Number(n) => JsonValue::Number(n.to_string()),
        serde_json::Value::String(s) => JsonValue::Str(s),
        serde_json::Value::Array(a) => JsonValue::Array(a.into_iter().map(from_serde).collect()),
        serde_json::Value::Object(o) => {
            JsonValue::Object(o.into_iter().map(|(k, v)| (k, from_serde(v))).collect())
        }
    }
}

fn to_serde(v: &JsonValue) -> serde_json::Value {
    match v {
        JsonValue::Null => serde_json::Value::Null,
        JsonValue::Bool(b) => serde_json::Value::Bool(*b),
        JsonValue::Number(n) => serde_json::from_str(n).unwrap(),
        JsonValue::Str(s) => serde_json::Value::String(s.clone()),
        JsonValue::Array(a) => serde_json::Value::Array(a.iter().map(to_serde).collect()),
        JsonValue::Object(o) => serde_json::Value::Object(
            o.iter().map(|(k, v)| (k.clone(), to_serde(v))).collect(),
        ),
    }
}

/// A document from JSON text.
fn doc(text: &str) -> JsonValue {
    from_serde(serde_json::from_str(text).unwrap())
}

/// A serde value from JSON text, to compare with.
fn val(text: &str) -> serde_json::Value {
    serde_json::from_str(text).unwrap()
}

fn tenant() -> &'static str {
    "11111111-2222-3333-4444-555555555555"
}

// --- merge_auth_settings -----------------------------------------------------

#[test]
fn merge_sets_every_field_the_spec_requires_on_an_empty_document() {
    let merged = to_serde(&merge_auth_settings(&doc("{}"), "app-1", tenant(), "api://app-1", "mi-1"));
    let props = &merged["properties"];
    assert_eq!(props["platform"]["enabled"], val("true"));
    assert_eq!(props["globalValidation"]["requireAuthentication"], val("true"));
    assert_eq!(props["globalValidation"]["unauthenticatedClientAction"], val("\"Return401\""));
    let aad = &props["identityProviders"]["azureActiveDirectory"];
    assert_eq!(aad["enabled"], val("true"));
    assert_eq!(aad["registration"]["clientId"], val("\"app-1\""));
    assert_eq!(
        aad["registration"]["openIdIssuer"],
        serde_json::Value::String(format!("https://login.microsoftonline.com/{}/v2.0", tenant()))
    );
    assert_eq!(aad["validation"]["allowedAudiences"], val(r#"["api://app-1"]"#));
    assert_eq!(
        aad["validation"]["defaultAuthorizationPolicy"]["allowedApplications"],
        val(r#"["mi-1"]"#)
    );
}

#[test]
fn merge_keeps_other_providers_and_unrelated_fields_verbatim() {
    let current = doc(
        r#"{
            "properties": {
                "platform": {"enabled": false, "runtimeVersion": "~1"},
                "identityProviders": {
                    "google": {"enabled": true, "registration": {"clientId": "g"}},
                    "azureActiveDirectory": {"isAutoProvisioned": true}
                },
                "login": {"tokenStore": {"enabled": true}},
                "httpSettings": {"requireHttps": true}
            }
        }"#,
    );
    let merged = to_serde(&merge_auth_settings(&current, "app-1", tenant(), "api://app-1", "mi-1"));
    let props = &merged["properties"];
    assert_eq!(props["platform"]["runtimeVersion"], val("\"~1\""));
    assert_eq!(props["platform"]["enabled"], val("true"), "switched on");
    assert_eq!(props["identityProviders"]["google"]["registration"]["clientId"], val("\"g\""));
    assert_eq!(
        props["identityProviders"]["azureActiveDirectory"]["isAutoProvisioned"],
        val("true")
    );
    assert_eq!(props["login"]["tokenStore"]["enabled"], val("true"));
    assert_eq!(props["httpSettings"]["requireHttps"], val("true"));
}

#[test]
fn merge_unions_audiences_and_allowed_applications_never_replaces_them() {
    let current = doc(
        r#"{"properties": {"identityProviders": {"azureActiveDirectory": {
            "validation": {
                "allowedAudiences": ["api://legacy"],
                "defaultAuthorizationPolicy": {
                    "allowedApplications": ["other-mi"],
                    "allowedPrincipals": {"identities": ["keep-me"]}
                }
            }
        }}}}"#,
    );
    let merged = to_serde(&merge_auth_settings(&current, "app-1", tenant(), "api://app-1", "mi-1"));
    let validation = &merged["properties"]["identityProviders"]["azureActiveDirectory"]["validation"];
    assert_eq!(validation["allowedAudiences"], val(r#"["api://legacy", "api://app-1"]"#));
    assert_eq!(
        validation["defaultAuthorizationPolicy"]["allowedApplications"],
        val(r#"["other-mi", "mi-1"]"#)
    );
    assert_eq!(
        validation["defaultAuthorizationPolicy"]["allowedPrincipals"]["identities"],
        val(r#"["keep-me"]"#)
    );
}

#[test]
fn merge_is_idempotent() {
    let once = merge_auth_settings(&doc("{}"), "app-1", tenant(), "api://app-1", "mi-1");
    let twice = merge_auth_settings(&once, "app-1", tenant(), "api://app-1", "mi-1");
    assert_eq!(to_serde(&once), to_serde(&twice));
}

#[test]
fn merge_of_a_non_object_starts_from_an_empty_document() {
    let merged = to_serde(&merge_auth_settings(&doc("[1, 2]"), "c", "t", "a", "m"));
    assert_eq!(
        merged["properties"]["identityProviders"]["azureActiveDirectory"]["registration"]["openIdIssuer"],
        val("\"https://login.microsoftonline.com/t/v2.0\"")
    );
    let again = to_serde(&merge_auth_settings(
        &doc(r#"{"properties": {"identityProviders": {"azureActiveDirectory": {"validation": {"allowedAudiences": ["a", 7]}}}}}"#),
        "c",
        "t",
        "a",
        "m",
    ));
    // Non-string entries are dropped; the audience already present is not repeated.
    assert_eq!(
        again["properties"]["identityProviders"]["azureActiveDirectory"]["validation"]["allowedAudiences"],
        val(r#"["a"]"#)
    );
}

// --- credentials --------------------------------------------------------------

#[test]
fn detects_key_based_ai_services_with_placeholder() {
    let d = doc(
        r##"{"name": "s", "cognitiveServices": {
            "@odata.type": "#Microsoft.Azure.Search.AIServicesByKey",
            "key": "<redacted>",
            "subdomainUrl": "https://acc.cognitiveservices.azure.com/"
        }}"##,
    );
    assert_eq!(
        skillset_missing_ai_services_key(&d),
        Some(Some("https://acc.cognitiveservices.azure.com/".to_string()))
    );
}

#[test]
fn ignores_identity_based_and_real_keys() {
    let identity = doc(
        r##"{"name": "s", "cognitiveServices": {
            "@odata.type": "#Microsoft.Azure.Search.AIServicesByIdentity",
            "subdomainUrl": "https://acc.cognitiveservices.azure.com/"
        }}"##,
    );
    assert_eq!(skillset_missing_ai_services_key(&identity), None);
    let real = doc(
        r##"{"name": "s", "cognitiveServices": {
            "@odata.type": "#Microsoft.Azure.Search.AIServicesByKey",
            "key": "abc123",
            "subdomainUrl": "https://acc.cognitiveservices.azure.com/"
        }}"##,
    );
    assert_eq!(skillset_missing_ai_services_key(&real), None);
    let none = doc(r#"{"name": "s", "skills": []}"#);
    assert_eq!(skillset_missing_ai_services_key(&none), None);
}

#[test]
fn key_based_without_a_subdomain_reports_no_url() {
    let d = doc(r##"{"cognitiveServices": {"@odata.type": "#X.ByKey", "key": "  "}}"##);
    assert_eq!(skillset_missing_ai_services_key(&d), Some(None));
}

#[test]
fn rewrite_sets_identity_form() {
    let mut d = doc(
        r##"{"name": "s", "cognitiveServices": {
            "@odata.type": "#Microsoft.Azure.Search.AIServicesByKey",
            "key": null,
            "subdomainUrl": "https://acc.cognitiveservices.azure.com/"
        }}"##,
    );
    set_ai_services_identity(&mut d, "https://acc.cognitiveservices.azure.com/");
    let d = to_serde(&d);
    assert_eq!(
        d["cognitiveServices"]["@odata.type"],
        val("\"#Microsoft.Azure.Search.AIServicesByIdentity\"")
    );
    assert!(d["cognitiveServices"].get("key").is_none());
    assert_eq!(d["name"], val("\"s\""));
}

#[test]
fn missing_credentials_detection() {
    assert!(missing_credentials(&doc(r#"{"credentials": {"connectionString": null}}"#)));
    assert!(missing_credentials(&doc(r#"{"name": "x"}"#)));
    assert!(!missing_credentials(&doc(r#"{"credentials": {"connectionString": "ResourceId=/x;"}}"#)));
    assert!(missing_credentials(&doc(r#"{"credentials": {"connectionString": "  "}}"#)));
}

#[test]
fn connection_is_set_and_container_read() {
    let mut d = doc(r#"{"name": "ds", "container": {"name": "docs"}, "credentials": {"other": 1}}"#);
    assert_eq!(container_name(&d), Some("docs"));
    set_connection(&mut d, "ResourceId=/subscriptions/s;");
    assert_eq!(
        to_serde(&d)["credentials"],
        val(r#"{"connectionString": "ResourceId=/subscriptions/s;"}"#)
    );
    assert!(!missing_credentials(&d));
    assert_eq!(container_name(&doc(r#"{"container": {}}"#)), None);
}

// --- copy rewrites ------------------------------------------------------------

#[test]
fn test_rewrite_created_resources_nested() {
    let mut ks_def = doc(
        r#"{
            "name": "test-ks",
            "azureBlobParameters": {
                "containerName": "docs",
                "createdResources": {
                    "datasource": "test-ks-datasource",
                    "indexer": "test-ks-indexer",
                    "skillset": "test-ks-skillset",
                    "index": "test-ks-index"
                }
            }
        }"#,
    );
    rewrite_created_resources(&mut ks_def, "test-ks", "test-ks-v2");
    let ks_def = to_serde(&ks_def);
    let cr = ks_def["azureBlobParameters"]["createdResources"].as_object().unwrap();
    assert_eq!(cr["datasource"], "test-ks-v2-datasource");
    assert_eq!(cr["indexer"], "test-ks-v2-indexer");
    assert_eq!(cr["skillset"], "test-ks-v2-skillset");
    assert_eq!(cr["index"], "test-ks-v2-index");
}

#[test]
fn test_rewrite_created_resources_top_level() {
    let mut ks_def = doc(
        r#"{
            "name": "test-ks",
            "createdResources": {
                "index": "test-ks-index",
                "indexer": "test-ks-indexer"
            }
        }"#,
    );
    rewrite_created_resources(&mut ks_def, "test-ks", "my-new-ks");
    let ks_def = to_serde(&ks_def);
    let cr = ks_def["createdResources"].as_object().unwrap();
    assert_eq!(cr["index"], "my-new-ks-index");
    assert_eq!(cr["indexer"], "my-new-ks-indexer");
}

#[test]
fn test_rewrite_created_resources_no_created() {
    let mut ks_def = doc(r#"{"name": "test-ks", "kind": "azureBlob"}"#);
    rewrite_created_resources(&mut ks_def, "test-ks", "test-ks-v2");
    assert_eq!(to_serde(&ks_def)["name"], "test-ks");
}

#[test]
fn only_the_first_parameter_block_with_created_resources_is_rewritten() {
    let mut ks_def = doc(
        r#"{
            "sharePointParameters": {"createdResources": {"index": "ks-index", "n": 3}},
            "indexedOneLakeParameters": {"createdResources": {"index": "ks-index"}}
        }"#,
    );
    rewrite_created_resources(&mut ks_def, "ks", "new");
    let ks_def = to_serde(&ks_def);
    assert_eq!(ks_def["sharePointParameters"]["createdResources"]["index"], "new-index");
    assert_eq!(ks_def["sharePointParameters"]["createdResources"]["n"], val("3"));
    assert_eq!(ks_def["indexedOneLakeParameters"]["createdResources"]["index"], "ks-index");
}

#[test]
fn test_rewrite_index_projections() {
    let mut skillset = doc(
        r#"{
            "name": "test-ks-skillset",
            "indexProjections": {
                "selectors": [
                    {
                        "targetIndexName": "test-ks-index",
                        "parentKeyFieldName": "parent_id",
                        "sourceContext": "/document/pages/*"
                    }
                ],
                "parameters": {
                    "projectionMode": "skipIndexingParentDocuments"
                }
            }
        }"#,
    );
    rewrite_index_projections(&mut skillset, "test-ks", "test-ks-v2");
    let skillset = to_serde(&skillset);
    let target_idx = skillset["indexProjections"]["selectors"][0]["targetIndexName"].as_str().unwrap();
    assert_eq!(target_idx, "test-ks-v2-index");
}

#[test]
fn test_rewrite_index_projections_multiple_selectors() {
    let mut skillset = doc(
        r#"{
            "name": "my-skillset",
            "indexProjections": {
                "selectors": [
                    { "targetIndexName": "ks-a-index" },
                    { "targetIndexName": "ks-a-secondary" }
                ]
            }
        }"#,
    );
    rewrite_index_projections(&mut skillset, "ks-a", "ks-b");
    let skillset = to_serde(&skillset);
    let selectors = skillset["indexProjections"]["selectors"].as_array().unwrap();
    assert_eq!(selectors[0]["targetIndexName"], "ks-b-index");
    assert_eq!(selectors[1]["targetIndexName"], "ks-b-secondary");
}

#[test]
fn test_rewrite_index_projections_no_projections() {
    let mut skillset = doc(r#"{"name": "simple-skillset", "skills": []}"#);
    rewrite_index_projections(&mut skillset, "old", "new");
    assert_eq!(to_serde(&skillset)["name"], "simple-skillset");
}

// --- indexer status and agent replies -----------------------------------------

#[test]
fn last_result_error_ignores_successful_runs_and_joins_item_errors() {
    let ok = doc(r#"{"lastResult": {"status": "success", "errorMessage": null}}"#);
    assert_eq!(last_result_error(&ok), None);
    let failed = doc(
        r#"{"lastResult": {
            "status": "transientFailure",
            "errorMessage": "top",
            "errors": [{"errorMessage": "item"}]
        }}"#,
    );
    assert_eq!(last_result_error(&failed).as_deref(), Some("top; item"));
}

#[test]
fn last_result_success_is_matched_in_any_case() {
    let ok = doc(r#"{"lastResult": {"status": "Success", "errorMessage": "ignored"}}"#);
    assert_eq!(last_result_error(&ok), None);
    assert_eq!(last_result_error(&doc(r#"{"status": "x"}"#)), None);
    assert_eq!(last_result_error(&doc(r#"{"lastResult": {"status": "failed"}}"#)), None);
    let items = doc(r#"{"lastResult": {"errors": [{"errorMessage": "a"}, {}, {"errorMessage": "b"}]}}"#);
    assert_eq!(last_result_error(&items).as_deref(), Some("a; b"));
}

#[test]
fn extracts_output_text_items() {
    let response = doc(
        r#"{
            "output": [
                {"type": "message", "content": [
                    {"type": "output_text", "text": "Hello"},
                    {"type": "output_text", "text": "world"}
                ]}
            ]
        }"#,
    );
    assert_eq!(extract_reply(&response), Some("Hello\nworld".to_string()));
}

#[test]
fn prefers_top_level_output_text() {
    let response = doc(r#"{"output_text": "short"}"#);
    assert_eq!(extract_reply(&response), Some("short".to_string()));
}

#[test]
fn none_when_no_text() {
    assert_eq!(extract_reply(&doc(r#"{"output": []}"#)), None);
}

#[test]
fn reply_skips_non_text_parts() {
    let response = doc(
        r#"{"output": [
            {"content": [{"type": "refusal", "text": "no"}, {"text": "untyped"}]},
            {"type": "tool_call"},
            {"content": [{"type": "text", "text": "plain"}]}
        ]}"#,
    );
    assert_eq!(extract_reply(&response), Some("untyped\nplain".to_string()));
}

// --- dependency order ---------------------------------------------------------

fn item(kind: ResourceKind, name: &str) -> (ResourceKind, String, JsonValue, bool) {
    (kind, name.to_string(), doc("{}"), false)
}

#[test]
fn test_order_datasource_before_indexer() {
    let resources = vec![item(ResourceKind::Indexer, "ixer"), item(ResourceKind::DataSource, "ds")];
    let ordered = order_by_dependencies(&resources);
    assert_eq!(ordered[0].0, ResourceKind::DataSource);
    assert_eq!(ordered[1].0, ResourceKind::Indexer);
}

#[test]
fn test_order_index_before_indexer() {
    let resources = vec![item(ResourceKind::Indexer, "ixer"), item(ResourceKind::Index, "idx")];
    let ordered = order_by_dependencies(&resources);
    assert_eq!(ordered[0].0, ResourceKind::Index);
    assert_eq!(ordered[1].0, ResourceKind::Indexer);
}

#[test]
fn test_order_knowledge_base_before_knowledge_source() {
    let resources = vec![
        item(ResourceKind::KnowledgeSource, "ks"),
        item(ResourceKind::KnowledgeBase, "kb"),
    ];
    let ordered = order_by_dependencies(&resources);
    assert_eq!(ordered[0].0, ResourceKind::KnowledgeBase);
    assert_eq!(ordered[1].0, ResourceKind::KnowledgeSource);
}

#[test]
fn test_order_full_dependency_chain() {
    let resources = vec![
        item(ResourceKind::KnowledgeSource, "ks"),
        item(ResourceKind::Indexer, "ixer"),
        item(ResourceKind::Index, "idx"),
        item(ResourceKind::Alias, "al"),
        item(ResourceKind::DataSource, "ds"),
        item(ResourceKind::KnowledgeBase, "kb"),
        item(ResourceKind::Skillset, "sk"),
        item(ResourceKind::SynonymMap, "sm"),
    ];
    let ordered = order_by_dependencies(&resources);
    let kinds: Vec<_> = ordered.iter().map(|(k, _, _, _)| *k).collect();
    assert_eq!(
        kinds,
        vec![
            ResourceKind::SynonymMap,
            ResourceKind::DataSource,
            ResourceKind::Index,
            ResourceKind::Alias,
            ResourceKind::Skillset,
            ResourceKind::KnowledgeBase,
            ResourceKind::Indexer,
            ResourceKind::KnowledgeSource,
        ]
    );
}

#[test]
fn test_order_empty() {
    let resources: Vec<(ResourceKind, String, JsonValue, bool)> = vec![];
    let ordered = order_by_dependencies(&resources);
    assert!(ordered.is_empty());
}

#[test]
fn test_order_preserves_within_same_kind() {
    let resources = vec![item(ResourceKind::Index, "b-index"), item(ResourceKind::Index, "a-index")];
    let ordered = order_by_dependencies(&resources);
    assert_eq!(ordered[0].1, "b-index");
    assert_eq!(ordered[1].1, "a-index");
}

#[test]
fn order_puts_foundry_kinds_last_and_keeps_definitions() {
    let resources = vec![
        (ResourceKind::Deployment, "d".to_string(), doc(r#"{"sku": 1}"#), true),
        item(ResourceKind::Agent, "a"),
        item(ResourceKind::SynonymMap, "s"),
    ];
    let ordered = order_by_dependencies(&resources);
    let names: Vec<_> = ordered.iter().map(|t| t.1.as_str()).collect();
    assert_eq!(names, vec!["s", "a", "d"]);
    assert_eq!(to_serde(&ordered[2].2), val(r#"{"sku": 1}"#));
    assert!(ordered[2].3);
}

// --- describe: summaries of definitions ---------------------------------------

#[test]
fn test_parse_index_basic() {
    let v = doc(
        r#"{
            "name": "hotels",
            "fields": [
                {"name": "hotelId", "type": "Edm.String", "key": true},
                {"name": "name", "type": "Edm.String"},
                {"name": "rating", "type": "Edm.Int32"}
            ]
        }"#,
    );
    let idx = parse_index("/test/hotels.json", &v);
    assert_eq!(idx.name, "hotels");
    assert_eq!(idx.file_path, "/test/hotels.json");
    assert_eq!(idx.fields.len(), 3);
    assert!(idx.fields[0].is_key);
    assert_eq!(idx.fields[0].name, "hotelId");
    assert_eq!(idx.fields[0].field_type, "Edm.String");
    assert!(!idx.has_semantic_config);
    assert_eq!(idx.vector_profile_count, 0);
}

#[test]
fn test_parse_index_with_vector_and_semantic() {
    let v = doc(
        r#"{
            "name": "docs",
            "fields": [{"name": "id", "type": "Edm.String", "key": true}],
            "vectorSearch": {"profiles": [{"name": "vector-profile-1"}]},
            "semantic": {"configurations": [{"name": "default"}]}
        }"#,
    );
    let idx = parse_index("/test/docs.json", &v);
    assert_eq!(idx.name, "docs");
    assert_eq!(idx.vector_profile_count, 1);
    assert!(idx.has_semantic_config);
}

#[test]
fn test_parse_field_with_analyzer() {
    let v = doc(r#"{"name": "title", "type": "Edm.String", "key": false, "analyzer": "en.lucene"}"#);
    let f = parse_field(&v);
    assert_eq!(f.name, "title");
    assert_eq!(f.field_type, "Edm.String");
    assert!(!f.is_key);
    assert_eq!(f.analyzer.as_deref(), Some("en.lucene"));
}

#[test]
fn test_parse_data_source() {
    let v = doc(r#"{"name": "cosmos-hotels", "type": "azureblob", "container": {"name": "docs"}}"#);
    let ds = parse_data_source("/test/cosmos-hotels.json", &v);
    assert_eq!(ds.name, "cosmos-hotels");
    assert_eq!(ds.source_type, "azureblob");
    assert_eq!(ds.container, "docs");
}

#[test]
fn test_parse_data_source_no_container() {
    let v = doc(r#"{"name": "my-source", "type": "cosmosdb"}"#);
    let ds = parse_data_source("/test/my-source.json", &v);
    assert_eq!(ds.name, "my-source");
    assert_eq!(ds.source_type, "cosmosdb");
    assert_eq!(ds.container, "");
}

#[test]
fn test_parse_indexer_with_skillset() {
    let v = doc(
        r#"{
            "name": "hotels-indexer",
            "targetIndexName": "hotels",
            "dataSourceName": "cosmos-hotels",
            "skillsetName": "enrichment"
        }"#,
    );
    let idxr = parse_indexer("/test/hotels-indexer.json", &v);
    assert_eq!(idxr.name, "hotels-indexer");
    assert_eq!(idxr.target_index, "hotels");
    assert_eq!(idxr.data_source, "cosmos-hotels");
    assert_eq!(idxr.skillset.as_deref(), Some("enrichment"));
}

#[test]
fn test_parse_indexer_without_skillset() {
    let v = doc(r#"{"name": "simple-indexer", "targetIndexName": "items", "dataSourceName": "items-ds"}"#);
    let idxr = parse_indexer("/test/simple-indexer.json", &v);
    assert_eq!(idxr.name, "simple-indexer");
    assert!(idxr.skillset.is_none());
}

#[test]
fn test_parse_skillset() {
    let v = doc(
        r##"{
            "name": "enrichment",
            "skills": [
                {"@odata.type": "#Microsoft.Skills.Text.SplitSkill", "name": "split-skill"},
                {"@odata.type": "#Microsoft.Skills.Text.EntityRecognitionSkill", "name": "entities"},
                {"@odata.type": "#Microsoft.Skills.Custom.WebApiSkill"}
            ]
        }"##,
    );
    let ss = parse_skillset("/test/enrichment.json", &v);
    assert_eq!(ss.name, "enrichment");
    assert_eq!(ss.skills.len(), 3);
    assert_eq!(ss.skills[0].odata_type, "#Microsoft.Skills.Text.SplitSkill");
    assert_eq!(ss.skills[0].name.as_deref(), Some("split-skill"));
    assert!(ss.skills[2].name.is_none());
}

#[test]
fn test_parse_synonym_map() {
    let v = doc(r#"{"name": "hotel-synonyms", "format": "solr"}"#);
    let sm = parse_synonym_map("/test/hotel-synonyms.json", &v);
    assert_eq!(sm.name, "hotel-synonyms");
    assert_eq!(sm.format, "solr");
}

#[test]
fn test_parse_synonym_map_default_format() {
    let v = doc(r#"{"name": "my-synonyms"}"#);
    let sm = parse_synonym_map("/test/my-synonyms.json", &v);
    assert_eq!(sm.format, "solr");
}

#[test]
fn test_parse_knowledge_base() {
    let v = doc(
        r#"{
            "name": "regulatory-kb",
            "description": "Official regulatory and legal texts",
            "retrievalInstructions": "You are a legal evidence retriever working over an EU regulatory knowledge base.",
            "outputMode": "extractiveData",
            "knowledgeSources": [{"name": "regulatory"}]
        }"#,
    );
    let kb = parse_knowledge_base("/test/regulatory-kb.json", &v);
    assert_eq!(kb.name, "regulatory-kb");
    assert_eq!(kb.description.as_deref(), Some("Official regulatory and legal texts"));
    assert!(kb.retrieval_instructions.as_ref().unwrap().contains("legal evidence"));
    assert_eq!(kb.output_mode.as_deref(), Some("extractiveData"));
    assert_eq!(kb.knowledge_sources, vec!["regulatory"]);
}

#[test]
fn test_parse_knowledge_base_minimal() {
    let v = doc(r#"{"name": "empty-kb"}"#);
    let kb = parse_knowledge_base("/test/empty-kb.json", &v);
    assert_eq!(kb.name, "empty-kb");
    assert!(kb.description.is_none());
    assert!(kb.retrieval_instructions.is_none());
    assert!(kb.output_mode.is_none());
    assert!(kb.knowledge_sources.is_empty());
}

#[test]
fn test_parse_knowledge_source() {
    let v = doc(
        r#"{
            "name": "regulatory-docs",
            "description": "Legal and compliance documents",
            "kind": "azureBlob",
            "indexName": "regulatory-index",
            "knowledgeBaseName": "regulatory-kb"
        }"#,
    );
    let ks = parse_knowledge_source("/test/regulatory-docs.json", &v);
    assert_eq!(ks.name, "regulatory-docs");
    assert_eq!(ks.description.as_deref(), Some("Legal and compliance documents"));
    assert_eq!(ks.kind.as_deref(), Some("azureBlob"));
    assert_eq!(ks.index_name.as_deref(), Some("regulatory-index"));
    assert_eq!(ks.knowledge_base.as_deref(), Some("regulatory-kb"));
}

#[test]
fn test_parse_knowledge_source_created_resources_fallback() {
    let v = doc(
        r#"{
            "name": "regulatory",
            "kind": "azureBlob",
            "azureBlobParameters": {
                "createdResources": {"index": "regulatory-index", "indexer": "regulatory-indexer"}
            }
        }"#,
    );
    let ks = parse_knowledge_source("/test/regulatory.json", &v);
    assert_eq!(ks.name, "regulatory");
    assert_eq!(ks.index_name.as_deref(), Some("regulatory-index"));
}

#[test]
fn test_get_name_present() {
    let v = doc(r#"{"name": "test-resource"}"#);
    assert_eq!(get_name(&v), "test-resource");
}

#[test]
fn test_get_name_missing() {
    let v = doc(r#"{"other": "field"}"#);
    assert_eq!(get_name(&v), "(unnamed)");
}

#[test]
fn test_parse_index_no_fields() {
    let v = doc(r#"{"name": "empty-index"}"#);
    let idx = parse_index("/test/empty-index.json", &v);
    assert_eq!(idx.name, "empty-index");
    assert!(idx.fields.is_empty());
    assert_eq!(idx.vector_profile_count, 0);
    assert!(!idx.has_semantic_config);
}

#[test]
fn alias_lists_only_string_indexes() {
    let v = doc(r#"{"name": "al", "indexes": ["a", 1, "b"]}"#);
    let alias = parse_alias("/test/al.json", &v);
    assert_eq!(alias.indexes, vec!["a", "b"]);
    assert_eq!(alias.file_path, "/test/al.json");
}

#[test]
fn agent_tools_name_their_knowledge_bases() {
    let v = doc(
        r#"{
            "model": "gpt-4o",
            "tools": [
                {"type": "mcp", "server_label": "kb_test",
                 "server_url": "https://svc.search.windows.net/knowledgebases/my-kb/mcp?api-version=2025-11-01-Preview"},
                {"type": "code_interpreter"},
                {}
            ]
        }"#,
    );
    let agent = parse_agent("rag-agent", "/test/rag-agent.yaml", &v);
    assert_eq!(agent.name, "rag-agent");
    assert_eq!(agent.model, "gpt-4o");
    assert_eq!(agent.tool_count, 3);
    assert_eq!(agent.tools[0].tool_type, "mcp");
    assert_eq!(agent.tools[0].knowledge_base_name.as_deref(), Some("my-kb"));
    assert!(agent.tools[1].knowledge_base_name.is_none());
    assert_eq!(agent.tools[2].tool_type, "unknown");
    assert_eq!(agent.instructions, "");
}

// --- rigg copy ------------------------------------------------------------------

#[test]
fn copy_source_names_project_kind_and_name() {
    assert_eq!(
        parse_copy_source("proj:indexes/my-index"),
        Ok((Some("proj".to_string()), ResourceKind::Index, "my-index".to_string()))
    );
    assert_eq!(
        parse_copy_source("agents/regulus"),
        Ok((None, ResourceKind::Agent, "regulus".to_string()))
    );
    assert_eq!(
        parse_copy_source("my-index"),
        Err("source must be <kind-dir>/<name> (e.g. indexes/my-index)".to_string())
    );
    assert_eq!(
        parse_copy_source("tables/t"),
        Err("unknown resource kind directory 'tables'".to_string())
    );
}

#[test]
fn copy_target_may_name_a_project() {
    assert_eq!(parse_copy_target("other:new-name"), (Some("other".to_string()), "new-name".to_string()));
    assert_eq!(parse_copy_target("new-name"), (None, "new-name".to_string()));
}

#[test]
fn a_copy_takes_its_new_name() {
    let mut d = doc(r#"{"name": "old", "fields": []}"#);
    rename_definition(&mut d, "new");
    assert_eq!(to_serde(&d), val(r#"{"name": "new", "fields": []}"#));
    let mut unnamed = doc(r#"{"fields": []}"#);
    rename_definition(&mut unnamed, "n");
    assert_eq!(to_serde(&unnamed)["name"], "n");
    let mut list = doc("[1]");
    rename_definition(&mut list, "n");
    assert_eq!(to_serde(&list), val("[1]"));
}

#[test]
fn renamed_copy_reads_its_name() {
    let mut d = doc(r#"{"name": "old", "description": "kept", "fields": [1, 2]}"#);
    rename_definition(&mut d, "new");
    assert_eq!(get_name(&d), "new");
    assert_eq!(to_serde(&d), val(r#"{"name": "new", "description": "kept", "fields": [1, 2]}"#));
}

fn keys(v: &JsonValue) -> Vec<String> {
    match v {
        JsonValue::Object(o) => o.iter().map(|(k, _)| k.clone()).collect(),
        _ => vec![],
    }
}

#[test]
fn canonical_form_ignores_key_and_named_array_order() {
    let a = doc(r#"{"name": "i", "fields": [{"name": "b"}, {"name": "a"}], "x": 1}"#);
    let b = doc(r#"{"x": 1, "name": "i", "fields": [{"name": "a"}, {"name": "b"}]}"#);
    let ca = canonical_form(&a);
    assert_eq!(ca, canonical_form(&b));
    assert_eq!(keys(&ca), vec!["fields", "name", "x"]);
    assert_eq!(to_serde(&ca), val(r#"{"fields": [{"name": "a"}, {"name": "b"}], "name": "i", "x": 1}"#));
}

#[test]
fn canonical_form_drops_nulls_and_keeps_unnamed_arrays_in_order() {
    let d = doc(r#"{"b": null, "a": [{"name": "z"}, {"k": 1}, {"name": "y"}], "c": {"e": 2, "d": null}}"#);
    let c = canonical_form(&d);
    assert_eq!(keys(&c), vec!["a", "c"]);
    assert_eq!(to_serde(&c), val(r#"{"a": [{"name": "z"}, {"k": 1}, {"name": "y"}], "c": {"e": 2}}"#));
}

#[test]
fn set_path_creates_intermediate_objects() {
    let mut d = doc(r#"{"name": "ds"}"#);
    let path = vec!["credentials".to_string(), "connectionString".to_string()];
    set_path(&mut d, &path, JsonValue::Str("secret".to_string()));
    assert_eq!(to_serde(&d), val(r#"{"name": "ds", "credentials": {"connectionString": "secret"}}"#));
    let top = vec!["name".to_string()];
    set_path(&mut d, &top, JsonValue::Str("renamed".to_string()));
    assert_eq!(to_serde(&d), val(r#"{"name": "renamed", "credentials": {"connectionString": "secret"}}"#));
}

#[test]
fn set_path_through_a_scalar_changes_nothing() {
    let mut d = doc(r#"{"credentials": "none"}"#);
    let path = vec!["credentials".to_string(), "key".to_string()];
    set_path(&mut d, &path, JsonValue::Bool(true));
    assert_eq!(to_serde(&d), val(r#"{"credentials": "none"}"#));
    let mut s = doc(r#""text""#);
    set_path(&mut s, &path, JsonValue::Bool(true));
    assert_eq!(to_serde(&s), val(r#""text""#));
}

#[test]
fn annotations_survive_a_server_echo() {
    let local = doc(r#"{"name": "sk", "x-rigg-note": "mine",
        "skills": [{"name": "web", "uri": "https://f", "x-rigg-api": "enrich"}]}"#);
    let mut remote = doc(r#"{"name": "sk", "skills": [{"name": "web", "uri": "https://f"}]}"#);
    carry_over_x_rigg(&local, &mut remote);
    assert_eq!(
        to_serde(&remote),
        val(r#"{"name": "sk", "x-rigg-note": "mine",
            "skills": [{"name": "web", "uri": "https://f", "x-rigg-api": "enrich"}]}"#)
    );
}

#[test]
fn annotations_match_items_by_type_and_never_overwrite() {
    let local = doc(r#"{"x-rigg-note": "old", "tools": [{"type": "mcp", "x-rigg-api": "a"}, {"other": 1, "x-rigg-api": "b"}]}"#);
    let mut remote = doc(r#"{"x-rigg-note": "new", "tools": [{"type": "code"}, {"type": "mcp"}]}"#);
    carry_over_x_rigg(&local, &mut remote);
    assert_eq!(
        to_serde(&remote),
        val(r#"{"x-rigg-note": "new", "tools": [{"type": "code"}, {"type": "mcp", "x-rigg-api": "a"}]}"#)
    );
}

#[test]
fn json_equality_ignores_member_order_only() {
    assert!(json_equal(&doc(r#"{"a": 1, "b": [1, 2]}"#), &doc(r#"{"b": [1, 2], "a": 1}"#)));
    assert!(!json_equal(&doc(r#"{"a": 1, "b": [1, 2]}"#), &doc(r#"{"a": 1, "b": [2, 1]}"#)));
    assert!(!json_equal(&doc(r#"{"a": 1}"#), &doc(r#"{"a": 1, "b": null}"#)));
    assert!(!json_equal(&doc(r#"1"#), &doc(r#"1.0"#)));
    assert!(json_equal(&doc(r#""x""#), &doc(r#""x""#)));
}

#[test]
fn long_text_properties_are_instructions_rules_and_descriptions() {
    assert!(is_long_text_property("instructions", ResourceKind::Agent));
    assert!(!is_long_text_property("instructions", ResourceKind::Index));
    assert!(is_long_text_property("synonyms", ResourceKind::SynonymMap));
    assert!(is_long_text_property("retrievalInstructions", ResourceKind::KnowledgeBase));
    assert!(is_long_text_property("answerInstructions", ResourceKind::KnowledgeBase));
    assert!(!is_long_text_property("answerInstructions", ResourceKind::Agent));
    assert!(is_long_text_property("description", ResourceKind::DataSource));
    assert!(!is_long_text_property("name", ResourceKind::Agent));
}

#[test]
fn indent_lines_prefixes_every_line() {
    assert_eq!(indent_lines("a\nb\n\nc", "> "), "> a\n> b\n> \n> c");
    assert_eq!(indent_lines("", "> "), "");
    assert_eq!(indent_lines("one\r\ntwo\n", "  "), "  one\n  two");
}
