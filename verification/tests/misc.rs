use rigg::api_versions::{latest_from_entries, version_newer};
use rigg::commands::{renamed_managed, run, CopyTarget};
use rigg::endpoints::{ai_services_account_name, app_id_of, uri_host};
use rigg::project_graph::{
    add_indexer_dependencies, add_knowledge_source_dependencies, extract_kb_from_mcp_url,
    IndexerSummary, KnowledgeSourceSummary,
};
use rigg::resources::ResourceKind;

#[test]
fn test_copy_knowledge_source_builds_correct_name_map() {
    let source = "test-ks";
    let target = "test-ks-v2";
    let managed_names = vec![
        "test-ks-index",
        "test-ks-indexer",
        "test-ks-datasource",
        "test-ks-skillset",
    ];
    let expected = vec![
        "test-ks-v2-index",
        "test-ks-v2-indexer",
        "test-ks-v2-datasource",
        "test-ks-v2-skillset",
    ];
    for (old, exp) in managed_names.iter().zip(expected.iter()) {
        let new_name = renamed_managed(old, source, target);
        assert_eq!(&new_name, exp, "Failed for {}", old);
    }
}

#[test]
fn only_the_first_occurrence_is_renamed() {
    assert_eq!(renamed_managed("a-a-a", "a", "b"), "b-a-a");
    assert_eq!(renamed_managed("xyz", "q", "r"), "xyz");
}

#[test]
fn copy_picks_the_first_kind_flag() {
    assert_eq!(run(true, true, false, false, false, false, false, false), Ok(CopyTarget::KnowledgeSource));
    assert_eq!(
        run(false, false, false, true, false, false, false, true),
        Ok(CopyTarget::Standalone(ResourceKind::Indexer))
    );
    assert!(run(false, false, false, false, false, false, false, false).is_err());
}

#[test]
fn account_name_from_subdomain() {
    assert_eq!(
        ai_services_account_name("https://mklabaisrvc.cognitiveservices.azure.com/"),
        Some("mklabaisrvc")
    );
    assert_eq!(ai_services_account_name("nonsense"), None);
}

#[test]
fn uri_host_reads_the_host_only() {
    assert_eq!(
        uri_host("https://fn.azurewebsites.net/api/enrich?code=x"),
        Some("fn.azurewebsites.net")
    );
    assert_eq!(uri_host("https://fn.azurewebsites.net"), Some("fn.azurewebsites.net"));
    assert_eq!(uri_host("not a uri"), None);
}

#[test]
fn app_ids_come_from_the_last_segment() {
    assert_eq!(app_id_of("api://tenant/1234"), Some("1234"));
    assert_eq!(app_id_of("abcd"), Some("abcd"));
    assert_eq!(app_id_of("api://x/"), None);
}

#[test]
fn test_add_indexer_dependencies() {
    let idxr = IndexerSummary {
        name: "hotels-indexer".to_string(),
        file_path: String::new(),
        target_index: "hotels".to_string(),
        data_source: "cosmos-hotels".to_string(),
        skillset: Some("enrichment".to_string()),
    };
    let mut deps = Vec::new();
    add_indexer_dependencies(&idxr, &mut deps);
    assert_eq!(deps.len(), 3);
    assert!(deps.iter().any(|d| d.to == "cosmos-hotels" && d.kind == "Data Source"));
    assert!(deps.iter().any(|d| d.to == "hotels" && d.kind == "Index"));
    assert!(deps.iter().any(|d| d.to == "enrichment" && d.kind == "Skillset"));
}

#[test]
fn test_add_indexer_dependencies_no_skillset() {
    let idxr = IndexerSummary {
        name: "simple-indexer".to_string(),
        file_path: String::new(),
        target_index: "items".to_string(),
        data_source: "items-ds".to_string(),
        skillset: None,
    };
    let mut deps = Vec::new();
    add_indexer_dependencies(&idxr, &mut deps);
    assert_eq!(deps.len(), 2);
}

#[test]
fn test_add_knowledge_source_dependencies() {
    let ks = KnowledgeSourceSummary {
        name: "regulatory-docs".to_string(),
        file_path: String::new(),
        description: None,
        kind: None,
        index_name: Some("regulatory-index".to_string()),
        knowledge_base: Some("regulatory-kb".to_string()),
    };
    let mut deps = Vec::new();
    add_knowledge_source_dependencies(&ks, &mut deps);
    assert_eq!(deps.len(), 2);
    assert!(deps.iter().any(|d| d.to == "regulatory-index" && d.kind == "Index"));
    assert!(deps.iter().any(|d| d.to == "regulatory-kb" && d.kind == "Knowledge Base"));
}

#[test]
fn test_extract_kb_from_mcp_url() {
    let url = "https://svc.search.windows.net/knowledgebases/regulatory-kb/mcp?api-version=2025-11-01-Preview";
    assert_eq!(extract_kb_from_mcp_url(Some(url)), Some("regulatory-kb".to_string()));
}

#[test]
fn test_extract_kb_from_mcp_url_none() {
    assert_eq!(extract_kb_from_mcp_url(None), None);
    assert_eq!(extract_kb_from_mcp_url(Some("https://example.com/other")), None);
}

#[test]
fn version_ordering() {
    assert!(version_newer("2026-05-01", "2026-04-01"));
    assert!(version_newer("2026-06-01-preview", "2026-05-01-preview"));
    assert!(!version_newer("2026-04-01", "2026-04-01"));
    assert!(!version_newer("2025-11-01-preview", "2026-05-01-preview"));
}

#[test]
fn latest_from_entries_picks_newest_version_folder() {
    let names: Vec<String> = ["2023-11-01", "2025-05-01", "README.md", "2022-09-01"]
        .iter()
        .map(|s| s.to_string())
        .collect();
    assert_eq!(latest_from_entries(&names).as_deref(), Some("2025-05-01"));
    assert_eq!(latest_from_entries(&vec![]), None);
}
